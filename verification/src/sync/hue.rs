//! Philips Hue bridges (REST API v1): lights and sensors.
use vstd::prelude::*;
use crate::types::{Device, clone_opt, device_view, opt_view, text};

verus! {

/// One bridge of the configuration: address and API key.
pub struct BridgeConfig {
    pub ip: String,
    pub token: String,
    /// Optional label, for logging.
    pub name: Option<String>,
}

/// Whether a Hue record is a light or a sensor.
#[derive(Debug, Clone, Copy, PartialEq, Eq, Structural)]
pub enum HueKind {
    Light,
    Sensor,
}

/// A Hue light or sensor as the inventory keeps it.
#[derive(Debug)]
pub struct HueDevice {
    pub uniqueid: String,
    pub name: String,
    pub manufacturername: Option<String>,
    pub productname: Option<String>,
    pub modelid: Option<String>,
    pub swversion: Option<String>,
    pub kind: HueKind,
}

/// A light as the bridge reports it.
pub struct HueLight {
    pub name: String,
    pub modelid: Option<String>,
    pub productname: Option<String>,
    pub manufacturername: Option<String>,
    pub swversion: Option<String>,
    pub uniqueid: Option<String>,
}

/// A sensor as the bridge reports it.
pub struct HueSensor {
    pub name: String,
    pub modelid: Option<String>,
    pub productname: Option<String>,
    pub manufacturername: Option<String>,
    pub swversion: Option<String>,
    pub uniqueid: Option<String>,
    pub type_: String,
}

/// A Hue device as plain values.
pub open spec fn hue_view(d: HueDevice) -> (
    Seq<char>,
    Seq<char>,
    Option<Seq<char>>,
    Option<Seq<char>>,
    Option<Seq<char>>,
    Option<Seq<char>>,
    HueKind,
) {
    (
        d.uniqueid@,
        d.name@,
        opt_view(d.manufacturername),
        opt_view(d.productname),
        opt_view(d.modelid),
        opt_view(d.swversion),
        d.kind,
    )
}

/// The Hue devices as plain values.
pub open spec fn hue_views(v: Seq<HueDevice>) -> Seq<
    (Seq<char>, Seq<char>, Option<Seq<char>>, Option<Seq<char>>, Option<Seq<char>>, Option<Seq<char>>, HueKind),
> {
    v.map_values(|d: HueDevice| hue_view(d))
}

/// The lights with a unique id, in order, as Hue devices.
pub open spec fn kept_lights(raw: Seq<HueLight>) -> Seq<
    (Seq<char>, Seq<char>, Option<Seq<char>>, Option<Seq<char>>, Option<Seq<char>>, Option<Seq<char>>, HueKind),
>
    decreases raw.len(),
{
    if raw.len() == 0 {
        seq![]
    } else {
        let l = raw.last();
        let before = kept_lights(raw.drop_last());
        match l.uniqueid {
            Some(u) => before.push(
                (
                    u@,
                    l.name@,
                    opt_view(l.manufacturername),
                    opt_view(l.productname),
                    opt_view(l.modelid),
                    opt_view(l.swversion),
                    HueKind::Light,
                ),
            ),
            None => before,
        }
    }
}

/// The sensors with a unique id, in order, as Hue devices; a sensor without
/// product name takes its type as product name.
pub open spec fn kept_sensors(raw: Seq<HueSensor>) -> Seq<
    (Seq<char>, Seq<char>, Option<Seq<char>>, Option<Seq<char>>, Option<Seq<char>>, Option<Seq<char>>, HueKind),
>
    decreases raw.len(),
{
    if raw.len() == 0 {
        seq![]
    } else {
        let l = raw.last();
        let before = kept_sensors(raw.drop_last());
        match l.uniqueid {
            Some(u) => before.push(
                (
                    u@,
                    l.name@,
                    opt_view(l.manufacturername),
                    match l.productname {
                        Some(p) => Some(p@),
                        None => Some(l.type_@),
                    },
                    opt_view(l.modelid),
                    opt_view(l.swversion),
                    HueKind::Sensor,
                ),
            ),
            None => before,
        }
    }
}

/// Keeps the lights that carry a unique id; the others are not devices of
/// their own.
pub fn collect_lights(raw: &[HueLight]) -> (r: Vec<HueDevice>)
    ensures
        hue_views(r@) == kept_lights(raw@),
{
    let mut out: Vec<HueDevice> = Vec::new();
    let mut i: usize = 0;
    while i < raw.len()
        invariant
            i <= raw@.len(),
            hue_views(out@) == kept_lights(raw@.take(i as int)),
        decreases raw@.len() - i,
    {
        let l = &raw[i];
        let ghost before = hue_views(out@);
        match &l.uniqueid {
            Some(u) => {
                out.push(HueDevice {
                    uniqueid: u.clone(),
                    name: l.name.clone(),
                    manufacturername: clone_opt(&l.manufacturername),
                    productname: clone_opt(&l.productname),
                    modelid: clone_opt(&l.modelid),
                    swversion: clone_opt(&l.swversion),
                    kind: HueKind::Light,
                });
                assert(hue_views(out@) =~= before.push(hue_view(out@.last())));
            },
            None => {},
        }
        i = i + 1;
        assert(raw@.take(i as int).drop_last() =~= raw@.take((i - 1) as int));
    }
    assert(raw@.take(raw@.len() as int) =~= raw@);
    out
}

/// Keeps the sensors that carry a unique id (the bridge's internal
/// pseudo-sensors have none); the sensor type stands in for a missing
/// product name.
pub fn collect_sensors(raw: &[HueSensor]) -> (r: Vec<HueDevice>)
    ensures
        hue_views(r@) == kept_sensors(raw@),
{
    let mut out: Vec<HueDevice> = Vec::new();
    let mut i: usize = 0;
    while i < raw.len()
        invariant
            i <= raw@.len(),
            hue_views(out@) == kept_sensors(raw@.take(i as int)),
        decreases raw@.len() - i,
    {
        let l = &raw[i];
        let ghost before = hue_views(out@);
        match &l.uniqueid {
            Some(u) => {
                let productname = match &l.productname {
                    Some(p) => Some(p.clone()),
                    None => Some(l.type_.clone()),
                };
                out.push(HueDevice {
                    uniqueid: u.clone(),
                    name: l.name.clone(),
                    manufacturername: clone_opt(&l.manufacturername),
                    productname,
                    modelid: clone_opt(&l.modelid),
                    swversion: clone_opt(&l.swversion),
                    kind: HueKind::Sensor,
                });
                assert(hue_views(out@) =~= before.push(hue_view(out@.last())));
            },
            None => {},
        }
        i = i + 1;
        assert(raw@.take(i as int).drop_last() =~= raw@.take((i - 1) as int));
    }
    assert(raw@.take(raw@.len() as int) =~= raw@);
    out
}

/// The device a Hue record becomes: source `hue`, its unique id, its name
/// (the id when the name is empty), the product name (else the model id)
/// as model, `light` or `sensor` as kind, and no room.
pub open spec fn hue_device(d: HueDevice) -> (
    Seq<char>,
    Seq<char>,
    Seq<char>,
    Option<Seq<char>>,
    Option<Seq<char>>,
    Option<Seq<char>>,
    Option<Seq<char>>,
) {
    (
        "hue"@,
        d.uniqueid@,
        if d.name@.len() == 0 { d.uniqueid@ } else { d.name@ },
        opt_view(d.manufacturername),
        match d.productname {
            Some(p) => Some(p@),
            None => opt_view(d.modelid),
        },
        Some(
            match d.kind {
                HueKind::Light => "light"@,
                HueKind::Sensor => "sensor"@,
            },
        ),
        None,
    )
}

/// Maps one Hue record to a device (see `hue_device`).
pub fn to_device(d: &HueDevice) -> (r: Device)
    ensures
        device_view(r) == hue_device(*d),
{
    Device {
        source: text("hue"),
        source_id: d.uniqueid.clone(),
        name: if d.name.as_str().is_empty() { d.uniqueid.clone() } else { d.name.clone() },
        manufacturer: clone_opt(&d.manufacturername),
        model: match &d.productname {
            Some(p) => Some(p.clone()),
            None => clone_opt(&d.modelid),
        },
        kind: Some(
            match d.kind {
                HueKind::Light => text("light"),
                HueKind::Sensor => text("sensor"),
            },
        ),
        room: None,
    }
}

/// Maps all Hue records to devices, one for one, in order.
pub fn map_to_devices(devices: &[HueDevice]) -> (r: Vec<Device>)
    ensures
        r@.len() == devices@.len(),
        forall|i: int| 0 <= i < r@.len() ==> device_view(#[trigger] r@[i]) == hue_device(devices@[i]),
{
    let mut out: Vec<Device> = Vec::new();
    let mut i: usize = 0;
    while i < devices.len()
        invariant
            i <= devices@.len(),
            out@.len() == i,
            forall|j: int| 0 <= j < i ==> device_view(#[trigger] out@[j]) == hue_device(devices@[j]),
        decreases devices@.len() - i,
    {
        out.push(to_device(&devices[i]));
        i = i + 1;
    }
    out
}

/// The URL of a bridge's `lights` or `sensors` list.
pub open spec fn bridge_url(ip: Seq<char>, token: Seq<char>, list: Seq<char>) -> Seq<char> {
    "http://"@ + ip + "/api/"@ + token + "/"@ + list
}

fn list_url(ip: &str, token: &str, list: &str) -> (r: String)
    ensures
        r@ == bridge_url(ip@, token@, list@),
{
    let mut r = text("http://");
    r.append(ip);
    r.append("/api/");
    r.append(token);
    r.append("/");
    r.append(list);
    assert(r@ =~= bridge_url(ip@, token@, list@));
    r
}

/// `http://<ip>/api/<token>/lights`.
pub fn lights_url(ip: &str, token: &str) -> (r: String)
    ensures
        r@ == bridge_url(ip@, token@, "lights"@),
{
    list_url(ip, token, "lights")
}

/// `http://<ip>/api/<token>/sensors`.
pub fn sensors_url(ip: &str, token: &str) -> (r: String)
    ensures
        r@ == bridge_url(ip@, token@, "sensors"@),
{
    list_url(ip, token, "sensors")
}

/// A mapped Hue record keeps what the bridge reported: source `hue`, its
/// unique id as id, its name (the id when the name is empty), its
/// manufacturer name as maker, its product name (else its model id) as
/// model, `light` or `sensor` by its kind, and no room.
pub proof fn law_hue_device_keeps_record(d: HueDevice)
    ensures
        hue_device(d).0 == "hue"@,
        hue_device(d).1 == d.uniqueid@,
        d.name@.len() > 0 ==> hue_device(d).2 == d.name@,
        d.name@.len() == 0 ==> hue_device(d).2 == d.uniqueid@,
        hue_device(d).3 == opt_view(d.manufacturername),
        d.productname is Some ==> hue_device(d).4 == opt_view(d.productname),
        d.productname is None ==> hue_device(d).4 == opt_view(d.modelid),
        d.kind == HueKind::Light ==> hue_device(d).5 == Some("light"@),
        d.kind == HueKind::Sensor ==> hue_device(d).5 == Some("sensor"@),
        hue_device(d).6 == None::<Seq<char>>,
{
}

/// Collecting one more light: one without unique id adds nothing; one with
/// a unique id adds one record at the end that carries the light's id, name,
/// manufacturer, product name, model id and software version, as a light.
pub proof fn law_hue_lights_append(raw: Seq<HueLight>, l: HueLight)
    ensures
        l.uniqueid is None ==> kept_lights(raw.push(l)) == kept_lights(raw),
        l.uniqueid is Some ==> ({
            let r = kept_lights(raw.push(l));
            &&& r.len() == kept_lights(raw).len() + 1
            &&& r.drop_last() == kept_lights(raw)
            &&& r.last().0 == l.uniqueid->0@
            &&& r.last().1 == l.name@
            &&& r.last().2 == opt_view(l.manufacturername)
            &&& r.last().3 == opt_view(l.productname)
            &&& r.last().4 == opt_view(l.modelid)
            &&& r.last().5 == opt_view(l.swversion)
            &&& r.last().6 == HueKind::Light
        }),
{
    assert(raw.push(l).drop_last() =~= raw);
    if l.uniqueid is Some {
        assert(kept_lights(raw.push(l)).drop_last() =~= kept_lights(raw));
    }
}

/// Collecting one more sensor: one without unique id (the bridge's internal
/// pseudo-sensors) adds nothing; one with a unique id adds one record that
/// carries its id, name and manufacturer, its product name or else its type,
/// as a sensor.
pub proof fn law_hue_sensors_append(raw: Seq<HueSensor>, l: HueSensor)
    ensures
        l.uniqueid is None ==> kept_sensors(raw.push(l)) == kept_sensors(raw),
        l.uniqueid is Some ==> ({
            let r = kept_sensors(raw.push(l));
            &&& r.len() == kept_sensors(raw).len() + 1
            &&& r.drop_last() == kept_sensors(raw)
            &&& r.last().0 == l.uniqueid->0@
            &&& r.last().1 == l.name@
            &&& r.last().2 == opt_view(l.manufacturername)
            &&& l.productname is Some ==> r.last().3 == opt_view(l.productname)
            &&& l.productname is None ==> r.last().3 == Some(l.type_@)
            &&& r.last().4 == opt_view(l.modelid)
            &&& r.last().5 == opt_view(l.swversion)
            &&& r.last().6 == HueKind::Sensor
        }),
{
    assert(raw.push(l).drop_last() =~= raw);
    if l.uniqueid is Some {
        assert(kept_sensors(raw.push(l)).drop_last() =~= kept_sensors(raw));
    }
}

} // verus!
