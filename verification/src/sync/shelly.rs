//! Shelly devices (Gen1 `/shelly`, Gen2 RPC `Shelly.GetDeviceInfo`).
use vstd::prelude::*;
use crate::types::{Device, clone_opt, device_view, opt_view, text};
use crate::git_publish::texts;
use crate::text::{
    lemma_text_lt_irreflexive, lemma_text_lt_total, lemma_text_lt_transitive, text_less, text_lt,
    ascii_lower, chars_of, contains_seq, has_prefix_seq, has_text, starts_with_text, string_of,
    to_ascii_lower, lower_char,
};

verus! {

/// A Shelly as the inventory keeps it.
#[derive(Debug, Clone, PartialEq, Eq)]
pub struct ShellyDevice {
    /// MAC address without separators, lower case.
    pub mac: String,
    pub ip: String,
    /// Gen2: the device id; Gen1: `<type>-<mac>`.
    pub id: String,
    /// Gen1 type or Gen2 model.
    pub model: String,
    /// Gen2 application name (`Plus2PM`, ...).
    pub app: Option<String>,
    /// Gen2 `ver` or Gen1 `fw`.
    pub firmware: String,
    pub gen: u8,
}

/// Gen1 `/shelly` answer (the fields read).
pub struct Gen1Info {
    pub type_: String,
    pub mac: String,
    pub fw: String,
}

/// Gen2 `Shelly.GetDeviceInfo` answer (the fields read).
pub struct Gen2Info {
    pub id: String,
    pub mac: String,
    pub model: String,
    pub ver: String,
    pub app: Option<String>,
}

/// A device answer without MAC address.
#[derive(Debug, Clone, Copy, PartialEq, Eq)]
pub struct EmptyMac {
    /// The generation whose answer it was.
    pub gen: u8,
}

/// A Shelly as plain values.
pub open spec fn shelly_view(d: ShellyDevice) -> (
    Seq<char>,
    Seq<char>,
    Seq<char>,
    Seq<char>,
    Option<Seq<char>>,
    Seq<char>,
    u8,
) {
    (d.mac@, d.ip@, d.id@, d.model@, opt_view(d.app), d.firmware@, d.gen)
}

/// A MAC address as the inventory keeps it: without the separators `:`
/// and `-`, in lower case.
pub open spec fn plain_mac(s: Seq<char>) -> Seq<char>
    decreases s.len(),
{
    if s.len() == 0 {
        Seq::empty()
    } else if s.last() == ':' || s.last() == '-' {
        plain_mac(s.drop_last())
    } else {
        plain_mac(s.drop_last()).push(lower_char(s.last()))
    }
}

/// The MAC address `v` without separators, in lower case (see `plain_mac`).
pub fn plain_mac_chars(v: &[char]) -> (r: Vec<char>)
    ensures
        r@ == plain_mac(v@),
{
    let mut out: Vec<char> = Vec::new();
    let mut i: usize = 0;
    while i < v.len()
        invariant
            i <= v@.len(),
            out@ == plain_mac(v@.take(i as int)),
        decreases v@.len() - i,
    {
        let c = v[i];
        assert(v@.take(i + 1).drop_last() =~= v@.take(i as int));
        if c != ':' && c != '-' {
            let l = if 'A' <= c && c <= 'Z' { ((c as u8) + 32) as char } else { c };
            out.push(l);
        }
        i = i + 1;
    }
    assert(v@.take(v@.len() as int) =~= v@);
    out
}

/// Builds the device from a Gen2 answer; an empty MAC is refused.
pub fn from_gen2(ip: &str, info: &Gen2Info) -> (r: Result<ShellyDevice, EmptyMac>)
    ensures
        plain_mac(info.mac@).len() == 0 ==> r == Err::<ShellyDevice, EmptyMac>(EmptyMac { gen: 2 }),
        plain_mac(info.mac@).len() > 0 ==> (r matches Ok(d) && shelly_view(d) == (
            plain_mac(info.mac@),
            ip@,
            info.id@,
            info.model@,
            opt_view(info.app),
            info.ver@,
            2u8,
        )),
{
    let mac = plain_mac_chars(chars_of(info.mac.as_str()).as_slice());
    if mac.len() == 0 {
        return Err(EmptyMac { gen: 2 });
    }
    Ok(ShellyDevice {
        mac: string_of(mac.as_slice()),
        ip: text(ip),
        id: info.id.clone(),
        model: info.model.clone(),
        app: clone_opt(&info.app),
        firmware: info.ver.clone(),
        gen: 2,
    })
}

/// Builds the device from a Gen1 answer, with id `<type>-<mac>` in lower
/// case; an empty MAC is refused.
pub fn from_gen1(ip: &str, info: &Gen1Info) -> (r: Result<ShellyDevice, EmptyMac>)
    ensures
        plain_mac(info.mac@).len() == 0 ==> r == Err::<ShellyDevice, EmptyMac>(EmptyMac { gen: 1 }),
        plain_mac(info.mac@).len() > 0 ==> (r matches Ok(d) && shelly_view(d) == (
            plain_mac(info.mac@),
            ip@,
            ascii_lower(info.type_@) + seq!['-'] + plain_mac(info.mac@),
            info.type_@,
            None::<Seq<char>>,
            info.fw@,
            1u8,
        )),
{
    let mac = plain_mac_chars(chars_of(info.mac.as_str()).as_slice());
    if mac.len() == 0 {
        return Err(EmptyMac { gen: 1 });
    }
    let mut id = to_ascii_lower(chars_of(info.type_.as_str()).as_slice());
    let ghost t = id@;
    id.push('-');
    let mut i: usize = 0;
    while i < mac.len()
        invariant
            i <= mac@.len(),
            id@ == t + seq!['-'] + mac@.take(i as int),
        decreases mac@.len() - i,
    {
        id.push(mac[i]);
        i = i + 1;
        assert(id@ =~= t + seq!['-'] + mac@.take(i as int));
    }
    assert(mac@.take(mac@.len() as int) =~= mac@);
    Ok(ShellyDevice {
        mac: string_of(mac.as_slice()),
        ip: text(ip),
        id: string_of(id.as_slice()),
        model: info.type_.clone(),
        app: None,
        firmware: info.fw.clone(),
        gen: 1,
    })
}

/// Why no device came of an address.
#[derive(Debug, Clone, Copy, PartialEq, Eq)]
pub enum FetchFault {
    /// Neither endpoint gave a readable answer.
    Unreachable,
    /// The answer of that generation had no MAC address.
    EmptyMac { gen: u8 },
}

/// The Gen2 device-info URL of an address.
pub open spec fn gen2_url_spec(ip: Seq<char>) -> Seq<char> {
    "http://"@ + ip + "/rpc/Shelly.GetDeviceInfo"@
}

/// The Gen1 info URL of an address.
pub open spec fn gen1_url_spec(ip: Seq<char>) -> Seq<char> {
    "http://"@ + ip + "/shelly"@
}

/// The Gen2 device-info URL of an address.
pub fn gen2_url(ip: &str) -> (r: String)
    ensures
        r@ == gen2_url_spec(ip@),
{
    let mut r = text("http://");
    r.append(ip);
    r.append("/rpc/Shelly.GetDeviceInfo");
    assert(r@ =~= gen2_url_spec(ip@));
    r
}

/// The Gen1 info URL of an address.
pub fn gen1_url(ip: &str) -> (r: String)
    ensures
        r@ == gen1_url_spec(ip@),
{
    let mut r = text("http://");
    r.append(ip);
    r.append("/shelly");
    assert(r@ =~= gen1_url_spec(ip@));
    r
}

impl FetchFault {
    /// The message for the address `ip`: the failed request, or the
    /// generation whose answer had no MAC address.
    pub fn message(&self, ip: &str) -> (r: String)
        ensures
            r@ == match *self {
                FetchFault::Unreachable => "GET "@ + gen1_url_spec(ip@) + ": keine Antwort"@,
                FetchFault::EmptyMac { gen } => if gen == 2 {
                    "gen2: leere mac"@
                } else {
                    "gen1: leere mac"@
                },
            },
    {
        match self {
            FetchFault::Unreachable => {
                let mut r = text("GET ");
                let u = gen1_url(ip);
                r.append(u.as_str());
                r.append(": keine Antwort");
                assert(r@ =~= "GET "@ + gen1_url_spec(ip@) + ": keine Antwort"@);
                r
            },
            FetchFault::EmptyMac { gen } => if *gen == 2 {
                text("gen2: leere mac")
            } else {
                text("gen1: leere mac")
            },
        }
    }
}

/// Whether the Gen1 endpoint has to be asked: the Gen2 answer is missing or
/// has no MAC address.
pub fn needs_gen1(gen2: Option<&Gen2Info>) -> (r: bool)
    ensures
        r == match gen2 {
            Some(i) => plain_mac(i.mac@).len() == 0,
            None => true,
        },
{
    match gen2 {
        Some(i) => plain_mac_chars(chars_of(i.mac.as_str()).as_slice()).len() == 0,
        None => true,
    }
}

/// The device behind an address, from its Gen2 answer where that has a MAC
/// address, else from its Gen1 answer. `None` stands for an endpoint that
/// gave no readable answer.
pub fn fetch_info(ip: &str, gen2: Option<&Gen2Info>, gen1: Option<&Gen1Info>) -> (r: Result<
    ShellyDevice,
    FetchFault,
>)
    ensures
        match gen2 {
            Some(i) if plain_mac(i.mac@).len() > 0 => r matches Ok(d) && shelly_view(d) == (
                plain_mac(i.mac@),
                ip@,
                i.id@,
                i.model@,
                opt_view(i.app),
                i.ver@,
                2u8,
            ),
            _ => match gen1 {
                None => r == Err::<ShellyDevice, FetchFault>(FetchFault::Unreachable),
                Some(i) => if plain_mac(i.mac@).len() == 0 {
                    r == Err::<ShellyDevice, FetchFault>(FetchFault::EmptyMac { gen: 1 })
                } else {
                    r matches Ok(d) && shelly_view(d) == (
                        plain_mac(i.mac@),
                        ip@,
                        ascii_lower(i.type_@) + seq!['-'] + plain_mac(i.mac@),
                        i.type_@,
                        None::<Seq<char>>,
                        i.fw@,
                        1u8,
                    )
                },
            },
        },
{
    if let Some(info) = gen2 {
        if let Ok(d) = from_gen2(ip, info) {
            return Ok(d);
        }
    }
    match gen1 {
        None => Err(FetchFault::Unreachable),
        Some(info) => match from_gen1(ip, info) {
            Ok(d) => Ok(d),
            Err(_) => Err(FetchFault::EmptyMac { gen: 1 }),
        },
    }
}

/// Whether an mDNS host name is a Shelly's (it starts with `shelly`, in any
/// case).
pub fn is_shelly_host(host: &str) -> (r: bool)
    ensures
        r == has_prefix_seq(ascii_lower(host@), "shelly"@),
{
    let h = to_ascii_lower(chars_of(host).as_slice());
    starts_with_text(h.as_slice(), "shelly")
}

/// The kind a Shelly gets from its model and application name (both
/// compared in lower case): dimmer, light, switch, cover, sensor, switch
/// again for the generic `sw` models, else other.
pub open spec fn shelly_kind(model: Seq<char>, app: Option<Seq<char>>) -> Seq<char> {
    let m = ascii_lower(model);
    let a = ascii_lower(
        match app {
            Some(x) => x,
            None => seq![],
        },
    );
    if contains_seq(m, "dimmer"@) || contains_seq(a, "dimmer"@) {
        "dimmer"@
    } else if contains_seq(m, "rgbw"@) || contains_seq(a, "rgb"@) {
        "light"@
    } else if contains_seq(m, "plug"@) || contains_seq(a, "plug"@) {
        "switch"@
    } else if contains_seq(m, "roller"@) || contains_seq(a, "roller"@) || contains_seq(m, "2pm"@)
        || contains_seq(a, "2pm"@) {
        "cover"@
    } else if has_prefix_seq(m, "shht"@) || has_prefix_seq(m, "snsn"@) || contains_seq(a, "h&t"@) {
        "sensor"@
    } else if contains_seq(m, "sw"@) || contains_seq(a, "sw"@) || has_prefix_seq(m, "shsw"@) {
        "switch"@
    } else {
        "other"@
    }
}

/// The kind of a Shelly (see `shelly_kind`).
pub fn kind_of(d: &ShellyDevice) -> (r: String)
    ensures
        r@ == shelly_kind(d.model@, opt_view(d.app)),
{
    let m = to_ascii_lower(chars_of(d.model.as_str()).as_slice());
    let a = match &d.app {
        Some(x) => to_ascii_lower(chars_of(x.as_str()).as_slice()),
        None => Vec::new(),
    };
    assert(a@ =~= ascii_lower(
        match opt_view(d.app) {
            Some(x) => x,
            None => seq![],
        },
    ));
    if has_text(m.as_slice(), "dimmer") || has_text(a.as_slice(), "dimmer") {
        text("dimmer")
    } else if has_text(m.as_slice(), "rgbw") || has_text(a.as_slice(), "rgb") {
        text("light")
    } else if has_text(m.as_slice(), "plug") || has_text(a.as_slice(), "plug") {
        text("switch")
    } else if has_text(m.as_slice(), "roller") || has_text(a.as_slice(), "roller") || has_text(
        m.as_slice(),
        "2pm",
    ) || has_text(a.as_slice(), "2pm") {
        text("cover")
    } else if starts_with_text(m.as_slice(), "shht") || starts_with_text(m.as_slice(), "snsn")
        || has_text(a.as_slice(), "h&t") {
        text("sensor")
    } else if has_text(m.as_slice(), "sw") || has_text(a.as_slice(), "sw") || starts_with_text(
        m.as_slice(),
        "shsw",
    ) {
        text("switch")
    } else {
        text("other")
    }
}

/// The device a Shelly becomes: source `shelly`, the MAC as id, the
/// device id (else the MAC) as name, manufacturer Allterco Robotics, the
/// model, its kind, no room.
pub open spec fn shelly_device(d: ShellyDevice) -> (
    Seq<char>,
    Seq<char>,
    Seq<char>,
    Option<Seq<char>>,
    Option<Seq<char>>,
    Option<Seq<char>>,
    Option<Seq<char>>,
) {
    (
        "shelly"@,
        d.mac@,
        if d.id@.len() == 0 { d.mac@ } else { d.id@ },
        Some("Allterco Robotics"@),
        Some(d.model@),
        Some(shelly_kind(d.model@, opt_view(d.app))),
        None,
    )
}

/// Maps one Shelly to a device (see `shelly_device`).
pub fn to_device(d: &ShellyDevice) -> (r: Device)
    ensures
        device_view(r) == shelly_device(*d),
{
    Device {
        source: text("shelly"),
        source_id: d.mac.clone(),
        name: if d.id.as_str().is_empty() { d.mac.clone() } else { d.id.clone() },
        manufacturer: Some(text("Allterco Robotics")),
        model: Some(d.model.clone()),
        kind: Some(kind_of(d)),
        room: None,
    }
}

/// Maps all Shellys to devices, one for one, in order.
pub fn map_to_devices(devices: &[ShellyDevice]) -> (r: Vec<Device>)
    ensures
        r@.len() == devices@.len(),
        forall|i: int| 0 <= i < r@.len() ==> device_view(#[trigger] r@[i]) == shelly_device(devices@[i]),
{
    let mut out: Vec<Device> = Vec::new();
    let mut i: usize = 0;
    while i < devices.len()
        invariant
            i <= devices@.len(),
            out@.len() == i,
            forall|j: int| 0 <= j < i ==> device_view(#[trigger] out@[j]) == shelly_device(devices@[j]),
        decreases devices@.len() - i,
    {
        out.push(to_device(&devices[i]));
        i = i + 1;
    }
    out
}

proof fn lemma_push_contains(a: Seq<Seq<char>>, e: Seq<char>, x: Seq<char>)
    ensures
        a.push(e).contains(x) <==> (a.contains(x) || x == e),
{
    if a.contains(x) {
        let k = choose|k: int| 0 <= k < a.len() && a[k] == x;
        assert(a.push(e)[k] == x);
    }
    if x == e {
        assert(a.push(e)[a.len() as int] == e);
    }
    if a.push(e).contains(x) && x != e {
        let k = choose|k: int| 0 <= k < a.push(e).len() && a.push(e)[k] == x;
        assert(a[k] == x);
    }
}

proof fn lemma_insert_contains(a: Seq<Seq<char>>, p: int, e: Seq<char>, x: Seq<char>)
    requires
        0 <= p <= a.len(),
    ensures
        a.insert(p, e).contains(x) <==> (a.contains(x) || x == e),
{
    let u = a.insert(p, e);
    if a.contains(x) {
        let k = choose|k: int| 0 <= k < a.len() && a[k] == x;
        if k < p {
            assert(u[k] == x);
        } else {
            assert(u[k + 1] == x);
        }
    }
    if x == e {
        assert(u[p] == e);
    }
    if u.contains(x) && x != e {
        let k = choose|k: int| 0 <= k < u.len() && u[k] == x;
        if k < p {
            assert(a[k] == x);
        } else {
            assert(a[k - 1] == x);
        }
    }
}

/// Every text comes strictly before the next one.
pub open spec fn strictly_sorted(s: Seq<Seq<char>>) -> bool {
    forall|i: int, j: int| 0 <= i < j < s.len() ==> text_lt(#[trigger] s[i], #[trigger] s[j])
}

/// The addresses to ask, sorted and each once: the same addresses as given,
/// in code-point order, without repeats.
#[verifier::loop_isolation(false)]
pub fn sort_dedup(v: &Vec<String>) -> (r: Vec<String>)
    ensures
        strictly_sorted(texts(r@)),
        forall|x: Seq<char>| texts(r@).contains(x) <==> texts(v@).contains(x),
{
    let mut out: Vec<String> = Vec::new();
    let mut i: usize = 0;
    while i < v.len()
        invariant
            i <= v@.len(),
            strictly_sorted(texts(out@)),
            forall|x: Seq<char>| texts(out@).contains(x) <==> texts(v@.take(i as int)).contains(x),
        decreases v@.len() - i,
    {
        let s = &v[i];
        let c = chars_of(s.as_str());
        let ghost t = texts(out@);
        let mut p: usize = 0;
        while p < out.len()
            invariant
                p <= out@.len(),
                t == texts(out@),
                forall|j: int| 0 <= j < p ==> text_lt(#[trigger] t[j], s@),
            decreases out@.len() - p,
        {
            let cp = chars_of(out[p].as_str());
            assert(cp@ == t[p as int]);
            if !text_less(cp.as_slice(), c.as_slice()) {
                break;
            }
            p = p + 1;
        }
        let ghost taken = v@.take(i + 1);
        assert(texts(taken) =~= texts(v@.take(i as int)).push(s@));
        if p < out.len() && out[p] == *s {
            proof {
                assert forall|x: Seq<char>| texts(out@).contains(x) <==> texts(taken).contains(x) by {
                    lemma_push_contains(texts(v@.take(i as int)), s@, x);
                    if x == s@ {
                        assert(texts(out@)[p as int] == s@);
                    }
                }
            }
        } else {
            proof {
                // everything from p on comes after s
                assert forall|j: int| p <= j < t.len() implies text_lt(s@, #[trigger] t[j]) by {
                    lemma_text_lt_total(t[p as int], s@);
                    assert(!text_lt(t[p as int], s@));
                    assert(t[p as int] != s@);
                    if j > p {
                        assert(text_lt(t[p as int], t[j]));
                        lemma_text_lt_transitive(s@, t[p as int], t[j]);
                    }
                }
            }
            out.insert(p, s.clone());
            proof {
                let u = texts(out@);
                assert(u =~= t.insert(p as int, s@));
                assert forall|a: int, b: int| 0 <= a < b < u.len() implies text_lt(#[trigger] u[a], #[trigger] u[b]) by {
                    if b < p {
                    } else if b == p {
                    } else if a < p {
                        assert(text_lt(t[a], s@));
                        assert(text_lt(s@, t[b - 1]));
                        lemma_text_lt_transitive(t[a], s@, t[b - 1]);
                    } else if a == p {
                    } else {
                    }
                }
                assert forall|x: Seq<char>| u.contains(x) <==> texts(taken).contains(x) by {
                    lemma_push_contains(texts(v@.take(i as int)), s@, x);
                    lemma_insert_contains(t, p as int, s@, x);
                }
            }
        }
        i = i + 1;
    }
    assert(v@.take(v@.len() as int) =~= v@);
    out
}

/// How Shellys are classified, on the lower-cased model and application
/// name (empty when there is none): the first matching rule wins. Dimmers
/// (`dimmer` in either); lights (`rgbw` in the model or `rgb` in the
/// application); switches (`plug` in either); covers (`roller` or `2pm` in
/// either); sensors (model starting with `shht` or `snsn`, or `h&t` in the
/// application); switches (`sw` in either, or model starting with `shsw`);
/// else other. The mapped device carries that kind, source `shelly`, the MAC
/// as id, the device id (else the MAC) as name, Allterco Robotics as maker
/// and the model.
pub proof fn law_shelly_kind_rules(d: ShellyDevice)
    ensures
        ({
            let m = ascii_lower(d.model@);
            let a = ascii_lower(
                match d.app {
                    Some(x) => x@,
                    None => seq![],
                },
            );
            let kind = shelly_device(d).5;
            let dimmer = contains_seq(m, "dimmer"@) || contains_seq(a, "dimmer"@);
            let light = contains_seq(m, "rgbw"@) || contains_seq(a, "rgb"@);
            let plug = contains_seq(m, "plug"@) || contains_seq(a, "plug"@);
            let cover = contains_seq(m, "roller"@) || contains_seq(a, "roller"@) || contains_seq(m, "2pm"@)
                || contains_seq(a, "2pm"@);
            let sensor = has_prefix_seq(m, "shht"@) || has_prefix_seq(m, "snsn"@) || contains_seq(a, "h&t"@);
            let sw = contains_seq(m, "sw"@) || contains_seq(a, "sw"@) || has_prefix_seq(m, "shsw"@);
            &&& dimmer ==> kind == Some("dimmer"@)
            &&& !dimmer && light ==> kind == Some("light"@)
            &&& !dimmer && !light && plug ==> kind == Some("switch"@)
            &&& !dimmer && !light && !plug && cover ==> kind == Some("cover"@)
            &&& !dimmer && !light && !plug && !cover && sensor ==> kind == Some("sensor"@)
            &&& !dimmer && !light && !plug && !cover && !sensor && sw ==> kind == Some("switch"@)
            &&& !dimmer && !light && !plug && !cover && !sensor && !sw ==> kind == Some("other"@)
            &&& shelly_device(d).0 == "shelly"@
            &&& shelly_device(d).1 == d.mac@
            &&& d.id@.len() > 0 ==> shelly_device(d).2 == d.id@
            &&& d.id@.len() == 0 ==> shelly_device(d).2 == d.mac@
            &&& shelly_device(d).3 == Some("Allterco Robotics"@)
            &&& shelly_device(d).4 == Some(d.model@)
            &&& shelly_device(d).6 == None::<Seq<char>>
        }),
{
}

/// Model and application names that differ only in ASCII case give the
/// same kind.
pub proof fn law_shelly_kind_ignores_case(a: ShellyDevice, b: ShellyDevice)
    requires
        ascii_lower(a.model@) == ascii_lower(b.model@),
        ascii_lower(
            match a.app {
                Some(x) => x@,
                None => seq![],
            },
        ) == ascii_lower(
            match b.app {
                Some(x) => x@,
                None => seq![],
            },
        ),
    ensures
        shelly_device(a).5 == shelly_device(b).5,
{
}

} // verus!
