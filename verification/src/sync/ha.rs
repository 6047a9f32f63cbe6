//! Home Assistant entity states (`/api/states`).
use vstd::prelude::*;
use crate::types::{Device, clone_opt, device_view, opt_view, text};
use crate::text::{chars_of, equals_text, push_chars, split_once_chars, split_once_spec, string_of, strip_trailing, trim_end_char};
use crate::sync::ccu::device_views;

verus! {

/// An entity state as Home Assistant reports it (the fields read).
#[derive(Debug)]
pub struct HaEntity {
    pub entity_id: String,
    pub state: String,
    pub attributes: HaAttributes,
}

/// The attributes read from an entity state.
#[derive(Debug, Default)]
pub struct HaAttributes {
    pub friendly_name: Option<String>,
    pub manufacturer: Option<String>,
    pub model: Option<String>,
}

/// The states URL under a base URL (trailing `/` dropped).
pub open spec fn states_url_text(base_url: Seq<char>) -> Seq<char> {
    strip_trailing(base_url, '/') + "/api/states"@
}

/// Builds the states URL.
pub fn states_url(base_url: &str) -> (r: String)
    ensures
        r@ == states_url_text(base_url@),
{
    let mut url = String::new();
    let base = trim_end_char(chars_of(base_url).as_slice(), '/');
    push_chars(&mut url, base.as_slice());
    url.append("/api/states");
    assert(url@ =~= states_url_text(base_url@));
    url
}

/// The domain of an entity id: the part before the first `.`, or nothing.
pub open spec fn domain_text(entity_id: Seq<char>) -> Seq<char> {
    match split_once_spec(entity_id, '.') {
        Some((d, _)) => d,
        None => seq![],
    }
}

/// The domain of an entity id (see `domain_text`).
pub fn domain_of(entity_id: &str) -> (r: String)
    ensures
        r@ == domain_text(entity_id@),
{
    match split_once_chars(chars_of(entity_id).as_slice(), '.') {
        Some((d, _)) => string_of(d.as_slice()),
        None => String::new(),
    }
}

/// The domains whose entities are devices.
pub open spec fn device_domain(d: Seq<char>) -> bool {
    d == "light"@ || d == "switch"@ || d == "sensor"@ || d == "binary_sensor"@ || d == "climate"@ || d
        == "cover"@ || d == "fan"@ || d == "media_player"@ || d == "lock"@ || d == "vacuum"@ || d
        == "camera"@ || d == "valve"@ || d == "water_heater"@ || d == "button"@ || d == "humidifier"@ || d
        == "siren"@
}

/// Whether an entity id belongs to a device domain.
pub fn is_device_entity(entity_id: &str) -> (r: bool)
    ensures
        r == device_domain(domain_text(entity_id@)),
{
    let d = domain_of(entity_id);
    let v = chars_of(d.as_str());
    let s = v.as_slice();
    equals_text(s, "light") || equals_text(s, "switch") || equals_text(s, "sensor") || equals_text(
        s,
        "binary_sensor",
    ) || equals_text(s, "climate") || equals_text(s, "cover") || equals_text(s, "fan") || equals_text(
        s,
        "media_player",
    ) || equals_text(s, "lock") || equals_text(s, "vacuum") || equals_text(s, "camera") || equals_text(
        s,
        "valve",
    ) || equals_text(s, "water_heater") || equals_text(s, "button") || equals_text(s, "humidifier")
        || equals_text(s, "siren")
}

/// The device an entity becomes: source `ha`, its entity id, its friendly
/// name (else the entity id), manufacturer and model as given, its domain
/// as kind, no room.
pub open spec fn ha_device(e: HaEntity) -> (
    Seq<char>,
    Seq<char>,
    Seq<char>,
    Option<Seq<char>>,
    Option<Seq<char>>,
    Option<Seq<char>>,
    Option<Seq<char>>,
) {
    (
        "ha"@,
        e.entity_id@,
        match e.attributes.friendly_name {
            Some(n) => n@,
            None => e.entity_id@,
        },
        opt_view(e.attributes.manufacturer),
        opt_view(e.attributes.model),
        Some(domain_text(e.entity_id@)),
        None,
    )
}

/// Maps one entity (see `ha_device`).
pub fn to_device(e: &HaEntity) -> (r: Device)
    ensures
        device_view(r) == ha_device(*e),
{
    Device {
        source: text("ha"),
        source_id: e.entity_id.clone(),
        name: match &e.attributes.friendly_name {
            Some(n) => n.clone(),
            None => e.entity_id.clone(),
        },
        manufacturer: clone_opt(&e.attributes.manufacturer),
        model: clone_opt(&e.attributes.model),
        kind: Some(domain_of(e.entity_id.as_str())),
        room: None,
    }
}

/// The devices of the entities in device domains, in order.
pub open spec fn mapped_ha(entities: Seq<HaEntity>) -> Seq<
    (Seq<char>, Seq<char>, Seq<char>, Option<Seq<char>>, Option<Seq<char>>, Option<Seq<char>>, Option<Seq<char>>),
>
    decreases entities.len(),
{
    if entities.len() == 0 {
        seq![]
    } else if device_domain(domain_text(entities.last().entity_id@)) {
        mapped_ha(entities.drop_last()).push(ha_device(entities.last()))
    } else {
        mapped_ha(entities.drop_last())
    }
}

/// Keeps the entities of device domains and maps them to devices.
pub fn map_to_devices(entities: &[HaEntity]) -> (r: Vec<Device>)
    ensures
        device_views(r@) == mapped_ha(entities@),
{
    let mut out: Vec<Device> = Vec::new();
    let mut i: usize = 0;
    while i < entities.len()
        invariant
            i <= entities@.len(),
            device_views(out@) == mapped_ha(entities@.take(i as int)),
        decreases entities@.len() - i,
    {
        assert(entities@.take(i + 1).drop_last() =~= entities@.take(i as int));
        if is_device_entity(entities[i].entity_id.as_str()) {
            let ghost before = device_views(out@);
            out.push(to_device(&entities[i]));
            assert(device_views(out@) =~= before.push(device_view(out@.last())));
        }
        i = i + 1;
    }
    assert(entities@.take(entities@.len() as int) =~= entities@);
    out
}

/// Mapping one more entity `<domain>.<name>`: an entity of one of the
/// sixteen device domains adds one device at the end, with the entity id as
/// id, the domain as kind, source `ha`, the maker and model it reports and
/// its friendly name (else its id); an entity of any other domain adds
/// nothing.
pub proof fn law_ha_keeps_device_domains(entities: Seq<HaEntity>, e: HaEntity, domain: Seq<char>, name: Seq<char>)
    requires
        e.entity_id@ == domain + seq!['.'] + name,
        forall|i: int| 0 <= i < domain.len() ==> domain[i] != '.',
    ensures
        (seq![
        "light"@, "switch"@, "sensor"@, "binary_sensor"@, "climate"@, "cover"@, "fan"@,
        "media_player"@, "lock"@, "vacuum"@, "camera"@, "valve"@, "water_heater"@, "button"@,
        "humidifier"@, "siren"@,
    ]).contains(domain) ==> ({
            let r = mapped_ha(entities.push(e));
            &&& r.drop_last() == mapped_ha(entities)
            &&& r.len() == mapped_ha(entities).len() + 1
            &&& r.last().0 == "ha"@
            &&& r.last().1 == e.entity_id@
            &&& r.last().2 == match e.attributes.friendly_name {
                Some(n) => n@,
                None => e.entity_id@,
            }
            &&& r.last().3 == opt_view(e.attributes.manufacturer)
            &&& r.last().4 == opt_view(e.attributes.model)
            &&& r.last().5 == Some(domain)
            &&& r.last().6 == None::<Seq<char>>
        }),
        !(seq![
        "light"@, "switch"@, "sensor"@, "binary_sensor"@, "climate"@, "cover"@, "fan"@,
        "media_player"@, "lock"@, "vacuum"@, "camera"@, "valve"@, "water_heater"@, "button"@,
        "humidifier"@, "siren"@,
    ]).contains(domain) ==> mapped_ha(entities.push(e)) == mapped_ha(entities),
{
    crate::text::lemma_split_once_prefix(domain, name, '.');
    assert(domain_text(e.entity_id@) == domain);
    assert(entities.push(e).drop_last() =~= entities);
    let k = seq![
        "light"@, "switch"@, "sensor"@, "binary_sensor"@, "climate"@, "cover"@, "fan"@,
        "media_player"@, "lock"@, "vacuum"@, "camera"@, "valve"@, "water_heater"@, "button"@,
        "humidifier"@, "siren"@,
    ];
    if k.contains(domain) {
        let i = choose|i: int| 0 <= i < k.len() && k[i] == domain;
        assert(device_domain(domain));
        assert(mapped_ha(entities.push(e)).drop_last() =~= mapped_ha(entities));
    } else {
        assert(k[0] == "light"@);
        assert(k[1] == "switch"@);
        assert(k[2] == "sensor"@);
        assert(k[3] == "binary_sensor"@);
        assert(k[4] == "climate"@);
        assert(k[5] == "cover"@);
        assert(k[6] == "fan"@);
        assert(k[7] == "media_player"@);
        assert(k[8] == "lock"@);
        assert(k[9] == "vacuum"@);
        assert(k[10] == "camera"@);
        assert(k[11] == "valve"@);
        assert(k[12] == "water_heater"@);
        assert(k[13] == "button"@);
        assert(k[14] == "humidifier"@);
        assert(k[15] == "siren"@);
        assert(!device_domain(domain));
    }
}

} // verus!
