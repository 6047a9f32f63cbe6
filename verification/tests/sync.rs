use home_inventory::sync::ccu::{
    basic_auth_header, devicelist_request, devicelist_response, kind_of as ccu_kind_of,
    map_to_devices as ccu_map, parse_devicelist, CcuError,
};
use home_inventory::sync::ha::{
    domain_of, is_device_entity, map_to_devices as ha_map, states_url, HaAttributes, HaEntity,
};
use home_inventory::sync::hue::{
    collect_lights, collect_sensors, lights_url, map_to_devices as hue_map, sensors_url, HueKind,
    HueLight, HueSensor,
};
use home_inventory::sync::nodered::{
    flows_request, id_chars, is_sensitive_key, sanitize, sort_by_id, Json,
};
use home_inventory::sync::shelly::{
    fetch_info, gen1_url, gen2_url, is_shelly_host, map_to_devices, needs_gen1, sort_dedup, FetchFault,
    Gen1Info, Gen2Info, ShellyDevice,
};

// --- Hue ---

const LIGHTS_JSON: &str = r#"{
    "1": {"name": "Room B Ceiling", "modelid": "LCT016", "productname": "Hue color lamp",
          "manufacturername": "Signify Netherlands B.V.", "swversion": "1.122.2",
          "uniqueid": "00:17:88:01:08:aa:bb:cc-0b"},
    "2": {"name": "Dining Table", "modelid": "LCT015", "productname": "Hue color lamp",
          "manufacturername": "Signify Netherlands B.V.", "swversion": "1.122.2",
          "uniqueid": "00:17:88:01:08:dd:ee:ff-0b"}
}"#;

const SENSORS_JSON: &str = r#"{
    "10": {"name": "Motion Hallway", "modelid": "SML001", "productname": "Hue motion sensor",
           "manufacturername": "Signify Netherlands B.V.", "swversion": "6.1.1.27575",
           "uniqueid": "00:17:88:01:09:11:22:33-02-0406", "type": "ZLLPresence"},
    "20": {"name": "Daylight", "type": "Daylight"}
}"#;

fn opt_str(v: &serde_json::Value, k: &str) -> Option<String> {
    v.get(k).and_then(|x| x.as_str()).map(|s| s.to_string())
}

fn str_or_empty(v: &serde_json::Value, k: &str) -> String {
    opt_str(v, k).unwrap_or_default()
}

fn lights() -> Vec<HueLight> {
    let raw: serde_json::Value = serde_json::from_str(LIGHTS_JSON).unwrap();
    raw.as_object()
        .unwrap()
        .values()
        .map(|l| HueLight {
            name: str_or_empty(l, "name"),
            modelid: opt_str(l, "modelid"),
            productname: opt_str(l, "productname"),
            manufacturername: opt_str(l, "manufacturername"),
            swversion: opt_str(l, "swversion"),
            uniqueid: opt_str(l, "uniqueid"),
        })
        .collect()
}

fn sensors() -> Vec<HueSensor> {
    let raw: serde_json::Value = serde_json::from_str(SENSORS_JSON).unwrap();
    raw.as_object()
        .unwrap()
        .values()
        .map(|s| HueSensor {
            name: str_or_empty(s, "name"),
            modelid: opt_str(s, "modelid"),
            productname: opt_str(s, "productname"),
            manufacturername: opt_str(s, "manufacturername"),
            swversion: opt_str(s, "swversion"),
            uniqueid: opt_str(s, "uniqueid"),
            type_: str_or_empty(s, "type"),
        })
        .collect()
}

#[test]
fn fetch_lights_returns_two() {
    let devs = collect_lights(&lights());
    assert_eq!(devs.len(), 2);
    let first = devs.iter().find(|d| d.name == "Room B Ceiling").unwrap();
    assert_eq!(first.swversion.as_deref(), Some("1.122.2"));
    assert_eq!(first.uniqueid, "00:17:88:01:08:aa:bb:cc-0b");
    assert_eq!(first.kind, HueKind::Light);
    assert_eq!(lights_url("10.0.0.10", "abc"), "http://10.0.0.10/api/abc/lights");
}

#[test]
fn fetch_sensors_drops_internal_pseudo_sensors() {
    let devs = collect_sensors(&sensors());
    assert_eq!(devs.len(), 1);
    assert_eq!(devs[0].name, "Motion Hallway");
    assert_eq!(devs[0].kind, HueKind::Sensor);
    assert_eq!(sensors_url("10.0.0.10", "abc"), "http://10.0.0.10/api/abc/sensors");
}

#[test]
fn map_to_devices_preserves_firmware_relevant_data() {
    let mut all = collect_lights(&lights());
    all.extend(collect_sensors(&sensors()));
    let devices = hue_map(&all);
    assert_eq!(devices.len(), 3);
    assert!(devices.iter().all(|d| d.source == "hue"));
    let motion = devices.iter().find(|d| d.name == "Motion Hallway").unwrap();
    assert_eq!(motion.kind.as_deref(), Some("sensor"));
    assert_eq!(motion.model.as_deref(), Some("Hue motion sensor"));
}

#[test]
fn hue_sensor_type_stands_in_for_product_name() {
    let s = vec![HueSensor {
        name: String::new(),
        modelid: Some("M".to_string()),
        productname: None,
        manufacturername: None,
        swversion: None,
        uniqueid: Some("u1".to_string()),
        type_: "ZLLSwitch".to_string(),
    }];
    let d = hue_map(&collect_sensors(&s));
    assert_eq!(d[0].model.as_deref(), Some("ZLLSwitch"));
    assert_eq!(d[0].name, "u1");
}

// --- Shelly ---

#[test]
fn map_to_devices_assigns_manufacturer_and_kind() {
    let devs = vec![
        ShellyDevice {
            mac: "aaa".into(),
            ip: "1.1.1.1".into(),
            id: "shellyplus2pm-aaa".into(),
            model: "SNSW-002P16EU".into(),
            app: Some("Plus2PM".into()),
            firmware: "1.0.7".into(),
            gen: 2,
        },
        ShellyDevice {
            mac: "bbb".into(),
            ip: "1.1.1.2".into(),
            id: "shsw-25-bbb".into(),
            model: "SHSW-25".into(),
            app: None,
            firmware: "v1.14.0".into(),
            gen: 1,
        },
    ];
    let mapped = map_to_devices(&devs);
    assert_eq!(mapped.len(), 2);
    assert!(mapped.iter().all(|d| d.source == "shelly"));
    assert!(mapped.iter().all(|d| d.manufacturer.as_deref() == Some("Allterco Robotics")));
    assert_eq!(mapped.iter().find(|d| d.source_id == "aaa").unwrap().kind.as_deref(), Some("cover"));
    assert_eq!(mapped.iter().find(|d| d.source_id == "bbb").unwrap().kind.as_deref(), Some("switch"));
}

fn gen2_body() -> Gen2Info {
    Gen2Info {
        id: "shellyplus2pm-08b61fd83fdc".into(),
        mac: "08B61FD83FDC".into(),
        model: "SNSW-002P16EU".into(),
        ver: "1.0.7".into(),
        app: Some("Plus2PM".into()),
    }
}

fn gen1_body() -> Gen1Info {
    Gen1Info { type_: "SHSW-25".into(), mac: "C45BBE60FDE9".into(), fw: "20230913-114008/v1.14.0".into() }
}

#[test]
fn fetch_gen2_parses_firmware_and_mac() {
    let g2 = gen2_body();
    assert!(!needs_gen1(Some(&g2)));
    let d = fetch_info("10.0.0.5", Some(&g2), None).unwrap();
    assert_eq!(d.gen, 2);
    assert_eq!(d.mac, "08b61fd83fdc");
    assert_eq!(d.firmware, "1.0.7");
    assert_eq!(d.model, "SNSW-002P16EU");
    assert_eq!(d.app.as_deref(), Some("Plus2PM"));
    assert_eq!(d.ip, "10.0.0.5");
}

#[test]
fn fetch_falls_back_to_gen1_when_rpc_404() {
    assert!(needs_gen1(None));
    let g1 = gen1_body();
    let d = fetch_info("10.0.0.6", None, Some(&g1)).unwrap();
    assert_eq!(d.gen, 1);
    assert_eq!(d.mac, "c45bbe60fde9");
    assert_eq!(d.firmware, "20230913-114008/v1.14.0");
    assert_eq!(d.model, "SHSW-25");
    assert_eq!(d.id, "shsw-25-c45bbe60fde9");
}

#[test]
fn gen2_without_mac_falls_back_to_gen1() {
    let mut g2 = gen2_body();
    g2.mac = String::new();
    assert!(needs_gen1(Some(&g2)));
    let d = fetch_info("x", Some(&g2), Some(&gen1_body())).unwrap();
    assert_eq!(d.gen, 1);
    let mut g1 = gen1_body();
    g1.mac = String::new();
    assert_eq!(fetch_info("x", Some(&g2), Some(&g1)).unwrap_err(), FetchFault::EmptyMac { gen: 1 });
}

#[test]
fn fetch_handles_unknown_host_gracefully() {
    let ip = "127.0.0.1:1";
    assert!(ureq::get(&gen2_url(ip)).call().is_err());
    assert!(ureq::get(&gen1_url(ip)).call().is_err());
    let err = fetch_info(ip, None, None).unwrap_err();
    assert_eq!(err, FetchFault::Unreachable);
    let msg = err.message(ip);
    assert!(msg.contains("GET"));
    assert_eq!(msg, "GET http://127.0.0.1:1/shelly: keine Antwort");
}

#[test]
fn shelly_urls_and_hosts() {
    assert_eq!(gen2_url("10.0.0.5"), "http://10.0.0.5/rpc/Shelly.GetDeviceInfo");
    assert_eq!(gen1_url("10.0.0.5"), "http://10.0.0.5/shelly");
    assert!(is_shelly_host("ShellyPlus2PM-08B61F.local."));
    assert!(!is_shelly_host("printer.local."));
}

#[test]
fn addresses_are_sorted_and_unique() {
    let ips: Vec<String> = ["10.0.0.9", "10.0.0.10", "10.0.0.9", "192.168.1.2", "10.0.0.10"]
        .iter()
        .map(|s| s.to_string())
        .collect();
    let mut expected = ips.clone();
    expected.sort();
    expected.dedup();
    assert_eq!(sort_dedup(&ips), expected);
    assert_eq!(sort_dedup(&Vec::new()), Vec::<String>::new());
}

// --- CCU ---

const DEVICELIST: &str = r#"<?xml version="1.0"?>
<deviceList>
  <device name="Thermostat Bad" address="0001AAAAAAAAA1" interface="HmIP-RF" device_type="HmIP-WTH-2" firmware="2.6.4" updatable="0">
    <channel name="Thermostat Bad:0" address="0001AAAAAAAAA1:0"/>
  </device>
  <device name="Schalter Flur" address="MEQ0000001" interface="BidCos-RF" device_type="HM-LC-Sw1-FM" firmware="2.8" updatable="0"/>
  <device name="HmIP-RCV-50 HmIP-RCV-1" address="HmIP-RCV-1" interface="HmIP-RF" device_type="HmIP-RCV-50" firmware="" updatable="1"/>
  <device name="" address="OEQ0000001" interface="BidCos-RF" device_type="HM-Sec-SCo" firmware="1.0" updatable="0"/>
  <device name="ohne Adresse" address="" device_type="HM-X"/>
</deviceList>"#;

#[test]
fn parse_returns_four_raw_devices() {
    let devs = parse_devicelist(DEVICELIST).unwrap();
    assert_eq!(devs.len(), 4);
    assert_eq!(devs[0].address, "0001AAAAAAAAA1");
    assert_eq!(devs[0].firmware, "2.6.4");
    assert!(devs[2].updatable);
}

#[test]
fn parse_rejects_wrong_root() {
    let err = parse_devicelist("<wrongRoot/>").unwrap_err();
    assert_eq!(err, CcuError::UnexpectedRoot("wrongRoot".to_string()));
    assert!(err.message().contains("unerwartetes Root-Element"));
}

#[test]
fn parse_reports_broken_xml() {
    assert!(matches!(parse_devicelist("<deviceList>"), Err(CcuError::Xml(_))));
}

#[test]
fn map_filters_virtual_receivers() {
    let devs = parse_devicelist(DEVICELIST).unwrap();
    let mapped = ccu_map(&devs);
    assert_eq!(mapped.len(), 3);
    assert!(mapped.iter().all(|d| d.source == "ccu"));
    let ids: Vec<&str> = mapped.iter().map(|d| d.source_id.as_str()).collect();
    assert!(ids.contains(&"0001AAAAAAAAA1"));
    assert!(ids.contains(&"MEQ0000001"));
    assert!(ids.contains(&"OEQ0000001"));
}

#[test]
fn map_assigns_kind_and_manufacturer() {
    let mapped = ccu_map(&parse_devicelist(DEVICELIST).unwrap());
    let thermo = mapped.iter().find(|d| d.source_id == "0001AAAAAAAAA1").unwrap();
    assert_eq!(thermo.kind.as_deref(), Some("thermostat"));
    assert_eq!(thermo.manufacturer.as_deref(), Some("eQ-3"));
    assert_eq!(thermo.model.as_deref(), Some("HmIP-WTH-2"));
    let switch_dev = mapped.iter().find(|d| d.source_id == "MEQ0000001").unwrap();
    assert_eq!(switch_dev.kind.as_deref(), Some("switch"));
    let unnamed = mapped.iter().find(|d| d.source_id == "OEQ0000001").unwrap();
    assert_eq!(unnamed.name, "OEQ0000001");
    assert_eq!(unnamed.kind.as_deref(), Some("sensor"));
}

#[test]
fn ccu_kinds() {
    assert_eq!(ccu_kind_of("HM-LC-Bl1-FM"), "cover");
    assert_eq!(ccu_kind_of("HM-LC-Dim1T-FM"), "dimmer");
    assert_eq!(ccu_kind_of("HmIP-BRC2"), "other");
    assert_eq!(ccu_kind_of("HM-RC-4-2"), "button");
    assert_eq!(ccu_kind_of("hmip-wth-2"), "thermostat");
}

#[test]
fn ccu_request_and_auth() {
    assert_eq!(basic_auth_header("Admin", "pw"), "Basic QWRtaW46cHc=");
    let r = devicelist_request("http://ccu/", Some("Admin"), Some("pw")).unwrap();
    assert_eq!(r.url, "http://ccu/addons/xmlapi/devicelist.cgi");
    assert_eq!(r.authorization.as_deref(), Some("Basic QWRtaW46cHc="));
    let r = devicelist_request("http://ccu", None, None).unwrap();
    assert_eq!(r.authorization, None);
    assert_eq!(devicelist_request("http://ccu", Some("Admin"), None).unwrap_err(), CcuError::UserWithoutPassword);
    assert_eq!(devicelist_request("http://ccu", None, Some("pw")).unwrap_err(), CcuError::PasswordWithoutUser);
    assert_eq!(devicelist_request("http://ccu", Some(""), Some("")).unwrap().authorization, None);
    assert_eq!(devicelist_response("  <not_authenticated/> ").unwrap_err(), CcuError::NotAuthenticated);
}

// --- Home Assistant ---

const HA_FIXTURE: &str = r#"[
    {"entity_id": "light.kueche", "state": "on",
     "attributes": {"friendly_name": "Kueche Decke", "manufacturer": "IKEA Tradfri", "model": "LED2003G10"}},
    {"entity_id": "binary_sensor.tuer_eingang", "state": "off",
     "attributes": {"friendly_name": "Tuer Eingang"}},
    {"entity_id": "sensor.temperatur_wohnzimmer", "state": "21.5",
     "attributes": {"friendly_name": "Temp Wohnzimmer", "unit_of_measurement": "C"}},
    {"entity_id": "automation.morgens", "state": "on", "attributes": {}},
    {"entity_id": "weather.home", "state": "sunny", "attributes": {}},
    {"entity_id": "sun.sun", "state": "above_horizon", "attributes": {}}
]"#;

fn entities(json: &str) -> Vec<HaEntity> {
    let raw: serde_json::Value = serde_json::from_str(json).unwrap();
    raw.as_array()
        .unwrap()
        .iter()
        .map(|e| {
            let a = e.get("attributes").cloned().unwrap_or(serde_json::Value::Null);
            HaEntity {
                entity_id: str_or_empty(e, "entity_id"),
                state: str_or_empty(e, "state"),
                attributes: HaAttributes {
                    friendly_name: opt_str(&a, "friendly_name"),
                    manufacturer: opt_str(&a, "manufacturer"),
                    model: opt_str(&a, "model"),
                },
            }
        })
        .collect()
}

#[test]
fn map_filters_out_non_devices() {
    let devices = ha_map(&entities(HA_FIXTURE));
    assert_eq!(devices.len(), 3, "got: {devices:?}");
    assert!(devices.iter().all(|d| d.source == "ha"));
    let ids: Vec<&str> = devices.iter().map(|d| d.source_id.as_str()).collect();
    assert!(ids.contains(&"light.kueche"));
    assert!(ids.contains(&"binary_sensor.tuer_eingang"));
    assert!(ids.contains(&"sensor.temperatur_wohnzimmer"));
}

#[test]
fn map_preserves_friendly_name_manufacturer_kind() {
    let devices = ha_map(&entities(HA_FIXTURE));
    let kueche = devices.iter().find(|d| d.source_id == "light.kueche").unwrap();
    assert_eq!(kueche.name, "Kueche Decke");
    assert_eq!(kueche.manufacturer.as_deref(), Some("IKEA Tradfri"));
    assert_eq!(kueche.model.as_deref(), Some("LED2003G10"));
    assert_eq!(kueche.kind.as_deref(), Some("light"));
}

#[test]
fn map_falls_back_to_entity_id_when_no_friendly_name() {
    let json = r#"[{"entity_id": "switch.namenslos", "state": "on", "attributes": {}}]"#;
    let devices = ha_map(&entities(json));
    assert_eq!(devices[0].name, "switch.namenslos");
}

#[test]
fn fetch_states_handles_trailing_slash() {
    assert_eq!(states_url("http://ha:8123/"), "http://ha:8123/api/states");
    assert_eq!(states_url("http://ha:8123"), "http://ha:8123/api/states");
}

#[test]
fn ha_domains() {
    assert_eq!(domain_of("light.kueche"), "light");
    assert_eq!(domain_of("nodot"), "");
    assert!(is_device_entity("water_heater.boiler"));
    assert!(!is_device_entity("automation.morgens"));
    assert!(!is_device_entity("light"));
}

// --- Node-RED ---

fn to_json(v: &serde_json::Value) -> Json {
    match v {
        serde_json::Value::Null => Json::Null,
        serde_json::Value::Bool(b) => Json::Bool(*b),
        serde_json::Value::Number(n) => Json::Number(n.to_string()),
        serde_json::Value::String(s) => Json::Str(s.clone()),
        serde_json::Value::Array(a) => Json::Array(a.iter().map(to_json).collect()),
        serde_json::Value::Object(m) => Json::Object(m.iter().map(|(k, x)| (k.clone(), to_json(x))).collect()),
    }
}

fn from_json(v: &Json) -> serde_json::Value {
    match v {
        Json::Null => serde_json::Value::Null,
        Json::Bool(b) => serde_json::Value::Bool(*b),
        Json::Number(n) => serde_json::from_str(n).unwrap(),
        Json::Str(s) => serde_json::Value::String(s.clone()),
        Json::Array(a) => serde_json::Value::Array(a.iter().map(from_json).collect()),
        Json::Object(m) => serde_json::Value::Object(m.iter().map(|(k, x)| (k.clone(), from_json(x))).collect()),
    }
}

fn parse(raw: &str) -> Json {
    to_json(&serde_json::from_str::<serde_json::Value>(raw).unwrap())
}

fn text_of(v: &Json) -> String {
    serde_json::to_string(&from_json(v)).unwrap()
}

const FLOWS: &str = r#"[
    {"id": "tab1", "type": "tab", "label": "Test Flow"},
    {"id": "ccu1", "type": "ccu-connection", "name": "Test CCU", "host": "10.0.0.20",
     "username": "Admin", "password": "supersecret-do-not-leak"},
    {"id": "inj1", "type": "inject", "z": "tab1", "credential_secret": "inline-secret-key-abc123"},
    {"id": "set1", "type": "ccu-value", "iface": "BidCos-RF", "channel": "MEQ0123456:1"},
    {"id": "dbg1", "type": "debug", "complete": false, "port": 1880},
    {"id": "mqtt1", "type": "mqtt-broker", "credentials": {"user": "ha", "password": "ha-mqtt-pass-xyz789"}},
    {"id": "ha1", "type": "server", "api_key": "eyJ0eXAiOiJKV1Qi", "tokens": ["t1", "t2"]}
]"#;

#[test]
fn sanitize_masks_password_secret_token_credential_apikey() {
    let mut v = parse(FLOWS);
    sanitize(&mut v);
    let s = text_of(&v);
    assert!(!s.contains("supersecret-do-not-leak"), "ccu password leaked: {s}");
    assert!(!s.contains("inline-secret-key-abc123"), "credential_secret leaked: {s}");
    assert!(!s.contains("ha-mqtt-pass-xyz789"), "mqtt password leaked: {s}");
    assert!(!s.contains("eyJ0eXAi"), "api_key leaked: {s}");
    assert!(!s.contains("\"t1\""), "tokens leaked: {s}");
    assert!(s.contains("***masked***"), "no mask marker found: {s}");
}

#[test]
fn sanitize_preserves_non_sensitive_fields() {
    let mut v = parse(FLOWS);
    sanitize(&mut v);
    let s = text_of(&v);
    assert!(s.contains("Test Flow"));
    assert!(s.contains("Test CCU"));
    assert!(s.contains("10.0.0.20"));
    assert!(s.contains("\"Admin\""), "username Admin verloren");
    assert!(s.contains("BidCos-RF"));
    assert!(s.contains("MEQ0123456:1"));
    assert!(s.contains("1880"));
}

#[test]
fn sanitize_masks_nested_credentials_object() {
    let raw = r#"{
        "id": "x",
        "credentials": { "user": "alice", "password": "p4ss" }
    }"#;
    let mut v = parse(raw);
    sanitize(&mut v);
    let s = text_of(&v);
    assert!(!s.contains("p4ss"));
    assert!(!s.contains("alice"));
    assert!(s.contains("***masked***"));
}

#[test]
fn sanitize_twice_changes_nothing_more() {
    let mut once = parse(FLOWS);
    sanitize(&mut once);
    let mut twice = parse(FLOWS);
    sanitize(&mut twice);
    sanitize(&mut twice);
    assert_eq!(once, twice);
}

#[test]
fn is_sensitive_key_matches_common_credentials() {
    assert!(is_sensitive_key("password"));
    assert!(is_sensitive_key("PASSWORD"));
    assert!(is_sensitive_key("credential_secret"));
    assert!(is_sensitive_key("api_key"));
    assert!(is_sensitive_key("apiKey"));
    assert!(is_sensitive_key("client_secret"));
    assert!(is_sensitive_key("oauth_token"));
    assert!(!is_sensitive_key("username"));
    assert!(!is_sensitive_key("host"));
    assert!(!is_sensitive_key("port"));
    assert!(!is_sensitive_key("name"));
    assert!(!is_sensitive_key("type"));
}

#[test]
fn write_flows_yaml_sorts_array_by_id() {
    let v = parse(r#"[
        { "id": "z-last", "type": "foo" },
        { "id": "a-first", "type": "bar" },
        { "id": "m-middle", "type": "baz" }
    ]"#);
    let sorted = sort_by_id(v);
    let Json::Array(items) = &sorted else { panic!("expected an array") };
    let ids: Vec<String> = items.iter().map(|x| id_chars(x).into_iter().collect()).collect();
    assert_eq!(ids, vec!["a-first", "m-middle", "z-last"]);
}

#[test]
fn write_flows_yaml_input_order_does_not_change_output() {
    let v_a = parse(r#"[{ "id": "a", "v": 1 }, { "id": "b", "v": 2 }, { "id": "c", "v": 3 }]"#);
    let v_b = parse(r#"[{ "id": "c", "v": 3 }, { "id": "a", "v": 1 }, { "id": "b", "v": 2 }]"#);
    assert_eq!(sort_by_id(v_a), sort_by_id(v_b));
}

#[test]
fn write_flows_yaml_is_byte_identical_for_same_input() {
    assert_eq!(text_of(&sort_by_id(parse(FLOWS))), text_of(&sort_by_id(parse(FLOWS))));
}

#[test]
fn sort_keeps_order_of_equal_ids_and_leaves_non_arrays() {
    let v = parse(r#"[{"v": 1}, {"id": "b"}, {"v": 2}, {"id": 7, "v": 3}, "x"]"#);
    let sorted = text_of(&sort_by_id(v));
    assert_eq!(sorted, r#"[{"v":1},{"v":2},{"id":7,"v":3},"x",{"id":"b"}]"#);
    let obj = parse(r#"{"id": "only"}"#);
    assert_eq!(sort_by_id(parse(r#"{"id": "only"}"#)), obj);
}

#[test]
fn fetch_flows_handles_trailing_slash_on_base_url() {
    let r = flows_request("http://127.0.0.1:8123/", "nodered", "tok");
    assert_eq!(r.url, "http://127.0.0.1:8123/nodered/flows");
    assert_eq!(r.authorization, "Bearer tok");
    let r = flows_request("http://ha:8123//", "/api/hassio_ingress/abc123/", "tok");
    assert_eq!(r.url, "http://ha:8123/api/hassio_ingress/abc123/flows");
}

#[test]
fn fetch_flows_handles_empty_ingress_path() {
    assert_eq!(flows_request("http://ha", "", "t").url, "http://ha/flows");
    assert_eq!(flows_request("http://ha", "///", "t").url, "http://ha/flows");
}

#[test]
fn fetch_then_sanitize_then_write_is_idempotent_end_to_end() {
    let run = || {
        let mut v = parse(FLOWS);
        sanitize(&mut v);
        text_of(&sort_by_id(v))
    };
    assert_eq!(run(), run(), "two runs differ");
}

#[test]
fn half_configured_ccu_auth_is_refused() {
    let base = "http://ccu.example.local";
    assert_eq!(devicelist_request(base, Some("u"), None).unwrap_err(), CcuError::UserWithoutPassword);
    assert_eq!(devicelist_request(base, Some("u"), Some("")).unwrap_err(), CcuError::UserWithoutPassword);
    assert_eq!(devicelist_request(base, None, Some("p")).unwrap_err(), CcuError::PasswordWithoutUser);
    assert_eq!(devicelist_request(base, Some(""), Some("p")).unwrap_err(), CcuError::PasswordWithoutUser);
    assert!(CcuError::UserWithoutPassword.message().contains("CCU auth misconfigured"));
    assert!(CcuError::PasswordWithoutUser.message().contains("CCU auth misconfigured"));
}

#[test]
fn shelly_mac_loses_its_separators() {
    let mut g2 = gen2_body();
    g2.mac = "08:B6:1F:D8:3F:DC".into();
    let d = fetch_info("10.0.0.5", Some(&g2), None).unwrap();
    assert_eq!(d.mac, "08b61fd83fdc");
    let mut g1 = gen1_body();
    g1.mac = "C4-5B-BE-60-FD-E9".into();
    let d = fetch_info("10.0.0.6", None, Some(&g1)).unwrap();
    assert_eq!(d.mac, "c45bbe60fde9");
    assert_eq!(d.id, "shsw-25-c45bbe60fde9");
    let mut only_separators = gen2_body();
    only_separators.mac = "::".into();
    assert!(needs_gen1(Some(&only_separators)));
    let mut g1 = gen1_body();
    g1.mac = "-".into();
    assert_eq!(fetch_info("x", Some(&only_separators), Some(&g1)).unwrap_err(), FetchFault::EmptyMac { gen: 1 });
}
