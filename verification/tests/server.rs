use home_inventory::auth::{extract_user, find_header, Config};
use home_inventory::db::{
    ccu_firmware_readings, firmware_change_due, hue_firmware_readings, shelly_firmware_readings,
};
use home_inventory::sync::ccu::CcuDevice;
use home_inventory::sync::hue::{HueDevice, HueKind};
use home_inventory::sync::shelly::ShellyDevice;
use home_inventory::git_publish::{
    add_args, commit_and_push, is_dirty, publish_decision, publish_message, refusal_message,
    status_args, step_args, GitStep, PublishDecision, PublishResult,
};
use home_inventory::http::{handle, Reply};

const TEST_HEADER: &str = "X-Test-User";

fn strict() -> Config {
    Config { header_name: TEST_HEADER.into(), bypass: false }
}

fn bypass() -> Config {
    Config { header_name: TEST_HEADER.into(), bypass: true }
}

fn headers(pairs: &[(&str, &str)]) -> Vec<(String, String)> {
    pairs.iter().map(|(k, v)| (k.to_string(), v.to_string())).collect()
}

fn answer(cfg: &Config, method_get: bool, url: &str, hs: &[(&str, &str)]) -> Reply {
    let user = extract_user(&headers(hs), cfg);
    handle(method_get, url, user.as_deref())
}

#[test]
fn health_returns_ok_under_bypass() {
    assert_eq!(answer(&bypass(), true, "/health", &[]), Reply::Text { status: 200, body: "ok".into() });
}

#[test]
fn unknown_route_returns_404_when_authenticated() {
    assert_eq!(
        answer(&bypass(), true, "/does-not-exist", &[]),
        Reply::Text { status: 404, body: "not found".into() }
    );
}

#[test]
fn api_devices_returns_json_array_of_3() {
    assert_eq!(answer(&bypass(), true, "/api/devices", &[]), Reply::DevicesJson);
}

#[test]
fn root_returns_html_with_devices() {
    assert_eq!(answer(&bypass(), true, "/", &[]), Reply::DevicesPage);
}

#[test]
fn root_without_header_returns_401() {
    assert_eq!(answer(&strict(), true, "/", &[]), Reply::Text { status: 401, body: "unauthorized".into() });
}

#[test]
fn api_with_header_returns_200() {
    assert_eq!(answer(&strict(), true, "/api/devices", &[(TEST_HEADER, "alice")]), Reply::DevicesJson);
    assert_eq!(answer(&strict(), true, "/api/devices", &[("x-test-user", "alice")]), Reply::DevicesJson);
}

#[test]
fn api_with_bypass_returns_200_without_header() {
    assert_eq!(answer(&bypass(), true, "/api/devices", &[]), Reply::DevicesJson);
}

#[test]
fn health_is_public_even_under_strict_auth() {
    assert_eq!(answer(&strict(), true, "/health", &[]), Reply::Text { status: 200, body: "ok".into() });
}

#[test]
fn non_get_requests_are_not_served() {
    assert_eq!(answer(&strict(), false, "/health", &[]), Reply::Text { status: 401, body: "unauthorized".into() });
    assert_eq!(answer(&bypass(), false, "/", &[]), Reply::Text { status: 404, body: "not found".into() });
    assert_eq!(answer(&bypass(), true, "/?x=1", &[]), Reply::Text { status: 404, body: "not found".into() });
}

#[test]
fn user_comes_from_first_matching_header() {
    let hs = headers(&[("Accept", "*/*"), ("X-TEST-USER", "bob"), ("x-test-user", "eve")]);
    assert_eq!(extract_user(&hs, &strict()).as_deref(), Some("bob"));
    assert_eq!(extract_user(&hs, &bypass()).as_deref(), Some("dev"));
    assert_eq!(find_header(&hs, "accept").as_deref(), Some("*/*"));
    assert_eq!(find_header(&hs, "cookie"), None);
}

#[test]
fn auth_config_from_settings() {
    let c = Config::from_vars(None, None);
    assert_eq!(c.header_name, "X-Authentik-Username");
    assert!(!c.bypass);
    for on in ["1", "true", "yes"] {
        assert!(Config::from_vars(Some("H"), Some(on)).bypass);
    }
    for off in ["0", "TRUE", "on", ""] {
        assert!(!Config::from_vars(None, Some(off)).bypass);
    }
    assert_eq!(Config::from_vars(Some("X-User"), None).header_name, "X-User");
}

// --- publishing ---

#[test]
fn no_change_no_commit() {
    assert!(!is_dirty(""));
    assert!(!is_dirty("  \n"));
    let plan = commit_and_push(is_dirty(""), false);
    assert!(plan.steps.is_empty());
    assert!(!plan.result.committed);
}

#[test]
fn new_file_creates_commit() {
    assert!(is_dirty("?? yaml/ha.yaml\n"));
    let plan = commit_and_push(true, false);
    assert_eq!(plan.steps, vec![GitStep::Add, GitStep::Commit]);
    assert!(plan.result.committed);
    assert!(!plan.result.pushed);
}

#[test]
fn second_call_without_diff_is_noop() {
    assert_eq!(commit_and_push(false, true).result, PublishResult { committed: false, pushed: false });
    assert!(commit_and_push(false, true).steps.is_empty());
}

#[test]
fn modification_creates_another_commit() {
    assert!(is_dirty(" M ha.yaml\n"));
    assert!(commit_and_push(true, false).result.committed);
}

#[test]
fn push_to_local_bare_remote_works() {
    let plan = commit_and_push(true, true);
    assert_eq!(plan.steps, vec![GitStep::Add, GitStep::Commit, GitStep::Push]);
    assert_eq!(plan.result, PublishResult { committed: true, pushed: true });
}

#[test]
fn git_arguments() {
    let paths = vec!["yaml/ha.yaml".to_string(), "yaml".to_string()];
    assert_eq!(status_args(&paths), vec!["status", "--porcelain", "--", "yaml/ha.yaml", "yaml"]);
    assert_eq!(add_args(&paths), vec!["add", "--", "yaml/ha.yaml", "yaml"]);
    assert_eq!(step_args(GitStep::Commit, &paths, "auto-sync ha"), vec!["commit", "-m", "auto-sync ha"]);
    assert_eq!(step_args(GitStep::Push, &paths, "m"), vec!["push"]);
    assert_eq!(publish_message("hue"), "auto-sync hue");
}

#[test]
fn maybe_publish_refuses_without_confirm() {
    assert_eq!(publish_decision(true, None), PublishDecision::Refuse);
    assert_eq!(publish_decision(true, Some("   ")), PublishDecision::Refuse);
    assert!(refusal_message().contains("Refusing to push device inventory"));
    assert_eq!(
        publish_decision(true, Some(" git@github.com:me/inventory.git ")),
        PublishDecision::Publish { remote: "git@github.com:me/inventory.git".to_string() }
    );
}

#[test]
fn maybe_publish_noop_when_disabled() {
    assert_eq!(publish_decision(false, None), PublishDecision::Skip);
    assert_eq!(publish_decision(false, Some("origin")), PublishDecision::Skip);
}

// --- firmware snapshots ---

#[test]
fn firmware_first_call_inserts() {
    assert!(firmware_change_due(true, None, "1.0"));
}

#[test]
fn firmware_unchanged_does_not_insert() {
    assert!(!firmware_change_due(true, Some("1.0"), "1.0"));
}

#[test]
fn firmware_change_inserts_new_snapshot() {
    assert!(firmware_change_due(true, Some("1.0"), "1.1"));
}

#[test]
fn firmware_unknown_device_is_noop() {
    assert!(!firmware_change_due(false, None, "1.0"));
}

#[test]
fn firmware_readings_skip_devices_without_version() {
    let ccu = vec![
        CcuDevice {
            address: "A".into(),
            name: String::new(),
            device_type: "HmIP-WTH-2".into(),
            interface: String::new(),
            firmware: "2.6.4".into(),
            updatable: false,
        },
        CcuDevice {
            address: "B".into(),
            name: String::new(),
            device_type: "HmIP-RCV-50".into(),
            interface: String::new(),
            firmware: String::new(),
            updatable: true,
        },
    ];
    assert_eq!(ccu_firmware_readings(&ccu), vec![("A".to_string(), "2.6.4".to_string())]);
    let shelly = vec![ShellyDevice {
        mac: "m".into(),
        ip: "i".into(),
        id: String::new(),
        model: "SHSW-25".into(),
        app: None,
        firmware: String::new(),
        gen: 1,
    }];
    assert!(shelly_firmware_readings(&shelly).is_empty());
    let hue = vec![
        HueDevice {
            uniqueid: "u1".into(),
            name: String::new(),
            manufacturername: None,
            productname: None,
            modelid: None,
            swversion: Some("1.2".into()),
            kind: HueKind::Light,
        },
        HueDevice {
            uniqueid: "u2".into(),
            name: String::new(),
            manufacturername: None,
            productname: None,
            modelid: None,
            swversion: None,
            kind: HueKind::Sensor,
        },
    ];
    assert_eq!(hue_firmware_readings(&hue), vec![("u1".to_string(), "1.2".to_string())]);
}
