use home_inventory::authgate::cookie::{make_cookie, verify_cookie};
use home_inventory::authgate::encoding::{hex_decode, hex_encode, html_escape, urldecode, urlencode};
use home_inventory::authgate::form::{cookie_value, parse_form, query_param, safe_rd};
use home_inventory::authgate::gate::{
    hashpw, login_reply, login_submit, password_from_line, route, route_reply, verify_reply, verify_request,
    Config, ConfigError, GateReply, GateRoute, LoginOutcome, Method, SecretSource, VerifyOutcome,
    PBKDF2_ROUNDS, SALT_LEN,
};
use home_inventory::authgate::pages::{login_page, set_cookie_value};
use home_inventory::authgate::users::{
    format_user_record, parse_user_record, parse_users, pbkdf2_hash, verify_password, UserRecord,
    UsersErrorKind,
};
use home_inventory::text::IntFault;
use std::time::{SystemTime, UNIX_EPOCH};

const SECRET: &[u8] = b"test-secret-32-bytes-long-aaaaaa";
const COOKIE_NAME: &str = "authgate_session";

fn now_unix() -> u64 {
    SystemTime::now().duration_since(UNIX_EPOCH).unwrap().as_secs()
}

fn random_bytes(n: usize) -> Vec<u8> {
    let mut buf = vec![0u8; n];
    getrandom::getrandom(&mut buf).unwrap();
    buf
}

// --- cookies ---

#[test]
fn cookie_roundtrip() {
    let exp = now_unix() + 100;
    let c = make_cookie(SECRET, "alice", exp);
    assert_eq!(verify_cookie(SECRET, &c, now_unix()).as_deref(), Some("alice"));
}

#[test]
fn cookie_rejected_when_expired() {
    let c = make_cookie(SECRET, "alice", now_unix() - 1);
    assert_eq!(verify_cookie(SECRET, &c, now_unix()), None);
}

#[test]
fn cookie_rejected_with_wrong_secret() {
    let c = make_cookie(SECRET, "alice", now_unix() + 100);
    assert_eq!(verify_cookie(b"other-secret-wrong-aaaaaaaaaaaaa", &c, now_unix()), None);
}

#[test]
fn cookie_rejected_when_tampered() {
    let exp = now_unix() + 100;
    let c = make_cookie(SECRET, "alice", exp);
    let forged = format!("v1.{}.{exp}.{}", hex_encode(b"admin"), c.rsplit('.').next().unwrap());
    assert_eq!(verify_cookie(SECRET, &forged, now_unix()), None);
}

#[test]
fn cookie_rejected_when_garbage() {
    for bad in ["", "v1", "v2.616c.1.ff", "not-a-cookie", "v1.zz.1.ff"] {
        assert_eq!(verify_cookie(SECRET, bad, now_unix()), None, "bad={bad}");
    }
}

#[test]
fn cookie_has_the_documented_shape() {
    let c = make_cookie(SECRET, "alice", 1234);
    let parts: Vec<&str> = c.split('.').collect();
    assert_eq!(parts.len(), 4);
    assert_eq!(parts[0], "v1");
    assert_eq!(parts[1], "616c696365");
    assert_eq!(parts[2], "1234");
    assert_eq!(parts[3].len(), 64);
}

#[test]
fn cookie_valid_until_its_expiry_second() {
    let c = make_cookie(SECRET, "bob", 1000);
    assert_eq!(verify_cookie(SECRET, &c, 999).as_deref(), Some("bob"));
    assert_eq!(verify_cookie(SECRET, &c, 1000), None);
}

// --- passwords ---

fn record(name: &str, pw: &str) -> UserRecord {
    let salt = random_bytes(SALT_LEN);
    let hash = pbkdf2_hash(pw.as_bytes(), &salt, 1000);
    UserRecord { name: name.to_string(), rounds: 1000, salt, hash }
}

#[test]
fn password_verifies_correct() {
    let rec = record("alice", "korrekt-pferd-batterie");
    assert!(verify_password(&rec, "korrekt-pferd-batterie"));
}

#[test]
fn password_rejects_wrong() {
    let rec = record("alice", "korrekt-pferd-batterie");
    assert!(!verify_password(&rec, "falsch"));
    assert!(!verify_password(&rec, ""));
}

#[test]
fn pbkdf2_matches_a_published_vector() {
    // RFC 7914, section 11: PBKDF2-HMAC-SHA256("passwd", "salt", 1).
    let h = pbkdf2_hash(b"passwd", b"salt", 1);
    assert_eq!(hex_encode(&h), "55ac046e56e3089fec1691c22544b605f94185216dde0465e68b9d57c20dacbc");
}

#[test]
fn user_record_parse_roundtrip() {
    let salt = random_bytes(SALT_LEN);
    let hash = pbkdf2_hash(b"pw", &salt, 5000);
    let line = format!("bob=5000${}${}", hex_encode(&salt), hex_encode(&hash));
    let users = parse_users(&line).unwrap();
    assert_eq!(users.len(), 1);
    assert_eq!(users[0].name, "bob");
    assert_eq!(users[0].rounds, 5000);
    assert!(verify_password(&users[0], "pw"));
}

#[test]
fn user_record_parse_rejects_bad_input() {
    assert!(parse_users("noequalsign").is_err());
    assert!(parse_users("u=notanumber$ab$cd").is_err());
    assert!(parse_users("u=1000$xy$cd").is_err());
    assert!(parse_users("bad name=1000$ab$cd").is_err());
    assert!(parse_users("u=1000$abcd$abcd").is_err());
}

#[test]
fn multiple_users_parse() {
    let s1 = random_bytes(SALT_LEN);
    let s2 = random_bytes(SALT_LEN);
    let raw = format!(
        "a=1000${}${} ; b=1000${}${}",
        hex_encode(&s1),
        hex_encode(&pbkdf2_hash(b"pw-a", &s1, 1000)),
        hex_encode(&s2),
        hex_encode(&pbkdf2_hash(b"pw-b", &s2, 1000)),
    );
    let users = parse_users(&raw).unwrap();
    assert_eq!(users.len(), 2);
}

#[test]
fn user_list_errors_name_their_kind() {
    let h = "00".repeat(32);
    assert_eq!(parse_users("noequalsign").err().unwrap().kind, UsersErrorKind::MissingEquals);
    assert_eq!(parse_users("bad name=1000$ab$cd").err().unwrap().kind, UsersErrorKind::InvalidName);
    assert_eq!(parse_users("u=x$ab$cd").err().unwrap().kind, UsersErrorKind::BadRounds);
    assert_eq!(parse_users("u=1000$xy$cd").err().unwrap().kind, UsersErrorKind::BadSalt);
    assert_eq!(parse_users("u=1000$ab").err().unwrap().kind, UsersErrorKind::BadHash);
    let e = parse_users("u=1000$ab$abcd").err().unwrap();
    assert_eq!(e.kind, UsersErrorKind::HashLength);
    assert_eq!(e.hash_len, 2);
    assert_eq!(e.message(), "Datensatz u: hash hat 2 Byte, erwartet 32");
    assert_eq!(
        parse_users(&format!("u=0$ab${h}")).err().unwrap().kind,
        UsersErrorKind::ZeroRounds
    );
    assert_eq!(
        parse_users("bad name=1").err().unwrap().message(),
        "ungueltiger Benutzername: \"bad name\""
    );
    assert_eq!(
        parse_users("noequalsign").err().unwrap().message(),
        "AUTHGATE_USERS-Eintrag ohne '=': noequalsign"
    );
}

#[test]
fn blank_entries_are_skipped() {
    let h = "00".repeat(32);
    let users = parse_users(&format!(" ; u=7$ab${h} ;; ")).unwrap();
    assert_eq!(users.len(), 1);
    assert_eq!(users[0].rounds, 7);
    assert_eq!(users[0].salt, vec![0xab]);
}

#[test]
fn formatted_record_parses_back() {
    let salt = vec![1u8, 2, 3];
    let hash = vec![7u8; 32];
    let line = format_user_record("carol", 42, &salt, &hash);
    assert_eq!(line, format!("carol=42$010203${}", "07".repeat(32)));
    let rec = parse_user_record("carol", &line["carol=".len()..]).unwrap();
    assert_eq!(rec.rounds, 42);
    assert_eq!(rec.salt, salt);
    assert_eq!(rec.hash, hash);
}

#[test]
fn hashpw_prints_a_parseable_record() {
    let salt = random_bytes(SALT_LEN);
    let line = hashpw("dave", "secret pw", &salt).unwrap();
    assert!(line.starts_with(&format!("dave={PBKDF2_ROUNDS}$")));
    let users = parse_users(&line).unwrap();
    assert_eq!(users[0].name, "dave");
    assert_eq!(users[0].salt, salt);
    assert_eq!(hashpw("no spaces", "x", &salt), None);
    assert_eq!(hashpw("", "x", &salt), None);
}

#[test]
fn password_line_drops_line_ends() {
    assert_eq!(password_from_line("geheim\r\n").as_deref(), Some("geheim"));
    assert_eq!(password_from_line(" a b \n").as_deref(), Some(" a b "));
    assert_eq!(password_from_line("\n"), None);
    assert_eq!(password_from_line(""), None);
}

// --- parsing helpers ---

#[test]
fn safe_rd_blocks_open_redirects() {
    assert_eq!(safe_rd("/api/devices"), "/api/devices");
    assert_eq!(safe_rd("/"), "/");
    assert_eq!(safe_rd("//evil.com"), "/");
    assert_eq!(safe_rd("https://evil.com"), "/");
    assert_eq!(safe_rd("/\\evil.com"), "/");
    assert_eq!(safe_rd("evil.com"), "/");
    assert_eq!(safe_rd(""), "/");
}

#[test]
fn urldecode_handles_percent_and_plus() {
    assert_eq!(urldecode("a%2Fb+c"), "a/b c");
    assert_eq!(urldecode("%41%42"), "AB");
    assert_eq!(urldecode("plain"), "plain");
}

#[test]
fn urldecode_keeps_broken_escapes() {
    assert_eq!(urldecode("100%"), "100%");
    assert_eq!(urldecode("%zz"), "%zz");
    assert_eq!(urldecode("%c3%a4"), "ä");
}

#[test]
fn urlencode_roundtrips_through_decode() {
    let plain = "/api/devices?q=a b&x=1";
    assert_eq!(urldecode(&urlencode(plain)), plain);
}

#[test]
fn urlencode_escapes_reserved_bytes() {
    assert_eq!(urlencode("/api/devices"), "%2Fapi%2Fdevices");
    assert_eq!(urlencode("a-b_c.d~e"), "a-b_c.d~e");
    assert_eq!(urlencode("ä"), "%C3%A4");
}

#[test]
fn parse_form_extracts_fields() {
    let form = parse_form("username=alice&password=p%40ss+word&rd=%2Fhome");
    let get = |k: &str| form.iter().find(|(a, _)| a == k).map(|(_, v)| v.as_str());
    assert_eq!(get("username"), Some("alice"));
    assert_eq!(get("password"), Some("p@ss word"));
    assert_eq!(get("rd"), Some("/home"));
}

#[test]
fn cookie_value_extracted_from_header() {
    let h = "foo=bar; authgate_session=abc.def; other=1";
    assert_eq!(cookie_value(h, COOKIE_NAME).as_deref(), Some("abc.def"));
    assert_eq!(cookie_value("foo=bar", COOKIE_NAME), None);
}

#[test]
fn query_param_finds_first_value() {
    assert_eq!(query_param("a=1&rd=%2Fx&rd=%2Fy", "rd"), "/x");
    assert_eq!(query_param("a=1", "rd"), "");
}

#[test]
fn hex_roundtrip() {
    let data = random_bytes(20);
    assert_eq!(hex_decode(&hex_encode(&data)).unwrap(), data);
    assert_eq!(hex_decode("odd"), None);
    assert_eq!(hex_decode("zz"), None);
}

#[test]
fn hex_accepts_upper_case() {
    assert_eq!(hex_decode("ABff").unwrap(), vec![0xab, 0xff]);
    assert_eq!(hex_encode(&[0, 15, 255]), "000fff");
}

#[test]
fn html_escape_covers_markup_and_quotes() {
    assert_eq!(html_escape("<a href=\"x\">&'</a>"), "&lt;a href=&quot;x&quot;&gt;&amp;'&lt;/a&gt;");
}

// --- gate decisions ---

fn user_env(name: &str, pw: &str) -> String {
    let salt = random_bytes(SALT_LEN);
    format!("{name}=1000${}${}", hex_encode(&salt), hex_encode(&pbkdf2_hash(pw.as_bytes(), &salt, 1000)))
}

fn config(users_env: &str) -> Config {
    Config {
        listen: "127.0.0.1:0".to_string(),
        header: "X-Authentik-Username".to_string(),
        ttl: 3600,
        secret: SECRET.to_vec(),
        users: parse_users(users_env).unwrap(),
        cookie_secure: false,
    }
}

#[test]
fn health_is_public() {
    assert_eq!(route(Method::Get, "/auth/health"), GateRoute::Health);
    assert_eq!(route(Method::Post, "/auth/health?x=1"), GateRoute::Health);
}

#[test]
fn routes_by_path_and_method() {
    assert_eq!(route(Method::Get, "/auth/verify"), GateRoute::Verify);
    assert_eq!(route(Method::Post, "/auth/login"), GateRoute::LoginSubmit);
    assert_eq!(route(Method::Other, "/auth/logout"), GateRoute::Logout);
    assert_eq!(route(Method::Other, "/auth/login"), GateRoute::NotFound);
    assert_eq!(route(Method::Get, "/elsewhere"), GateRoute::NotFound);
    assert_eq!(route(Method::Get, "/auth/login?rd=%2Fapi"), GateRoute::LoginForm("/api".to_string()));
    assert_eq!(route(Method::Get, "/auth/login?rd=%2F%2Fevil"), GateRoute::LoginForm("/".to_string()));
}

#[test]
fn verify_without_cookie_redirects_browser() {
    let cfg = config(&user_env("alice", "pw"));
    let r = verify_request(&cfg, None, Some("text/html"), Some("/api/devices"), now_unix());
    match r {
        VerifyOutcome::Redirect(loc) => {
            assert!(loc.starts_with("/auth/login?rd="), "loc={loc}");
            assert!(loc.contains("%2Fapi%2Fdevices"), "loc={loc}");
        }
        _ => panic!("expected a redirect"),
    }
}

#[test]
fn verify_without_cookie_returns_401_for_api() {
    let cfg = config(&user_env("alice", "pw"));
    let r = verify_request(&cfg, None, Some("application/json"), None, now_unix());
    assert_eq!(r, VerifyOutcome::Unauthorized);
}

#[test]
fn login_get_serves_form() {
    let page = login_page("/", None);
    assert!(page.contains("<form"));
    assert!(page.contains("name=\"password\""));
}

#[test]
fn login_page_escapes_target_and_error() {
    let page = login_page("/a\"b", Some("<bad>"));
    assert!(page.contains("value=\"/a&quot;b\""));
    assert!(page.contains("<p class=\"err\">&lt;bad&gt;</p>"));
}

#[test]
fn login_post_valid_sets_cookie_and_redirects() {
    let cfg = config(&user_env("alice", "geheim123"));
    let r = login_submit("username=alice&password=geheim123&rd=%2Fapi%2Fdevices", &cfg, now_unix());
    match r {
        LoginOutcome::Granted { location, set_cookie } => {
            assert_eq!(location, "/api/devices");
            assert!(set_cookie.starts_with("authgate_session="));
            assert!(set_cookie.contains("HttpOnly"));
        }
        _ => panic!("expected a granted login"),
    }
}

#[test]
fn login_post_invalid_returns_401() {
    let cfg = config(&user_env("alice", "geheim123"));
    let r = login_submit("username=alice&password=falsch&rd=%2F", &cfg, now_unix());
    match r {
        LoginOutcome::Denied { page } => assert!(page.contains("Anmeldung fehlgeschlagen.")),
        _ => panic!("expected a denied login"),
    }
    let r = login_submit("username=mallory&password=x", &cfg, now_unix());
    assert!(matches!(r, LoginOutcome::Denied { .. }));
}

#[test]
fn verify_with_valid_cookie_passes_and_sets_header() {
    let cfg = config(&user_env("alice", "pw"));
    let cookie = make_cookie(&cfg.secret, "alice", now_unix() + 3600);
    let header = format!("{COOKIE_NAME}={cookie}");
    let r = verify_request(&cfg, Some(&header), None, None, now_unix());
    assert_eq!(r, VerifyOutcome::Allow("alice".to_string()));
}

#[test]
fn verify_rejects_cookie_for_removed_user() {
    let cfg = config(&user_env("alice", "pw"));
    let cookie = make_cookie(&cfg.secret, "ghost", now_unix() + 3600);
    let header = format!("{COOKIE_NAME}={cookie}");
    let r = verify_request(&cfg, Some(&header), Some("application/json"), None, now_unix());
    assert_eq!(r, VerifyOutcome::Unauthorized);
}

#[test]
fn login_cookie_passes_verify() {
    let cfg = config(&user_env("erin", "pw"));
    let now = now_unix();
    let r = login_submit("username=erin&password=pw", &cfg, now);
    let LoginOutcome::Granted { set_cookie, .. } = r else { panic!("expected a granted login") };
    let value = set_cookie.split(';').next().unwrap().to_string();
    assert_eq!(verify_request(&cfg, Some(&value), None, None, now), VerifyOutcome::Allow("erin".to_string()));
}

#[test]
fn logout_clears_cookie() {
    let sc = set_cookie_value("", 0, false);
    assert!(sc.contains("Max-Age=0"), "sc={sc}");
    assert_eq!(sc, "authgate_session=; Path=/; HttpOnly; SameSite=Lax; Max-Age=0");
    assert!(set_cookie_value("x", 60, true).ends_with("; Max-Age=60; Secure"));
}

// --- configuration ---

#[test]
fn config_defaults() {
    let (cfg, src) = Config::from_vars(None, None, None, None, None, None, vec![9; 32]).ok().unwrap();
    assert_eq!(cfg.listen, "0.0.0.0:9000");
    assert_eq!(cfg.header, "X-Authentik-Username");
    assert_eq!(cfg.ttl, 28800);
    assert_eq!(cfg.secret, vec![9; 32]);
    assert!(cfg.users.is_empty());
    assert!(cfg.cookie_secure);
    assert_eq!(src, SecretSource::Generated);
}

#[test]
fn config_reads_given_values() {
    let (cfg, src) = Config::from_vars(
        Some("127.0.0.1:9"),
        Some("X-User"),
        Some("+60"),
        Some("  short  "),
        Some(""),
        Some("NO"),
        vec![],
    )
    .ok()
    .unwrap();
    assert_eq!(cfg.listen, "127.0.0.1:9");
    assert_eq!(cfg.header, "X-User");
    assert_eq!(cfg.ttl, 60);
    assert_eq!(cfg.secret, b"short".to_vec());
    assert_eq!(src, SecretSource::Given { short: true });
    assert!(!cfg.cookie_secure);
    let (_, src) = Config::from_vars(None, None, None, Some(&"k".repeat(16)), None, None, vec![]).ok().unwrap();
    assert_eq!(src, SecretSource::Given { short: false });
    let (cfg, src) = Config::from_vars(None, None, None, Some("   "), None, Some("yes"), vec![1]).ok().unwrap();
    assert_eq!(src, SecretSource::Generated);
    assert_eq!(cfg.secret, vec![1]);
    assert!(cfg.cookie_secure);
}

#[test]
fn config_refuses_bad_ttl() {
    let cases = [
        ("", IntFault::Empty, "cannot parse integer from empty string"),
        ("+", IntFault::InvalidDigit, "invalid digit found in string"),
        ("12h", IntFault::InvalidDigit, "invalid digit found in string"),
        ("-5", IntFault::InvalidDigit, "invalid digit found in string"),
        ("18446744073709551616", IntFault::PosOverflow, "number too large to fit in target type"),
        ("99999999999999999999x", IntFault::PosOverflow, "number too large to fit in target type"),
    ];
    for (raw, fault, text) in cases {
        let err = Config::from_vars(None, None, Some(raw), None, None, None, vec![]).err().unwrap();
        match &err {
            ConfigError::Ttl(f) => assert_eq!(*f, fault, "raw={raw}"),
            _ => panic!("expected a ttl error"),
        }
        assert_eq!(err.message(), format!("AUTHGATE_SESSION_TTL ungueltig: {text}"));
        assert_eq!(raw.parse::<u64>().unwrap_err().to_string(), text);
    }
    assert_eq!(
        Config::from_vars(None, None, Some("18446744073709551615"), None, None, None, vec![]).ok().unwrap().0.ttl,
        u64::MAX
    );
}

#[test]
fn config_refuses_bad_users() {
    let err = Config::from_vars(None, None, None, None, Some("nobody"), None, vec![]).err().unwrap();
    match err {
        ConfigError::Users(e) => assert_eq!(e.kind, UsersErrorKind::MissingEquals),
        _ => panic!("expected a user-list error"),
    }
}

#[test]
fn routes_have_their_replies() {
    assert_eq!(route_reply(GateRoute::Health, true), GateReply::Text { status: 200, body: "ok".into() });
    assert_eq!(route_reply(GateRoute::NotFound, true), GateReply::Text { status: 404, body: "not found".into() });
    assert_eq!(route_reply(GateRoute::Verify, false), GateReply::CheckSession);
    assert_eq!(route_reply(GateRoute::LoginSubmit, false), GateReply::CheckLogin);
    assert_eq!(
        route_reply(GateRoute::LoginForm("/x".into()), false),
        GateReply::Html { status: 200, body: login_page("/x", None) }
    );
    assert_eq!(
        route_reply(GateRoute::Logout, true),
        GateReply::Redirect {
            location: "/auth/login".into(),
            set_cookie: Some("authgate_session=; Path=/; HttpOnly; SameSite=Lax; Max-Age=0; Secure".into()),
        }
    );
}

#[test]
fn outcomes_have_their_replies() {
    assert_eq!(
        verify_reply(VerifyOutcome::Allow("alice".into()), "X-Authentik-Username"),
        GateReply::Allow { header: "X-Authentik-Username".into(), user: "alice".into() }
    );
    assert_eq!(verify_reply(VerifyOutcome::Unauthorized, "H"), GateReply::Text { status: 401, body: "unauthorized".into() });
    assert_eq!(
        verify_reply(VerifyOutcome::Redirect("/auth/login?rd=%2F".into()), "H"),
        GateReply::Redirect { location: "/auth/login?rd=%2F".into(), set_cookie: None }
    );
    assert_eq!(
        login_reply(LoginOutcome::Denied { page: "p".into() }),
        GateReply::Html { status: 401, body: "p".into() }
    );
    assert_eq!(
        login_reply(LoginOutcome::Granted { location: "/".into(), set_cookie: "c".into() }),
        GateReply::Redirect { location: "/".into(), set_cookie: Some("c".into()) }
    );
}
