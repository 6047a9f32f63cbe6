//! The auth sidecar's decisions: which route a request takes, whether a request
//! carries a valid session, and what a login attempt is answered.
use vstd::prelude::*;
use vstd::utf8::*;
use crate::text::{
    ascii_lower, chars_of, contains_seq, equals_text, int_parse, parse_int_detailed, split_chars,
    split_on, split_once_chars, split_once_spec, str_contains, string_of, to_ascii_lower, trim_chars,
    trimmed, views_of, IntFault,
};
use crate::authgate::encoding::{url_encode_bytes, urlencode};
use crate::authgate::form::{
    cookie_value, cookie_value_in, form_pairs, pairs_view, parse_form, query_param, query_value, safe_rd,
    is_local_target,
};
use crate::authgate::cookie::{
    all_cookie_safe, cookie_safe_char, cookie_text, law_cookie_roundtrip, lemma_cookie_text_safe,
    is_valid_username, make_cookie, valid_username, verified_cookie_user, verify_cookie,
};
use crate::authgate::encoding::is_lower_hex_char;
use crate::authgate::form::starts_with;
use crate::authgate::users::{
    format_user_record, record_line, parse_users, pbkdf2_hash, pbkdf2_sha256, records_view, users_error_text, users_result,
    verify_password, UserRecord, UsersError,
};
use crate::authgate::pages::{login_page, login_page_text, set_cookie_text, set_cookie_value};

verus! {

/// PBKDF2 rounds for newly created password records.
pub const PBKDF2_ROUNDS: u32 = 600000;

/// Salt length for newly created password records.
pub const SALT_LEN: usize = 16;

/// The sidecar's runtime configuration.
pub struct Config {
    /// Listen address.
    pub listen: String,
    /// Header set on success; must match the inventory's auth header.
    pub header: String,
    /// Session lifetime in seconds.
    pub ttl: u64,
    /// HMAC key for cookie signatures.
    pub secret: Vec<u8>,
    /// Known users.
    pub users: Vec<UserRecord>,
    /// Whether the cookie carries `Secure`.
    pub cookie_secure: bool,
}

/// A setting's text, or the default where it is absent.
pub open spec fn or_default(v: Option<&str>, d: Seq<char>) -> Seq<char> {
    match v {
        Some(s) => s@,
        None => d,
    }
}

/// Values that switch the cookie's `Secure` attribute off (any ASCII case).
pub open spec fn secure_off(v: Seq<char>) -> bool {
    let l = ascii_lower(v);
    l == "false"@ || l == "0"@ || l == "no"@
}

/// Where the session secret came from.
#[derive(Debug, Clone, Copy, PartialEq, Eq)]
pub enum SecretSource {
    /// It was configured; `short` when under 16 bytes.
    Given { short: bool },
    /// None was configured; the random fallback is used.
    Generated,
}

/// Why the configuration was refused.
pub enum ConfigError {
    /// The session lifetime is no `u64`.
    Ttl(IntFault),
    /// The user list is refused.
    Users(UsersError),
}

/// std's text for an integer parse error.
pub open spec fn int_fault_text(f: IntFault) -> Seq<char> {
    match f {
        IntFault::Empty => "cannot parse integer from empty string"@,
        IntFault::InvalidDigit => "invalid digit found in string"@,
        IntFault::PosOverflow => "number too large to fit in target type"@,
    }
}

impl ConfigError {
    /// The message for the operator.
    pub fn message(&self) -> (r: String)
        ensures
            r@ == match self {
                ConfigError::Ttl(f) => "AUTHGATE_SESSION_TTL ungueltig: "@ + int_fault_text(*f),
                ConfigError::Users(e) => users_error_text(e.kind, e.subject@, e.hash_len as nat),
            },
    {
        match self {
            ConfigError::Ttl(f) => {
                let mut r = String::new();
                r.append("AUTHGATE_SESSION_TTL ungueltig: ");
                match f {
                    IntFault::Empty => r.append("cannot parse integer from empty string"),
                    IntFault::InvalidDigit => r.append("invalid digit found in string"),
                    IntFault::PosOverflow => r.append("number too large to fit in target type"),
                }
                assert(r@ =~= "AUTHGATE_SESSION_TTL ungueltig: "@ + int_fault_text(*f));
                r
            },
            ConfigError::Users(e) => e.message(),
        }
    }
}

impl Config {
    /// The configuration from the settings `AUTHGATE_LISTEN`,
    /// `AUTHGATE_HEADER`, `AUTHGATE_SESSION_TTL`, `AUTHGATE_SESSION_SECRET`,
    /// `AUTHGATE_USERS` and `AUTHGATE_COOKIE_SECURE` (`None` where absent),
    /// with `fallback_secret` used when no secret is configured. The lifetime
    /// is checked first, then the user list.
    pub fn from_vars(
        listen: Option<&str>,
        header: Option<&str>,
        ttl: Option<&str>,
        secret: Option<&str>,
        users: Option<&str>,
        cookie_secure: Option<&str>,
        fallback_secret: Vec<u8>,
    ) -> (r: Result<(Config, SecretSource), ConfigError>)
        ensures
            match int_parse(or_default(ttl, "28800"@), u64::MAX as nat) {
                Err(f) => r matches Err(ConfigError::Ttl(g)) && g == f,
                Ok(t) => match (match users {
                    Some(u) => users_result(split_on(u@, ';')),
                    None => Ok(Seq::empty()),
                }) {
                    Err(x) => r matches Err(ConfigError::Users(e)) && e.view_tuple() == x,
                    Ok(recs) => r matches Ok((c, src)) && {
                        &&& c.listen@ == or_default(listen, "0.0.0.0:9000"@)
                        &&& c.header@ == or_default(header, "X-Authentik-Username"@)
                        &&& c.ttl == t
                        &&& records_view(c.users@) == recs
                        &&& c.cookie_secure == !secure_off(or_default(cookie_secure, "true"@))
                        &&& match secret {
                            Some(s) if trimmed(s@).len() > 0 => {
                                &&& c.secret@ == encode_utf8(trimmed(s@))
                                &&& src == (SecretSource::Given { short: encode_utf8(trimmed(s@)).len() < 16 })
                            },
                            _ => c.secret@ == fallback_secret@ && src == SecretSource::Generated,
                        }
                    },
                },
            },
    {
        let ttl_text = match ttl {
            Some(t) => chars_of(t),
            None => chars_of("28800"),
        };
        let ttl_value = match parse_int_detailed(ttl_text.as_slice(), u64::MAX) {
            Ok(n) => n,
            Err(f) => {
                return Err(ConfigError::Ttl(f));
            },
        };
        let (key, src) = match secret {
            Some(s) => {
                let t = trim_chars(chars_of(s).as_slice());
                if t.len() > 0 {
                    let st = string_of(t.as_slice());
                    let b = st.as_str().as_bytes();
                    let mut bytes: Vec<u8> = Vec::new();
                    let mut i: usize = 0;
                    while i < b.len()
                        invariant
                            i <= b@.len(),
                            bytes@ == b@.take(i as int),
                        decreases b@.len() - i,
                    {
                        bytes.push(b[i]);
                        i = i + 1;
                        assert(bytes@ =~= b@.take(i as int));
                    }
                    assert(b@.take(b@.len() as int) =~= b@);
                    let short = bytes.len() < 16;
                    (bytes, SecretSource::Given { short })
                } else {
                    (fallback_secret, SecretSource::Generated)
                }
            },
            None => (fallback_secret, SecretSource::Generated),
        };
        let records = match users {
            Some(u) => match parse_users(u) {
                Ok(v) => v,
                Err(e) => {
                    return Err(ConfigError::Users(e));
                },
            },
            None => Vec::new(),
        };
        let cookie_text = match cookie_secure {
            Some(c) => chars_of(c),
            None => chars_of("true"),
        };
        let lower = to_ascii_lower(cookie_text.as_slice());
        let off = equals_text(lower.as_slice(), "false") || equals_text(lower.as_slice(), "0")
            || equals_text(lower.as_slice(), "no");
        let listen_text = match listen {
            Some(l) => string_of(chars_of(l).as_slice()),
            None => string_of(chars_of("0.0.0.0:9000").as_slice()),
        };
        let header_text = match header {
            Some(h) => string_of(chars_of(h).as_slice()),
            None => string_of(chars_of("X-Authentik-Username").as_slice()),
        };
        Ok((
            Config {
                listen: listen_text,
                header: header_text,
                ttl: ttl_value,
                secret: key,
                users: records,
                cookie_secure: !off,
            },
            src,
        ))
    }
}

/// The request methods the sidecar tells apart.
#[derive(Clone, Copy, PartialEq, Eq, Structural, Debug)]
pub enum Method {
    Get,
    Post,
    Other,
}

/// Where a request goes.
#[derive(PartialEq, Eq, Debug)]
pub enum GateRoute {
    /// `/auth/health`, any method.
    Health,
    /// `/auth/verify`, any method.
    Verify,
    /// `GET /auth/login`, with the checked redirect target from `rd`.
    LoginForm(String),
    /// `POST /auth/login`.
    LoginSubmit,
    /// `/auth/logout`, any method.
    Logout,
    /// Anything else.
    NotFound,
}

/// The path of a raw URL: everything before the first `?`.
pub open spec fn url_path(url: Seq<char>) -> Seq<char> {
    split_on(url, '?')[0]
}

/// The query of a raw URL: everything after the first `?`, or nothing.
pub open spec fn url_query(url: Seq<char>) -> Seq<char> {
    match split_once_spec(url, '?') {
        Some((_, q)) => q,
        None => seq![],
    }
}

/// The route `route` picks, without the login form's target.
pub open spec fn route_of(method: Method, url: Seq<char>) -> GateRouteKind {
    let p = url_path(url);
    if p == "/auth/health"@ {
        GateRouteKind::Health
    } else if p == "/auth/verify"@ {
        GateRouteKind::Verify
    } else if p == "/auth/login"@ && method == Method::Get {
        GateRouteKind::LoginForm
    } else if p == "/auth/login"@ && method == Method::Post {
        GateRouteKind::LoginSubmit
    } else if p == "/auth/logout"@ {
        GateRouteKind::Logout
    } else {
        GateRouteKind::NotFound
    }
}

/// The kinds of `GateRoute`.
#[derive(Clone, Copy, PartialEq, Eq, Structural, Debug)]
pub enum GateRouteKind {
    Health,
    Verify,
    LoginForm,
    LoginSubmit,
    Logout,
    NotFound,
}

/// The kind of a route.
pub open spec fn route_kind(r: GateRoute) -> GateRouteKind {
    match r {
        GateRoute::Health => GateRouteKind::Health,
        GateRoute::Verify => GateRouteKind::Verify,
        GateRoute::LoginForm(_) => GateRouteKind::LoginForm,
        GateRoute::LoginSubmit => GateRouteKind::LoginSubmit,
        GateRoute::Logout => GateRouteKind::Logout,
        GateRoute::NotFound => GateRouteKind::NotFound,
    }
}

/// The checked redirect target `safe_rd` makes of `rd`.
pub open spec fn safe_target(rd: Seq<char>) -> Seq<char> {
    if is_local_target(rd) {
        rd
    } else {
        seq!['/']
    }
}

fn is_text(v: &[char], lit: &str) -> (r: bool)
    ensures
        r == (v@ == lit@),
{
    let w = chars_of(lit);
    if v.len() != w.len() {
        return false;
    }
    let mut i: usize = 0;
    while i < v.len()
        invariant
            v@.len() == w@.len(),
            w@ == lit@,
            i <= v@.len(),
            forall|j: int| 0 <= j < i ==> v@[j] == w@[j],
        decreases v@.len() - i,
    {
        if v[i] != w[i] {
            return false;
        }
        i = i + 1;
    }
    assert(v@ =~= w@);
    true
}

/// Routes a request by method and raw URL.
pub fn route(method: Method, raw_url: &str) -> (r: GateRoute)
    ensures
        route_kind(r) == route_of(method, raw_url@),
        r matches GateRoute::LoginForm(rd) ==> rd@ == safe_target(
            query_value(split_on(url_query(raw_url@), '&'), "rd"@),
        ),
{
    let u = chars_of(raw_url);
    let pieces = split_chars(u.as_slice(), '?');
    proof {
        crate::text::lemma_split_on_nonempty(u@, '?');
    }
    assert(views_of(pieces@)[0] == pieces@[0]@);
    let path = &pieces[0];
    if is_text(path.as_slice(), "/auth/health") {
        GateRoute::Health
    } else if is_text(path.as_slice(), "/auth/verify") {
        GateRoute::Verify
    } else if is_text(path.as_slice(), "/auth/login") && method == Method::Get {
        let query: Vec<char> = match split_once_chars(u.as_slice(), '?') {
            Some((_, q)) => q,
            None => Vec::new(),
        };
        let rd = query_param(string_of(query.as_slice()).as_str(), "rd");
        GateRoute::LoginForm(safe_rd(rd.as_str()))
    } else if is_text(path.as_slice(), "/auth/login") && method == Method::Post {
        GateRoute::LoginSubmit
    } else if is_text(path.as_slice(), "/auth/logout") {
        GateRoute::Logout
    } else {
        GateRoute::NotFound
    }
}

/// The answer to a forward-auth check.
#[derive(PartialEq, Eq, Debug)]
pub enum VerifyOutcome {
    /// 200, with the user name in the configured header.
    Allow(String),
    /// 302 to the login page (browsers); the `Location` value.
    Redirect(String),
    /// 401 (everything else).
    Unauthorized,
}

/// The configured user names include `u`.
pub open spec fn has_user(users: Seq<UserRecord>, u: Seq<char>) -> bool {
    exists|i: int| 0 <= i < users.len() && (#[trigger] users[i]).name@ == u
}

/// The user a request's `Cookie` header authenticates: a valid session
/// cookie for a user that is still configured.
pub open spec fn session_user(
    secret: Seq<u8>,
    users: Seq<UserRecord>,
    cookie_header: Option<Seq<char>>,
    now: nat,
) -> Option<Seq<char>> {
    match cookie_header {
        None => None,
        Some(h) => match cookie_value_in(split_on(h, ';'), "authgate_session"@) {
            None => None,
            Some(v) => match verified_cookie_user(secret, v, now) {
                None => None,
                Some(u) => if has_user(users, u) {
                    Some(u)
                } else {
                    None
                },
            },
        },
    }
}

/// Where a browser is sent to log in: back to the forwarded target after.
pub open spec fn login_redirect(forwarded_uri: Option<Seq<char>>) -> Seq<char> {
    "/auth/login?rd="@ + url_encode_bytes(
        encode_utf8(
            match forwarded_uri {
                Some(t) => t,
                None => seq!['/'],
            },
        ),
    )
}

/// Decides a forward-auth check from the request's `Cookie`, `Accept` and
/// `X-Forwarded-Uri` headers and the current time.
pub fn verify_request(
    cfg: &Config,
    cookie_header: Option<&str>,
    accept: Option<&str>,
    forwarded_uri: Option<&str>,
    now: u64,
) -> (r: VerifyOutcome)
    ensures
        ({
            let ch = match cookie_header { Some(c) => Some(c@), None => None };
            let fu = match forwarded_uri { Some(f) => Some(f@), None => None };
            match session_user(cfg.secret@, cfg.users@, ch, now as nat) {
                Some(u) => r matches VerifyOutcome::Allow(x) && x@ == u,
                None => if (accept matches Some(a) && contains_seq(a@, "text/html"@)) {
                    r matches VerifyOutcome::Redirect(loc) && loc@ == login_redirect(fu)
                } else {
                    r matches VerifyOutcome::Unauthorized
                },
            }
        }),
{
    let mut user: Option<String> = None;
    match cookie_header {
        Some(h) => match cookie_value(h, "authgate_session") {
            Some(v) => match verify_cookie(cfg.secret.as_slice(), v.as_str(), now) {
                Some(u) => {
                    let mut found = false;
                    let mut i: usize = 0;
                    while i < cfg.users.len()
                        invariant
                            i <= cfg.users@.len(),
                            found == (exists|j: int| 0 <= j < i && (#[trigger] cfg.users@[j]).name@ == u@),
                        decreases cfg.users@.len() - i,
                    {
                        if cfg.users[i].name == u {
                            found = true;
                        }
                        i = i + 1;
                    }
                    if found {
                        user = Some(u);
                    }
                },
                None => {},
            },
            None => {},
        },
        None => {},
    }
    match user {
        Some(u) => VerifyOutcome::Allow(u),
        None => {
            let wants_html = match accept {
                Some(a) => str_contains(a, "text/html"),
                None => false,
            };
            if wants_html {
                let target = match forwarded_uri {
                    Some(t) => t,
                    None => "/",
                };
                let mut loc = String::new();
                loc.append("/auth/login?rd=");
                let enc = urlencode(target);
                loc.append(enc.as_str());
                proof {
                    if forwarded_uri is None {
                        assert(target@ == "/"@);
                        reveal_strlit("/");
                        assert("/"@ =~= seq!['/']);
                    }
                }
                VerifyOutcome::Redirect(loc)
            } else {
                VerifyOutcome::Unauthorized
            }
        },
    }
}


/// The value of the first form pair named `k`, or nothing.
pub open spec fn form_field(pairs: Seq<(Seq<char>, Seq<char>)>, k: Seq<char>) -> Seq<char>
    decreases pairs.len(),
{
    if pairs.len() == 0 {
        seq![]
    } else if pairs[0].0 == k {
        pairs[0].1
    } else {
        form_field(pairs.drop_first(), k)
    }
}

/// The first configured user with name `name`.
pub open spec fn find_user(users: Seq<UserRecord>, name: Seq<char>) -> Option<UserRecord>
    decreases users.len(),
{
    if users.len() == 0 {
        None
    } else if users[0].name@ == name {
        Some(users[0])
    } else {
        find_user(users.drop_first(), name)
    }
}

/// The answer to a login form submission.
#[derive(PartialEq, Eq, Debug)]
pub enum LoginOutcome {
    /// 302 to `location`, setting the session cookie with `set_cookie`.
    Granted { location: String, set_cookie: String },
    /// 401 with the login page showing an error.
    Denied { page: String },
}

/// The credentials of a login form are those of a configured user.
pub open spec fn credentials_ok(users: Seq<UserRecord>, username: Seq<char>, password: Seq<char>) -> bool {
    match find_user(users, username) {
        Some(rec) => pbkdf2_sha256(encode_utf8(password), rec.salt@, rec.rounds) == rec.hash@,
        None => false,
    }
}

fn form_lookup(form: &Vec<(String, String)>, key: &str) -> (r: String)
    ensures
        r@ == form_field(pairs_view(form@), key@),
{
    let k = chars_of(key);
    let mut i: usize = 0;
    let ghost pv = pairs_view(form@);
    assert(pv.skip(0) =~= pv);
    while i < form.len()
        invariant
            pv == pairs_view(form@),
            k@ == key@,
            i <= form@.len(),
            form_field(pv, key@) == form_field(pv.skip(i as int), key@),
        decreases form@.len() - i,
    {
        let ghost rest = pv.skip(i as int);
        assert(rest[0] == (form@[i as int].0@, form@[i as int].1@));
        assert(rest.drop_first() =~= pv.skip(i + 1));
        let name = chars_of(form[i].0.as_str());
        if is_text(name.as_slice(), key) {
            return form[i].1.clone();
        }
        i = i + 1;
    }
    assert(pv.skip(i as int) =~= Seq::<(Seq<char>, Seq<char>)>::empty());
    String::new()
}

/// Decides a login form submission at time `now`: with the credentials of
/// a configured user, a redirect to the checked target setting a cookie that
/// expires `ttl` seconds later; otherwise the login page with an error.
/// For an unknown user a PBKDF2 hash is still computed, so that the time
/// taken does not tell which user names exist.
pub fn login_submit(body: &str, cfg: &Config, now: u64) -> (r: LoginOutcome)
    requires
        now + cfg.ttl <= u64::MAX,
    ensures
        ({
            let pairs = form_pairs(split_on(body@, '&'));
            let un = form_field(pairs, "username"@);
            let pw = form_field(pairs, "password"@);
            let rd = safe_target(form_field(pairs, "rd"@));
            if credentials_ok(cfg.users@, un, pw) {
                r matches LoginOutcome::Granted { location, set_cookie } && location@ == rd
                    && set_cookie@ == set_cookie_text(
                    cookie_text(cfg.secret@, un, (now + cfg.ttl) as nat),
                    (#[verifier::truncate] (cfg.ttl as i64)) as int,
                    cfg.cookie_secure,
                )
            } else {
                r matches LoginOutcome::Denied { page } && page@ == login_page_text(
                    rd,
                    Some("Anmeldung fehlgeschlagen."@),
                )
            }
        }),
{
    let form = parse_form(body);
    let username = form_lookup(&form, "username");
    let password = form_lookup(&form, "password");
    let rd_raw = form_lookup(&form, "rd");
    let rd = safe_rd(rd_raw.as_str());
    let mut found: Option<usize> = None;
    let mut i: usize = 0;
    let ghost us = cfg.users@;
    assert(us.skip(0) =~= us);
    while found.is_none() && i < cfg.users.len()
        invariant
            us == cfg.users@,
            i <= us.len(),
            found matches Some(j) ==> j < us.len() && find_user(us, username@) == Some(us[j as int]),
            found is None ==> find_user(us, username@) == find_user(us.skip(i as int), username@),
        decreases us.len() - i,
    {
        let ghost rest = us.skip(i as int);
        assert(rest[0] == us[i as int]);
        assert(rest.drop_first() =~= us.skip(i + 1));
        if cfg.users[i].name == username {
            found = Some(i);
        }
        i = i + 1;
    }
    let ok = match found {
        Some(j) => verify_password(&cfg.users[j], password.as_str()),
        None => {
            assert(us.skip(i as int) =~= Seq::<UserRecord>::empty());
            let _ = pbkdf2_hash(password.as_str().as_bytes(), "authgate-dummy".as_bytes(), PBKDF2_ROUNDS);
            false
        },
    };
    if !ok {
        return LoginOutcome::Denied { page: login_page(rd.as_str(), Some("Anmeldung fehlgeschlagen.")) };
    }
    let exp = now + cfg.ttl;
    let cookie = make_cookie(cfg.secret.as_slice(), username.as_str(), exp);
    let set_cookie = set_cookie_value(cookie.as_str(), #[verifier::truncate] (cfg.ttl as i64), cfg.cookie_secure);
    LoginOutcome::Granted { location: rd, set_cookie }
}


/// The `Cookie` header a browser sends back for a session cookie value.
pub open spec fn session_cookie_header(value: Seq<char>) -> Seq<char> {
    "authgate_session="@ + value
}

/// The cookie that a granted login sets is accepted by the forward-auth
/// check, for the logged-in user, until it expires (the user name being a
/// valid one, as every parsed user record's name is).
pub proof fn law_login_cookie_passes_verify(
    secret: Seq<u8>,
    users: Seq<UserRecord>,
    user: Seq<char>,
    exp: u64,
    now: u64,
)
    requires
        valid_username(user),
        has_user(users, user),
        now < exp,
    ensures
        session_user(
            secret,
            users,
            Some(session_cookie_header(cookie_text(secret, user, exp as nat))),
            now as nat,
        ) == Some(user),
{
    let c = cookie_text(secret, user, exp as nat);
    lemma_cookie_text_safe(secret, user, exp);
    law_cookie_roundtrip(secret, user, exp, now);
    reveal_strlit("authgate_session=");
    reveal_strlit("authgate_session");
    let name = "authgate_session"@;
    let h = session_cookie_header(c);
    assert(h =~= name + seq!['='] + c);
    assert forall|i: int| 0 <= i < h.len() implies h[i] != ';' by {
        if i >= name.len() + 1 {
            assert(h[i] == c[i - name.len() - 1]);
            assert(cookie_safe_char(c[i - name.len() - 1]));
        }
    }
    crate::text::lemma_split_on_single(h, ';');
    assert(h.last() == c.last());
    assert(cookie_safe_char(c[c.len() - 1]));
    crate::text::lemma_trimmed_id(h);
    assert(h.take(name.len() as int + 1) =~= name + seq!['=']);
    assert(h.skip(name.len() as int + 1) =~= c);
    assert(split_on(h, ';').drop_first() =~= Seq::<Seq<char>>::empty());
    assert(cookie_value_in(split_on(h, ';'), name) == Some(c));
}

/// Every post-login target passes the open-redirect guard: it is a path
/// on this site, whatever the form asked for.
pub proof fn law_redirect_target_stays_local(rd: Seq<char>)
    ensures
        is_local_target(safe_target(rd)),
{
}

/// A session only ever names a configured user: removing a user ends the
/// sessions that user still holds.
pub proof fn law_session_needs_configured_user(
    secret: Seq<u8>,
    users: Seq<UserRecord>,
    cookie_header: Option<Seq<char>>,
    now: nat,
)
    ensures
        session_user(secret, users, cookie_header, now) matches Some(u) ==> has_user(users, u),
{
}

/// The record line for a new password: `user=600000$salt$hash` with the
/// PBKDF2 hash of `password` under `salt`; `None` for a user name that is
/// empty or has characters outside `a-z A-Z 0-9 . _ - @`.
pub fn hashpw(user: &str, password: &str, salt: &[u8]) -> (r: Option<String>)
    ensures
        !valid_username(user@) ==> r is None,
        valid_username(user@) ==> (r matches Some(line) && line@ == record_line(
            user@,
            PBKDF2_ROUNDS,
            salt@,
            pbkdf2_sha256(encode_utf8(password@), salt@, PBKDF2_ROUNDS),
        )),
{
    if !is_valid_username(chars_of(user).as_slice()) {
        return None;
    }
    let hash = pbkdf2_hash(password.as_bytes(), salt, PBKDF2_ROUNDS);
    Some(format_user_record(user, PBKDF2_ROUNDS, salt, hash.as_slice()))
}

/// `s` without trailing line-end characters (`\n`, `\r`).
pub open spec fn strip_line_end(s: Seq<char>) -> Seq<char>
    decreases s.len(),
{
    if s.len() > 0 && (s.last() == '\n' || s.last() == '\r') {
        strip_line_end(s.drop_last())
    } else {
        s
    }
}

/// The password typed on a line: the line without its line end; `None`
/// when nothing is left.
pub fn password_from_line(line: &str) -> (r: Option<String>)
    ensures
        strip_line_end(line@).len() == 0 ==> r is None,
        strip_line_end(line@).len() > 0 ==> (r matches Some(p) && p@ == strip_line_end(line@)),
{
    let v = chars_of(line);
    let mut n: usize = v.len();
    assert(v@.take(n as int) =~= v@);
    while n > 0 && (v[n - 1] == '\n' || v[n - 1] == '\r')
        invariant
            n <= v@.len(),
            strip_line_end(v@) == strip_line_end(v@.take(n as int)),
        decreases n,
    {
        assert(v@.take(n as int).drop_last() =~= v@.take(n - 1));
        n = n - 1;
    }
    if n == 0 {
        return None;
    }
    let mut out: Vec<char> = Vec::new();
    let mut i: usize = 0;
    while i < n
        invariant
            i <= n <= v@.len(),
            out@ == v@.take(i as int),
        decreases n - i,
    {
        out.push(v[i]);
        i = i + 1;
        assert(out@ =~= v@.take(i as int));
    }
    Some(string_of(out.as_slice()))
}

/// The answer the sidecar gives.
#[derive(Debug, PartialEq, Eq)]
pub enum GateReply {
    /// A plain-text answer (`text/plain; charset=utf-8`).
    Text { status: u16, body: String },
    /// An HTML page (`text/html; charset=utf-8`).
    Html { status: u16, body: String },
    /// 302 to `location`, setting the session cookie when one is given.
    Redirect { location: String, set_cookie: Option<String> },
    /// 200 `ok`, with the user name in the header named `header`.
    Allow { header: String, user: String },
    /// The session cookie has to be checked (`verify_request`, then
    /// `verify_reply`).
    CheckSession,
    /// The login form has to be read and checked (`login_submit`, then
    /// `login_reply`).
    CheckLogin,
}

/// A reply as plain values.
pub enum GateReplyView {
    Text(u16, Seq<char>),
    Html(u16, Seq<char>),
    Redirect(Seq<char>, Option<Seq<char>>),
    Allow(Seq<char>, Seq<char>),
    CheckSession,
    CheckLogin,
}

/// A reply as plain values.
pub open spec fn reply_view(r: GateReply) -> GateReplyView {
    match r {
        GateReply::Text { status, body } => GateReplyView::Text(status, body@),
        GateReply::Html { status, body } => GateReplyView::Html(status, body@),
        GateReply::Redirect { location, set_cookie } => GateReplyView::Redirect(
            location@,
            match set_cookie {
                Some(c) => Some(c@),
                None => None,
            },
        ),
        GateReply::Allow { header, user } => GateReplyView::Allow(header@, user@),
        GateReply::CheckSession => GateReplyView::CheckSession,
        GateReply::CheckLogin => GateReplyView::CheckLogin,
    }
}

/// What each route answers: `ok` for health, the login form with its
/// checked target, a redirect to the login page that clears the session
/// cookie for logout, 404 `not found` elsewhere; verify and login submit
/// need the request's headers or body first.
pub open spec fn route_reply_spec(route: GateRoute, cookie_secure: bool) -> GateReplyView {
    match route {
        GateRoute::Health => GateReplyView::Text(200, "ok"@),
        GateRoute::Verify => GateReplyView::CheckSession,
        GateRoute::LoginForm(rd) => GateReplyView::Html(200, login_page_text(rd@, None)),
        GateRoute::LoginSubmit => GateReplyView::CheckLogin,
        GateRoute::Logout => GateReplyView::Redirect(
            "/auth/login"@,
            Some(set_cookie_text(seq![], 0, cookie_secure)),
        ),
        GateRoute::NotFound => GateReplyView::Text(404, "not found"@),
    }
}

/// The answer to a routed request (see `route_reply_spec`).
pub fn route_reply(route: GateRoute, cookie_secure: bool) -> (r: GateReply)
    ensures
        reply_view(r) == route_reply_spec(route, cookie_secure),
{
    match route {
        GateRoute::Health => GateReply::Text { status: 200, body: string_of(chars_of("ok").as_slice()) },
        GateRoute::Verify => GateReply::CheckSession,
        GateRoute::LoginForm(rd) => GateReply::Html { status: 200, body: login_page(rd.as_str(), None) },
        GateRoute::LoginSubmit => GateReply::CheckLogin,
        GateRoute::Logout => {
            let c = set_cookie_value("", 0, cookie_secure);
            proof {
                reveal_strlit("");
                assert(""@ =~= Seq::<char>::empty());
            }
            GateReply::Redirect { location: string_of(chars_of("/auth/login").as_slice()), set_cookie: Some(c) }
        },
        GateRoute::NotFound => GateReply::Text {
            status: 404,
            body: string_of(chars_of("not found").as_slice()),
        },
    }
}

/// The answer to a forward-auth check: 200 with the user header, the login
/// redirect, or 401 `unauthorized`.
pub fn verify_reply(outcome: VerifyOutcome, header: &str) -> (r: GateReply)
    ensures
        reply_view(r) == match outcome {
            VerifyOutcome::Allow(u) => GateReplyView::Allow(header@, u@),
            VerifyOutcome::Redirect(loc) => GateReplyView::Redirect(loc@, None),
            VerifyOutcome::Unauthorized => GateReplyView::Text(401, "unauthorized"@),
        },
{
    match outcome {
        VerifyOutcome::Allow(u) => GateReply::Allow { header: string_of(chars_of(header).as_slice()), user: u },
        VerifyOutcome::Redirect(loc) => GateReply::Redirect { location: loc, set_cookie: None },
        VerifyOutcome::Unauthorized => GateReply::Text {
            status: 401,
            body: string_of(chars_of("unauthorized").as_slice()),
        },
    }
}

/// The answer to a login attempt: a redirect that sets the session cookie,
/// or 401 with the login page.
pub fn login_reply(outcome: LoginOutcome) -> (r: GateReply)
    ensures
        reply_view(r) == match outcome {
            LoginOutcome::Granted { location, set_cookie } => GateReplyView::Redirect(
                location@,
                Some(set_cookie@),
            ),
            LoginOutcome::Denied { page } => GateReplyView::Html(401, page@),
        },
{
    match outcome {
        LoginOutcome::Granted { location, set_cookie } => GateReply::Redirect {
            location,
            set_cookie: Some(set_cookie),
        },
        LoginOutcome::Denied { page } => GateReply::Html { status: 401, body: page },
    }
}

} // verus!
