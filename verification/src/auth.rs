//! Who the inventory server's caller is: the user header set by the
//! forward-auth proxy in front of it, or the development bypass.
use vstd::prelude::*;
use crate::text::{ascii_lower, chars_of, equals_text, string_of, to_ascii_lower};
use crate::types::{opt_view, text};

verus! {

/// How the server learns the user.
pub struct Config {
    /// The request header that carries the user name.
    pub header_name: String,
    /// Accept every request as user `dev`.
    pub bypass: bool,
}

/// The header used when none is configured.
pub open spec fn default_header() -> Seq<char> {
    "X-Authentik-Username"@
}

/// Values of the bypass setting that switch it on.
pub open spec fn bypass_on(v: Seq<char>) -> bool {
    v == "1"@ || v == "true"@ || v == "yes"@
}

impl Config {
    /// The configuration from the settings `AUTH_HEADER` and `AUTH_BYPASS`
    /// (`None` where a setting is absent).
    pub fn from_vars(header: Option<&str>, bypass: Option<&str>) -> (r: Config)
        ensures
            r.header_name@ == match header {
                Some(h) => h@,
                None => default_header(),
            },
            r.bypass == match bypass {
                Some(b) => bypass_on(b@),
                None => false,
            },
    {
        let header_name = match header {
            Some(h) => text(h),
            None => text("X-Authentik-Username"),
        };
        let on = match bypass {
            Some(b) => {
                let v = chars_of(b);
                equals_text(v.as_slice(), "1") || equals_text(v.as_slice(), "true") || equals_text(
                    v.as_slice(),
                    "yes",
                )
            },
            None => false,
        };
        Config { header_name, bypass: on }
    }
}

/// Two header names are the same up to ASCII case.
pub open spec fn same_name(a: Seq<char>, b: Seq<char>) -> bool {
    ascii_lower(a) == ascii_lower(b)
}

/// The value of the first header named `name` (up to ASCII case).
pub open spec fn header_value(headers: Seq<(String, String)>, name: Seq<char>) -> Option<Seq<char>>
    decreases headers.len(),
{
    if headers.len() == 0 {
        None
    } else if same_name(headers[0].0@, name) {
        Some(headers[0].1@)
    } else {
        header_value(headers.drop_first(), name)
    }
}

/// The value of the first header named `name`, compared without regard to
/// ASCII case.
pub fn find_header(headers: &Vec<(String, String)>, name: &str) -> (r: Option<String>)
    ensures
        opt_view(r) == header_value(headers@, name@),
{
    let want = string_of(to_ascii_lower(chars_of(name).as_slice()).as_slice());
    let mut i: usize = 0;
    assert(headers@.skip(0) =~= headers@);
    while i < headers.len()
        invariant
            i <= headers@.len(),
            want@ == ascii_lower(name@),
            header_value(headers@, name@) == header_value(headers@.skip(i as int), name@),
        decreases headers@.len() - i,
    {
        let got = string_of(to_ascii_lower(chars_of(headers[i].0.as_str()).as_slice()).as_slice());
        let ghost rest = headers@.skip(i as int);
        assert(rest[0] == headers@[i as int]);
        if got == want {
            return Some(headers[i].1.clone());
        }
        assert(rest.drop_first() =~= headers@.skip(i + 1));
        i = i + 1;
    }
    None
}

/// The authenticated user of a request with these headers: `dev` under the
/// bypass, else the value of the configured header, if the request has it.
pub fn extract_user(headers: &Vec<(String, String)>, cfg: &Config) -> (r: Option<String>)
    ensures
        cfg.bypass ==> opt_view(r) == Some("dev"@),
        !cfg.bypass ==> opt_view(r) == header_value(headers@, cfg.header_name@),
{
    if cfg.bypass {
        return Some(text("dev"));
    }
    find_header(headers, cfg.header_name.as_str())
}

} // verus!
