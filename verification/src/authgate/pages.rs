//! The login page and the session `Set-Cookie` header value.
use vstd::prelude::*;
use crate::text::{chars_of, html_escaped, i64_decimal, signed_decimal, string_of};
use crate::authgate::encoding::html_escape;

verus! {

/// The error paragraph shown above the form, if any.
pub open spec fn error_block(error: Option<Seq<char>>) -> Seq<char> {
    match error {
        Some(msg) => "<p class=\"err\">"@ + html_escaped(msg, false) + "</p>"@,
        None => seq![],
    }
}

/// The login page: the form posting to `/auth/login`, the escaped error
/// message if any, and the escaped redirect target in a hidden field.
pub open spec fn login_page_text(rd: Seq<char>, error: Option<Seq<char>>) -> Seq<char> {
    "<!doctype html>\n<html lang=\"de\">\n<head>\n<meta charset=\"utf-8\">\n<meta name=\"viewport\" content=\"width=device-width, initial-scale=1\">\n<title>Home Inventory \u{2014} Sign in</title>\n<style>\n  body { font-family: system-ui, sans-serif; background: #1b1f24; color: #e6e6e6;\n         display: flex; min-height: 100vh; margin: 0; align-items: center;\n         justify-content: center; }\n  form { background: #262b32; padding: 2rem; border-radius: 10px; width: 18rem;\n          box-shadow: 0 6px 24px rgba(0,0,0,.4); }\n  h1 { font-size: 1.1rem; margin: 0 0 1.2rem; }\n  label { display: block; font-size: .8rem; margin: .7rem 0 .2rem; color: #9aa4af; }\n  input { width: 100%; box-sizing: border-box; padding: .55rem; border-radius: 6px;\n           border: 1px solid #3a4049; background: #1b1f24; color: #e6e6e6; }\n  button { width: 100%; margin-top: 1.2rem; padding: .6rem; border: 0;\n            border-radius: 6px; background: #3b82f6; color: #fff; font-weight: 600;\n            cursor: pointer; }\n  .err { color: #f87171; font-size: .85rem; margin: 0 0 .5rem; }\n</style>\n</head>\n<body>\n<form method=\"post\" action=\"/auth/login\">\n  <h1>Home Inventory</h1>\n  "@
        + error_block(error)
        + "\n  <label for=\"u\">Benutzer</label>\n  <input id=\"u\" name=\"username\" autocomplete=\"username\" autofocus required>\n  <label for=\"p\">Passwort</label>\n  <input id=\"p\" name=\"password\" type=\"password\" autocomplete=\"current-password\" required>\n  <input type=\"hidden\" name=\"rd\" value=\""@
        + html_escaped(rd, false)
        + "\">\n  <button type=\"submit\">Anmelden</button>\n</form>\n</body>\n</html>\n"@
}

/// Renders the login page (see `login_page_text`).
pub fn login_page(rd: &str, error: Option<&str>) -> (page: String)
    ensures
        page@ == login_page_text(rd@, match error { Some(m) => Some(m@), None => None }),
{
    let mut out = String::new();
    out.append("<!doctype html>\n<html lang=\"de\">\n<head>\n<meta charset=\"utf-8\">\n<meta name=\"viewport\" content=\"width=device-width, initial-scale=1\">\n<title>Home Inventory \u{2014} Sign in</title>\n<style>\n  body { font-family: system-ui, sans-serif; background: #1b1f24; color: #e6e6e6;\n         display: flex; min-height: 100vh; margin: 0; align-items: center;\n         justify-content: center; }\n  form { background: #262b32; padding: 2rem; border-radius: 10px; width: 18rem;\n          box-shadow: 0 6px 24px rgba(0,0,0,.4); }\n  h1 { font-size: 1.1rem; margin: 0 0 1.2rem; }\n  label { display: block; font-size: .8rem; margin: .7rem 0 .2rem; color: #9aa4af; }\n  input { width: 100%; box-sizing: border-box; padding: .55rem; border-radius: 6px;\n           border: 1px solid #3a4049; background: #1b1f24; color: #e6e6e6; }\n  button { width: 100%; margin-top: 1.2rem; padding: .6rem; border: 0;\n            border-radius: 6px; background: #3b82f6; color: #fff; font-weight: 600;\n            cursor: pointer; }\n  .err { color: #f87171; font-size: .85rem; margin: 0 0 .5rem; }\n</style>\n</head>\n<body>\n<form method=\"post\" action=\"/auth/login\">\n  <h1>Home Inventory</h1>\n  ");
    match error {
        Some(msg) => {
            out.append("<p class=\"err\">");
            let e = html_escape(msg);
            out.append(e.as_str());
            out.append("</p>");
        },
        None => {},
    }
    out.append("\n  <label for=\"u\">Benutzer</label>\n  <input id=\"u\" name=\"username\" autocomplete=\"username\" autofocus required>\n  <label for=\"p\">Passwort</label>\n  <input id=\"p\" name=\"password\" type=\"password\" autocomplete=\"current-password\" required>\n  <input type=\"hidden\" name=\"rd\" value=\"");
    let r = html_escape(rd);
    out.append(r.as_str());
    out.append("\">\n  <button type=\"submit\">Anmelden</button>\n</form>\n</body>\n</html>\n");
    proof {
        let msgv: Option<Seq<char>> = match error { Some(m) => Some(m@), None => None };
        assert(out@ =~= login_page_text(rd@, msgv));
    }
    out
}


/// The `Set-Cookie` value for the session cookie; `max_age <= 0` deletes it.
pub open spec fn set_cookie_text(value: Seq<char>, max_age: int, secure: bool) -> Seq<char> {
    "authgate_session="@ + value + "; Path=/; HttpOnly; SameSite=Lax; Max-Age="@ + signed_decimal(max_age)
        + (if secure { "; Secure"@ } else { seq![] })
}

/// Builds the `Set-Cookie` value for the session cookie.
pub fn set_cookie_value(value: &str, max_age: i64, secure: bool) -> (s: String)
    ensures
        s@ == set_cookie_text(value@, max_age as int, secure),
{
    let mut out = String::new();
    out.append("authgate_session=");
    out.append(value);
    out.append("; Path=/; HttpOnly; SameSite=Lax; Max-Age=");
    let d = i64_decimal(max_age);
    crate::text::push_chars(&mut out, d.as_slice());
    if secure {
        out.append("; Secure");
    }
    assert(out@ =~= set_cookie_text(value@, max_age as int, secure));
    out
}

} // verus!
