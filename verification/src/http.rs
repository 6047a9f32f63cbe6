//! The inventory server's routes: which request gets which answer.
use vstd::prelude::*;
use crate::text::{chars_of, equals_text};
use crate::types::text;

verus! {

/// The answer to a request.
#[derive(Debug, PartialEq, Eq)]
pub enum Reply {
    /// A plain-text answer (`text/plain; charset=utf-8`).
    Text { status: u16, body: String },
    /// The device list as JSON (`application/json`), status 200.
    DevicesJson,
    /// The device list as HTML page (`text/html; charset=utf-8`), status 200.
    DevicesPage,
}

/// The kind of answer, with a plain-text answer's status and body.
pub enum ReplyKind {
    Text(u16, Seq<char>),
    DevicesJson,
    DevicesPage,
}

/// A reply as plain values.
pub open spec fn reply_kind(r: Reply) -> ReplyKind {
    match r {
        Reply::Text { status, body } => ReplyKind::Text(status, body@),
        Reply::DevicesJson => ReplyKind::DevicesJson,
        Reply::DevicesPage => ReplyKind::DevicesPage,
    }
}

/// The routes: `GET /health` answers `ok` to anyone; any other request
/// without a user is refused with 401; with a user, `GET /api/devices` gives
/// the JSON list, `GET /` the HTML page, and anything else 404.
pub open spec fn route_spec(is_get: bool, url: Seq<char>, has_user: bool) -> ReplyKind {
    if is_get && url == "/health"@ {
        ReplyKind::Text(200, "ok"@)
    } else if !has_user {
        ReplyKind::Text(401, "unauthorized"@)
    } else if is_get && url == "/api/devices"@ {
        ReplyKind::DevicesJson
    } else if is_get && url == "/"@ {
        ReplyKind::DevicesPage
    } else {
        ReplyKind::Text(404, "not found"@)
    }
}

/// Answers a request, given whether it is a `GET`, its URL (path and query
/// as sent) and its authenticated user, if any.
pub fn handle(is_get: bool, url: &str, user: Option<&str>) -> (r: Reply)
    ensures
        reply_kind(r) == route_spec(is_get, url@, user is Some),
{
    let u = chars_of(url);
    if is_get && equals_text(u.as_slice(), "/health") {
        return Reply::Text { status: 200, body: text("ok") };
    }
    if user.is_none() {
        return Reply::Text { status: 401, body: text("unauthorized") };
    }
    if is_get && equals_text(u.as_slice(), "/api/devices") {
        Reply::DevicesJson
    } else if is_get && equals_text(u.as_slice(), "/") {
        Reply::DevicesPage
    } else {
        Reply::Text { status: 404, body: text("not found") }
    }
}

} // verus!
