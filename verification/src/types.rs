//! The canonical device record every sync source maps to.
use vstd::prelude::*;

verus! {

/// A device of the inventory: the `devices` table without the columns the
/// database manages (id, first/last seen, active).
#[derive(Debug, Clone, PartialEq, Eq, Hash)]
pub struct Device {
    pub source: String,
    pub source_id: String,
    pub name: String,
    pub manufacturer: Option<String>,
    pub model: Option<String>,
    pub kind: Option<String>,
    pub room: Option<String>,
}

/// An optional string as an optional character sequence.
pub open spec fn opt_view(o: Option<String>) -> Option<Seq<char>> {
    match o {
        Some(s) => Some(s@),
        None => None,
    }
}

/// A device as plain values, field by field.
pub open spec fn device_view(d: Device) -> (
    Seq<char>,
    Seq<char>,
    Seq<char>,
    Option<Seq<char>>,
    Option<Seq<char>>,
    Option<Seq<char>>,
    Option<Seq<char>>,
) {
    (d.source@, d.source_id@, d.name@, opt_view(d.manufacturer), opt_view(d.model), opt_view(d.kind), opt_view(d.room))
}

/// A copy of an optional string.
pub fn clone_opt(o: &Option<String>) -> (r: Option<String>)
    ensures
        opt_view(r) == opt_view(*o),
{
    match o {
        Some(s) => Some(s.clone()),
        None => None,
    }
}

/// A string holding the text of a literal.
pub fn text(s: &str) -> (r: String)
    ensures
        r@ == s@,
{
    let mut r = String::new();
    r.append(s);
    assert(r@ =~= s@);
    r
}

} // verus!
