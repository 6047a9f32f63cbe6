//! Cookie headers, form bodies, query strings and redirect targets.
use vstd::prelude::*;
use vstd::utf8::*;
use crate::text::{
    chars_of, split_chars, split_on, split_once_chars, split_once_spec, string_of, trim_chars, trimmed,
    utf8_lossy, views_of,
};
use crate::authgate::encoding::{url_decode_bytes, urldecode};

verus! {

/// `urldecode` of a piece of text.
pub open spec fn url_decoded(s: Seq<char>) -> Seq<char> {
    utf8_lossy(url_decode_bytes(encode_utf8(s)))
}

/// `s` starts with `p`.
pub open spec fn starts_with(s: Seq<char>, p: Seq<char>) -> bool {
    p.len() <= s.len() && s.take(p.len() as int) == p
}

fn has_prefix(v: &[char], p: &[char]) -> (r: bool)
    ensures
        r == starts_with(v@, p@),
{
    if p.len() > v.len() {
        return false;
    }
    let mut i: usize = 0;
    while i < p.len()
        invariant
            p@.len() <= v@.len(),
            i <= p@.len(),
            forall|j: int| 0 <= j < i ==> v@[j] == p@[j],
        decreases p@.len() - i,
    {
        if v[i] != p[i] {
            assert(v@.take(p@.len() as int)[i as int] != p@[i as int]);
            return false;
        }
        i = i + 1;
    }
    assert(v@.take(p@.len() as int) =~= p@);
    true
}

/// The value of the first `;`-separated part that, trimmed, reads
/// `<name>=<value>`.
pub open spec fn cookie_value_in(parts: Seq<Seq<char>>, name: Seq<char>) -> Option<Seq<char>>
    decreases parts.len(),
{
    if parts.len() == 0 {
        None
    } else {
        let p = trimmed(parts[0]);
        if starts_with(p, name + seq!['=']) {
            Some(p.skip(name.len() as int + 1))
        } else {
            cookie_value_in(parts.drop_first(), name)
        }
    }
}

/// Reads the value of cookie `name` from a `Cookie` header.
pub fn cookie_value(header: &str, name: &str) -> (r: Option<String>)
    ensures
        match r {
            Some(v) => cookie_value_in(split_on(header@, ';'), name@) == Some(v@),
            None => cookie_value_in(split_on(header@, ';'), name@) is None,
        },
{
    let hv = chars_of(header);
    let mut want = chars_of(name);
    want.push('=');
    let parts = split_chars(hv.as_slice(), ';');
    let ghost ps = views_of(parts@);
    let mut i: usize = 0;
    assert(ps.skip(0) =~= ps);
    while i < parts.len()
        invariant
            ps == views_of(parts@),
            ps == split_on(hv@, ';'),
            hv@ == header@,
            want@ == name@ + seq!['='],
            i <= parts@.len(),
            cookie_value_in(ps, name@) == cookie_value_in(ps.skip(i as int), name@),
        decreases parts@.len() - i,
    {
        let ghost rest = ps.skip(i as int);
        assert(rest[0] == parts@[i as int]@);
        assert(rest.drop_first() =~= ps.skip(i + 1));
        let p = trim_chars(parts[i].as_slice());
        if has_prefix(p.as_slice(), want.as_slice()) {
            let v = crate::text::slice_chars(p.as_slice(), want.len(), p.len());
            assert(v@ =~= p@.skip(name@.len() as int + 1));
            return Some(string_of(v.as_slice()));
        }
        i = i + 1;
    }
    None
}

/// One `key=value` piece, split at the first `=` (no `=`: empty value).
pub open spec fn pair_split(p: Seq<char>) -> (Seq<char>, Seq<char>) {
    match split_once_spec(p, '=') {
        Some((k, v)) => (k, v),
        None => (p, seq![]),
    }
}

/// The decoded pairs of the non-empty `&`-separated pieces, in order.
pub open spec fn form_pairs(parts: Seq<Seq<char>>) -> Seq<(Seq<char>, Seq<char>)>
    decreases parts.len(),
{
    if parts.len() == 0 {
        seq![]
    } else if parts[0].len() == 0 {
        form_pairs(parts.drop_first())
    } else {
        seq![(url_decoded(pair_split(parts[0]).0), url_decoded(pair_split(parts[0]).1))] + form_pairs(
            parts.drop_first(),
        )
    }
}

/// The pairs as plain values.
pub open spec fn pairs_view(v: Seq<(String, String)>) -> Seq<(Seq<char>, Seq<char>)> {
    v.map_values(|p: (String, String)| (p.0@, p.1@))
}

fn split_pair(p: &[char]) -> (r: (Vec<char>, Vec<char>))
    ensures
        (r.0@, r.1@) == pair_split(p@),
{
    match split_once_chars(p, '=') {
        Some((k, v)) => (k, v),
        None => (crate::text::slice_chars(p, 0, p.len()), Vec::new()),
    }
}

/// Parses an `application/x-www-form-urlencoded` body into decoded pairs.
pub fn parse_form(body: &str) -> (r: Vec<(String, String)>)
    ensures
        pairs_view(r@) == form_pairs(split_on(body@, '&')),
{
    let bv = chars_of(body);
    let parts = split_chars(bv.as_slice(), '&');
    let ghost ps = views_of(parts@);
    let mut out: Vec<(String, String)> = Vec::new();
    let mut i: usize = 0;
    assert(ps.skip(0) =~= ps);
    assert(pairs_view(out@) =~= seq![]);
    while i < parts.len()
        invariant
            ps == views_of(parts@),
            ps == split_on(bv@, '&'),
            bv@ == body@,
            i <= parts@.len(),
            form_pairs(ps) == pairs_view(out@) + form_pairs(ps.skip(i as int)),
        decreases parts@.len() - i,
    {
        let ghost rest = ps.skip(i as int);
        assert(rest[0] == parts@[i as int]@);
        assert(rest.drop_first() =~= ps.skip(i + 1));
        if parts[i].len() > 0 {
            let (k, v) = split_pair(parts[i].as_slice());
            let key = urldecode(string_of(k.as_slice()).as_str());
            let value = urldecode(string_of(v.as_slice()).as_str());
            let ghost before = pairs_view(out@);
            out.push((key, value));
            assert(pairs_view(out@) =~= before + seq![(key@, value@)]);
            assert(before + seq![(key@, value@)] + form_pairs(ps.skip(i + 1)) =~= before + (seq![(key@, value@)] + form_pairs(ps.skip(i + 1))));
        }
        i = i + 1;
    }
    assert(ps.skip(i as int) =~= Seq::<Seq<char>>::empty());
    assert(pairs_view(out@) + seq![] =~= pairs_view(out@));
    out
}


/// The decoded value of the first `&`-separated pair whose raw key is `key`.
pub open spec fn query_value(parts: Seq<Seq<char>>, key: Seq<char>) -> Seq<char>
    decreases parts.len(),
{
    if parts.len() == 0 {
        seq![]
    } else if pair_split(parts[0]).0 == key {
        url_decoded(pair_split(parts[0]).1)
    } else {
        query_value(parts.drop_first(), key)
    }
}

fn same_chars(a: &[char], b: &[char]) -> (r: bool)
    ensures
        r == (a@ == b@),
{
    if a.len() != b.len() {
        return false;
    }
    let mut i: usize = 0;
    while i < a.len()
        invariant
            a@.len() == b@.len(),
            i <= a@.len(),
            forall|j: int| 0 <= j < i ==> a@[j] == b@[j],
        decreases a@.len() - i,
    {
        if a[i] != b[i] {
            return false;
        }
        i = i + 1;
    }
    assert(a@ =~= b@);
    true
}

/// Reads query parameter `key` (decoded) from a raw query string; empty
/// when absent.
pub fn query_param(query: &str, key: &str) -> (r: String)
    ensures
        r@ == query_value(split_on(query@, '&'), key@),
{
    let qv = chars_of(query);
    let kv = chars_of(key);
    let parts = split_chars(qv.as_slice(), '&');
    let ghost ps = views_of(parts@);
    let mut i: usize = 0;
    assert(ps.skip(0) =~= ps);
    while i < parts.len()
        invariant
            ps == views_of(parts@),
            ps == split_on(qv@, '&'),
            qv@ == query@,
            kv@ == key@,
            i <= parts@.len(),
            query_value(ps, key@) == query_value(ps.skip(i as int), key@),
        decreases parts@.len() - i,
    {
        let ghost rest = ps.skip(i as int);
        assert(rest[0] == parts@[i as int]@);
        assert(rest.drop_first() =~= ps.skip(i + 1));
        let (k, v) = split_pair(parts[i].as_slice());
        if same_chars(k.as_slice(), kv.as_slice()) {
            return urldecode(string_of(v.as_slice()).as_str());
        }
        i = i + 1;
    }
    assert(ps.skip(i as int) =~= Seq::<Seq<char>>::empty());
    String::new()
}

/// A redirect target that stays on this site: it starts with `/`, not with
/// `//`, and holds no backslash.
pub open spec fn is_local_target(rd: Seq<char>) -> bool {
    rd.len() > 0 && rd[0] == '/' && !(rd.len() > 1 && rd[1] == '/') && forall|i: int|
        0 <= i < rd.len() ==> rd[i] != '\\'
}

/// Open-redirect guard: `rd` itself when it is a local path, else `/`.
pub fn safe_rd(rd: &str) -> (r: String)
    ensures
        r@ == (if is_local_target(rd@) { rd@ } else { seq!['/'] }),
{
    let v = chars_of(rd);
    let mut ok = v.len() > 0 && v[0] == '/' && !(v.len() > 1 && v[1] == '/');
    let mut i: usize = 0;
    while i < v.len()
        invariant
            v@ == rd@,
            i <= v@.len(),
            ok == (v@.len() > 0 && v@[0] == '/' && !(v@.len() > 1 && v@[1] == '/') && forall|j: int|
                0 <= j < i ==> v@[j] != '\\'),
        decreases v@.len() - i,
    {
        ok = ok && v[i] != '\\';
        i = i + 1;
    }
    if ok {
        string_of(v.as_slice())
    } else {
        let mut s = String::new();
        crate::text::push_char(&mut s, '/');
        s
    }
}

} // verus!
