//! Node-RED flow snapshots: masking credentials and ordering by id.
use vstd::prelude::*;
use crate::text::{
    ascii_lower, chars_of, contains_seq, equals_text, has_text, lemma_text_lt_irreflexive,
    lemma_text_lt_total, lemma_text_lt_transitive, push_chars, strip_leading, strip_trailing,
    text_less, text_lt, to_ascii_lower, trim_end_char, trim_start_char,
};

verus! {

/// A JSON value. Numbers keep their textual form.
#[derive(Debug, PartialEq)]
pub enum Json {
    Null,
    Bool(bool),
    Number(String),
    Str(String),
    Array(Vec<Json>),
    Object(Vec<(String, Json)>),
}

/// The text that replaces every masked string.
pub open spec fn mask_text() -> Seq<char> {
    "***masked***"@
}

/// Two values are the same JSON: same shape, same keys in the same order,
/// same scalars.
pub open spec fn same_json(a: Json, b: Json) -> bool
    decreases a,
{
    match (a, b) {
        (Json::Null, Json::Null) => true,
        (Json::Bool(p), Json::Bool(q)) => p == q,
        (Json::Number(p), Json::Number(q)) => p@ == q@,
        (Json::Str(p), Json::Str(q)) => p@ == q@,
        (Json::Array(x), Json::Array(y)) => x@.len() == y@.len() && forall|i: int|
            0 <= i < x@.len() ==> same_json(#[trigger] x@[i], y@[i]),
        (Json::Object(m), Json::Object(n)) => m@.len() == n@.len() && forall|i: int|
            0 <= i < m@.len() ==> (#[trigger] m@[i]).0@ == n@[i].0@ && same_json(m@[i].1, n@[i].1),
        _ => false,
    }
}


/// Keys whose values are credentials: containing `password`, `secret`,
/// `token` or `credential`, or equal to `api_key`, `apikey`, `api-key`
/// (all compared in lower case).
pub open spec fn sensitive_key(key: Seq<char>) -> bool {
    let k = ascii_lower(key);
    contains_seq(k, "password"@) || contains_seq(k, "secret"@) || contains_seq(k, "token"@) || contains_seq(
        k,
        "credential"@,
    ) || k == "api_key"@ || k == "apikey"@ || k == "api-key"@
}

/// Whether a key names a credential (see `sensitive_key`).
pub fn is_sensitive_key(key: &str) -> (r: bool)
    ensures
        r == sensitive_key(key@),
{
    let k = to_ascii_lower(chars_of(key).as_slice());
    let s = k.as_slice();
    has_text(s, "password") || has_text(s, "secret") || has_text(s, "token") || has_text(s, "credential")
        || equals_text(s, "api_key") || equals_text(s, "apikey") || equals_text(s, "api-key")
}

/// `b` is `a` with every string, at any depth, replaced by the mask.
pub open spec fn masked_rel(a: Json, b: Json) -> bool
    decreases a,
{
    match (a, b) {
        (Json::Null, Json::Null) => true,
        (Json::Bool(p), Json::Bool(q)) => p == q,
        (Json::Number(p), Json::Number(q)) => p@ == q@,
        (Json::Str(_), Json::Str(q)) => q@ == mask_text(),
        (Json::Array(x), Json::Array(y)) => x@.len() == y@.len() && forall|i: int|
            0 <= i < x@.len() ==> masked_rel(#[trigger] x@[i], y@[i]),
        (Json::Object(m), Json::Object(n)) => m@.len() == n@.len() && forall|i: int|
            0 <= i < m@.len() ==> (#[trigger] m@[i]).0@ == n@[i].0@ && masked_rel(m@[i].1, n@[i].1),
        _ => false,
    }
}

/// `b` is `a` with the value of every credential key, at any depth, masked
/// throughout, and everything else kept.
pub open spec fn sanitized_rel(a: Json, b: Json) -> bool
    decreases a,
{
    match (a, b) {
        (Json::Null, Json::Null) => true,
        (Json::Bool(p), Json::Bool(q)) => p == q,
        (Json::Number(p), Json::Number(q)) => p@ == q@,
        (Json::Str(p), Json::Str(q)) => p@ == q@,
        (Json::Array(x), Json::Array(y)) => x@.len() == y@.len() && forall|i: int|
            0 <= i < x@.len() ==> sanitized_rel(#[trigger] x@[i], y@[i]),
        (Json::Object(m), Json::Object(n)) => m@.len() == n@.len() && forall|i: int|
            0 <= i < m@.len() ==> (#[trigger] m@[i]).0@ == n@[i].0@ && (if sensitive_key(m@[i].0@) {
                masked_rel(m@[i].1, n@[i].1)
            } else {
                sanitized_rel(m@[i].1, n@[i].1)
            }),
        _ => false,
    }
}

/// A copy of `value` with every string masked.
#[verifier::loop_isolation(false)]
fn masked_copy(value: &Json) -> (r: Json)
    ensures
        masked_rel(*value, r),
    decreases value,
{
    match value {
        Json::Null => Json::Null,
        Json::Bool(b) => Json::Bool(*b),
        Json::Number(n) => Json::Number(n.clone()),
        Json::Str(_) => Json::Str(crate::types::text("***masked***")),
        Json::Array(arr) => {
            let mut out: Vec<Json> = Vec::new();
            let mut i: usize = 0;
            while i < arr.len()
                invariant
                    i <= arr@.len(),
                    out@.len() == i,
                    forall|j: int| 0 <= j < i ==> masked_rel(#[trigger] arr@[j], out@[j]),
                decreases arr@.len() - i,
            {
                assert(decreases_to!(*value => arr@[i as int]));
                let m = masked_copy(&arr[i]);
                out.push(m);
                assert(masked_rel(arr@[i as int], out@[i as int]));
                i = i + 1;
            }
            let r = Json::Array(out);
            assert(masked_rel(*value, r));
            r
        },
        Json::Object(map) => {
            let mut out: Vec<(String, Json)> = Vec::new();
            let mut i: usize = 0;
            while i < map.len()
                invariant
                    i <= map@.len(),
                    out@.len() == i,
                    forall|j: int| 0 <= j < i ==> (#[trigger] map@[j]).0@ == out@[j].0@ && masked_rel(map@[j].1, out@[j].1),
                decreases map@.len() - i,
            {
                assert(decreases_to!(*value => map@[i as int].1));
                let m = masked_copy(&map[i].1);
                let k = map[i].0.clone();
                let ghost old_out = out@;
                out.push((k, m));
                assert forall|j: int| 0 <= j <= i implies (#[trigger] map@[j]).0@ == out@[j].0@ && masked_rel(
                    map@[j].1,
                    out@[j].1,
                ) by {
                    if j < i {
                        assert(out@[j] == old_out[j]);
                    }
                }
                i = i + 1;
            }
            let r = Json::Object(out);
            assert(masked_rel(*value, r));
            r
        },
    }
}

/// A copy of `value` with credential values masked (see `sanitized_rel`).
#[verifier::loop_isolation(false)]
fn sanitized_copy(value: &Json) -> (r: Json)
    ensures
        sanitized_rel(*value, r),
    decreases value,
{
    match value {
        Json::Null => Json::Null,
        Json::Bool(b) => Json::Bool(*b),
        Json::Number(n) => Json::Number(n.clone()),
        Json::Str(s) => Json::Str(s.clone()),
        Json::Array(arr) => {
            let mut out: Vec<Json> = Vec::new();
            let mut i: usize = 0;
            while i < arr.len()
                invariant
                    i <= arr@.len(),
                    out@.len() == i,
                    forall|j: int| 0 <= j < i ==> sanitized_rel(#[trigger] arr@[j], out@[j]),
                decreases arr@.len() - i,
            {
                assert(decreases_to!(*value => arr@[i as int]));
                let m = sanitized_copy(&arr[i]);
                out.push(m);
                assert(sanitized_rel(arr@[i as int], out@[i as int]));
                i = i + 1;
            }
            let r = Json::Array(out);
            assert(sanitized_rel(*value, r));
            r
        },
        Json::Object(map) => {
            let mut out: Vec<(String, Json)> = Vec::new();
            let mut i: usize = 0;
            while i < map.len()
                invariant
                    i <= map@.len(),
                    out@.len() == i,
                    forall|j: int| 0 <= j < i ==> (#[trigger] map@[j]).0@ == out@[j].0@ && (if sensitive_key(map@[j].0@) {
                        masked_rel(map@[j].1, out@[j].1)
                    } else {
                        sanitized_rel(map@[j].1, out@[j].1)
                    }),
                decreases map@.len() - i,
            {
                assert(decreases_to!(*value => map@[i as int].1));
                let key = &map[i].0;
                let sens = is_sensitive_key(key.as_str());
                let m = if sens {
                    masked_copy(&map[i].1)
                } else {
                    sanitized_copy(&map[i].1)
                };
                let k = key.clone();
                let ghost old_out = out@;
                out.push((k, m));
                assert forall|j: int| 0 <= j <= i implies (#[trigger] map@[j]).0@ == out@[j].0@ && (if sensitive_key(
                    map@[j].0@,
                ) {
                    masked_rel(map@[j].1, out@[j].1)
                } else {
                    sanitized_rel(map@[j].1, out@[j].1)
                }) by {
                    if j < i {
                        assert(out@[j] == old_out[j]);
                    }
                }
                i = i + 1;
            }
            let r = Json::Object(out);
            assert(sanitized_rel(*value, r));
            r
        },
    }
}

/// Masks, in place and at any depth, the values of all credential keys;
/// a credential value that is an object or array is masked throughout.
pub fn sanitize(value: &mut Json)
    ensures
        sanitized_rel(*old(value), *final(value)),
{
    let s = sanitized_copy(value);
    *value = s;
}


/// Every string anywhere in `v` is the mask.
pub open spec fn only_mask(v: Json) -> bool
    decreases v,
{
    match v {
        Json::Str(s) => s@ == mask_text(),
        Json::Array(x) => forall|i: int| 0 <= i < x@.len() ==> only_mask(#[trigger] x@[i]),
        Json::Object(m) => forall|i: int| 0 <= i < m@.len() ==> only_mask((#[trigger] m@[i]).1),
        _ => true,
    }
}

proof fn lemma_masked_unique(a: Json, b: Json, c: Json)
    requires
        masked_rel(a, b),
        masked_rel(a, c),
    ensures
        same_json(b, c),
    decreases a,
{
    match (a, b, c) {
        (Json::Array(x), Json::Array(y), Json::Array(z)) => {
            assert forall|i: int| 0 <= i < y@.len() implies same_json(#[trigger] y@[i], z@[i]) by {
                assert(decreases_to!(a => x@[i]));
                lemma_masked_unique(x@[i], y@[i], z@[i]);
            }
        },
        (Json::Object(x), Json::Object(y), Json::Object(z)) => {
            assert forall|i: int| 0 <= i < y@.len() implies (#[trigger] y@[i]).0@ == z@[i].0@ && same_json(
                y@[i].1,
                z@[i].1,
            ) by {
                assert(x@[i].0@ == y@[i].0@);
                assert(decreases_to!(a => x@[i].1));
                lemma_masked_unique(x@[i].1, y@[i].1, z@[i].1);
            }
        },
        _ => {},
    }
}

proof fn lemma_masked_stable(a: Json, b: Json, c: Json)
    requires
        masked_rel(a, b),
        masked_rel(b, c),
    ensures
        same_json(b, c),
    decreases a,
{
    match (a, b, c) {
        (Json::Array(x), Json::Array(y), Json::Array(z)) => {
            assert forall|i: int| 0 <= i < y@.len() implies same_json(#[trigger] y@[i], z@[i]) by {
                assert(decreases_to!(a => x@[i]));
                assert(masked_rel(x@[i], y@[i]));
                lemma_masked_stable(x@[i], y@[i], z@[i]);
            }
        },
        (Json::Object(x), Json::Object(y), Json::Object(z)) => {
            assert forall|i: int| 0 <= i < y@.len() implies (#[trigger] y@[i]).0@ == z@[i].0@ && same_json(
                y@[i].1,
                z@[i].1,
            ) by {
                assert(x@[i].0@ == y@[i].0@);
                assert(decreases_to!(a => x@[i].1));
                lemma_masked_stable(x@[i].1, y@[i].1, z@[i].1);
            }
        },
        _ => {},
    }
}

/// Masking leaves no string but the mask, at any depth.
pub proof fn law_masked_hides_every_string(a: Json, b: Json)
    requires
        masked_rel(a, b),
    ensures
        only_mask(b),
    decreases a,
{
    match (a, b) {
        (Json::Array(x), Json::Array(y)) => {
            assert forall|i: int| 0 <= i < y@.len() implies only_mask(#[trigger] y@[i]) by {
                assert(decreases_to!(a => x@[i]));
                law_masked_hides_every_string(x@[i], y@[i]);
            }
        },
        (Json::Object(x), Json::Object(y)) => {
            assert forall|i: int| 0 <= i < y@.len() implies only_mask((#[trigger] y@[i]).1) by {
                assert(x@[i].0@ == y@[i].0@);
                assert(decreases_to!(a => x@[i].1));
                law_masked_hides_every_string(x@[i].1, y@[i].1);
            }
        },
        _ => {},
    }
}

/// Sanitizing is deterministic: one input has one sanitized form.
pub proof fn law_sanitize_deterministic(a: Json, b: Json, c: Json)
    requires
        sanitized_rel(a, b),
        sanitized_rel(a, c),
    ensures
        same_json(b, c),
    decreases a,
{
    match (a, b, c) {
        (Json::Array(x), Json::Array(y), Json::Array(z)) => {
            assert forall|i: int| 0 <= i < y@.len() implies same_json(#[trigger] y@[i], z@[i]) by {
                assert(decreases_to!(a => x@[i]));
                law_sanitize_deterministic(x@[i], y@[i], z@[i]);
            }
        },
        (Json::Object(x), Json::Object(y), Json::Object(z)) => {
            assert forall|i: int| 0 <= i < y@.len() implies (#[trigger] y@[i]).0@ == z@[i].0@ && same_json(
                y@[i].1,
                z@[i].1,
            ) by {
                assert(x@[i].0@ == y@[i].0@);
                assert(decreases_to!(a => x@[i].1));
                if sensitive_key(x@[i].0@) {
                    lemma_masked_unique(x@[i].1, y@[i].1, z@[i].1);
                } else {
                    law_sanitize_deterministic(x@[i].1, y@[i].1, z@[i].1);
                }
            }
        },
        _ => {},
    }
}

/// Sanitizing twice gives what sanitizing once gave.
pub proof fn law_sanitize_idempotent(a: Json, b: Json, c: Json)
    requires
        sanitized_rel(a, b),
        sanitized_rel(b, c),
    ensures
        same_json(b, c),
    decreases a,
{
    match (a, b, c) {
        (Json::Array(x), Json::Array(y), Json::Array(z)) => {
            assert forall|i: int| 0 <= i < y@.len() implies same_json(#[trigger] y@[i], z@[i]) by {
                assert(decreases_to!(a => x@[i]));
                assert(sanitized_rel(x@[i], y@[i]));
                law_sanitize_idempotent(x@[i], y@[i], z@[i]);
            }
        },
        (Json::Object(x), Json::Object(y), Json::Object(z)) => {
            assert forall|i: int| 0 <= i < y@.len() implies (#[trigger] y@[i]).0@ == z@[i].0@ && same_json(
                y@[i].1,
                z@[i].1,
            ) by {
                assert(x@[i].0@ == y@[i].0@);
                assert(y@[i].0@ == z@[i].0@);
                assert(decreases_to!(a => x@[i].1));
                if sensitive_key(x@[i].0@) {
                    lemma_masked_stable(x@[i].1, y@[i].1, z@[i].1);
                } else {
                    law_sanitize_idempotent(x@[i].1, y@[i].1, z@[i].1);
                }
            }
        },
        _ => {},
    }
}


/// The string under the first key `id` among an object's entries; the empty
/// text where there is none or it is no string.
pub open spec fn entries_id(m: Seq<(String, Json)>) -> Seq<char>
    decreases m.len(),
{
    if m.len() == 0 {
        Seq::empty()
    } else if m[0].0@ == "id"@ {
        match m[0].1 {
            Json::Str(s) => s@,
            _ => Seq::empty(),
        }
    } else {
        entries_id(m.drop_first())
    }
}

/// The `id` by which a flow entry is ordered: the string under key `id` of
/// an object, else the empty text.
pub open spec fn json_id(v: Json) -> Seq<char> {
    match v {
        Json::Object(m) => entries_id(m@),
        _ => Seq::empty(),
    }
}

/// The entries of `s` whose id is `k`, in their order in `s`.
pub open spec fn with_id(s: Seq<Json>, k: Seq<char>) -> Seq<Json>
    decreases s.len(),
{
    if s.len() == 0 {
        Seq::empty()
    } else if json_id(s.last()) == k {
        with_id(s.drop_last(), k).push(s.last())
    } else {
        with_id(s.drop_last(), k)
    }
}

/// No entry has a larger id than one after it.
pub open spec fn sorted_by_id(s: Seq<Json>) -> bool {
    forall|i: int, j: int| 0 <= i < j < s.len() ==> !text_lt(json_id(#[trigger] s[j]), json_id(#[trigger] s[i]))
}

/// `o` is `a` sorted by id, and entries with equal ids keep their order:
/// the stable sort of `a`.
pub open spec fn stably_sorted(a: Seq<Json>, o: Seq<Json>) -> bool {
    &&& o.len() == a.len()
    &&& sorted_by_id(o)
    &&& forall|k: Seq<char>| #[trigger] with_id(o, k) == with_id(a, k)
}

/// The id of a flow entry (see `json_id`).
pub fn id_chars(v: &Json) -> (r: Vec<char>)
    ensures
        r@ == json_id(*v),
{
    match v {
        Json::Object(m) => {
            let mut i: usize = 0;
            assert(m@.skip(0) =~= m@);
            while i < m.len()
                invariant
                    i <= m@.len(),
                    json_id(*v) == entries_id(m@),
                    entries_id(m@) == entries_id(m@.skip(i as int)),
                decreases m@.len() - i,
            {
                let key = chars_of(m[i].0.as_str());
                if equals_text(key.as_slice(), "id") {
                    let ghost rest = m@.skip(i as int);
                    assert(rest[0] == m@[i as int]);
                    assert(rest[0].0@ == "id"@);
                    let r = match &m[i].1 {
                        Json::Str(s) => chars_of(s.as_str()),
                        _ => Vec::new(),
                    };
                    assert(r@ == entries_id(rest));
                    return r;
                }
                assert(m@.skip(i as int).drop_first() =~= m@.skip(i + 1));
                i = i + 1;
            }
            Vec::new()
        },
        _ => Vec::new(),
    }
}

proof fn lemma_lt_asymmetric(a: Seq<char>, b: Seq<char>)
    requires
        text_lt(a, b),
    ensures
        !text_lt(b, a),
        a != b,
{
    lemma_text_lt_irreflexive(a);
    if text_lt(b, a) {
        lemma_text_lt_transitive(a, b, a);
    }
}

proof fn lemma_lt_then_le(a: Seq<char>, b: Seq<char>, c: Seq<char>)
    requires
        text_lt(a, b),
        !text_lt(c, b),
    ensures
        text_lt(a, c),
{
    lemma_text_lt_total(b, c);
    if text_lt(b, c) {
        lemma_text_lt_transitive(a, b, c);
    }
}

proof fn lemma_with_id_push(s: Seq<Json>, e: Json, k: Seq<char>)
    ensures
        with_id(s.push(e), k) == (if json_id(e) == k {
            with_id(s, k).push(e)
        } else {
            with_id(s, k)
        }),
{
    assert(s.push(e).drop_last() =~= s);
}

proof fn lemma_with_id_add(a: Seq<Json>, b: Seq<Json>, k: Seq<char>)
    ensures
        with_id(a + b, k) == with_id(a, k) + with_id(b, k),
    decreases b.len(),
{
    if b.len() == 0 {
        assert(a + b =~= a);
        assert(with_id(a, k) + with_id(b, k) =~= with_id(a, k));
    } else {
        let b0 = b.drop_last();
        lemma_with_id_add(a, b0, k);
        assert((a + b).drop_last() =~= a + b0);
        assert((a + b).last() == b.last());
        if json_id(b.last()) == k {
            assert(with_id(a, k) + with_id(b0, k).push(b.last()) =~= (with_id(a, k) + with_id(b0, k)).push(
                b.last(),
            ));
        }
    }
}

proof fn lemma_with_id_none(s: Seq<Json>, k: Seq<char>)
    requires
        forall|i: int| 0 <= i < s.len() ==> json_id(#[trigger] s[i]) != k,
    ensures
        with_id(s, k) == Seq::<Json>::empty(),
    decreases s.len(),
{
    if s.len() > 0 {
        assert(json_id(s[s.len() - 1]) != k);
        lemma_with_id_none(s.drop_last(), k);
    }
}

proof fn lemma_with_id_insert(s: Seq<Json>, p: int, e: Json, k: Seq<char>)
    requires
        0 <= p <= s.len(),
        forall|j: int| p <= j < s.len() ==> json_id(#[trigger] s[j]) != json_id(e),
    ensures
        with_id(s.insert(p, e), k) == (if json_id(e) == k {
            with_id(s, k).push(e)
        } else {
            with_id(s, k)
        }),
{
    let front = s.take(p);
    let back = s.skip(p);
    assert(s =~= front + back);
    assert(s.insert(p, e) =~= (front + seq![e]) + back);
    lemma_with_id_add(front, back, k);
    lemma_with_id_add(front + seq![e], back, k);
    lemma_with_id_add(front, seq![e], k);
    lemma_with_id_push(Seq::<Json>::empty(), e, k);
    assert(Seq::<Json>::empty().push(e) =~= seq![e]);
    if json_id(e) == k {
        assert forall|j: int| 0 <= j < back.len() implies json_id(#[trigger] back[j]) != k by {
            assert(back[j] == s[p + j]);
        }
        lemma_with_id_none(back, k);
        assert(with_id(front, k) + seq![e] + Seq::<Json>::empty() =~= (with_id(front, k) + Seq::<Json>::empty()).push(e));
    } else {
        assert(with_id(front, k) + Seq::<Json>::empty() =~= with_id(front, k));
    }
}

/// Sorts a flow snapshot's top-level array by the entries' ids, keeping the
/// order of entries with equal ids; any other value comes back unchanged.
#[verifier::loop_isolation(false)]
pub fn sort_by_id(flows: Json) -> (r: Json)
    ensures
        match flows {
            Json::Array(a) => (r matches Json::Array(o) && stably_sorted(a@, o@)),
            _ => r == flows,
        },
{
    match flows {
        Json::Array(arr) => {
            let ghost a = arr@;
            let mut src = arr;
            let mut out: Vec<Json> = Vec::new();
            assert(a.skip(0) =~= a);
            while src.len() > 0
                invariant
                    src@.len() <= a.len(),
                    src@ == a.skip(a.len() - src@.len()),
                    out@.len() == a.len() - src@.len(),
                    sorted_by_id(out@),
                    forall|k: Seq<char>| #[trigger] with_id(out@, k) == with_id(a.take(a.len() - src@.len()), k),
                decreases src@.len(),
            {
                let ghost n: int = a.len() - src@.len();
                let e = src.remove(0);
                assert(e == a[n]);
                assert(src@ =~= a.skip(n + 1));
                let ke = id_chars(&e);
                let mut p: usize = 0;
                while p < out.len()
                    invariant
                        p <= out@.len(),
                        forall|j: int| 0 <= j < p ==> !text_lt(json_id(e), json_id(#[trigger] out@[j])),
                    decreases out@.len() - p,
                {
                    let kp = id_chars(&out[p]);
                    if text_less(ke.as_slice(), kp.as_slice()) {
                        break;
                    }
                    p = p + 1;
                }
                let ghost old_out = out@;
                proof {
                    assert forall|j: int| p <= j < old_out.len() implies text_lt(
                        json_id(e),
                        json_id(#[trigger] old_out[j]),
                    ) by {
                        if j > p {
                            assert(!text_lt(json_id(old_out[j]), json_id(old_out[p as int])));
                            lemma_lt_then_le(json_id(e), json_id(old_out[p as int]), json_id(old_out[j]));
                        }
                    }
                    assert forall|j: int| p <= j < old_out.len() implies json_id(#[trigger] old_out[j]) != json_id(e) by {
                        lemma_lt_asymmetric(json_id(e), json_id(old_out[j]));
                    }
                }
                out.insert(p, e);
                proof {
                    assert forall|i: int, j: int| 0 <= i < j < out@.len() implies !text_lt(
                        json_id(#[trigger] out@[j]),
                        json_id(#[trigger] out@[i]),
                    ) by {
                        if j < p {
                        } else if j == p {
                        } else if i < p {
                            assert(out@[j] == old_out[j - 1]);
                            assert(out@[i] == old_out[i]);
                            assert(!text_lt(json_id(old_out[j - 1]), json_id(old_out[i])));
                        } else if i == p {
                            assert(out@[j] == old_out[j - 1]);
                            lemma_lt_asymmetric(json_id(e), json_id(old_out[j - 1]));
                        } else {
                            assert(out@[j] == old_out[j - 1]);
                            assert(out@[i] == old_out[i - 1]);
                        }
                    }
                    assert(a.take(n + 1) =~= a.take(n).push(e));
                    assert forall|k: Seq<char>| #[trigger] with_id(out@, k) == with_id(a.take(n + 1), k) by {
                        lemma_with_id_insert(old_out, p as int, e, k);
                        lemma_with_id_push(a.take(n), e, k);
                    }
                }
            }
            assert(a.take(a.len() as int) =~= a);
            Json::Array(out)
        },
        other => other,
    }
}


/// No two entries of `s` share an id.
pub open spec fn distinct_ids(s: Seq<Json>) -> bool {
    forall|i: int, j: int| 0 <= i < j < s.len() ==> json_id(#[trigger] s[i]) != json_id(#[trigger] s[j])
}

proof fn lemma_with_id_front(s: Seq<Json>, k: Seq<char>)
    requires
        s.len() > 0,
    ensures
        with_id(s, k) == (if json_id(s[0]) == k {
            seq![s[0]] + with_id(s.drop_first(), k)
        } else {
            with_id(s.drop_first(), k)
        }),
{
    assert(s =~= seq![s[0]] + s.drop_first());
    lemma_with_id_add(seq![s[0]], s.drop_first(), k);
    lemma_with_id_push(Seq::<Json>::empty(), s[0], k);
    assert(Seq::<Json>::empty().push(s[0]) =~= seq![s[0]]);
    if json_id(s[0]) != k {
        assert(Seq::<Json>::empty() + with_id(s.drop_first(), k) =~= with_id(s.drop_first(), k));
    }
}

proof fn lemma_with_id_member(s: Seq<Json>, k: Seq<char>, m: int)
    requires
        0 <= m < with_id(s, k).len(),
    ensures
        exists|j: int| 0 <= j < s.len() && s[j] == with_id(s, k)[m] && json_id(s[j]) == k,
    decreases s.len(),
{
    if s.len() > 0 {
        let rest = with_id(s.drop_last(), k);
        if json_id(s.last()) == k && m == rest.len() {
            assert(s[s.len() - 1] == with_id(s, k)[m]);
        } else {
            lemma_with_id_member(s.drop_last(), k, m);
            let j = choose|j: int| 0 <= j < s.drop_last().len() && s.drop_last()[j] == rest[m] && json_id(
                s.drop_last()[j],
            ) == k;
            assert(s[j] == with_id(s, k)[m]);
        }
    }
}

proof fn lemma_with_id_single(s: Seq<Json>, k: Seq<char>, i: int)
    requires
        distinct_ids(s),
        0 <= i < s.len(),
        json_id(s[i]) == k,
    ensures
        with_id(s, k) == seq![s[i]],
{
    let front = s.take(i);
    let back = s.skip(i + 1);
    assert(s =~= (front + seq![s[i]]) + back);
    assert forall|j: int| 0 <= j < front.len() implies json_id(#[trigger] front[j]) != k by {
        assert(front[j] == s[j]);
    }
    assert forall|j: int| 0 <= j < back.len() implies json_id(#[trigger] back[j]) != k by {
        assert(back[j] == s[i + 1 + j]);
    }
    lemma_with_id_none(front, k);
    lemma_with_id_none(back, k);
    lemma_with_id_add(front + seq![s[i]], back, k);
    lemma_with_id_add(front, seq![s[i]], k);
    lemma_with_id_push(Seq::<Json>::empty(), s[i], k);
    assert(Seq::<Json>::empty().push(s[i]) =~= seq![s[i]]);
    assert(Seq::<Json>::empty() + seq![s[i]] + Seq::<Json>::empty() =~= seq![s[i]]);
}


proof fn lemma_sorted_unique(r1: Seq<Json>, r2: Seq<Json>)
    requires
        sorted_by_id(r1),
        sorted_by_id(r2),
        forall|k: Seq<char>| #[trigger] with_id(r1, k) == with_id(r2, k),
    ensures
        r1 == r2,
    decreases r1.len(),
{
    if r1.len() == 0 || r2.len() == 0 {
        if r1.len() > 0 {
            let k = json_id(r1[0]);
            lemma_with_id_front(r1, k);
            assert(with_id(r2, k).len() == 0);
        }
        if r2.len() > 0 {
            let k = json_id(r2[0]);
            lemma_with_id_front(r2, k);
            assert(with_id(r1, k).len() == 0);
        }
        assert(r1 =~= r2);
    } else {
        let k1 = json_id(r1[0]);
        let k2 = json_id(r2[0]);
        lemma_with_id_front(r1, k1);
        lemma_with_id_front(r2, k2);
        assert(with_id(r2, k1)[0] == r1[0]);
        lemma_with_id_member(r2, k1, 0);
        let j = choose|j: int| 0 <= j < r2.len() && r2[j] == with_id(r2, k1)[0] && json_id(r2[j]) == k1;
        if j > 0 {
            assert(!text_lt(json_id(r2[j]), json_id(r2[0])));
        }
        assert(with_id(r1, k2)[0] == r2[0]);
        lemma_with_id_member(r1, k2, 0);
        let i = choose|i: int| 0 <= i < r1.len() && r1[i] == with_id(r1, k2)[0] && json_id(r1[i]) == k2;
        if i > 0 {
            assert(!text_lt(json_id(r1[i]), json_id(r1[0])));
        }
        lemma_text_lt_total(k1, k2);
        assert(k1 == k2);
        assert(r1[0] == r2[0]);
        let t1 = r1.drop_first();
        let t2 = r2.drop_first();
        assert forall|k: Seq<char>| #[trigger] with_id(t1, k) == with_id(t2, k) by {
            lemma_with_id_front(r1, k);
            lemma_with_id_front(r2, k);
            if k == k1 {
                assert(with_id(t1, k) =~= with_id(r1, k).drop_first());
                assert(with_id(t2, k) =~= with_id(r2, k).drop_first());
            }
        }
        assert forall|x: int, y: int| 0 <= x < y < t1.len() implies !text_lt(
            json_id(#[trigger] t1[y]),
            json_id(#[trigger] t1[x]),
        ) by {
            assert(t1[y] == r1[y + 1] && t1[x] == r1[x + 1]);
        }
        assert forall|x: int, y: int| 0 <= x < y < t2.len() implies !text_lt(
            json_id(#[trigger] t2[y]),
            json_id(#[trigger] t2[x]),
        ) by {
            assert(t2[y] == r2[y + 1] && t2[x] == r2[x + 1]);
        }
        lemma_sorted_unique(t1, t2);
        assert(r1 =~= r2) by {
            assert forall|x: int| 0 <= x < r1.len() implies r1[x] == r2[x] by {
                if x > 0 {
                    assert(r1[x] == t1[x - 1] && r2[x] == t2[x - 1]);
                }
            }
        }
    }
}

/// The stable sort by id has one result: two arrays whose entries with each
/// id come in the same order sort to the same array.
pub proof fn law_sort_result_is_unique(a: Seq<Json>, o1: Seq<Json>, o2: Seq<Json>)
    requires
        stably_sorted(a, o1),
        stably_sorted(a, o2),
    ensures
        o1 == o2,
{
    assert forall|k: Seq<char>| #[trigger] with_id(o1, k) == with_id(o2, k) by {
        assert(with_id(o1, k) == with_id(a, k));
        assert(with_id(o2, k) == with_id(a, k));
    }
    lemma_sorted_unique(o1, o2);
}

/// Where ids are distinct, the order of the input does not matter: two
/// arrays with the same entries sort to the same array.
pub proof fn law_sort_ignores_input_order(a: Seq<Json>, b: Seq<Json>, o1: Seq<Json>, o2: Seq<Json>)
    requires
        distinct_ids(a),
        distinct_ids(b),
        forall|x: Json| a.contains(x) <==> b.contains(x),
        stably_sorted(a, o1),
        stably_sorted(b, o2),
    ensures
        o1 == o2,
{
    assert forall|k: Seq<char>| #[trigger] with_id(o1, k) == with_id(o2, k) by {
        assert(with_id(o1, k) == with_id(a, k));
        assert(with_id(o2, k) == with_id(b, k));
        if exists|i: int| 0 <= i < a.len() && json_id(a[i]) == k {
            let i = choose|i: int| 0 <= i < a.len() && json_id(a[i]) == k;
            lemma_with_id_single(a, k, i);
            assert(a.contains(a[i]));
            assert(b.contains(a[i]));
            let j = choose|j: int| 0 <= j < b.len() && b[j] == a[i];
            lemma_with_id_single(b, k, j);
        } else {
            lemma_with_id_none(a, k);
            assert forall|j: int| 0 <= j < b.len() implies json_id(#[trigger] b[j]) != k by {
                assert(b.contains(b[j]));
                assert(a.contains(b[j]));
                let i = choose|i: int| 0 <= i < a.len() && a[i] == b[j];
                assert(json_id(a[i]) != k);
            }
            lemma_with_id_none(b, k);
        }
    }
    lemma_sorted_unique(o1, o2);
}


/// The request for a flow snapshot: its URL and its `Authorization` value.
#[derive(Debug, PartialEq, Eq)]
pub struct FlowsRequest {
    pub url: String,
    pub authorization: String,
}

/// The `/flows` URL: the base without trailing `/`, then the ingress path
/// without leading and trailing `/` (when one is left), then `/flows`.
pub open spec fn flows_url(base_url: Seq<char>, ingress_path: Seq<char>) -> Seq<char> {
    let base = strip_trailing(base_url, '/');
    let path = strip_trailing(strip_leading(ingress_path, '/'), '/');
    if path.len() == 0 {
        base + "/flows"@
    } else {
        base + "/"@ + path + "/flows"@
    }
}

/// Plans the flow-snapshot request through the ingress, with the token as
/// bearer credential.
pub fn flows_request(base_url: &str, ingress_path: &str, token: &str) -> (r: FlowsRequest)
    ensures
        r.url@ == flows_url(base_url@, ingress_path@),
        r.authorization@ == "Bearer "@ + token@,
{
    let base = trim_end_char(chars_of(base_url).as_slice(), '/');
    let lead = trim_start_char(chars_of(ingress_path).as_slice(), '/');
    let path = trim_end_char(lead.as_slice(), '/');
    let mut url = String::new();
    push_chars(&mut url, base.as_slice());
    if path.len() == 0 {
        url.append("/flows");
    } else {
        url.append("/");
        push_chars(&mut url, path.as_slice());
        url.append("/flows");
    }
    assert(url@ =~= flows_url(base_url@, ingress_path@));
    let mut authorization = String::new();
    authorization.append("Bearer ");
    authorization.append(token);
    assert(authorization@ =~= "Bearer "@ + token@);
    FlowsRequest { url, authorization }
}

} // verus!
