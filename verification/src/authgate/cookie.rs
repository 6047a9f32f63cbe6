//! Signed, stateless session cookies: `v1.<user-hex>.<expiry>.<mac-hex>`,
//! the MAC being HMAC-SHA256 over `v1\n<user>\n<expiry>`.
use vstd::prelude::*;
use vstd::utf8::*;
use hmac::{Hmac, Mac};
use sha2::Sha256;
use crate::text::{
    is_white, trimmed, lemma_trimmed_id, chars_of, decimal, is_digit, law_decimal_roundtrip, lemma_split_on_prefix, lemma_split_on_single,
    parse_unsigned, parse_unsigned_chars, split_chars, split_on, string_of, u64_decimal, views_of,
};
use crate::authgate::encoding::{
    hex_decode, hex_decode_bytes, hex_encode, hex_lower, is_lower_hex_char, law_hex_roundtrip,
    lemma_hex_lower_chars,
};

verus! {

/// HMAC-SHA256 of `msg` under `key` (32 bytes).
pub uninterp spec fn hmac_sha256(key: Seq<u8>, msg: Seq<u8>) -> Seq<u8>;

/// HMAC-SHA256 over `msg` with `secret`, through the `hmac` and `sha2`
/// crates. Claimed: the tag is `hmac_sha256(secret, msg)` and is 32 bytes
/// long (the output size of SHA-256). `new_from_slice` accepts keys of any
/// length, so the `expect` never fires.
#[verifier::external_body]
pub fn sign(secret: &[u8], msg: &[u8]) -> (mac: Vec<u8>)
    ensures
        mac@ == hmac_sha256(secret@, msg@),
        mac@.len() == 32,
{
    let mut mac = <Hmac<Sha256> as Mac>::new_from_slice(secret).expect("HMAC takes any key length");
    mac.update(msg);
    mac.finalize().into_bytes().to_vec()
}

/// Constant-time tag check through `hmac`'s `Mac::verify_slice`. Claimed:
/// true exactly when `tag` equals `hmac_sha256(secret, msg)`; the crate
/// rejects tags of another length and compares the rest with `subtle`.
#[verifier::external_body]
fn mac_matches(secret: &[u8], msg: &[u8], tag: &[u8]) -> (ok: bool)
    ensures
        ok == (tag@ == hmac_sha256(secret@, msg@)),
{
    let mut check = <Hmac<Sha256> as Mac>::new_from_slice(secret).expect("HMAC takes any key length");
    check.update(msg);
    check.verify_slice(tag).is_ok()
}

/// Bytes allowed in a user name: ASCII letters and digits, `.`, `_`, `-`, `@`.
pub open spec fn username_byte(b: u8) -> bool {
    (48 <= b <= 57) || (65 <= b <= 90) || (97 <= b <= 122) || b == 46 || b == 95 || b == 45 || b == 64
}

/// A user name: non-empty, of allowed bytes only.
pub open spec fn valid_username_bytes(b: Seq<u8>) -> bool {
    b.len() > 0 && forall|i: int| 0 <= i < b.len() ==> username_byte(#[trigger] b[i])
}

/// A character allowed in a user name (the characters of `username_byte`).
pub open spec fn username_char(c: char) -> bool {
    ('0' <= c <= '9') || ('A' <= c <= 'Z') || ('a' <= c <= 'z') || c == '.' || c == '_' || c == '-' || c
        == '@'
}

/// A user name given as characters: non-empty, of allowed characters.
pub open spec fn valid_username(s: Seq<char>) -> bool {
    s.len() > 0 && forall|i: int| 0 <= i < s.len() ==> username_char(#[trigger] s[i])
}

/// The characters of an ASCII byte string.
pub open spec fn ascii_chars(b: Seq<u8>) -> Seq<char> {
    b.map_values(|x: u8| (x as u32) as char)
}

/// Whether `b` may appear in a user name.
pub fn is_username_byte(b: u8) -> (r: bool)
    ensures
        r == username_byte(b),
{
    (48 <= b && b <= 57) || (65 <= b && b <= 90) || (97 <= b && b <= 122) || b == 46 || b == 95 || b == 45
        || b == 64
}

/// Whether every character of `v` is an allowed user-name character and
/// there is at least one.
pub fn is_valid_username(v: &[char]) -> (r: bool)
    ensures
        r == valid_username(v@),
{
    if v.len() == 0 {
        return false;
    }
    let mut i: usize = 0;
    while i < v.len()
        invariant
            i <= v@.len(),
            forall|j: int| 0 <= j < i ==> username_char(#[trigger] v@[j]),
        decreases v@.len() - i,
    {
        let c = v[i];
        if !(('0' <= c && c <= '9') || ('A' <= c && c <= 'Z') || ('a' <= c && c <= 'z') || c == '.' || c
            == '_' || c == '-' || c == '@') {
            return false;
        }
        i = i + 1;
    }
    true
}

/// The signed text: `v1`, the user and the expiry, one per line.
pub open spec fn cookie_payload_text(user: Seq<char>, exp: nat) -> Seq<char> {
    seq!['v', '1', '\n'] + user + seq!['\n'] + decimal(exp)
}

/// The cookie value `make_cookie` builds.
pub open spec fn cookie_text(secret: Seq<u8>, user: Seq<char>, exp: nat) -> Seq<char> {
    seq!['v', '1', '.'] + hex_lower(encode_utf8(user)) + seq!['.'] + decimal(exp) + seq!['.'] + hex_lower(
        hmac_sha256(secret, encode_utf8(cookie_payload_text(user, exp))),
    )
}

/// What `verify_cookie` accepts: exactly four `.`-separated fields, the
/// version `v1`, a hex user name of allowed bytes, a decimal `u64` expiry, a
/// hex MAC equal to the HMAC of the payload, and an expiry after `now`.
pub open spec fn verified_cookie_user(secret: Seq<u8>, value: Seq<char>, now: nat) -> Option<Seq<char>> {
    let parts = split_on(value, '.');
    if parts.len() != 4 || parts[0] != seq!['v', '1'] {
        None
    } else {
        match (
            hex_decode_bytes(encode_utf8(parts[1])),
            parse_unsigned(parts[2], u64::MAX as nat),
            hex_decode_bytes(encode_utf8(parts[3])),
        ) {
            (Some(ub), Some(exp), Some(mac)) => {
                if valid_username_bytes(ub) && mac == hmac_sha256(
                    secret,
                    encode_utf8(cookie_payload_text(ascii_chars(ub), exp)),
                ) && exp > now {
                    Some(ascii_chars(ub))
                } else {
                    None
                }
            },
            _ => None,
        }
    }
}

fn payload_chars(user: &[char], exp: u64) -> (v: Vec<char>)
    ensures
        v@ == cookie_payload_text(user@, exp as nat),
{
    let mut v: Vec<char> = Vec::new();
    v.push('v');
    v.push('1');
    v.push('\n');
    let mut i: usize = 0;
    while i < user.len()
        invariant
            i <= user@.len(),
            v@ == seq!['v', '1', '\n'] + user@.take(i as int),
        decreases user@.len() - i,
    {
        v.push(user[i]);
        i = i + 1;
        assert(v@ =~= seq!['v', '1', '\n'] + user@.take(i as int));
    }
    v.push('\n');
    let d = u64_decimal(exp);
    let mut j: usize = 0;
    let ghost mid = v@;
    while j < d.len()
        invariant
            j <= d@.len(),
            v@ == mid + d@.take(j as int),
        decreases d@.len() - j,
    {
        v.push(d[j]);
        j = j + 1;
        assert(v@ =~= mid + d@.take(j as int));
    }
    assert(v@ =~= cookie_payload_text(user@, exp as nat));
    v
}

/// The signed payload `v1\n<user>\n<exp>`.
pub fn cookie_payload(user: &str, exp: u64) -> (s: String)
    ensures
        s@ == cookie_payload_text(user@, exp as nat),
{
    let u = chars_of(user);
    let v = payload_chars(u.as_slice(), exp);
    string_of(v.as_slice())
}

/// Builds the signed cookie value `v1.<hex user>.<exp>.<hex mac>`.
pub fn make_cookie(secret: &[u8], user: &str, exp: u64) -> (c: String)
    ensures
        c@ == cookie_text(secret@, user@, exp as nat),
{
    let payload = cookie_payload(user, exp);
    let mac = sign(secret, payload.as_str().as_bytes());
    let user_hex = hex_encode(user.as_bytes());
    let mac_hex = hex_encode(mac.as_slice());
    let mut out: Vec<char> = Vec::new();
    out.push('v');
    out.push('1');
    out.push('.');
    let a = chars_of(user_hex.as_str());
    append_all(&mut out, a.as_slice());
    out.push('.');
    let d = u64_decimal(exp);
    append_all(&mut out, d.as_slice());
    out.push('.');
    let m = chars_of(mac_hex.as_str());
    append_all(&mut out, m.as_slice());
    assert(out@ =~= cookie_text(secret@, user@, exp as nat));
    string_of(out.as_slice())
}

fn append_all(out: &mut Vec<char>, v: &[char])
    ensures
        final(out)@ == old(out)@ + v@,
{
    let mut i: usize = 0;
    while i < v.len()
        invariant
            i <= v@.len(),
            out@ == old(out)@ + v@.take(i as int),
        decreases v@.len() - i,
    {
        out.push(v[i]);
        i = i + 1;
        assert(out@ =~= old(out)@ + v@.take(i as int));
    }
    assert(v@.take(v@.len() as int) =~= v@);
}

/// Checks a cookie value and returns its user name when it is valid (see
/// `verified_cookie_user`).
pub fn verify_cookie(secret: &[u8], value: &str, now: u64) -> (r: Option<String>)
    ensures
        match r {
            Some(u) => verified_cookie_user(secret@, value@, now as nat) == Some(u@),
            None => verified_cookie_user(secret@, value@, now as nat) is None,
        },
{
    let v = chars_of(value);
    let parts = split_chars(v.as_slice(), '.');
    let ghost ps = views_of(parts@);
    assert(ps.len() == parts@.len());
    if parts.len() != 4 {
        return None;
    }
    assert(ps[0] == parts@[0]@);
    if !(parts[0].len() == 2 && parts[0][0] == 'v' && parts[0][1] == '1') {
        assert(ps[0] != seq!['v', '1']) by {
            if ps[0] == seq!['v', '1'] {
                assert(ps[0][0] == 'v');
            }
        }
        return None;
    }
    assert(ps[0] =~= seq!['v', '1']);
    assert(ps[1] == parts@[1]@);
    assert(ps[2] == parts@[2]@);
    assert(ps[3] == parts@[3]@);
    let user_hex = string_of(parts[1].as_slice());
    let ub = match hex_decode(user_hex.as_str()) {
        Some(b) => b,
        None => return None,
    };
    let mut ok_user = ub.len() > 0;
    let mut i: usize = 0;
    while i < ub.len()
        invariant
            i <= ub@.len(),
            ok_user == (ub@.len() > 0 && forall|j: int| 0 <= j < i ==> username_byte(#[trigger] ub@[j])),
        decreases ub@.len() - i,
    {
        ok_user = ok_user && is_username_byte(ub[i]);
        i = i + 1;
    }
    if !ok_user {
        return None;
    }
    let exp = match parse_unsigned_chars(parts[2].as_slice(), u64::MAX) {
        Some(e) => e,
        None => return None,
    };
    let mac_hex = string_of(parts[3].as_slice());
    let mac = match hex_decode(mac_hex.as_str()) {
        Some(m) => m,
        None => return None,
    };
    let mut user_chars: Vec<char> = Vec::new();
    let mut k: usize = 0;
    while k < ub.len()
        invariant
            k <= ub@.len(),
            user_chars@ == ascii_chars(ub@.take(k as int)),
        decreases ub@.len() - k,
    {
        user_chars.push(ub[k] as char);
        k = k + 1;
        assert(user_chars@ =~= ascii_chars(ub@.take(k as int)));
    }
    assert(ub@.take(ub@.len() as int) =~= ub@);
    let payload = string_of(payload_chars(user_chars.as_slice(), exp).as_slice());
    if !mac_matches(secret, payload.as_str().as_bytes(), mac.as_slice()) {
        return None;
    }
    if exp <= now {
        return None;
    }
    Some(string_of(user_chars.as_slice()))
}

proof fn lemma_username_bytes(user: Seq<char>)
    requires
        valid_username(user),
    ensures
        valid_username_bytes(encode_utf8(user)),
        ascii_chars(encode_utf8(user)) == user,
{
    assert(is_ascii_chars(user)) by {
        assert forall|i: int| 0 <= i < user.len() implies '\0' <= #[trigger] user[i] <= '\u{7f}' by {
            assert(username_char(user[i]));
        }
    }
    is_ascii_chars_encode_utf8(user);
    let e = encode_utf8(user);
    assert forall|i: int| 0 <= i < e.len() implies username_byte(#[trigger] e[i]) by {
        assert(user[i] as u8 == e[i]);
        assert(username_char(user[i]));
    }
    assert forall|i: int| 0 <= i < user.len() implies ascii_chars(e)[i] == user[i] by {
        assert(user[i] as u8 == e[i]);
        assert(username_char(user[i]));
    }
    assert(ascii_chars(e) =~= user);
}

proof fn lemma_cookie_parts(secret: Seq<u8>, user: Seq<char>, exp: u64)
    ensures
        split_on(cookie_text(secret, user, exp as nat), '.') == seq![
            seq!['v', '1'],
            hex_lower(encode_utf8(user)),
            decimal(exp as nat),
            hex_lower(hmac_sha256(secret, encode_utf8(cookie_payload_text(user, exp as nat)))),
        ],
{
    let ub = encode_utf8(user);
    let mac = hmac_sha256(secret, encode_utf8(cookie_payload_text(user, exp as nat)));
    let h1 = hex_lower(ub);
    let d = decimal(exp as nat);
    let h2 = hex_lower(mac);
    lemma_hex_lower_chars(ub);
    lemma_hex_lower_chars(mac);
    law_decimal_roundtrip(exp as nat, u64::MAX as nat);
    let v1 = seq!['v', '1'];
    assert forall|i: int| 0 <= i < v1.len() implies v1[i] != '.' by {}
    assert forall|i: int| 0 <= i < h1.len() implies h1[i] != '.' by {
        assert(is_lower_hex_char(h1[i]));
    }
    assert forall|i: int| 0 <= i < d.len() implies d[i] != '.' by {
        assert(is_digit(d[i]));
    }
    assert forall|i: int| 0 <= i < h2.len() implies h2[i] != '.' by {
        assert(is_lower_hex_char(h2[i]));
    }
    let text = cookie_text(secret, user, exp as nat);
    assert(text =~= v1 + seq!['.'] + (h1 + seq!['.'] + (d + seq!['.'] + h2)));
    lemma_split_on_prefix(v1, h1 + seq!['.'] + (d + seq!['.'] + h2), '.');
    lemma_split_on_prefix(h1, d + seq!['.'] + h2, '.');
    lemma_split_on_prefix(d, h2, '.');
    lemma_split_on_single(h2, '.');
    assert(split_on(text, '.') =~= seq![v1, h1, d, h2]);
}

/// A cookie made for a valid user name verifies, with the same secret, to
/// that user name while it has not expired, and never once it has.
pub proof fn law_cookie_roundtrip(secret: Seq<u8>, user: Seq<char>, exp: u64, now: u64)
    requires
        valid_username(user),
    ensures
        exp > now ==> verified_cookie_user(secret, cookie_text(secret, user, exp as nat), now as nat) == Some(user),
        exp <= now ==> verified_cookie_user(secret, cookie_text(secret, user, exp as nat), now as nat) is None,
{
    lemma_username_bytes(user);
    let ub = encode_utf8(user);
    let mac = hmac_sha256(secret, encode_utf8(cookie_payload_text(user, exp as nat)));
    lemma_cookie_parts(secret, user, exp);
    law_hex_roundtrip(ub);
    law_hex_roundtrip(mac);
    law_decimal_roundtrip(exp as nat, u64::MAX as nat);
    let parts = split_on(cookie_text(secret, user, exp as nat), '.');
    assert(parts[1] == hex_lower(ub));
    assert(parts[2] == decimal(exp as nat));
    assert(parts[3] == hex_lower(mac));
}


/// A character that may stand in a cookie value without further quoting:
/// neither white space nor `;`.
pub open spec fn cookie_safe_char(c: char) -> bool {
    !is_white(c) && c != ';'
}

/// All characters of `s` are cookie-safe.
pub open spec fn all_cookie_safe(s: Seq<char>) -> bool {
    forall|i: int| 0 <= i < s.len() ==> cookie_safe_char(#[trigger] s[i])
}

proof fn lemma_all_cookie_safe_concat(a: Seq<char>, b: Seq<char>)
    requires
        all_cookie_safe(a),
        all_cookie_safe(b),
    ensures
        all_cookie_safe(a + b),
{
    assert forall|i: int| 0 <= i < (a + b).len() implies cookie_safe_char(#[trigger] (a + b)[i]) by {
        if i < a.len() {
            assert((a + b)[i] == a[i]);
        } else {
            assert((a + b)[i] == b[i - a.len()]);
        }
    }
}

/// A cookie value for a valid user name holds neither white space nor `;`,
/// and ends with a hex digit.
pub proof fn lemma_cookie_text_safe(secret: Seq<u8>, user: Seq<char>, exp: u64)
    requires
        valid_username(user),
    ensures
        all_cookie_safe(cookie_text(secret, user, exp as nat)),
        cookie_text(secret, user, exp as nat).len() > 0,
{
    let ub = encode_utf8(user);
    let mac = hmac_sha256(secret, encode_utf8(cookie_payload_text(user, exp as nat)));
    let h1 = hex_lower(ub);
    let d = decimal(exp as nat);
    let h2 = hex_lower(mac);
    lemma_hex_lower_chars(ub);
    lemma_hex_lower_chars(mac);
    law_decimal_roundtrip(exp as nat, u64::MAX as nat);
    let v1 = seq!['v', '1', '.'];
    let dot = seq!['.'];
    assert(all_cookie_safe(v1));
    assert(all_cookie_safe(dot));
    assert(all_cookie_safe(h1)) by {
        assert forall|i: int| 0 <= i < h1.len() implies cookie_safe_char(#[trigger] h1[i]) by {
            assert(is_lower_hex_char(h1[i]));
        }
    }
    assert(all_cookie_safe(h2)) by {
        assert forall|i: int| 0 <= i < h2.len() implies cookie_safe_char(#[trigger] h2[i]) by {
            assert(is_lower_hex_char(h2[i]));
        }
    }
    assert(all_cookie_safe(d)) by {
        assert forall|i: int| 0 <= i < d.len() implies cookie_safe_char(#[trigger] d[i]) by {
            assert(is_digit(d[i]));
        }
    }
    lemma_all_cookie_safe_concat(v1, h1);
    lemma_all_cookie_safe_concat(v1 + h1, dot);
    lemma_all_cookie_safe_concat(v1 + h1 + dot, d);
    lemma_all_cookie_safe_concat(v1 + h1 + dot + d, dot);
    lemma_all_cookie_safe_concat(v1 + h1 + dot + d + dot, h2);
    let t = cookie_text(secret, user, exp as nat);
    assert(t =~= v1 + h1 + dot + d + dot + h2);
}

} // verus!
