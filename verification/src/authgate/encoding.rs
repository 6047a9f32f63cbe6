//! Hex, URL and HTML encodings used by the auth sidecar.
use vstd::prelude::*;
use vstd::utf8::*;
use crate::text::{escape_html, from_utf8_lossy, html_escaped, string_of, utf8_lossy};

verus! {

broadcast use vstd::utf8::group_utf8_lib;

// ------------------------------------------------------------------ hex

/// Value of an ASCII hex digit (either case).
pub open spec fn hex_digit_value(c: u8) -> Option<u8> {
    if 48 <= c <= 57 {
        Some((c - 48) as u8)
    } else if 97 <= c <= 102 {
        Some((c - 87) as u8)
    } else if 65 <= c <= 70 {
        Some((c - 55) as u8)
    } else {
        None
    }
}

/// Lower-case hex digit for `n < 16`.
pub open spec fn lower_hex_digit(n: u8) -> char {
    if n < 10 {
        ((n + 48) as u32) as char
    } else {
        ((n + 87) as u32) as char
    }
}

/// Upper-case hex digit for `n < 16`.
pub open spec fn upper_hex_digit(n: u8) -> char {
    if n < 10 {
        ((n + 48) as u32) as char
    } else {
        ((n + 55) as u32) as char
    }
}

/// Two lower-case hex digits per byte, high nibble first.
pub open spec fn hex_lower(b: Seq<u8>) -> Seq<char>
    decreases b.len(),
{
    if b.len() == 0 {
        seq![]
    } else {
        hex_lower(b.drop_last()) + seq![lower_hex_digit(b.last() / 16), lower_hex_digit(b.last() % 16)]
    }
}

/// All bytes are hex digits.
pub open spec fn all_hex(b: Seq<u8>) -> bool {
    forall|i: int| 0 <= i < b.len() ==> (#[trigger] hex_digit_value(b[i])) is Some
}

/// Hex decoding of a byte string: `None` for odd length or any non-hex byte.
pub open spec fn hex_decode_bytes(b: Seq<u8>) -> Option<Seq<u8>> {
    if b.len() % 2 != 0 || !all_hex(b) {
        None
    } else {
        Some(Seq::new(b.len() / 2, |k: int| (hex_digit_value(b[2 * k])->0 * 16 + hex_digit_value(b[2 * k + 1])->0) as u8))
    }
}

/// The bytes of an ASCII character sequence.
pub open spec fn ascii_bytes(s: Seq<char>) -> Seq<u8> {
    s.map_values(|c: char| c as u8)
}

/// Value of an ASCII hex digit.
pub fn hex_val(c: u8) -> (r: Option<u8>)
    ensures
        r == hex_digit_value(c),
{
    if 48 <= c && c <= 57 {
        Some(c - 48)
    } else if 97 <= c && c <= 102 {
        Some(c - 87)
    } else if 65 <= c && c <= 70 {
        Some(c - 55)
    } else {
        None
    }
}

fn lower_hex_char(n: u8) -> (c: char)
    requires
        n < 16,
    ensures
        c == lower_hex_digit(n),
{
    if n < 10 {
        (n + 48) as char
    } else {
        (n + 87) as char
    }
}

fn upper_hex_char(n: u8) -> (c: char)
    requires
        n < 16,
    ensures
        c == upper_hex_digit(n),
{
    if n < 10 {
        (n + 48) as char
    } else {
        (n + 55) as char
    }
}

/// Lower-case hex encoding, two digits per byte.
pub fn hex_encode(bytes: &[u8]) -> (s: String)
    ensures
        s@ == hex_lower(bytes@),
{
    let mut out: Vec<char> = Vec::new();
    let mut i: usize = 0;
    while i < bytes.len()
        invariant
            i <= bytes@.len(),
            out@ == hex_lower(bytes@.take(i as int)),
        decreases bytes@.len() - i,
    {
        let b = bytes[i];
        out.push(lower_hex_char(b / 16));
        out.push(lower_hex_char(b % 16));
        i = i + 1;
        assert(bytes@.take(i as int).drop_last() =~= bytes@.take((i - 1) as int));
    }
    assert(bytes@.take(bytes@.len() as int) =~= bytes@);
    string_of(out.as_slice())
}

/// Hex decoding of a string's bytes; `None` for odd length or non-hex input.
pub fn hex_decode(s: &str) -> (r: Option<Vec<u8>>)
    ensures
        match r {
            Some(v) => hex_decode_bytes(encode_utf8(s@)) == Some(v@),
            None => hex_decode_bytes(encode_utf8(s@)) is None,
        },
{
    let b = s.as_bytes();
    if b.len() % 2 != 0 {
        return None;
    }
    let mut out: Vec<u8> = Vec::new();
    let mut i: usize = 0;
    while i < b.len()
        invariant
            b@ == encode_utf8(s@),
            b@.len() % 2 == 0,
            i <= b@.len(),
            i % 2 == 0,
            out@.len() == i / 2,
            forall|j: int| 0 <= j < i ==> (#[trigger] hex_digit_value(b@[j])) is Some,
            forall|k: int| 0 <= k < i / 2 ==> #[trigger] out@[k] == (hex_digit_value(b@[2 * k])->0 * 16 + hex_digit_value(b@[2 * k + 1])->0) as u8,
        decreases b@.len() - i,
    {
        let hi = match hex_val(b[i]) {
            Some(h) => h,
            None => return None,
        };
        let lo = match hex_val(b[i + 1]) {
            Some(l) => l,
            None => return None,
        };
        out.push(hi * 16 + lo);
        i = i + 2;
    }
    let ghost want = Seq::new(b@.len() / 2, |k: int| (hex_digit_value(b@[2 * k])->0 * 16 + hex_digit_value(b@[2 * k + 1])->0) as u8);
    assert(out@ =~= want);
    Some(out)
}


proof fn lemma_hex_digit_roundtrip(n: u8)
    requires
        n < 16,
    ensures
        '\0' <= lower_hex_digit(n) <= '\u{7f}',
        hex_digit_value(lower_hex_digit(n) as u8) == Some(n),
        '\0' <= upper_hex_digit(n) <= '\u{7f}',
        hex_digit_value(upper_hex_digit(n) as u8) == Some(n),
{
}

proof fn lemma_hex_lower_shape(b: Seq<u8>)
    ensures
        hex_lower(b).len() == 2 * b.len(),
        forall|k: int|
            0 <= k < b.len() ==> hex_lower(b)[2 * k] == lower_hex_digit(#[trigger] b[k] / 16)
                && hex_lower(b)[2 * k + 1] == lower_hex_digit(b[k] % 16),
    decreases b.len(),
{
    if b.len() > 0 {
        lemma_hex_lower_shape(b.drop_last());
        assert forall|k: int| 0 <= k < b.len() implies hex_lower(b)[2 * k] == lower_hex_digit(
            #[trigger] b[k] / 16,
        ) && hex_lower(b)[2 * k + 1] == lower_hex_digit(b[k] % 16) by {
            if k < b.len() - 1 {
                assert(b[k] == b.drop_last()[k]);
            }
        }
    }
}

/// Hex-decoding the lower-case hex encoding of any byte string gives the
/// bytes back.
pub proof fn law_hex_roundtrip(b: Seq<u8>)
    ensures
        is_ascii_chars(hex_lower(b)),
        hex_decode_bytes(encode_utf8(hex_lower(b))) == Some(b),
{
    lemma_hex_lower_shape(b);
    let h = hex_lower(b);
    assert forall|i: int| 0 <= i < h.len() implies '\0' <= #[trigger] h[i] <= '\u{7f}' by {
        let k = i / 2;
        assert(i == 2 * k || i == 2 * k + 1);
        lemma_hex_digit_roundtrip(b[k] / 16);
        lemma_hex_digit_roundtrip(b[k] % 16);
    }
    is_ascii_chars_encode_utf8(h);
    let e = encode_utf8(h);
    assert forall|i: int| 0 <= i < e.len() implies (#[trigger] hex_digit_value(e[i])) is Some by {
        let k = i / 2;
        assert(i == 2 * k || i == 2 * k + 1);
        assert(h[i] as u8 == e[i]);
        lemma_hex_digit_roundtrip(b[k] / 16);
        lemma_hex_digit_roundtrip(b[k] % 16);
    }
    let want = Seq::new(e.len() / 2, |k: int| (hex_digit_value(e[2 * k])->0 * 16 + hex_digit_value(e[2 * k + 1])->0) as u8);
    assert forall|k: int| 0 <= k < b.len() implies want[k] == b[k] by {
        assert(h[2 * k] as u8 == e[2 * k]);
        assert(h[2 * k + 1] as u8 == e[2 * k + 1]);
        lemma_hex_digit_roundtrip(b[k] / 16);
        lemma_hex_digit_roundtrip(b[k] % 16);
    }
    assert(want =~= b);
}


// ------------------------------------------------------------------ url

/// Bytes left as they are by `urlencode`: ASCII letters and digits and
/// `-._~`. Everything else, `/` included, is escaped, so that a path passed
/// as a query value keeps its slashes as `%2F`.
pub open spec fn is_unreserved(b: u8) -> bool {
    (65 <= b <= 90) || (97 <= b <= 122) || (48 <= b <= 57) || b == 45 || b == 46 || b == 95 || b == 126
}

/// The encoding of one byte: itself, or `%` and two upper-case hex digits.
pub open spec fn url_encode_byte(b: u8) -> Seq<char> {
    if is_unreserved(b) {
        seq![(b as u32) as char]
    } else {
        seq!['%', upper_hex_digit(b / 16), upper_hex_digit(b % 16)]
    }
}

/// Percent-encoding of a byte string.
pub open spec fn url_encode_bytes(b: Seq<u8>) -> Seq<char>
    decreases b.len(),
{
    if b.len() == 0 {
        seq![]
    } else {
        url_encode_byte(b[0]) + url_encode_bytes(b.drop_first())
    }
}

/// Decoding of a byte string as `urldecode` does it: `+` is a space, `%`
/// followed by two hex digits (with at least one byte after the `%`-pair's
/// first digit) is that byte, anything else is kept.
pub open spec fn url_decode_bytes(b: Seq<u8>) -> Seq<u8>
    decreases b.len(),
{
    if b.len() == 0 {
        seq![]
    } else if b[0] == 43 {
        seq![32u8] + url_decode_bytes(b.drop_first())
    } else if b[0] == 37 && 2 < b.len() && hex_digit_value(b[1]) is Some && hex_digit_value(b[2]) is Some {
        seq![(hex_digit_value(b[1])->0 * 16 + hex_digit_value(b[2])->0) as u8] + url_decode_bytes(
            b.subrange(3, b.len() as int),
        )
    } else {
        seq![b[0]] + url_decode_bytes(b.drop_first())
    }
}

proof fn lemma_url_encode_append(b: Seq<u8>, i: int)
    requires
        0 <= i < b.len(),
    ensures
        url_encode_bytes(b.take(i + 1)) == url_encode_bytes(b.take(i)) + url_encode_byte(b[i]),
    decreases i,
{
    if i == 0 {
        assert(b.take(1).drop_first() =~= seq![]);
        assert(b.take(0) =~= seq![]);
    } else {
        let t = b.drop_first();
        lemma_url_encode_append(t, i - 1);
        assert(b.take(i + 1).drop_first() =~= t.take(i));
        assert(b.take(i).drop_first() =~= t.take(i - 1));
    }
}

/// Percent-encodes the UTF-8 bytes of `s`; unreserved bytes stay.
pub fn urlencode(s: &str) -> (r: String)
    ensures
        r@ == url_encode_bytes(encode_utf8(s@)),
{
    let b = s.as_bytes();
    let mut out: Vec<char> = Vec::new();
    let mut i: usize = 0;
    while i < b.len()
        invariant
            b@ == encode_utf8(s@),
            i <= b@.len(),
            out@ == url_encode_bytes(b@.take(i as int)),
        decreases b@.len() - i,
    {
        let x = b[i];
        proof {
            lemma_url_encode_append(b@, i as int);
        }
        if (65 <= x && x <= 90) || (97 <= x && x <= 122) || (48 <= x && x <= 57) || x == 45 || x == 46
            || x == 95 || x == 126 {
            out.push(x as char);
        } else {
            out.push('%');
            out.push(upper_hex_char(x / 16));
            out.push(upper_hex_char(x % 16));
        }
        i = i + 1;
    }
    assert(b@.take(b@.len() as int) =~= b@);
    string_of(out.as_slice())
}

/// Decodes `+` and `%XX` in the UTF-8 bytes of `s`; the result is read back
/// as UTF-8 with invalid sequences replaced.
pub fn urldecode(s: &str) -> (r: String)
    ensures
        r@ == utf8_lossy(url_decode_bytes(encode_utf8(s@))),
        valid_utf8(url_decode_bytes(encode_utf8(s@))) ==> r@ == decode_utf8(
            url_decode_bytes(encode_utf8(s@)),
        ),
{
    let b = s.as_bytes();
    let mut out: Vec<u8> = Vec::new();
    let mut i: usize = 0;
    assert(b@.subrange(0, b@.len() as int) =~= b@);
    while i < b.len()
        invariant
            b@ == encode_utf8(s@),
            i <= b@.len(),
            url_decode_bytes(b@) == out@ + url_decode_bytes(b@.subrange(i as int, b@.len() as int)),
        decreases b@.len() - i,
    {
        let ghost rest = b@.subrange(i as int, b@.len() as int);
        if b[i] == 43 {
            out.push(32);
            i = i + 1;
            assert(rest.drop_first() =~= b@.subrange(i as int, b@.len() as int));
        } else if b[i] == 37 && b.len() - i > 2 {
            match (hex_val(b[i + 1]), hex_val(b[i + 2])) {
                (Some(hi), Some(lo)) => {
                    out.push(hi * 16 + lo);
                    i = i + 3;
                    assert(rest.subrange(3, rest.len() as int) =~= b@.subrange(i as int, b@.len() as int));
                }
                _ => {
                    out.push(37);
                    i = i + 1;
                    assert(rest.drop_first() =~= b@.subrange(i as int, b@.len() as int));
                }
            }
        } else {
            out.push(b[i]);
            i = i + 1;
            assert(rest.drop_first() =~= b@.subrange(i as int, b@.len() as int));
        }
    }
    assert(url_decode_bytes(b@.subrange(i as int, b@.len() as int)) =~= seq![]);
    assert(out@ + seq![] =~= out@);
    from_utf8_lossy(out.as_slice())
}

proof fn lemma_url_decode_encoded(b: Seq<u8>)
    ensures
        is_ascii_chars(url_encode_bytes(b)),
        url_decode_bytes(encode_utf8(url_encode_bytes(b))) == b,
    decreases b.len(),
{
    if b.len() > 0 {
        let x = b[0];
        let rest = b.drop_first();
        lemma_url_decode_encoded(rest);
        let r = url_encode_bytes(rest);
        let c = url_encode_byte(x);
        lemma_hex_digit_roundtrip(x / 16);
        lemma_hex_digit_roundtrip(x % 16);
        assert(is_ascii_chars(c));
        assert(url_encode_bytes(b) == c + r);
        is_ascii_chars_concat(c + r, c, r);
        is_ascii_chars_encode_utf8(c + r);
        is_ascii_chars_encode_utf8(r);
        let e = encode_utf8(c + r);
        let er = encode_utf8(r);
        if is_unreserved(x) {
            assert(e[0] == x);
            assert(e.drop_first() =~= er);
        } else {
            assert(e[0] == 37u8);
            assert(e[1] == upper_hex_digit(x / 16) as u8);
            assert(e[2] == upper_hex_digit(x % 16) as u8);
            assert(e.subrange(3, e.len() as int) =~= er);
            assert((x / 16) * 16 + x % 16 == x);
        }
        assert(seq![x] + rest =~= b);
    }
}

/// Percent-decoding the percent-encoding of any text gives the text back.
pub proof fn law_url_roundtrip(s: Seq<char>)
    ensures
        url_decode_bytes(encode_utf8(url_encode_bytes(encode_utf8(s)))) == encode_utf8(s),
        valid_utf8(encode_utf8(s)),
        decode_utf8(encode_utf8(s)) == s,
{
    lemma_url_decode_encoded(encode_utf8(s));
}


// ------------------------------------------------------------------ html

/// Escapes `&`, `<`, `>` and `"` for HTML text and attribute values.
pub fn html_escape(s: &str) -> (r: String)
    ensures
        r@ == html_escaped(s@, false),
{
    escape_html(s, false)
}


proof fn lemma_lower_hex_digit_char(n: u8)
    requires
        n < 16,
    ensures
        is_lower_hex_char(lower_hex_digit(n)),
{
}

/// A lower-case hex digit character.
pub open spec fn is_lower_hex_char(c: char) -> bool {
    ('0' <= c <= '9') || ('a' <= c <= 'f')
}

/// Every character of a lower-case hex encoding is a lower-case hex digit.
pub proof fn lemma_hex_lower_chars(b: Seq<u8>)
    ensures
        forall|i: int| 0 <= i < hex_lower(b).len() ==> is_lower_hex_char(#[trigger] hex_lower(b)[i]),
{
    lemma_hex_lower_shape(b);
    let h = hex_lower(b);
    assert forall|i: int| 0 <= i < h.len() implies is_lower_hex_char(#[trigger] h[i]) by {
        let k = i / 2;
        assert(i == 2 * k || i == 2 * k + 1);
        lemma_lower_hex_digit_char(b[k] / 16);
        lemma_lower_hex_digit_char(b[k] % 16);
    }
}


/// A hex encoding has two characters per byte.
pub proof fn lemma_hex_lower_len(b: Seq<u8>)
    ensures
        hex_lower(b).len() == 2 * b.len(),
{
    lemma_hex_lower_shape(b);
}

} // verus!
