//! Password records `name=rounds$salt-hex$hash-hex` (PBKDF2-HMAC-SHA256)
//! and their checking.
use vstd::prelude::*;
use vstd::utf8::*;
use sha2::Sha256;
use crate::text::{
    chars_of, decimal, parse_unsigned, parse_unsigned_chars, split_chars, split_on, split_once_chars,
    split_once_spec, string_of, trim_chars, trimmed, views_of, u64_decimal, is_white, is_digit,
    law_decimal_roundtrip, lemma_split_on_prefix, lemma_split_on_single, lemma_split_once_prefix,
    lemma_trimmed_id, lemma_split_on_nonempty, debug_quoted, push_debug_quoted, push_chars,
};
use crate::authgate::encoding::{
    hex_decode, hex_decode_bytes, hex_encode, hex_lower, is_lower_hex_char, law_hex_roundtrip,
    lemma_hex_lower_chars,
};
use crate::authgate::cookie::{valid_username, is_valid_username, username_char};

verus! {

/// Length in bytes of a stored password hash.
pub const HASH_LEN: usize = 32;

/// PBKDF2-HMAC-SHA256 of `password` with `salt` and `rounds` iterations,
/// 32 bytes long.
pub uninterp spec fn pbkdf2_sha256(password: Seq<u8>, salt: Seq<u8>, rounds: u32) -> Seq<u8>;

/// PBKDF2-HMAC-SHA256 through `pbkdf2::pbkdf2_hmac_array::<Sha256, 32>`.
/// Claimed: the result is `pbkdf2_sha256(password, salt, rounds)` and 32
/// bytes long. The crate accepts any password length and any round count
/// (zero rounds run the first block only), so nothing is excluded.
#[verifier::external_body]
pub fn pbkdf2_hash(password: &[u8], salt: &[u8], rounds: u32) -> (h: Vec<u8>)
    ensures
        h@ == pbkdf2_sha256(password@, salt@, rounds),
        h@.len() == 32,
{
    pbkdf2::pbkdf2_hmac_array::<Sha256, 32>(password, salt, rounds).to_vec()
}

/// Constant-time comparison: the same length and the same bytes. The time
/// taken depends on the length only.
pub fn ct_eq(a: &[u8], b: &[u8]) -> (r: bool)
    ensures
        r == (a@ == b@),
{
    if a.len() != b.len() {
        return false;
    }
    let mut diff: u8 = 0;
    let mut i: usize = 0;
    while i < a.len()
        invariant
            a@.len() == b@.len(),
            i <= a@.len(),
            (diff == 0) == (forall|j: int| 0 <= j < i ==> a@[j] == b@[j]),
        decreases a@.len() - i,
    {
        let x = a[i];
        let y = b[i];
        let d = diff;
        assert((d | (x ^ y)) == 0 <==> (d == 0 && x == y)) by (bit_vector);
        diff = diff | (x ^ y);
        i = i + 1;
    }
    assert(diff == 0 ==> a@ =~= b@);
    diff == 0
}

/// A stored user: name, PBKDF2 round count, salt and hash.
pub struct UserRecord {
    pub name: String,
    pub rounds: u32,
    pub salt: Vec<u8>,
    pub hash: Vec<u8>,
}

impl UserRecord {
    /// The record as plain values.
    pub open spec fn view_tuple(&self) -> (Seq<char>, u32, Seq<u8>, Seq<u8>) {
        (self.name@, self.rounds, self.salt@, self.hash@)
    }
}

/// Whether `password` matches the record: the PBKDF2 hash of its UTF-8
/// bytes with the record's salt and rounds equals the stored hash.
pub fn verify_password(rec: &UserRecord, password: &str) -> (ok: bool)
    ensures
        ok == (pbkdf2_sha256(encode_utf8(password@), rec.salt@, rec.rounds) == rec.hash@),
{
    let computed = pbkdf2_hash(password.as_bytes(), rec.salt.as_slice(), rec.rounds);
    ct_eq(computed.as_slice(), rec.hash.as_slice())
}

/// Why a user list was refused.
#[derive(Clone, Copy, PartialEq, Eq, Structural, Debug)]
pub enum UsersErrorKind {
    /// An entry without `=`.
    MissingEquals,
    /// An empty name or one with characters outside the allowed set.
    InvalidName,
    /// The round count is missing or no `u32`.
    BadRounds,
    /// The salt is missing or no hex.
    BadSalt,
    /// The hash is missing or no hex.
    BadHash,
    /// The hash is not 32 bytes long.
    HashLength,
    /// The round count is zero.
    ZeroRounds,
}

/// A refused user list: the kind, the entry or name it concerns, and for
/// `HashLength` the hash length found.
#[derive(Debug)]
pub struct UsersError {
    pub kind: UsersErrorKind,
    pub subject: String,
    pub hash_len: usize,
}

impl UsersError {
    /// The error as plain values.
    pub open spec fn view_tuple(&self) -> (UsersErrorKind, Seq<char>, nat) {
        (self.kind, self.subject@, self.hash_len as nat)
    }
}

/// The message for a refused user list.
pub open spec fn users_error_text(kind: UsersErrorKind, subject: Seq<char>, hash_len: nat) -> Seq<char> {
    match kind {
        UsersErrorKind::MissingEquals => "AUTHGATE_USERS-Eintrag ohne '=': "@ + subject,
        UsersErrorKind::InvalidName => "ungueltiger Benutzername: "@ + debug_quoted(subject),
        UsersErrorKind::BadRounds => "Datensatz "@ + subject + ": rounds fehlt/ungueltig"@,
        UsersErrorKind::BadSalt => "Datensatz "@ + subject + ": salt fehlt/ungueltig"@,
        UsersErrorKind::BadHash => "Datensatz "@ + subject + ": hash fehlt/ungueltig"@,
        UsersErrorKind::HashLength => "Datensatz "@ + subject + ": hash hat "@ + decimal(hash_len)
            + " Byte, erwartet 32"@,
        UsersErrorKind::ZeroRounds => "Datensatz "@ + subject + ": rounds=0"@,
    }
}

impl UsersError {
    /// The message for the user.
    pub fn message(&self) -> (r: String)
        ensures
            r@ == users_error_text(self.kind, self.subject@, self.hash_len as nat),
    {
        let mut r = String::new();
        match self.kind {
            UsersErrorKind::MissingEquals => {
                r.append("AUTHGATE_USERS-Eintrag ohne '=': ");
                r.append(self.subject.as_str());
            },
            UsersErrorKind::InvalidName => {
                r.append("ungueltiger Benutzername: ");
                push_debug_quoted(&mut r, self.subject.as_str());
            },
            _ => {
                r.append("Datensatz ");
                r.append(self.subject.as_str());
                match self.kind {
                    UsersErrorKind::BadRounds => r.append(": rounds fehlt/ungueltig"),
                    UsersErrorKind::BadSalt => r.append(": salt fehlt/ungueltig"),
                    UsersErrorKind::BadHash => r.append(": hash fehlt/ungueltig"),
                    UsersErrorKind::HashLength => {
                        r.append(": hash hat ");
                        let n = u64_decimal(self.hash_len as u64);
                        push_chars(&mut r, n.as_slice());
                        r.append(" Byte, erwartet 32");
                    },
                    _ => r.append(": rounds=0"),
                }
            },
        }
        assert(r@ =~= users_error_text(self.kind, self.subject@, self.hash_len as nat));
        r
    }
}

/// What `parse_user_record` gives for a name and a record text.
pub open spec fn user_record_result(name: Seq<char>, record: Seq<char>) -> Result<
    (Seq<char>, u32, Seq<u8>, Seq<u8>),
    (UsersErrorKind, Seq<char>, nat),
> {
    let parts = split_on(record, '$');
    if !valid_username(name) {
        Err((UsersErrorKind::InvalidName, name, 0))
    } else {
        match parse_unsigned(parts[0], u32::MAX as nat) {
            None => Err((UsersErrorKind::BadRounds, name, 0)),
            Some(rounds) => {
                if parts.len() < 2 || hex_decode_bytes(encode_utf8(parts[1])) is None {
                    Err((UsersErrorKind::BadSalt, name, 0))
                } else if parts.len() < 3 || hex_decode_bytes(encode_utf8(parts[2])) is None {
                    Err((UsersErrorKind::BadHash, name, 0))
                } else {
                    let salt = hex_decode_bytes(encode_utf8(parts[1]))->0;
                    let hash = hex_decode_bytes(encode_utf8(parts[2]))->0;
                    if hash.len() != 32 {
                        Err((UsersErrorKind::HashLength, name, hash.len()))
                    } else if rounds == 0 {
                        Err((UsersErrorKind::ZeroRounds, name, 0))
                    } else {
                        Ok((name, rounds as u32, salt, hash))
                    }
                }
            },
        }
    }
}

/// Parses one record `rounds$salt-hex$hash-hex` for the user `name`.
/// Fields after the third are ignored.
pub fn parse_user_record(name: &str, record: &str) -> (r: Result<UserRecord, UsersError>)
    ensures
        match r {
            Ok(rec) => user_record_result(name@, record@) matches Ok(v) && v == rec.view_tuple(),
            Err(e) => user_record_result(name@, record@) matches Err(x) && x == e.view_tuple(),
        },
{
    let n = chars_of(name);
    let rv = chars_of(record);
    let parts = split_chars(rv.as_slice(), '$');
    let ghost ps = views_of(parts@);
    assert(ps.len() == parts@.len());
    proof {
        crate::text::lemma_split_on_nonempty(rv@, '$');
    }
    if !is_valid_username(n.as_slice()) {
        return Err(UsersError { kind: UsersErrorKind::InvalidName, subject: string_of(n.as_slice()), hash_len: 0 });
    }
    assert(ps[0] == parts@[0]@);
    let rounds = match parse_unsigned_chars(parts[0].as_slice(), u32::MAX as u64) {
        Some(x) => x as u32,
        None => {
            return Err(UsersError { kind: UsersErrorKind::BadRounds, subject: string_of(n.as_slice()), hash_len: 0 });
        },
    };
    if parts.len() < 2 {
        return Err(UsersError { kind: UsersErrorKind::BadSalt, subject: string_of(n.as_slice()), hash_len: 0 });
    }
    assert(ps[1] == parts@[1]@);
    let salt = match hex_decode(string_of(parts[1].as_slice()).as_str()) {
        Some(b) => b,
        None => {
            return Err(UsersError { kind: UsersErrorKind::BadSalt, subject: string_of(n.as_slice()), hash_len: 0 });
        },
    };
    if parts.len() < 3 {
        return Err(UsersError { kind: UsersErrorKind::BadHash, subject: string_of(n.as_slice()), hash_len: 0 });
    }
    assert(ps[2] == parts@[2]@);
    let hash = match hex_decode(string_of(parts[2].as_slice()).as_str()) {
        Some(b) => b,
        None => {
            return Err(UsersError { kind: UsersErrorKind::BadHash, subject: string_of(n.as_slice()), hash_len: 0 });
        },
    };
    if hash.len() != HASH_LEN {
        return Err(UsersError { kind: UsersErrorKind::HashLength, subject: string_of(n.as_slice()), hash_len: hash.len() });
    }
    if rounds == 0 {
        return Err(UsersError { kind: UsersErrorKind::ZeroRounds, subject: string_of(n.as_slice()), hash_len: 0 });
    }
    Ok(UserRecord { name: string_of(n.as_slice()), rounds, salt, hash })
}


type RecordView = (Seq<char>, u32, Seq<u8>, Seq<u8>);

type ErrorView = (UsersErrorKind, Seq<char>, nat);

/// Records parsed so far, put in front of what the rest gives.
pub open spec fn prepend_records(
    done: Seq<(Seq<char>, u32, Seq<u8>, Seq<u8>)>,
    rest: Result<Seq<(Seq<char>, u32, Seq<u8>, Seq<u8>)>, (UsersErrorKind, Seq<char>, nat)>,
) -> Result<Seq<(Seq<char>, u32, Seq<u8>, Seq<u8>)>, (UsersErrorKind, Seq<char>, nat)> {
    match rest {
        Ok(rs) => Ok(done + rs),
        Err(e) => Err(e),
    }
}

/// What `parse_users` gives for the `;`-separated entries: blank entries
/// are skipped, every other entry is `name=record`, both sides trimmed; the
/// first refused entry decides the error.
pub open spec fn users_result(entries: Seq<Seq<char>>) -> Result<
    Seq<(Seq<char>, u32, Seq<u8>, Seq<u8>)>,
    (UsersErrorKind, Seq<char>, nat),
>
    decreases entries.len(),
{
    if entries.len() == 0 {
        Ok(seq![])
    } else {
        let e = trimmed(entries[0]);
        if e.len() == 0 {
            users_result(entries.drop_first())
        } else {
            match split_once_spec(e, '=') {
                None => Err((UsersErrorKind::MissingEquals, e, 0)),
                Some((n, r)) => match user_record_result(trimmed(n), trimmed(r)) {
                    Err(x) => Err(x),
                    Ok(rec) => prepend_records(seq![rec], users_result(entries.drop_first())),
                },
            }
        }
    }
}

/// The user list as plain values.
pub open spec fn records_view(v: Seq<UserRecord>) -> Seq<(Seq<char>, u32, Seq<u8>, Seq<u8>)> {
    v.map_values(|r: UserRecord| r.view_tuple())
}

/// Parses the user list: entries separated by `;`, each `name=record`.
pub fn parse_users(raw: &str) -> (r: Result<Vec<UserRecord>, UsersError>)
    ensures
        match r {
            Ok(v) => users_result(split_on(raw@, ';')) matches Ok(x) && x == records_view(v@),
            Err(e) => users_result(split_on(raw@, ';')) matches Err(x) && x == e.view_tuple(),
        },
{
    let rv = chars_of(raw);
    let entries = split_chars(rv.as_slice(), ';');
    let ghost es = views_of(entries@);
    let mut out: Vec<UserRecord> = Vec::new();
    let mut i: usize = 0;
    assert(es.skip(0) =~= es);
    assert(records_view(out@) =~= seq![]);
    assert(prepend_records(seq![], users_result(es)) == users_result(es)) by {
        match users_result(es) {
            Ok(rs) => { assert(seq![] + rs =~= rs); }
            Err(_) => {}
        }
    }
    while i < entries.len()
        invariant
            es == views_of(entries@),
            es == split_on(rv@, ';'),
            rv@ == raw@,
            i <= entries@.len(),
            users_result(es) == prepend_records(records_view(out@), users_result(es.skip(i as int))),
        decreases entries@.len() - i,
    {
        let ghost rest = es.skip(i as int);
        assert(rest[0] == entries@[i as int]@);
        assert(rest.drop_first() =~= es.skip(i + 1));
        let e = trim_chars(entries[i].as_slice());
        if e.len() == 0 {
            i = i + 1;
            continue;
        }
        let (name, record) = match split_once_chars(e.as_slice(), '=') {
            Some(p) => p,
            None => {
                return Err(UsersError { kind: UsersErrorKind::MissingEquals, subject: string_of(e.as_slice()), hash_len: 0 });
            },
        };
        let tn = trim_chars(name.as_slice());
        let tr = trim_chars(record.as_slice());
        let rec = match parse_user_record(string_of(tn.as_slice()).as_str(), string_of(tr.as_slice()).as_str()) {
            Ok(x) => x,
            Err(err) => {
                return Err(err);
            },
        };
        let ghost before = records_view(out@);
        let ghost rv1 = rec.view_tuple();
        out.push(rec);
        proof {
            assert(records_view(out@) =~= before + seq![rv1]);
            match users_result(es.skip(i + 1)) {
                Ok(rs) => {
                    assert(before + (seq![rv1] + rs) =~= (before + seq![rv1]) + rs);
                }
                Err(_) => {}
            }
        }
        i = i + 1;
    }
    assert(es.skip(i as int) =~= Seq::<Seq<char>>::empty());
    assert(records_view(out@) + seq![] =~= records_view(out@));
    Ok(out)
}

/// The record line `name=rounds$salt-hex$hash-hex` that `hashpw` prints.
pub open spec fn record_line(user: Seq<char>, rounds: u32, salt: Seq<u8>, hash: Seq<u8>) -> Seq<char> {
    user + seq!['='] + (decimal(rounds as nat) + seq!['$'] + (hex_lower(salt) + seq!['$'] + hex_lower(hash)))
}

/// Formats a password record line for the user list.
pub fn format_user_record(user: &str, rounds: u32, salt: &[u8], hash: &[u8]) -> (s: String)
    ensures
        s@ == record_line(user@, rounds, salt@, hash@),
{
    let mut out: Vec<char> = chars_of(user);
    out.push('=');
    let d = u64_decimal(rounds as u64);
    let mut tail: Vec<char> = d;
    tail.push('$');
    let sh = chars_of(hex_encode(salt).as_str());
    let hh = chars_of(hex_encode(hash).as_str());
    let mut t2: Vec<char> = sh;
    t2.push('$');
    let mut k: usize = 0;
    let ghost t2a = t2@;
    while k < hh.len()
        invariant
            k <= hh@.len(),
            t2@ == t2a + hh@.take(k as int),
        decreases hh@.len() - k,
    {
        t2.push(hh[k]);
        k = k + 1;
        assert(t2@ =~= t2a + hh@.take(k as int));
    }
    assert(hh@.take(hh@.len() as int) =~= hh@);
    let mut j: usize = 0;
    let ghost ta = tail@;
    while j < t2.len()
        invariant
            j <= t2@.len(),
            tail@ == ta + t2@.take(j as int),
        decreases t2@.len() - j,
    {
        tail.push(t2[j]);
        j = j + 1;
        assert(tail@ =~= ta + t2@.take(j as int));
    }
    assert(t2@.take(t2@.len() as int) =~= t2@);
    let mut m: usize = 0;
    let ghost oa = out@;
    while m < tail.len()
        invariant
            m <= tail@.len(),
            out@ == oa + tail@.take(m as int),
        decreases tail@.len() - m,
    {
        out.push(tail[m]);
        m = m + 1;
        assert(out@ =~= oa + tail@.take(m as int));
    }
    assert(tail@.take(tail@.len() as int) =~= tail@);
    assert(out@ =~= record_line(user@, rounds, salt@, hash@));
    string_of(out.as_slice())
}

/// A record line formatted for a valid user name, a non-zero round count
/// and a 32-byte hash parses back to exactly that one record.
pub proof fn law_user_record_roundtrip(user: Seq<char>, rounds: u32, salt: Seq<u8>, hash: Seq<u8>)
    requires
        valid_username(user),
        rounds > 0,
        hash.len() == 32,
    ensures
        users_result(split_on(record_line(user, rounds, salt, hash), ';')) == Ok::<
            Seq<(Seq<char>, u32, Seq<u8>, Seq<u8>)>,
            (UsersErrorKind, Seq<char>, nat),
        >(seq![(user, rounds, salt, hash)]),
{
    let d = decimal(rounds as nat);
    let hs = hex_lower(salt);
    let hh = hex_lower(hash);
    law_decimal_roundtrip(rounds as nat, u32::MAX as nat);
    law_hex_roundtrip(salt);
    law_hex_roundtrip(hash);
    lemma_hex_lower_chars(salt);
    lemma_hex_lower_chars(hash);
    crate::authgate::encoding::lemma_hex_lower_len(hash);
    let rest = d + seq!['$'] + (hs + seq!['$'] + hh);
    let line = record_line(user, rounds, salt, hash);
    assert forall|i: int| 0 <= i < user.len() implies user[i] != '=' && user[i] != ';' by {
        assert(username_char(user[i]));
    }
    assert forall|i: int| 0 <= i < d.len() implies d[i] != '$' && d[i] != ';' by {
        assert(is_digit(d[i]));
    }
    assert forall|i: int| 0 <= i < hs.len() implies hs[i] != '$' && hs[i] != ';' by {
        assert(is_lower_hex_char(hs[i]));
    }
    assert forall|i: int| 0 <= i < hh.len() implies hh[i] != '$' && hh[i] != ';' by {
        assert(is_lower_hex_char(hh[i]));
    }
    assert forall|i: int| 0 <= i < rest.len() implies rest[i] != ';' by {
        if i < d.len() {
            assert(rest[i] == d[i]);
        } else if i == d.len() {
        } else if i < d.len() + 1 + hs.len() {
            assert(rest[i] == hs[i - d.len() - 1]);
        } else if i == d.len() + 1 + hs.len() {
        } else {
            assert(rest[i] == hh[i - d.len() - 2 - hs.len()]);
        }
    }
    assert forall|i: int| 0 <= i < line.len() implies line[i] != ';' by {
        if i < user.len() {
            assert(line[i] == user[i]);
        } else if i > user.len() {
            assert(line[i] == rest[i - user.len() - 1]);
        }
    }
    lemma_split_on_single(line, ';');
    assert(username_char(user[0]));
    assert(is_lower_hex_char(hh[hh.len() - 1]));
    assert(line.last() == hh.last());
    assert(line[0] == user[0]);
    lemma_trimmed_id(line);
    lemma_split_once_prefix(user, rest, '=');
    assert(user.last() == user[user.len() - 1]);
    assert(username_char(user.last()));
    lemma_trimmed_id(user);
    assert(is_digit(d[0]));
    assert(rest[0] == d[0]);
    assert(rest.last() == hh.last());
    lemma_trimmed_id(rest);
    lemma_split_on_prefix(d, hs + seq!['$'] + hh, '$');
    lemma_split_on_prefix(hs, hh, '$');
    lemma_split_on_single(hh, '$');
    let parts = split_on(rest, '$');
    assert(parts =~= seq![d, hs, hh]);
    let es = split_on(line, ';');
    assert(es =~= seq![line]);
    assert(es.drop_first() =~= Seq::<Seq<char>>::empty());
    assert(users_result(es.drop_first()) == Ok::<Seq<(Seq<char>, u32, Seq<u8>, Seq<u8>)>, (UsersErrorKind, Seq<char>, nat)>(seq![]));
    assert(parts[0] == d);
    assert(parse_unsigned(parts[0], u32::MAX as nat) == Some(rounds as nat));
    assert(hex_decode_bytes(encode_utf8(parts[1])) == Some(salt));
    assert(hex_decode_bytes(encode_utf8(parts[2])) == Some(hash));
    assert(user_record_result(user, rest) == Ok::<(Seq<char>, u32, Seq<u8>, Seq<u8>), (UsersErrorKind, Seq<char>, nat)>((user, rounds, salt, hash)));
    assert(trimmed(es[0]) == line);
    assert(seq![(user, rounds, salt, hash)] + Seq::<(Seq<char>, u32, Seq<u8>, Seq<u8>)>::empty() =~= seq![(user, rounds, salt, hash)]);
}

} // verus!
