//! Reading decrypted `KEY=VALUE` secret lists.
use vstd::prelude::*;
use crate::text::{
    chars_of, debug_quoted, equals_text, lemma_split_on_nonempty, push_debug_quoted, push_chars, slice_chars, split_chars, split_on,
    split_once_chars, split_once_spec, string_of, trim_chars, trimmed, u64_decimal, decimal,
    views_of, is_white, trim_start_spec, trim_end_spec, lemma_trim_start_skip, lemma_trim_end_take,
    lemma_split_on_single, lemma_split_on_prefix, lemma_split_once_prefix,
};

verus! {

/// A key-value list with distinct keys, in the order the keys first came.
#[derive(Debug)]
pub struct EnvMap {
    entries: Vec<(String, String)>,
}

/// The map that a list of entries stands for; a later entry for a key wins.
pub open spec fn entries_map(s: Seq<(String, String)>) -> Map<Seq<char>, Seq<char>>
    decreases s.len(),
{
    if s.len() == 0 {
        Map::empty()
    } else {
        entries_map(s.drop_last()).insert(s.last().0@, s.last().1@)
    }
}

/// No key occurs twice.
pub open spec fn keys_unique(s: Seq<(String, String)>) -> bool {
    forall|i: int, j: int| 0 <= i < j < s.len() ==> (#[trigger] s[i]).0@ != (#[trigger] s[j]).0@
}

impl View for EnvMap {
    type V = Map<Seq<char>, Seq<char>>;

    closed spec fn view(&self) -> Map<Seq<char>, Seq<char>> {
        entries_map(self.entries@)
    }
}

proof fn lemma_entries_map(s: Seq<(String, String)>)
    requires
        keys_unique(s),
    ensures
        entries_map(s).dom().finite(),
        entries_map(s).dom().len() == s.len(),
        forall|k: Seq<char>| #[trigger] entries_map(s).contains_key(k) <==> exists|i: int|
            0 <= i < s.len() && s[i].0@ == k,
        forall|i: int| 0 <= i < s.len() ==> entries_map(s)[(#[trigger] s[i]).0@] == s[i].1@,
    decreases s.len(),
{
    if s.len() > 0 {
        let t = s.drop_last();
        assert forall|i: int, j: int| 0 <= i < j < t.len() implies (#[trigger] t[i]).0@ != (
        #[trigger] t[j]).0@ by {
            assert(t[i] == s[i] && t[j] == s[j]);
        }
        lemma_entries_map(t);
        let last = s.last();
        assert(!entries_map(t).contains_key(last.0@)) by {
            if entries_map(t).contains_key(last.0@) {
                let i = choose|i: int| 0 <= i < t.len() && t[i].0@ == last.0@;
                assert(s[i] == t[i]);
                assert(s[s.len() - 1] == last);
            }
        }
        assert forall|k: Seq<char>| #[trigger] entries_map(s).contains_key(k) <==> exists|i: int|
            0 <= i < s.len() && s[i].0@ == k by {
            if entries_map(s).contains_key(k) && k != last.0@ {
                let i = choose|i: int| 0 <= i < t.len() && t[i].0@ == k;
                assert(s[i] == t[i]);
            }
            if exists|i: int| 0 <= i < s.len() && s[i].0@ == k {
                let i = choose|i: int| 0 <= i < s.len() && s[i].0@ == k;
                if i < s.len() - 1 {
                    assert(t[i] == s[i]);
                }
            }
        }
        assert forall|i: int| 0 <= i < s.len() implies entries_map(s)[(#[trigger] s[i]).0@] == s[i].1@ by {
            if i < s.len() - 1 {
                assert(t[i] == s[i]);
                assert(s[i].0@ != last.0@);
            }
        }
    }
}

proof fn lemma_entries_map_update(s: Seq<(String, String)>, i: int, e: (String, String))
    requires
        keys_unique(s),
        0 <= i < s.len(),
        s[i].0@ == e.0@,
    ensures
        keys_unique(s.update(i, e)),
        entries_map(s.update(i, e)) == entries_map(s).insert(e.0@, e.1@),
{
    let u = s.update(i, e);
    assert forall|a: int, b: int| 0 <= a < b < u.len() implies (#[trigger] u[a]).0@ != (#[trigger] u[b]).0@ by {
        assert(u[a].0@ == s[a].0@ && u[b].0@ == s[b].0@);
    }
    lemma_entries_map(s);
    lemma_entries_map(u);
    assert forall|k: Seq<char>| #[trigger] entries_map(u).contains_key(k) <==> entries_map(s).insert(
        e.0@,
        e.1@,
    ).contains_key(k) by {
        if exists|j: int| 0 <= j < u.len() && u[j].0@ == k {
            let j = choose|j: int| 0 <= j < u.len() && u[j].0@ == k;
            assert(s[j].0@ == k);
        }
        if exists|j: int| 0 <= j < s.len() && s[j].0@ == k {
            let j = choose|j: int| 0 <= j < s.len() && s[j].0@ == k;
            assert(u[j].0@ == k);
        }
    }
    assert forall|k: Seq<char>| #[trigger] entries_map(u).contains_key(k) implies entries_map(u)[k]
        == entries_map(s).insert(e.0@, e.1@)[k] by {
        let j = choose|j: int| 0 <= j < u.len() && u[j].0@ == k;
        assert(entries_map(u)[u[j].0@] == u[j].1@);
        if j != i {
            assert(entries_map(s)[s[j].0@] == s[j].1@);
            assert(s[j].0@ != s[i].0@);
        }
    }
    assert(entries_map(u) =~= entries_map(s).insert(e.0@, e.1@));
}

impl EnvMap {
    #[verifier::type_invariant]
    closed spec fn wf(self) -> bool {
        keys_unique(self.entries@)
    }

    /// An empty list.
    pub fn new() -> (r: EnvMap)
        ensures
            r@ == Map::<Seq<char>, Seq<char>>::empty(),
    {
        EnvMap { entries: Vec::new() }
    }

    /// The number of keys.
    pub fn len(&self) -> (r: usize)
        ensures
            r == self@.len(),
    {
        proof {
            use_type_invariant(self);
            lemma_entries_map(self.entries@);
        }
        self.entries.len()
    }

    /// The value under `key`, if there is one.
    #[verifier::loop_isolation(false)]
    pub fn get(&self, key: &str) -> (r: Option<&String>)
        ensures
            match r {
                Some(v) => self@.contains_key(key@) && self@[key@] == v@,
                None => !self@.contains_key(key@),
            },
    {
        proof {
            use_type_invariant(self);
            lemma_entries_map(self.entries@);
        }
        let mut i: usize = 0;
        while i < self.entries.len()
            invariant
                i <= self.entries@.len(),
                keys_unique(self.entries@),
                forall|j: int| 0 <= j < i ==> (#[trigger] self.entries@[j]).0@ != key@,
            decreases self.entries@.len() - i,
        {
            let k = chars_of(self.entries[i].0.as_str());
            if equals_text(k.as_slice(), key) {
                return Some(&self.entries[i].1);
            }
            i = i + 1;
        }
        None
    }

    /// Sets `key` to `value`; a key already there keeps its place.
    #[verifier::loop_isolation(false)]
    pub fn insert(&mut self, key: String, value: String)
        ensures
            final(self)@ == old(self)@.insert(key@, value@),
    {
        proof {
            use_type_invariant(&*self);
        }
        let mut entries: Vec<(String, String)> = Vec::new();
        std::mem::swap(&mut entries, &mut self.entries);
        let ghost old_entries = entries@;
        proof {
            lemma_entries_map(old_entries);
        }
        let mut i: usize = 0;
        while i < entries.len()
            invariant
                entries@ == old_entries,
                i <= old_entries.len(),
                forall|j: int| 0 <= j < i ==> (#[trigger] old_entries[j]).0@ != key@,
            decreases old_entries.len() - i,
        {
            if entries[i].0 == key {
                proof {
                    lemma_entries_map_update(old_entries, i as int, (key, value));
                }
                entries.set(i, (key, value));
                self.entries = entries;
                return;
            }
            i = i + 1;
        }
        proof {
            assert(!entries_map(old_entries).contains_key(key@)) by {
                if entries_map(old_entries).contains_key(key@) {
                    let j = choose|j: int| 0 <= j < old_entries.len() && old_entries[j].0@ == key@;
                    assert(old_entries[j].0@ != key@);
                }
            }
            let pushed = old_entries.push((key, value));
            assert(pushed.drop_last() =~= old_entries);
            assert forall|a: int, b: int| 0 <= a < b < pushed.len() implies (#[trigger] pushed[a]).0@ != (
            #[trigger] pushed[b]).0@ by {
                assert(pushed[a] == old_entries[a]);
                if b < old_entries.len() {
                    assert(pushed[b] == old_entries[b]);
                }
            }
        }
        entries.push((key, value));
        self.entries = entries;
    }
}

/// A fault in a secret list, with the line (counted from 1) where it is.
pub enum EnvFault {
    MissingEquals(nat, Seq<char>),
    EmptyKey(nat),
}

/// Why a secret list was refused.
#[derive(Debug, PartialEq, Eq)]
pub enum EnvError {
    /// The line (counted from 1) has no `=`; the trimmed line is kept.
    MissingEquals { line: usize, text: String },
    /// The key before `=` is empty on that line.
    EmptyKey { line: usize },
}

impl EnvError {
    /// The fault this error reports.
    pub open spec fn fault(&self) -> EnvFault {
        match self {
            EnvError::MissingEquals { line, text } => EnvFault::MissingEquals(*line as nat, text@),
            EnvError::EmptyKey { line } => EnvFault::EmptyKey(*line as nat),
        }
    }

    /// The message for the user.
    pub fn message(&self) -> (r: String)
        ensures
            r@ == error_message(self.fault()),
    {
        let mut r = String::new();
        r.append("Zeile ");
        match self {
            EnvError::MissingEquals { line, text } => {
                let n = u64_decimal(*line as u64);
                push_chars(&mut r, n.as_slice());
                r.append(": kein '=' in ");
                push_debug_quoted(&mut r, text.as_str());
            },
            EnvError::EmptyKey { line } => {
                let n = u64_decimal(*line as u64);
                push_chars(&mut r, n.as_slice());
                r.append(": leerer Key");
            },
        }
        assert(r@ =~= error_message(self.fault()));
        r
    }
}

/// The message that names a fault.
pub open spec fn error_message(f: EnvFault) -> Seq<char> {
    match f {
        EnvFault::MissingEquals(n, t) => "Zeile "@ + decimal(n) + ": kein '=' in "@ + debug_quoted(t),
        EnvFault::EmptyKey(n) => "Zeile "@ + decimal(n) + ": leerer Key"@,
    }
}

/// The lines of a text, as `str::lines` gives them up to line ends: cut at
/// every `\n`, without the empty piece after a final `\n`.
pub open spec fn env_lines(s: Seq<char>) -> Seq<Seq<char>> {
    let parts = split_on(s, '\n');
    if parts.len() > 0 && parts.last().len() == 0 {
        parts.drop_last()
    } else {
        parts
    }
}

/// A value without one pair of matching surrounding quotes (`"` or `'`).
pub open spec fn unquote(s: Seq<char>) -> Seq<char> {
    if s.len() >= 2 && ((s[0] == '"' && s.last() == '"') || (s[0] == '\'' && s.last() == '\'')) {
        s.subrange(1, s.len() - 1)
    } else {
        s
    }
}

/// What one line (number `n`) contributes: nothing for a blank line or a
/// comment, else its trimmed key and its trimmed, unquoted value.
pub open spec fn line_entry(line: Seq<char>, n: nat) -> Result<Option<(Seq<char>, Seq<char>)>, EnvFault> {
    let t = trimmed(line);
    if t.len() == 0 || t[0] == '#' {
        Ok(None)
    } else {
        match split_once_spec(t, '=') {
            None => Err(EnvFault::MissingEquals(n, t)),
            Some((k, v)) => if trimmed(k).len() == 0 {
                Err(EnvFault::EmptyKey(n))
            } else {
                Ok(Some((trimmed(k), unquote(trimmed(v)))))
            },
        }
    }
}

/// The map the lines give, or the fault on the first faulty line; a later
/// line for a key wins.
pub open spec fn env_parse(lines: Seq<Seq<char>>) -> Result<Map<Seq<char>, Seq<char>>, EnvFault>
    decreases lines.len(),
{
    if lines.len() == 0 {
        Ok(Map::empty())
    } else {
        match env_parse(lines.drop_last()) {
            Err(f) => Err(f),
            Ok(m) => match line_entry(lines.last(), lines.len()) {
                Err(f) => Err(f),
                Ok(None) => Ok(m),
                Ok(Some((k, v))) => Ok(m.insert(k, v)),
            },
        }
    }
}

proof fn lemma_env_parse_fault_stays(lines: Seq<Seq<char>>, j: int)
    requires
        0 <= j <= lines.len(),
        env_parse(lines.take(j)) is Err,
    ensures
        env_parse(lines) == env_parse(lines.take(j)),
    decreases lines.len() - j,
{
    if j < lines.len() {
        assert(lines.take(j + 1).drop_last() =~= lines.take(j));
        lemma_env_parse_fault_stays(lines, j + 1);
    } else {
        assert(lines.take(j) =~= lines);
    }
}

fn unquote_chars(v: &[char]) -> (r: Vec<char>)
    ensures
        r@ == unquote(v@),
{
    let n = v.len();
    if n >= 2 && ((v[0] == '"' && v[n - 1] == '"') || (v[0] == '\'' && v[n - 1] == '\'')) {
        slice_chars(v, 1, n - 1)
    } else {
        slice_chars(v, 0, n)
    }
}

/// Parses a decrypted secret list: one `KEY=VALUE` per line; blank lines and
/// lines starting with `#` are skipped; key and value are trimmed and one pair
/// of surrounding quotes is taken off the value. No expansion, no multi-line
/// values.
#[verifier::loop_isolation(false)]
pub fn parse_env(s: &str) -> (r: Result<EnvMap, EnvError>)
    ensures
        match r {
            Ok(m) => env_parse(env_lines(s@)) == Ok::<Map<Seq<char>, Seq<char>>, EnvFault>(m@),
            Err(e) => env_parse(env_lines(s@)) == Err::<Map<Seq<char>, Seq<char>>, EnvFault>(e.fault()),
        },
{
    let parts = split_chars(chars_of(s).as_slice(), '\n');
    proof {
        lemma_split_on_nonempty(s@, '\n');
    }
    let ghost lines = env_lines(s@);
    let count: usize = if parts.len() > 0 && parts[parts.len() - 1].len() == 0 {
        parts.len() - 1
    } else {
        parts.len()
    };
    assert(views_of(parts@).len() == parts@.len());
    assert(lines.len() == count);
    let mut map = EnvMap::new();
    let mut i: usize = 0;
    assert(lines.take(0) =~= Seq::<Seq<char>>::empty());
    while i < count
        invariant
            i <= count,
            count <= parts@.len(),
            lines.len() == count,
            forall|j: int| 0 <= j < count ==> lines[j] == (#[trigger] parts@[j])@,
            env_parse(lines.take(i as int)) == Ok::<Map<Seq<char>, Seq<char>>, EnvFault>(map@),
        decreases count - i,
    {
        assert(lines.take(i + 1).drop_last() =~= lines.take(i as int));
        assert(lines.take(i + 1).last() == parts@[i as int]@);
        let line = trim_chars(parts[i].as_slice());
        if line.len() == 0 || line[0] == '#' {
            i = i + 1;
            continue;
        }
        match split_once_chars(line.as_slice(), '=') {
            None => {
                let e = EnvError::MissingEquals { line: i + 1, text: string_of(line.as_slice()) };
                proof {
                    lemma_env_parse_fault_stays(lines, i + 1);
                }
                return Err(e);
            },
            Some((k, v)) => {
                let key = trim_chars(k.as_slice());
                if key.len() == 0 {
                    proof {
                        lemma_env_parse_fault_stays(lines, i + 1);
                    }
                    return Err(EnvError::EmptyKey { line: i + 1 });
                }
                let value = unquote_chars(trim_chars(v.as_slice()).as_slice());
                map.insert(string_of(key.as_slice()), string_of(value.as_slice()));
            },
        }
        i = i + 1;
    }
    assert(lines.take(count as int) =~= lines);
    Ok(map)
}

/// Blanks that may stand around a key or a value on one line: white space
/// other than a line end.
pub open spec fn blanks(s: Seq<char>) -> bool {
    forall|i: int| 0 <= i < s.len() ==> is_white(#[trigger] s[i]) && s[i] != '\n'
}

/// The value a `key = value` line gives for `w`, the text between the
/// blanks: `w` without one pair of matching surrounding quotes.
proof fn lemma_kv_line(k: Seq<char>, sp1: Seq<char>, sp2: Seq<char>, w: Seq<char>, sp3: Seq<char>, n: nat)
    requires
        k.len() > 0,
        !is_white(k[0]),
        !is_white(k.last()),
        k[0] != '#',
        forall|i: int| 0 <= i < k.len() ==> k[i] != '=' && k[i] != '\n',
        w.len() == 0 || (!is_white(w[0]) && !is_white(w.last())),
        forall|i: int| 0 <= i < w.len() ==> w[i] != '\n',
        blanks(sp1),
        blanks(sp2),
        blanks(sp3),
    ensures
        line_entry(k + sp1 + seq!['='] + sp2 + w + sp3, n) == Ok::<Option<(Seq<char>, Seq<char>)>, EnvFault>(
            Some((k, unquote(w))),
        ),
        forall|i: int| 0 <= i < (k + sp1 + seq!['='] + sp2 + w + sp3).len() ==> (k + sp1 + seq!['='] + sp2 + w
            + sp3)[i] != '\n',
{
    let a = k + sp1;
    let rest = sp2 + w + sp3;
    let line = k + sp1 + seq!['='] + sp2 + w + sp3;
    assert(line =~= a + seq!['='] + rest);
    assert(!is_white('='));
    assert forall|i: int| 0 <= i < line.len() implies line[i] != '\n' by {
        if i < k.len() {
            assert(line[i] == k[i]);
        } else if i < a.len() {
            assert(line[i] == sp1[i - k.len()]);
        } else if i == a.len() {
            assert(line[i] == '=');
        } else if i < a.len() + 1 + sp2.len() {
            assert(line[i] == sp2[i - a.len() - 1]);
        } else if i < a.len() + 1 + sp2.len() + w.len() {
            assert(line[i] == w[i - a.len() - 1 - sp2.len()]);
        } else {
            assert(line[i] == sp3[i - a.len() - 1 - sp2.len() - w.len()]);
        }
    }
    assert(trim_start_spec(line) == line);
    let p = a + seq!['='] + sp2;
    assert(line =~= p + w + sp3);
    lemma_trim_end_take(line, (p.len() + w.len()) as int);
    assert(line.take((p.len() + w.len()) as int) =~= p + w);
    let t = if w.len() > 0 {
        p + w
    } else {
        lemma_trim_end_take(p + w, (a.len() + 1) as int);
        assert((p + w).take((a.len() + 1) as int) =~= a + seq!['=']);
        a + seq!['=']
    };
    assert(trimmed(line) == t);
    let tail = if w.len() > 0 { sp2 + w } else { Seq::<char>::empty() };
    assert(t =~= a + seq!['='] + tail);
    assert(t[0] == k[0]);
    assert forall|i: int| 0 <= i < a.len() implies a[i] != '=' by {
        if i >= k.len() {
            assert(a[i] == sp1[i - k.len()]);
        }
    }
    lemma_split_once_prefix(a, tail, '=');
    assert(trim_start_spec(a) == a);
    lemma_trim_end_take(a, k.len() as int);
    assert(a.take(k.len() as int) =~= k);
    assert(trimmed(a) == k);
    if w.len() > 0 {
        lemma_trim_start_skip(tail, sp2.len() as int);
        assert(tail.skip(sp2.len() as int) =~= w);
        assert(trimmed(tail) == w);
    } else {
        assert(trimmed(tail) =~= w);
    }
}

/// One line `key = value`, with any blanks around key and value, gives the
/// key and the value without those blanks; a value wrapped in a pair of
/// matching quotes (`"..."` or `'...'`) loses that pair only. This holds
/// with or without a final line end.
pub proof fn law_env_line_is_trimmed(k: Seq<char>, sp1: Seq<char>, sp2: Seq<char>, w: Seq<char>, sp3: Seq<char>)
    requires
        k.len() > 0,
        !is_white(k[0]),
        !is_white(k.last()),
        k[0] != '#',
        forall|i: int| 0 <= i < k.len() ==> k[i] != '=' && k[i] != '\n',
        w.len() == 0 || (!is_white(w[0]) && !is_white(w.last())),
        forall|i: int| 0 <= i < w.len() ==> w[i] != '\n',
        blanks(sp1),
        blanks(sp2),
        blanks(sp3),
    ensures
        ({
            let line = k + sp1 + seq!['='] + sp2 + w + sp3;
            let value = if w.len() >= 2 && ((w[0] == '"' && w.last() == '"') || (w[0] == '\'' && w.last()
                == '\'')) {
                w.subrange(1, w.len() - 1)
            } else {
                w
            };
            &&& env_parse(env_lines(line)) == Ok::<Map<Seq<char>, Seq<char>>, EnvFault>(
                Map::<Seq<char>, Seq<char>>::empty().insert(k, value),
            )
            &&& env_parse(env_lines(line + seq!['\n'])) == Ok::<Map<Seq<char>, Seq<char>>, EnvFault>(
                Map::<Seq<char>, Seq<char>>::empty().insert(k, value),
            )
        }),
{
    let line = k + sp1 + seq!['='] + sp2 + w + sp3;
    lemma_kv_line(k, sp1, sp2, w, sp3, 1);
    lemma_split_on_single(line, '\n');
    lemma_split_on_single(Seq::<char>::empty(), '\n');
    lemma_split_on_prefix(line, Seq::<char>::empty(), '\n');
    assert(line + seq!['\n'] + Seq::<char>::empty() =~= line + seq!['\n']);
    assert(env_lines(line) =~= seq![line]);
    assert(env_lines(line + seq!['\n']) =~= seq![line]);
    let one = seq![line];
    assert(one.drop_last() =~= Seq::<Seq<char>>::empty());
    assert(env_parse(one.drop_last()) == Ok::<Map<Seq<char>, Seq<char>>, EnvFault>(Map::empty()));
    assert(one.last() == line);
}

/// A `key = value` line after other lines sets that key, replacing what an
/// earlier line gave it; the other keys stay as they were; a fault in the
/// earlier lines stays the answer.
pub proof fn law_env_later_line_wins(
    lines: Seq<Seq<char>>,
    k: Seq<char>,
    sp1: Seq<char>,
    sp2: Seq<char>,
    w: Seq<char>,
    sp3: Seq<char>,
)
    requires
        k.len() > 0,
        !is_white(k[0]),
        !is_white(k.last()),
        k[0] != '#',
        forall|i: int| 0 <= i < k.len() ==> k[i] != '=' && k[i] != '\n',
        w.len() == 0 || (!is_white(w[0]) && !is_white(w.last())),
        forall|i: int| 0 <= i < w.len() ==> w[i] != '\n',
        blanks(sp1),
        blanks(sp2),
        blanks(sp3),
    ensures
        ({
            let line = k + sp1 + seq!['='] + sp2 + w + sp3;
            let value = if w.len() >= 2 && ((w[0] == '"' && w.last() == '"') || (w[0] == '\'' && w.last()
                == '\'')) {
                w.subrange(1, w.len() - 1)
            } else {
                w
            };
            match env_parse(lines) {
                Ok(m) => env_parse(lines.push(line)) == Ok::<Map<Seq<char>, Seq<char>>, EnvFault>(
                    m.insert(k, value),
                ),
                Err(f) => env_parse(lines.push(line)) == Err::<Map<Seq<char>, Seq<char>>, EnvFault>(f),
            }
        }),
{
    let line = k + sp1 + seq!['='] + sp2 + w + sp3;
    lemma_kv_line(k, sp1, sp2, w, sp3, lines.len() + 1);
    assert(lines.push(line).drop_last() =~= lines);
}

/// A blank line or a comment (first non-blank character `#`) changes
/// nothing.
pub proof fn law_env_comment_changes_nothing(lines: Seq<Seq<char>>, c: Seq<char>)
    requires
        trimmed(c).len() == 0 || trimmed(c)[0] == '#',
    ensures
        env_parse(lines.push(c)) == env_parse(lines),
{
    assert(lines.push(c).drop_last() =~= lines);
}

/// A line that is neither blank nor a comment and has no `=` is refused,
/// naming its number (counted from 1) and its trimmed text, unless an
/// earlier line was refused first.
pub proof fn law_env_line_without_equals_is_refused(lines: Seq<Seq<char>>, c: Seq<char>)
    requires
        trimmed(c).len() > 0,
        trimmed(c)[0] != '#',
        forall|i: int| 0 <= i < trimmed(c).len() ==> trimmed(c)[i] != '=',
    ensures
        env_parse(lines) is Ok ==> env_parse(lines.push(c)) == Err::<Map<Seq<char>, Seq<char>>, EnvFault>(
            EnvFault::MissingEquals(lines.len() + 1, trimmed(c)),
        ),
        env_parse(lines) is Err ==> env_parse(lines.push(c)) == env_parse(lines),
{
    assert(lines.push(c).drop_last() =~= lines);
    crate::text::lemma_index_of_none(trimmed(c), '=');
}

} // verus!
