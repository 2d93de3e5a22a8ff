use std::collections::HashMap;
use vstd::prelude::*;

use crate::paths::{
    chars_of, hex16, hex_digit_value, hex_value, is_hex_digit, is_hex_digit_char, lemma_hex16, pow16,
};

verus! {

broadcast use vstd::std_specs::hash::group_hash_axioms;

/// Index of the first `c` in `s`, or -1 where there is none.
pub open spec fn first_index_of(s: Seq<char>, c: char) -> int
    decreases s.len(),
{
    if s.len() == 0 {
        -1
    } else if s[0] == c {
        0
    } else {
        let k = first_index_of(s.drop_first(), c);
        if k < 0 {
            -1
        } else {
            k + 1
        }
    }
}

/// The lines of a text: the pieces between its `\n` separators. A text that ends in `\n`
/// ends with an empty line; the empty text is one empty line.
pub open spec fn text_lines(s: Seq<char>) -> Seq<Seq<char>>
    decreases s.len(),
{
    let i = first_index_of(s, '\n');
    if 0 <= i < s.len() {
        seq![s.subrange(0, i)] + text_lines(s.subrange(i + 1, s.len() as int))
    } else {
        seq![s]
    }
}

/// A line without the `\r` of a `\r\n` line ending.
pub open spec fn strip_cr(l: Seq<char>) -> Seq<char> {
    if l.len() > 0 && l.last() == '\r' {
        l.drop_last()
    } else {
        l
    }
}

/// A line that holds nothing; such lines are skipped.
pub open spec fn is_blank(l: Seq<char>) -> bool {
    strip_cr(l).len() == 0
}

/// The entry that a line of a hash list holds: one to sixteen hexadecimal digits (the hash),
/// one space, and a non-empty path, which runs to the end of the line and may hold spaces.
/// `None` for a line of another shape.
pub open spec fn parse_line(line: Seq<char>) -> Option<(u64, Seq<char>)> {
    let l = strip_cr(line);
    let i = first_index_of(l, ' ');
    if 0 <= i < l.len() {
        let h = l.subrange(0, i);
        let p = l.subrange(i + 1, l.len() as int);
        if 1 <= h.len() <= 16 && (forall|k: int| 0 <= k < h.len() ==> #[trigger] is_hex_digit(h[k]))
            && p.len() > 0 {
            Some((hex_value(h) as u64, p))
        } else {
            None
        }
    } else {
        None
    }
}

/// The entries of a sequence of lines, in order, blank lines skipped; or the index of the
/// first line that is neither blank nor an entry.
pub open spec fn parse_lines(lines: Seq<Seq<char>>) -> Result<Seq<(u64, Seq<char>)>, nat>
    decreases lines.len(),
{
    if lines.len() == 0 {
        Ok(Seq::empty())
    } else {
        match parse_lines(lines.drop_last()) {
            Err(k) => Err(k),
            Ok(es) => if is_blank(lines.last()) {
                Ok(es)
            } else {
                match parse_line(lines.last()) {
                    Some(e) => Ok(es.push(e)),
                    None => Err((lines.len() - 1) as nat),
                }
            },
        }
    }
}

/// The entries of a hash-list source, or the index of its first malformed line.
pub open spec fn parse_source(s: Seq<char>) -> Result<Seq<(u64, Seq<char>)>, nat> {
    parse_lines(text_lines(s))
}

/// A table after loading entries into it in order: a later entry for a hash replaces an
/// earlier one.
pub open spec fn load_entries(m: Map<u64, Seq<char>>, es: Seq<(u64, Seq<char>)>) -> Map<
    u64,
    Seq<char>,
>
    decreases es.len(),
{
    if es.len() == 0 {
        m
    } else {
        load_entries(m, es.drop_last()).insert(es.last().0, es.last().1)
    }
}

/// The path that a hash resolves to: its entry in the table, or else its sixteen-digit
/// hexadecimal name.
pub open spec fn resolve(m: Map<u64, Seq<char>>, h: u64) -> Seq<char> {
    if m.contains_key(h) {
        m[h]
    } else {
        hex16(h)
    }
}

/// The entries of a list, with their paths viewed as text.
pub open spec fn entries_view(v: Seq<(u64, String)>) -> Seq<(u64, Seq<char>)> {
    v.map_values(|e: (u64, String)| (e.0, e.1@))
}

/// A malformed line in a hash-list source, by its 1-based number.
#[derive(Debug, Clone, Copy, PartialEq, Eq, Structural)]
pub struct ParseError {
    pub line: usize,
}

/// Maps 64-bit path hashes to the paths they were computed from.
pub struct WadHashtable {
    items: HashMap<u64, String>,
}

impl View for WadHashtable {
    type V = Map<u64, Seq<char>>;

    closed spec fn view(&self) -> Map<u64, Seq<char>> {
        self.items@.map_values(|s: String| s@)
    }
}

/// Relies on `str::split_once`: the text before the first `c` and the text after it, or
/// `None` where `s` holds no `c`.
#[verifier::external_body]
fn split_once_char(s: &str, c: char) -> (r: Option<(&str, &str)>)
    ensures
        match r {
            None => !s@.contains(c),
            Some((a, b)) => s@ == a@ + seq![c] + b@ && !a@.contains(c),
        },
{
    s.split_once(c)
}

proof fn lemma_first_index_absent(s: Seq<char>, c: char)
    requires
        !s.contains(c),
    ensures
        first_index_of(s, c) == -1,
    decreases s.len(),
{
    if s.len() > 0 {
        assert(s[0] != c);
        assert forall|k: int| 0 <= k < s.drop_first().len() implies s.drop_first()[k] != c by {
            assert(s.drop_first()[k] == s[k + 1]);
        }
        lemma_first_index_absent(s.drop_first(), c);
    }
}

proof fn lemma_first_index_at(s: Seq<char>, c: char, a: Seq<char>, b: Seq<char>)
    requires
        s == a + seq![c] + b,
        !a.contains(c),
    ensures
        first_index_of(s, c) == a.len(),
    decreases a.len(),
{
    if a.len() == 0 {
        assert(s[0] == c);
    } else {
        assert(a[0] != c);
        assert(s[0] == a[0]);
        let a2 = a.drop_first();
        assert forall|k: int| 0 <= k < a2.len() implies a2[k] != c by {
            assert(a2[k] == a[k + 1]);
        }
        assert(s.drop_first() =~= a2 + seq![c] + b);
        lemma_first_index_at(s.drop_first(), c, a2, b);
    }
}

proof fn lemma_lines_split(s: Seq<char>, a: Seq<char>, b: Seq<char>)
    requires
        s == a + seq!['\n'] + b,
        !a.contains('\n'),
    ensures
        text_lines(s) == seq![a] + text_lines(b),
{
    lemma_first_index_at(s, '\n', a, b);
    assert(s.subrange(0, a.len() as int) =~= a);
    assert(s.subrange(a.len() as int + 1, s.len() as int) =~= b);
}

proof fn lemma_lines_last(s: Seq<char>)
    requires
        !s.contains('\n'),
    ensures
        text_lines(s) == seq![s],
{
    lemma_first_index_absent(s, '\n');
}

proof fn lemma_parse_error_stays(a: Seq<Seq<char>>, b: Seq<Seq<char>>)
    requires
        parse_lines(a) is Err,
    ensures
        parse_lines(a + b) == parse_lines(a),
    decreases b.len(),
{
    if b.len() == 0 {
        assert(a + b =~= a);
    } else {
        assert((a + b).drop_last() =~= a + b.drop_last());
        lemma_parse_error_stays(a, b.drop_last());
    }
}

proof fn lemma_hex_value_bound(s: Seq<char>)
    requires
        forall|k: int| 0 <= k < s.len() ==> #[trigger] is_hex_digit(s[k]),
    ensures
        hex_value(s) < pow16(s.len()),
    decreases s.len(),
{
    if s.len() > 0 {
        let t = s.drop_last();
        assert forall|k: int| 0 <= k < t.len() implies #[trigger] is_hex_digit(t[k]) by {
            assert(t[k] == s[k]);
        }
        lemma_hex_value_bound(t);
        assert(is_hex_digit(s[s.len() - 1]));
        let v = hex_value(t);
        let d = hex_digit_value(s.last());
        assert(d < 16);
        let p = pow16(t.len());
        assert(v * 16 + d < 16 * p) by (nonlinear_arith)
            requires
                v < p,
                d < 16,
        ;
    }
}

proof fn lemma_pow16_grows(i: nat, j: nat)
    requires
        i <= j,
    ensures
        pow16(i) <= pow16(j),
    decreases j,
{
    if i < j {
        lemma_pow16_grows(i, (j - 1) as nat);
    }
}

fn hex_digit_char_value(c: char) -> (r: u64)
    requires
        is_hex_digit(c),
    ensures
        r == hex_digit_value(c),
        r < 16,
{
    if '0' <= c && c <= '9' {
        (c as u32 - '0' as u32) as u64
    } else if 'a' <= c && c <= 'f' {
        (c as u32 - 'a' as u32 + 10) as u64
    } else {
        (c as u32 - 'A' as u32 + 10) as u64
    }
}

/// The value of a hash written as one to sixteen hexadecimal digits, or `None` for text of
/// another shape.
fn parse_hash(h: &str) -> (r: Option<u64>)
    ensures
        r == (if 1 <= h@.len() <= 16 && (forall|k: int|
            0 <= k < h@.len() ==> #[trigger] is_hex_digit(h@[k])) {
            Some(hex_value(h@) as u64)
        } else {
            None
        }),
{
    let c = chars_of(h);
    if c.len() < 1 || c.len() > 16 {
        return None;
    }
    let mut v: u64 = 0;
    let mut i: usize = 0;
    while i < c.len()
        invariant
            i <= c@.len() <= 16,
            c@ == h@,
            forall|k: int| 0 <= k < i ==> #[trigger] is_hex_digit(c@[k]),
            v == hex_value(c@.subrange(0, i as int)),
        decreases c@.len() - i,
    {
        if !is_hex_digit_char(c[i]) {
            return None;
        }
        let d = hex_digit_char_value(c[i]);
        let ghost pre = c@.subrange(0, i as int);
        let ghost next = c@.subrange(0, i + 1);
        proof {
            assert(next.drop_last() =~= pre);
            assert forall|k: int| 0 <= k < pre.len() implies #[trigger] is_hex_digit(pre[k]) by {
                assert(pre[k] == c@[k]);
            }
            lemma_hex_value_bound(pre);
            lemma_pow16_grows(i as nat, 15);
            assert(pow16(15) == 0x1000_0000_0000_0000) by {
                reveal_with_fuel(pow16, 16);
            }
        }
        v = v * 16 + d;
        i = i + 1;
    }
    assert(c@.subrange(0, c@.len() as int) =~= c@);
    Some(v)
}

/// `s` without the `\r` of a `\r\n` line ending.
fn strip_line_ending(s: &str) -> (r: &str)
    ensures
        r@ == strip_cr(s@),
{
    let n = s.unicode_len();
    if n > 0 && s.get_char(n - 1) == '\r' {
        s.substring_char(0, n - 1)
    } else {
        s
    }
}

/// Reads one line of a hash list: `Ok(None)` for a blank line, `Ok(Some(entry))` for an
/// entry, `Err(())` for a malformed line.
fn parse_hashtable_line(line: &str) -> (r: Result<Option<(u64, String)>, ()>)
    ensures
        is_blank(line@) ==> r == Ok::<Option<(u64, String)>, ()>(None),
        !is_blank(line@) ==> match parse_line(line@) {
            Some(e) => r matches Ok(Some(x)) && x.0 == e.0 && x.1@ == e.1,
            None => r is Err,
        },
{
    let l = strip_line_ending(line);
    if l.is_empty() {
        return Ok(None);
    }
    match split_once_char(l, ' ') {
        None => {
            proof {
                lemma_first_index_absent(l@, ' ');
            }
            Err(())
        },
        Some((h, p)) => {
            proof {
                lemma_first_index_at(l@, ' ', h@, p@);
                assert(l@.subrange(0, h@.len() as int) =~= h@);
                assert(l@.subrange(h@.len() as int + 1, l@.len() as int) =~= p@);
            }
            if p.is_empty() {
                return Err(());
            }
            match parse_hash(h) {
                None => Err(()),
                Some(v) => Ok(Some((v, String::from_str(p)))),
            }
        },
    }
}

/// Reads the entries of a hash-list source: one entry per line, blank lines skipped. Fails
/// with the number of the first malformed line.
pub fn parse_hashtable_source(source: &str) -> (r: Result<Vec<(u64, String)>, ParseError>)
    ensures
        match parse_source(source@) {
            Ok(es) => r matches Ok(v) && entries_view(v@) == es,
            Err(k) => r matches Err(e) && e.line == k + 1,
        },
{
    let _ = source.unicode_len();
    let mut rest: &str = source;
    let mut entries: Vec<(u64, String)> = Vec::new();
    let mut line_index: usize = 0;
    let ghost mut done: Seq<Seq<char>> = Seq::empty();
    assert(entries_view(entries@) =~= Seq::empty());
    assert(done + text_lines(rest@) =~= text_lines(source@));
    loop
        invariant
            source@.len() <= usize::MAX,
            text_lines(source@) == done + text_lines(rest@),
            parse_lines(done) == Ok::<Seq<(u64, Seq<char>)>, nat>(entries_view(entries@)),
            line_index == done.len(),
            done.len() + rest@.len() <= source@.len(),
        decreases rest@.len(),
    {
        let ghost before = done;
        let (line, tail, last) = match split_once_char(rest, '\n') {
            Some((line, tail)) => {
                proof {
                    lemma_lines_split(rest@, line@, tail@);
                }
                (line, tail, false)
            },
            None => {
                proof {
                    lemma_lines_last(rest@);
                }
                (rest, rest, true)
            },
        };
        proof {
            done = done.push(line@);
            assert(done.drop_last() =~= before);
            assert(done.last() == line@);
        }
        let ghost more = if last {
            Seq::<Seq<char>>::empty()
        } else {
            text_lines(tail@)
        };
        assert(text_lines(source@) =~= done + more);
        match parse_hashtable_line(line) {
            Err(()) => {
                proof {
                    lemma_parse_error_stays(done, more);
                }
                return Err(ParseError { line: line_index + 1 });
            },
            Ok(None) => {},
            Ok(Some(entry)) => {
                let ghost before_entries = entries@;
                let ghost e = (entry.0, entry.1@);
                entries.push(entry);
                assert(entries_view(entries@) =~= entries_view(before_entries).push(e));
            },
        }
        if last {
            assert(done + more =~= done);
            return Ok(entries);
        }
        rest = tail;
        line_index = line_index + 1;
    }
}

impl WadHashtable {
    /// An empty table.
    pub fn new() -> (r: WadHashtable)
        ensures
            r@ == Map::<u64, Seq<char>>::empty(),
    {
        let r = WadHashtable { items: HashMap::new() };
        assert(r@ =~= Map::<u64, Seq<char>>::empty());
        r
    }

    /// Records `path` for `hash`, replacing any path recorded before.
    pub fn insert(&mut self, hash: u64, path: String)
        ensures
            final(self)@ == old(self)@.insert(hash, path@),
    {
        self.items.insert(hash, path);
        assert(final(self)@ =~= old(self)@.insert(hash, path@));
    }

    /// Loads the entries of a hash-list source, in order, a later entry for a hash replacing
    /// an earlier one. A malformed line fails the load and leaves the table as it was.
    pub fn add_from_source(&mut self, source: &str) -> (r: Result<(), ParseError>)
        ensures
            match parse_source(source@) {
                Ok(es) => r is Ok && final(self)@ == load_entries(old(self)@, es),
                Err(k) => r matches Err(e) && e.line == k + 1 && final(self)@ == old(self)@,
            },
    {
        let entries = match parse_hashtable_source(source) {
            Ok(v) => v,
            Err(e) => return Err(e),
        };
        let ghost es = entries_view(entries@);
        let mut i: usize = 0;
        while i < entries.len()
            invariant
                i <= entries@.len(),
                es == entries_view(entries@),
                self@ == load_entries(old(self)@, es.subrange(0, i as int)),
            decreases entries@.len() - i,
        {
            let hash = entries[i].0;
            let path = entries[i].1.clone();
            assert(es.subrange(0, i + 1).drop_last() =~= es.subrange(0, i as int));
            self.insert(hash, path);
            i = i + 1;
        }
        assert(es.subrange(0, entries@.len() as int) =~= es);
        Ok(())
    }

    /// The path recorded for `hash`, or else its sixteen-digit lowercase hexadecimal name.
    pub fn resolve_path(&self, hash: u64) -> (r: String)
        ensures
            r@ == resolve(self@, hash),
    {
        match self.items.get(&hash) {
            Some(p) => p.clone(),
            None => crate::paths::format_chunk_path_hash(hash),
        }
    }
}

/// After entries are loaded in order, a hash resolves to the path of its last entry: a later
/// entry for a hash overrides an earlier one, and an entry that is not overridden stays.
pub proof fn lemma_last_entry_wins(m: Map<u64, Seq<char>>, es: Seq<(u64, Seq<char>)>, k: int)
    requires
        0 <= k < es.len(),
        forall|j: int| k < j < es.len() ==> (#[trigger] es[j]).0 != es[k].0,
    ensures
        resolve(load_entries(m, es), es[k].0) == es[k].1,
    decreases es.len(),
{
    if k < es.len() - 1 {
        let t = es.drop_last();
        assert forall|j: int| k < j < t.len() implies (#[trigger] t[j]).0 != t[k].0 by {
            assert(t[j] == es[j]);
        }
        lemma_last_entry_wins(m, t, k);
        assert(es.last() == es[es.len() - 1]);
    }
}

/// Loading a second source after a first: a hash that the second source lists resolves to
/// the path of its last entry there, whatever the first source said of it.
pub proof fn lemma_later_source_wins(
    m: Map<u64, Seq<char>>,
    first: Seq<(u64, Seq<char>)>,
    second: Seq<(u64, Seq<char>)>,
    k: int,
)
    requires
        0 <= k < second.len(),
        forall|j: int| k < j < second.len() ==> (#[trigger] second[j]).0 != second[k].0,
    ensures
        resolve(load_entries(load_entries(m, first), second), second[k].0) == second[k].1,
{
    lemma_last_entry_wins(load_entries(m, first), second, k);
}

/// A hash that the table does not hold resolves to its sixteen-character lowercase
/// hexadecimal encoding, zero-padded, which reads back as the hash.
pub proof fn lemma_unknown_hash_fallback(m: Map<u64, Seq<char>>, h: u64)
    requires
        !m.contains_key(h),
    ensures
        resolve(m, h) == hex16(h),
        resolve(m, h).len() == 16,
        forall|i: int| 0 <= i < 16 ==> #[trigger] crate::paths::is_lower_hex_digit(resolve(m, h)[i]),
        hex_value(resolve(m, h)) == h,
{
    lemma_hex16(h);
}

} // verus!
