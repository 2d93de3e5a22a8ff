use vstd::arithmetic::div_mod::lemma_mod_breakdown;
use vstd::prelude::*;

use crate::classify::is_plain_extension;

verus! {

/// The lowercase hexadecimal digits, indexed by value.
pub open spec fn hex_digits() -> Seq<char> {
    seq!['0', '1', '2', '3', '4', '5', '6', '7', '8', '9', 'a', 'b', 'c', 'd', 'e', 'f']
}

/// The lowest `n` hexadecimal digits of `v`, most significant first, zero-padded.
pub open spec fn hex_fixed(v: nat, n: nat) -> Seq<char>
    decreases n,
{
    if n == 0 {
        Seq::empty()
    } else {
        hex_fixed(v / 16, (n - 1) as nat).push(hex_digits()[(v % 16) as int])
    }
}

/// A 64-bit hash written as sixteen lowercase hexadecimal digits.
pub open spec fn hex16(h: u64) -> Seq<char> {
    hex_fixed(h as nat, 16)
}

/// A lowercase hexadecimal digit.
pub open spec fn is_lower_hex_digit(c: char) -> bool {
    ('0' <= c && c <= '9') || ('a' <= c && c <= 'f')
}

/// An ASCII hexadecimal digit, in either case.
pub open spec fn is_hex_digit(c: char) -> bool {
    is_lower_hex_digit(c) || ('A' <= c && c <= 'F')
}

/// The value of a hexadecimal digit.
pub open spec fn hex_digit_value(c: char) -> nat {
    if '0' <= c && c <= '9' {
        (c as int - '0' as int) as nat
    } else if 'a' <= c && c <= 'f' {
        (c as int - 'a' as int + 10) as nat
    } else {
        (c as int - 'A' as int + 10) as nat
    }
}

/// The number that a string of hexadecimal digits denotes.
pub open spec fn hex_value(s: Seq<char>) -> nat
    decreases s.len(),
{
    if s.len() == 0 {
        0
    } else {
        hex_value(s.drop_last()) * 16 + hex_digit_value(s.last())
    }
}

/// Sixteen to the power `n`.
pub open spec fn pow16(n: nat) -> nat
    decreases n,
{
    if n == 0 {
        1
    } else {
        16 * pow16((n - 1) as nat)
    }
}

proof fn lemma_hex_digits()
    ensures
        hex_digits().len() == 16,
        forall|k: int|
            0 <= k < 16 ==> #[trigger] is_lower_hex_digit(hex_digits()[k]) && hex_digit_value(
                hex_digits()[k],
            ) == k,
{
    assert forall|k: int| 0 <= k < 16 implies #[trigger] is_lower_hex_digit(hex_digits()[k])
        && hex_digit_value(hex_digits()[k]) == k by {
        if k < 10 {
            assert(hex_digits()[k] as int == '0' as int + k);
        } else {
            assert(hex_digits()[k] as int == 'a' as int + k - 10);
        }
    }
}

proof fn lemma_pow16_positive(n: nat)
    ensures
        pow16(n) > 0,
    decreases n,
{
    if n > 0 {
        lemma_pow16_positive((n - 1) as nat);
    }
}

proof fn lemma_hex_fixed(v: nat, n: nat)
    ensures
        hex_fixed(v, n).len() == n,
        forall|i: int| 0 <= i < n ==> #[trigger] is_lower_hex_digit(hex_fixed(v, n)[i]),
        hex_value(hex_fixed(v, n)) == v % pow16(n),
    decreases n,
{
    lemma_hex_digits();
    if n > 0 {
        let rest = hex_fixed(v / 16, (n - 1) as nat);
        lemma_hex_fixed(v / 16, (n - 1) as nat);
        let s = hex_fixed(v, n);
        assert(s.drop_last() =~= rest);
        assert forall|i: int| 0 <= i < n implies #[trigger] is_lower_hex_digit(s[i]) by {
            if i < n - 1 {
                assert(s[i] == rest[i]);
            }
        }
        lemma_pow16_positive((n - 1) as nat);
        lemma_mod_breakdown(v as int, 16, pow16((n - 1) as nat) as int);
    }
}

/// Writing a hash as sixteen digits and reading them back gives the hash: the name is
/// its zero-padded lowercase hexadecimal encoding.
pub proof fn lemma_hex16(h: u64)
    ensures
        hex16(h).len() == 16,
        forall|i: int| 0 <= i < 16 ==> #[trigger] is_lower_hex_digit(hex16(h)[i]),
        hex_value(hex16(h)) == h,
{
    lemma_hex_fixed(h as nat, 16);
    assert(pow16(16) == 0x1_0000_0000_0000_0000) by {
        reveal_with_fuel(pow16, 17);
    }
}

/// Formats a path hash as the sixteen-digit lowercase hexadecimal name that stands for an
/// unresolved chunk.
pub fn format_chunk_path_hash(path_hash: u64) -> (r: String)
    ensures
        r@ == hex16(path_hash),
{
    let digits = "0123456789abcdef";
    proof {
        reveal_strlit("0123456789abcdef");
        assert(digits@ =~= hex_digits());
    }
    let mut out = String::new();
    let mut v: u64 = path_hash;
    let mut i: usize = 0;
    while i < 16
        invariant
            i <= 16,
            digits@ == hex_digits(),
            hex16(path_hash) == hex_fixed(v as nat, (16 - i) as nat) + out@,
        decreases 16 - i,
    {
        let d = (v % 16) as usize;
        let digit = digits.substring_char(d, d + 1);
        let next = String::from_str(digit).concat(out.as_str());
        assert(hex_fixed(v as nat, (16 - i) as nat) + out@ =~= hex_fixed(
            (v / 16) as nat,
            (15 - i) as nat,
        ) + next@);
        out = next;
        v = v / 16;
        i = i + 1;
    }
    assert(hex_fixed(v as nat, 0) + out@ =~= out@);
    out
}

/// Index of the last `/` in `p`, or -1 where there is none.
pub open spec fn last_slash(p: Seq<char>) -> int
    decreases p.len(),
{
    if p.len() == 0 {
        -1
    } else if p.last() == '/' {
        p.len() - 1
    } else {
        last_slash(p.drop_last())
    }
}

/// The path without what ends it but names nothing: trailing separators and trailing `.`
/// components, which `Path` ignores.
pub open spec fn trimmed(p: Seq<char>) -> Seq<char>
    decreases p.len(),
{
    if p.len() > 0 && p.last() == '/' {
        trimmed(p.drop_last())
    } else if p.len() >= 2 && p.last() == '.' && p[p.len() - 2] == '/' {
        trimmed(p.drop_last())
    } else {
        p
    }
}

/// Nothing to trim at the end of `q`.
pub open spec fn is_trimmed(q: Seq<char>) -> bool {
    &&& !(q.len() > 0 && q.last() == '/')
    &&& !(q.len() >= 2 && q.last() == '.' && q[q.len() - 2] == '/')
}

/// Where the last component of the path begins.
pub open spec fn name_start(p: Seq<char>) -> int {
    last_slash(trimmed(p)) + 1
}

/// The last component of the path, trailing separators ignored.
pub open spec fn last_component(p: Seq<char>) -> Seq<char> {
    trimmed(p).subrange(name_start(p), trimmed(p).len() as int)
}

/// The file name of a `/`-separated path, as `Path::file_name` gives it: the last component,
/// trailing separators and `.` components ignored; empty where that component is `..`, or
/// where there is none.
pub open spec fn file_name(p: Seq<char>) -> Seq<char> {
    let c = last_component(p);
    if c == seq!['.'] || c == seq!['.', '.'] {
        Seq::empty()
    } else {
        c
    }
}

/// Everything before the last component, without the separating `/`.
pub open spec fn parent_dir(p: Seq<char>) -> Seq<char> {
    let t = trimmed(p);
    if last_slash(t) < 0 {
        Seq::empty()
    } else {
        t.subrange(0, last_slash(t))
    }
}

/// The file name is a bare 16-digit hexadecimal name, which stands for an unresolved hash.
pub open spec fn is_hex_name(p: Seq<char>) -> bool {
    let name = file_name(p);
    name.len() == 16 && forall|i: int| 0 <= i < 16 ==> #[trigger] is_hex_digit(name[i])
}

/// The file name carries an extension: a `.` that is not its first character.
pub open spec fn has_extension(p: Seq<char>) -> bool {
    let name = file_name(p);
    exists|i: int| 0 < i < name.len() && #[trigger] name[i] == '.'
}

/// The path with a `.` put in front of its file name.
pub open spec fn dot_prefixed(p: Seq<char>) -> Seq<char> {
    trimmed(p).subrange(0, name_start(p)) + seq!['.'] + file_name(p)
}

/// Where a chunk is written, given its resolved path and the extension of its classified
/// kind (`None` for unknown content). A path with an extension, or without a file name,
/// stays as it is; another gains the extension, or a leading `.` on its file name when the
/// content is unknown.
pub open spec fn final_path_of(p: Seq<char>, ext: Option<Seq<char>>) -> Seq<char> {
    if has_extension(p) || file_name(p).len() == 0 {
        p
    } else {
        match ext {
            None => dot_prefixed(p),
            Some(e) => trimmed(p) + seq!['.'] + e,
        }
    }
}

/// The flat name under which a chunk is written when its own path is refused: its hash,
/// with the classified kind's extension where there is one.
pub open spec fn hashed_path_of(h: u64, ext: Option<Seq<char>>) -> Seq<char> {
    match ext {
        None => hex16(h),
        Some(e) => hex16(h) + seq!['.'] + e,
    }
}

/// The view of an optional string slice.
pub open spec fn opt_view(s: Option<&str>) -> Option<Seq<char>> {
    match s {
        None => None,
        Some(t) => Some(t@),
    }
}

proof fn lemma_last_slash(p: Seq<char>)
    ensures
        -1 <= last_slash(p) < p.len(),
        last_slash(p) >= 0 ==> p[last_slash(p)] == '/',
        forall|k: int| last_slash(p) < k < p.len() ==> p[k] != '/',
    decreases p.len(),
{
    if p.len() > 0 && p.last() != '/' {
        lemma_last_slash(p.drop_last());
        assert forall|k: int| last_slash(p) < k < p.len() implies p[k] != '/' by {
            if k < p.len() - 1 {
                assert(p.drop_last()[k] == p[k]);
            }
        }
    }
}

proof fn lemma_last_slash_is(p: Seq<char>, j: int)
    requires
        -1 <= j < p.len(),
        j >= 0 ==> p[j] == '/',
        forall|k: int| j < k < p.len() ==> p[k] != '/',
    ensures
        last_slash(p) == j,
    decreases p.len(),
{
    if p.len() > 0 && p.len() - 1 != j {
        assert(p.last() != '/');
        lemma_last_slash_is(p.drop_last(), j);
    }
}

proof fn lemma_trimmed(p: Seq<char>)
    ensures
        trimmed(p).len() <= p.len(),
        trimmed(p) == p.subrange(0, trimmed(p).len() as int),
        is_trimmed(trimmed(p)),
    decreases p.len(),
{
    if (p.len() > 0 && p.last() == '/') || (p.len() >= 2 && p.last() == '.' && p[p.len() - 2]
        == '/') {
        lemma_trimmed(p.drop_last());
        let t = trimmed(p.drop_last());
        assert(p.drop_last().subrange(0, t.len() as int) =~= p.subrange(0, t.len() as int));
    } else {
        assert(p.subrange(0, p.len() as int) =~= p);
    }
}

proof fn lemma_components(p: Seq<char>)
    ensures
        trimmed(p).len() <= p.len(),
        trimmed(p) == p.subrange(0, trimmed(p).len() as int),
        0 <= name_start(p) <= trimmed(p).len(),
        name_start(p) > 0 ==> trimmed(p)[name_start(p) - 1] == '/',
        forall|k: int| name_start(p) <= k < trimmed(p).len() ==> trimmed(p)[k] != '/',
        is_trimmed(trimmed(p)),
{
    lemma_trimmed(p);
    lemma_last_slash(trimmed(p));
}

/// The characters of `s`, one element each.
pub fn chars_of(s: &str) -> (r: Vec<char>)
    ensures
        r@ == s@,
{
    let mut r: Vec<char> = Vec::new();
    for c in it: s.chars()
        invariant
            r@ == it.seq().subrange(0, it.index() as int),
            it.seq() == s@,
    {
        r.push(c);
    }
    r
}

/// Where the path held in `p` ends once trimmed.
fn trimmed_end(p: &Vec<char>) -> (r: usize)
    ensures
        r == trimmed(p@).len(),
{
    let mut i: usize = p.len();
    assert(p@.subrange(0, i as int) =~= p@);
    while i > 0
        invariant
            i <= p@.len(),
            trimmed(p@) == trimmed(p@.subrange(0, i as int)),
        decreases i,
    {
        let ghost q = p@.subrange(0, i as int);
        assert(q.drop_last() =~= p@.subrange(0, i - 1));
        if p[i - 1] == '/' || (i >= 2 && p[i - 1] == '.' && p[i - 2] == '/') {
            i = i - 1;
        } else {
            return i;
        }
    }
    i
}

/// Where the last component begins within the first `end` characters of `p`.
fn component_start(p: &Vec<char>, end: usize) -> (r: usize)
    requires
        end <= p@.len(),
    ensures
        r == last_slash(p@.subrange(0, end as int)) + 1,
{
    let ghost q = p@.subrange(0, end as int);
    let mut i: usize = end;
    while i > 0
        invariant
            i <= end <= p@.len(),
            q == p@.subrange(0, end as int),
            forall|k: int| i <= k < end ==> q[k] != '/',
        decreases i,
    {
        if p[i - 1] == '/' {
            proof {
                lemma_last_slash_is(q, i - 1);
            }
            return i;
        }
        i = i - 1;
    }
    proof {
        lemma_last_slash_is(q, -1);
    }
    0
}

/// Where the last component of the path held in `p` lies: its start, and the end of the
/// trimmed path.
fn component_bounds(p: &Vec<char>) -> (r: (usize, usize))
    ensures
        r.1 == trimmed(p@).len(),
        r.0 == name_start(p@),
        r.0 <= r.1 <= p@.len(),
        trimmed(p@) == p@.subrange(0, r.1 as int),
{
    proof {
        lemma_components(p@);
    }
    let end = trimmed_end(p);
    let start = component_start(p, end);
    (start, end)
}

/// Whether the component `p[start..end]` is a file name: not empty, `.` or `..`.
fn names_a_file(p: &Vec<char>, start: usize, end: usize) -> (r: bool)
    requires
        start <= end <= p@.len(),
    ensures
        r == !(end == start || p@.subrange(start as int, end as int) == seq!['.'] || p@.subrange(
            start as int,
            end as int,
        ) == seq!['.', '.']),
{
    let ghost c = p@.subrange(start as int, end as int);
    if end == start {
        return false;
    }
    if end - start == 1 {
        if p[start] == '.' {
            assert(c =~= seq!['.']);
            return false;
        }
        assert(c[0] != '.');
        return true;
    }
    if end - start == 2 {
        if p[start] == '.' && p[start + 1] == '.' {
            assert(c =~= seq!['.', '.']);
            return false;
        }
        assert(c[0] != '.' || c[1] != '.');
        assert(seq!['.'].len() == 1);
        assert(seq!['.', '.'][0] == '.' && seq!['.', '.'][1] == '.');
        return true;
    }
    assert(c.len() > 2);
    assert(seq!['.'].len() == 1);
    assert(seq!['.', '.'].len() == 2);
    true
}

pub(crate) fn is_hex_digit_char(c: char) -> (r: bool)
    ensures
        r == is_hex_digit(c),
{
    ('0' <= c && c <= '9') || ('a' <= c && c <= 'f') || ('A' <= c && c <= 'F')
}

/// Whether the file name of `path` is a bare 16-digit hexadecimal name (in either case),
/// that is, a name that stands for an unresolved hash.
pub fn is_hex_chunk_path(path: &str) -> (r: bool)
    ensures
        r == is_hex_name(path@),
{
    let p = chars_of(path);
    let (start, end) = component_bounds(&p);
    proof {
        lemma_components(p@);
    }
    let ghost c = last_component(p@);
    assert(c =~= p@.subrange(start as int, end as int));
    if end - start != 16 {
        return false;
    }
    assert(c.len() == 16);
    assert(c != seq!['.']);
    assert(c != seq!['.', '.']);
    assert(file_name(path@) == c);
    let mut i: usize = start;
    while i < end
        invariant
            start <= i <= end <= p@.len(),
            end - start == 16,
            c == p@.subrange(start as int, end as int),
            file_name(path@) == c,
            forall|k: int| start <= k < i ==> is_hex_digit(#[trigger] p@[k]),
        decreases end - i,
    {
        if !is_hex_digit_char(p[i]) {
            assert(c[i - start] == p@[i as int]);
            assert(!is_hex_digit(file_name(path@)[i - start]));
            return false;
        }
        i = i + 1;
    }
    assert forall|k: int| 0 <= k < 16 implies #[trigger] is_hex_digit(file_name(path@)[k]) by {
        assert(c[k] == p@[start + k]);
    }
    true
}

/// Whether the file name `p[start..end]` has a `.` after its first character.
fn name_has_dot(p: &Vec<char>, start: usize, end: usize) -> (r: bool)
    requires
        start < end <= p@.len(),
    ensures
        r == exists|i: int|
            0 < i < end - start && #[trigger] p@.subrange(start as int, end as int)[i] == '.',
{
    let ghost c = p@.subrange(start as int, end as int);
    let mut i: usize = start + 1;
    while i < end
        invariant
            start < i <= end,
            end <= p@.len(),
            c == p@.subrange(start as int, end as int),
            forall|k: int| 0 < k < i - start ==> c[k] != '.',
        decreases end - i,
    {
        if p[i] == '.' {
            assert(c[i - start] == '.');
            return true;
        }
        i = i + 1;
    }
    false
}

/// Where a chunk is written, given its resolved path and the extension of its classified
/// kind: see `final_path_of`.
pub fn final_chunk_path(chunk_path: &str, extension: Option<&str>) -> (r: String)
    ensures
        r@ == final_path_of(chunk_path@, opt_view(extension)),
{
    proof {
        reveal_strlit(".");
    }
    let p = chars_of(chunk_path);
    let (start, end) = component_bounds(&p);
    proof {
        lemma_components(p@);
    }
    let ghost c = last_component(p@);
    assert(c =~= p@.subrange(start as int, end as int));
    if !names_a_file(&p, start, end) {
        return String::from_str(chunk_path);
    }
    assert(file_name(p@) == c);
    if name_has_dot(&p, start, end) {
        return String::from_str(chunk_path);
    }
    let dir = chunk_path.substring_char(0, start);
    let name = chunk_path.substring_char(start, end);
    assert(dir@ + name@ =~= trimmed(p@));
    match extension {
        Some(e) => String::from_str(dir).concat(name).concat(".").concat(e),
        None => String::from_str(dir).concat(".").concat(name),
    }
}

/// The flat name under which a chunk is written when its own path is refused.
pub fn hashed_chunk_path(path_hash: u64, extension: Option<&str>) -> (r: String)
    ensures
        r@ == hashed_path_of(path_hash, opt_view(extension)),
{
    proof {
        reveal_strlit(".");
    }
    let name = format_chunk_path_hash(path_hash);
    match extension {
        Some(e) => name.concat(".").concat(e),
        None => name,
    }
}

/// The directory that holds the path's last component, relative like the path.
pub fn parent_directory(path: &str) -> (r: String)
    ensures
        r@ == parent_dir(path@),
{
    let p = chars_of(path);
    let (start, end) = component_bounds(&p);
    proof {
        lemma_components(p@);
        lemma_last_slash(trimmed(p@));
    }
    if start == 0 {
        String::new()
    } else {
        assert(trimmed(p@).subrange(0, start - 1) =~= p@.subrange(0, start - 1));
        String::from_str(path.substring_char(0, start - 1))
    }
}

/// `s` shortened to at most `max_len` bytes' worth of budget by cutting out its middle.
/// Where the byte length exceeds the budget, the result keeps `(max_len - 3) / 2` leading and
/// the remaining budget of trailing characters, joined by `...`; a budget of three or less
/// gives `...` alone.
pub open spec fn truncated_middle(s: Seq<char>, byte_len: nat, max_len: nat) -> Seq<char> {
    if byte_len <= max_len {
        s
    } else if max_len <= 3 {
        seq!['.', '.', '.']
    } else {
        let keep = (max_len - 3) as nat;
        let left = keep / 2;
        let right = (keep - left) as nat;
        let l = if left <= s.len() {
            left
        } else {
            s.len()
        };
        let r = if right <= s.len() {
            right
        } else {
            s.len()
        };
        s.subrange(0, l as int) + seq!['.', '.', '.'] + s.subrange(s.len() - r, s.len() as int)
    }
}

/// Truncates a string in the middle, for display.
pub fn truncate_middle(input: &str, max_len: usize) -> (r: String)
    ensures
        r@ == truncated_middle(input@, input.len() as nat, max_len as nat),
{
    let ellipsis = "...";
    proof {
        reveal_strlit("...");
        assert(ellipsis@ =~= seq!['.', '.', '.']);
    }
    if input.len() <= max_len {
        return String::from_str(input);
    }
    if max_len <= 3 {
        return String::from_str(ellipsis);
    }
    let keep = max_len - 3;
    let left = keep / 2;
    let right = keep - left;
    let n = input.unicode_len();
    let l = if left <= n {
        left
    } else {
        n
    };
    let r = if right <= n {
        right
    } else {
        n
    };
    let head = input.substring_char(0, l);
    let tail = input.substring_char(n - r, n);
    String::from_str(head).concat(ellipsis).concat(tail)
}

/// Text with no `/` in it.
pub open spec fn has_no_slash(s: Seq<char>) -> bool {
    forall|i: int| 0 <= i < s.len() ==> #[trigger] s[i] != '/'
}

proof fn lemma_last_slash_append(p: Seq<char>, s: Seq<char>)
    requires
        has_no_slash(s),
    ensures
        last_slash(p + s) == last_slash(p),
{
    lemma_last_slash(p);
    let q = p + s;
    assert forall|k: int| last_slash(p) < k < q.len() implies q[k] != '/' by {
        if k >= p.len() {
            assert(q[k] == s[k - p.len()]);
        }
    }
    lemma_last_slash_is(q, last_slash(p));
}

proof fn lemma_plain_has_no_slash(e: Seq<char>)
    requires
        is_plain_extension(e),
    ensures
        has_no_slash(e),
{
    assert forall|i: int| 0 <= i < e.len() implies #[trigger] e[i] != '/' by {
        assert('a' <= e[i] && e[i] <= 'z');
    }
}

/// Where a chunk's write goes, its directory is that of its resolved path: an extension or a
/// leading `.` changes the file name alone, so the directories made beforehand from resolved
/// paths are the ones that writes need.
pub proof fn lemma_final_path_keeps_directory(p: Seq<char>, ext: Option<Seq<char>>)
    requires
        ext matches Some(e) ==> is_plain_extension(e),
    ensures
        parent_dir(final_path_of(p, ext)) == parent_dir(p),
{
    lemma_components(p);
    let t = trimmed(p);
    let ns = name_start(p);
    if !(has_extension(p) || file_name(p).len() == 0) {
        let name = file_name(p);
        assert(name == t.subrange(ns, t.len() as int));
        match ext {
            Some(e) => {
                lemma_plain_has_no_slash(e);
                let s = seq!['.'] + e;
                assert forall|i: int| 0 <= i < s.len() implies #[trigger] s[i] != '/' by {
                    if i > 0 {
                        assert(s[i] == e[i - 1]);
                    }
                }
                let q = t + s;
                assert(t + seq!['.'] + e =~= q);
                assert(q.last() == e.last());
                assert(trimmed(q) == q);
                lemma_last_slash_append(t, s);
                if last_slash(t) >= 0 {
                    assert(q.subrange(0, last_slash(t)) =~= t.subrange(0, last_slash(t)));
                }
            },
            None => {
                let head = t.subrange(0, ns);
                let tail = seq!['.'] + name;
                let q = dot_prefixed(p);
                assert(q =~= head + tail);
                assert(q.last() == t.last());
                if name.len() >= 2 {
                    assert(q[q.len() - 2] == t[t.len() - 2]);
                } else {
                    assert(q[q.len() - 2] == '.');
                }
                assert(trimmed(q) == q);
                assert forall|i: int| 0 <= i < tail.len() implies #[trigger] tail[i] != '/' by {
                    if i > 0 {
                        assert(tail[i] == t[ns + i - 1]);
                    }
                }
                lemma_last_slash_append(head, tail);
                if ns > 0 {
                    assert(head.last() == '/');
                    lemma_last_slash_is(head, ns - 1);
                    lemma_last_slash_is(t, ns - 1);
                    assert(q.subrange(0, ns - 1) =~= t.subrange(0, ns - 1));
                } else {
                    lemma_last_slash_is(head, -1);
                    lemma_last_slash(t);
                }
            },
        }
    }
}

/// The name that a refused chunk is written under holds no `/` and is its own file name: it
/// stands directly in the destination.
pub proof fn lemma_hashed_path_is_flat(h: u64, ext: Option<Seq<char>>)
    requires
        ext matches Some(e) ==> is_plain_extension(e),
    ensures
        has_no_slash(hashed_path_of(h, ext)),
        file_name(hashed_path_of(h, ext)) == hashed_path_of(h, ext),
{
    lemma_hex16(h);
    let q = hashed_path_of(h, ext);
    assert forall|i: int| 0 <= i < q.len() implies #[trigger] q[i] != '/' by {
        if i < 16 {
            assert(q[i] == hex16(h)[i]);
            assert(is_lower_hex_digit(hex16(h)[i]));
        } else if i > 16 {
            assert(q[i] == ext->Some_0[i - 17]);
            assert('a' <= ext->Some_0[i - 17]);
        }
    }
    if let Some(e) = ext {
        assert(q.last() == e.last());
        assert('a' <= e[e.len() - 1]);
    } else {
        assert(q.last() == hex16(h)[15]);
        assert(is_lower_hex_digit(hex16(h)[15]));
    }
    assert(trimmed(q) == q);
    lemma_last_slash_is(q, -1);
    assert(q.subrange(0, q.len() as int) =~= q);
    assert(q.len() >= 16);
}

} // verus!
