use fancy_regex::Regex;
use vstd::prelude::*;

use crate::classify::{kind_admitted, kind_matches, opt_list_view};
use league_toolkit::file::LeagueFileKind;

verus! {

#[verifier::external_type_specification]
#[verifier::external_body]
pub struct ExRegex(Regex);

#[verifier::external_type_specification]
#[verifier::external_body]
pub struct ExRegexError(fancy_regex::Error);

/// Whether `fancy_regex::Regex::new` accepts a pattern.
pub uninterp spec fn regex_compiles(pattern: Seq<char>) -> bool;

/// What `fancy_regex::Regex::is_match` reports for the regex compiled from a pattern, on a
/// text: `Some` of its answer, or `None` where matching failed (the backtracking limit).
pub uninterp spec fn regex_match(pattern: Seq<char>, text: Seq<char>) -> Option<bool>;

/// Relies on `fancy_regex::Regex::new` with its default options: whether a pattern compiles
/// depends on the pattern alone.
#[verifier::external_body]
fn compile_regex(pattern: &str) -> (r: Result<Regex, fancy_regex::Error>)
    ensures
        r is Ok <==> regex_compiles(pattern@),
{
    Regex::new(pattern)
}

/// A compiled path pattern, together with the source it was compiled from.
pub struct PathPattern {
    source: String,
    regex: Regex,
}

impl View for PathPattern {
    type V = Seq<char>;

    closed spec fn view(&self) -> Seq<char> {
        self.source@
    }
}

impl PathPattern {
    /// The source that the pattern was compiled from.
    pub fn as_str(&self) -> (r: &str)
        ensures
            r@ == self@,
    {
        self.source.as_str()
    }
}

/// Relies on `fancy_regex::Regex::is_match`. A `PathPattern`'s regex is compiled from its
/// source by `compile_path_pattern` and by nothing else, so what `is_match` reports depends
/// on that source and the text alone; its error becomes `None`.
#[verifier::external_body]
fn regex_is_match(pattern: &PathPattern, text: &str) -> (r: Option<bool>)
    ensures
        r == regex_match(pattern@, text@),
{
    pattern.regex.is_match(text).ok()
}

fn compile_path_pattern(source: String) -> (r: Result<PathPattern, fancy_regex::Error>)
    ensures
        r is Ok <==> regex_compiles(source@),
        r matches Ok(p) ==> p@ == source@,
{
    match compile_regex(source.as_str()) {
        Ok(regex) => Ok(PathPattern { source, regex }),
        Err(e) => Err(e),
    }
}

/// A pattern that does not compile.
#[derive(Debug)]
pub struct FilterError {
    pub pattern: String,
    pub cause: fancy_regex::Error,
}

/// `t` occurs in `s` as a contiguous run.
pub open spec fn occurs_in(s: Seq<char>, t: Seq<char>) -> bool {
    exists|i: int| 0 <= i && i + t.len() <= s.len() && #[trigger] s.subrange(i, i + t.len()) == t
}

/// The inline flag that turns case-insensitive matching on.
pub open spec fn case_insensitive_flag() -> Seq<char> {
    seq!['(', '?', 'i', ')']
}

/// The inline flag that turns case-insensitive matching off.
pub open spec fn case_sensitive_flag() -> Seq<char> {
    seq!['(', '?', '-', 'i', ')']
}

/// The pattern that is compiled for a user's pattern: matching is case-insensitive unless the
/// pattern sets the case flag itself.
pub open spec fn effective_pattern(p: Seq<char>) -> Seq<char> {
    if occurs_in(p, case_insensitive_flag()) || occurs_in(p, case_sensitive_flag()) {
        p
    } else {
        case_insensitive_flag() + p
    }
}

/// A path passes an optional pattern: there is none, or the pattern matches it. A failed
/// match counts as no match.
pub open spec fn path_admitted(pattern: Option<Seq<char>>, path: Seq<char>) -> bool {
    match pattern {
        None => true,
        Some(p) => regex_match(p, path) == Some(true),
    }
}

/// A chunk passes the filter when its resolved path passes the pattern and its classified
/// kind passes the allow-list.
pub open spec fn chunk_admitted(
    pattern: Option<Seq<char>>,
    filter_type: Option<Seq<LeagueFileKind>>,
    path: Seq<char>,
    kind: LeagueFileKind,
) -> bool {
    path_admitted(pattern, path) && kind_admitted(filter_type, kind)
}

/// The source of an optional pattern.
pub open spec fn opt_pattern_view(p: Option<&PathPattern>) -> Option<Seq<char>> {
    match p {
        None => None,
        Some(q) => Some(q@),
    }
}

fn occurs_at(s: &Vec<char>, t: &Vec<char>, i: usize) -> (r: bool)
    requires
        i + t@.len() <= s@.len(),
    ensures
        r == (s@.subrange(i as int, i + t@.len()) == t@),
{
    let n = s.len();
    let mut k: usize = 0;
    while k < t.len()
        invariant
            k <= t@.len(),
            n == s@.len(),
            i + t@.len() <= n,
            forall|m: int| 0 <= m < k ==> s@[i + m] == t@[m],
        decreases t@.len() - k,
    {
        if s[i + k] != t[k] {
            assert(s@.subrange(i as int, i + t@.len())[k as int] != t@[k as int]);
            return false;
        }
        k = k + 1;
    }
    assert(s@.subrange(i as int, i + t@.len()) =~= t@);
    true
}

fn occurs(s: &Vec<char>, t: &Vec<char>) -> (r: bool)
    ensures
        r == occurs_in(s@, t@),
{
    if t.len() == 0 {
        assert(s@.subrange(0, 0 + t@.len() as int) =~= t@);
        return true;
    }
    if t.len() > s.len() {
        return false;
    }
    let last = s.len() - t.len();
    let mut i: usize = 0;
    while i <= last
        invariant
            last == s@.len() - t@.len(),
            last < usize::MAX,
            t@.len() > 0,
            i <= last + 1,
            forall|j: int| 0 <= j < i ==> #[trigger] s@.subrange(j, j + t@.len()) != t@,
        decreases last + 1 - i,
    {
        if occurs_at(s, t, i) {
            return true;
        }
        i = i + 1;
    }
    false
}

/// Compiles the user's path pattern, if any. Matching is case-insensitive unless the pattern
/// holds an explicit `(?i)` or `(?-i)`; otherwise `(?i)` is put in front of it.
pub fn create_filter_pattern(pattern: Option<String>) -> (r: Result<Option<PathPattern>, FilterError>)
    ensures
        match pattern {
            None => r matches Ok(None),
            Some(p) => {
                &&& r is Ok <==> regex_compiles(effective_pattern(p@))
                &&& r is Ok ==> (r matches Ok(Some(q)) && q@ == effective_pattern(p@))
                &&& r matches Err(e) ==> e.pattern@ == p@
            },
        },
{
    match pattern {
        None => Ok(None),
        Some(p) => {
            let on = "(?i)";
            let off = "(?-i)";
            proof {
                reveal_strlit("(?i)");
                reveal_strlit("(?-i)");
                assert(on@ =~= case_insensitive_flag());
                assert(off@ =~= case_sensitive_flag());
            }
            let chars = crate::paths::chars_of(p.as_str());
            let has_flag = occurs(&chars, &crate::paths::chars_of(on)) || occurs(
                &chars,
                &crate::paths::chars_of(off),
            );
            let source = if has_flag {
                p.clone()
            } else {
                String::from_str(on).concat(p.as_str())
            };
            match compile_path_pattern(source) {
                Ok(q) => Ok(Some(q)),
                Err(cause) => Err(FilterError { pattern: p, cause }),
            }
        },
    }
}

/// Whether a resolved path passes the optional path pattern; a match that fails counts as
/// no match.
pub fn path_matches(filter_pattern: Option<&PathPattern>, path: &str) -> (r: bool)
    ensures
        r == path_admitted(opt_pattern_view(filter_pattern), path@),
{
    match filter_pattern {
        None => true,
        Some(p) => match regex_is_match(p, path) {
            Some(m) => m,
            None => false,
        },
    }
}

/// Whether a chunk passes the filter: its resolved path passes the pattern and its classified
/// kind passes the allow-list.
pub fn chunk_matches(
    filter_pattern: Option<&PathPattern>,
    filter_type: Option<&Vec<LeagueFileKind>>,
    path: &str,
    kind: LeagueFileKind,
) -> (r: bool)
    ensures
        r == chunk_admitted(
            opt_pattern_view(filter_pattern),
            opt_list_view(filter_type),
            path@,
            kind,
        ),
{
    path_matches(filter_pattern, path) && kind_matches(filter_type, kind)
}

} // verus!
