//! Compiled queries: the `#match?` predicates written in a query's source,
//! the node kinds a query names, and the selection of matches and captures
//! that become search results.
//!
//! Parsing a file and running tree-sitter's query engine over its tree are
//! done in `syntax`; their outcome reaches this module as plain match
//! records, and every decision about those records is made here.

use crate::paths::slice_chars;
use crate::text::{chars_of, push_char, push_str, str_eq, string_from_utf8, string_of};
use crate::types::{AppError, MatchResult};
use vstd::prelude::*;
use vstd::string::StringSliceAdditionalSpecFns;
use vstd::utf8::{decode_utf8, valid_utf8};

verus! {

// ---------------------------------------------------------------------------
// The `#match?` predicate grammar
// ---------------------------------------------------------------------------

/// The predicate keyword that introduces a regex predicate.
pub open spec fn match_keyword() -> Seq<char> {
    seq!['#', 'm', 'a', 't', 'c', 'h', '?']
}

/// ASCII whitespace: space, tab, line feed, form feed, carriage return.
pub open spec fn is_ascii_ws(c: char) -> bool {
    c == ' ' || c == '\t' || c == '\n' || c == '\x0C' || c == '\r'
}

/// A character of a capture name: an ASCII letter or digit, `_` or `-`.
pub open spec fn is_capture_char(c: char) -> bool {
    ('a' <= c && c <= 'z') || ('A' <= c && c <= 'Z') || ('0' <= c && c <= '9') || c == '_' || c
        == '-'
}

/// Whether `pat` occurs in `s` starting at `i`.
pub open spec fn occurs_at(s: Seq<char>, pat: Seq<char>, i: int) -> bool {
    0 <= i && i + pat.len() <= s.len() && s.subrange(i, i + pat.len()) == pat
}

/// The first position at or after `from` where `pat` occurs in `s`.
pub open spec fn find_from(s: Seq<char>, pat: Seq<char>, from: int) -> Option<int>
    decreases s.len() + 1 - from,
{
    if from < 0 || from + pat.len() > s.len() {
        None
    } else if occurs_at(s, pat, from) {
        Some(from)
    } else {
        find_from(s, pat, from + 1)
    }
}

/// The first position at or after `i` that does not hold whitespace.
pub open spec fn skip_ws(s: Seq<char>, i: int) -> int
    decreases s.len() - i,
{
    if 0 <= i < s.len() && is_ascii_ws(s[i]) {
        skip_ws(s, i + 1)
    } else {
        i
    }
}

/// The first position at or after `i` that does not hold a capture-name
/// character.
pub open spec fn name_end(s: Seq<char>, i: int) -> int
    decreases s.len() - i,
{
    if 0 <= i < s.len() && is_capture_char(s[i]) {
        name_end(s, i + 1)
    } else {
        i
    }
}

/// The character that an escape `\c` stands for.
pub open spec fn unescape(c: char) -> char {
    if c == 'n' {
        '\n'
    } else if c == 'r' {
        '\r'
    } else if c == 't' {
        '\t'
    } else {
        c
    }
}

/// The body of a quoted string whose text starts at `i` (just after the
/// opening quote), with escapes resolved, and the position after the closing
/// quote (or the end of `s` when the string is not closed).
pub open spec fn read_string(s: Seq<char>, i: int, escaped: bool) -> (Seq<char>, int)
    decreases s.len() - i,
{
    if i < 0 || i >= s.len() {
        (Seq::empty(), i)
    } else if escaped {
        let rest = read_string(s, i + 1, false);
        (seq![unescape(s[i])] + rest.0, rest.1)
    } else if s[i] == '\\' {
        read_string(s, i + 1, true)
    } else if s[i] == '"' {
        (Seq::empty(), i + 1)
    } else {
        let rest = read_string(s, i + 1, false);
        (seq![s[i]] + rest.0, rest.1)
    }
}

pub proof fn lemma_find_from_bounds(s: Seq<char>, pat: Seq<char>, from: int)
    requires
        0 <= from,
    ensures
        find_from(s, pat, from) matches Some(p) ==> from <= p && occurs_at(s, pat, p) && (
        forall|q: int| from <= q < p ==> !occurs_at(s, pat, q)),
        find_from(s, pat, from) is None ==> forall|q: int| from <= q ==> !occurs_at(s, pat, q),
    decreases s.len() + 1 - from,
{
    if from < 0 || from + pat.len() > s.len() {
    } else if occurs_at(s, pat, from) {
    } else {
        lemma_find_from_bounds(s, pat, from + 1);
    }
}

pub proof fn lemma_skip_ws_bounds(s: Seq<char>, i: int)
    ensures
        i <= skip_ws(s, i),
        0 <= i <= s.len() ==> skip_ws(s, i) <= s.len(),
    decreases s.len() - i,
{
    if 0 <= i < s.len() && is_ascii_ws(s[i]) {
        lemma_skip_ws_bounds(s, i + 1);
    }
}

pub proof fn lemma_name_end_bounds(s: Seq<char>, i: int)
    ensures
        i <= name_end(s, i),
        0 <= i <= s.len() ==> name_end(s, i) <= s.len(),
    decreases s.len() - i,
{
    if 0 <= i < s.len() && is_capture_char(s[i]) {
        lemma_name_end_bounds(s, i + 1);
    }
}

pub proof fn lemma_read_string_bounds(s: Seq<char>, i: int, escaped: bool)
    ensures
        i <= read_string(s, i, escaped).1,
        0 <= i <= s.len() ==> read_string(s, i, escaped).1 <= s.len(),
    decreases s.len() - i,
{
    if i < 0 || i >= s.len() {
    } else if escaped {
        lemma_read_string_bounds(s, i + 1, false);
    } else if s[i] == '\\' {
        lemma_read_string_bounds(s, i + 1, true);
    } else if s[i] == '"' {
    } else {
        lemma_read_string_bounds(s, i + 1, false);
    }
}

/// One step of the predicate scan from `offset`: `None` when no keyword is
/// left, else the predicate read there (if the grammar matched) and the
/// position where scanning resumes.
pub open spec fn scan_step(s: Seq<char>, offset: int) -> Option<(Option<(Seq<char>, Seq<char>)>, int)> {
    match find_from(s, match_keyword(), offset) {
        None => None,
        Some(p) => {
            let i = skip_ws(s, p + match_keyword().len());
            if i >= s.len() || s[i] != '@' {
                Some((None, i + 1))
            } else {
                let cs = i + 1;
                let ne = name_end(s, cs);
                if ne == cs {
                    Some((None, ne + 1))
                } else {
                    let j = skip_ws(s, ne);
                    if j >= s.len() || s[j] != '"' {
                        Some((None, j + 1))
                    } else {
                        let body = read_string(s, j + 1, false);
                        Some((Some((s.subrange(cs, ne), body.0)), body.1))
                    }
                }
            }
        },
    }
}

pub proof fn lemma_scan_step_advances(s: Seq<char>, offset: int)
    requires
        0 <= offset,
    ensures
        scan_step(s, offset) matches Some((_, next)) ==> offset < next <= s.len() + 1,
{
    lemma_find_from_bounds(s, match_keyword(), offset);
    if let Some(p) = find_from(s, match_keyword(), offset) {
        let i = skip_ws(s, p + 7);
        lemma_skip_ws_bounds(s, p + 7);
        if !(i >= s.len() || s[i] != '@') {
            lemma_name_end_bounds(s, i + 1);
            let ne = name_end(s, i + 1);
            if ne != i + 1 {
                lemma_skip_ws_bounds(s, ne);
                let j = skip_ws(s, ne);
                if !(j >= s.len() || s[j] != '"') {
                    lemma_read_string_bounds(s, j + 1, false);
                }
            }
        }
    }
}

/// The `#match?` predicates written in a pattern's source from `offset` on,
/// each as its capture name and regex source, in order of appearance.
pub open spec fn scan_from(s: Seq<char>, offset: int) -> Seq<(Seq<char>, Seq<char>)>
    decreases s.len() + 2 - offset,
{
    if offset < 0 {
        Seq::empty()
    } else {
        match scan_step(s, offset) {
            None => Seq::empty(),
            Some((found, next)) => {
                proof {
                    lemma_scan_step_advances(s, offset);
                }
                match found {
                    Some(pred) => seq![pred] + scan_from(s, next),
                    None => scan_from(s, next),
                }
            },
        }
    }
}

/// Past the end of the source no predicate is left.
pub proof fn lemma_scan_ends(s: Seq<char>, offset: int)
    requires
        offset > s.len(),
    ensures
        scan_from(s, offset) == Seq::<(Seq<char>, Seq<char>)>::empty(),
{
    assert(find_from(s, match_keyword(), offset) is None);
}

/// Whether a character takes a single byte in UTF-8.
pub open spec fn single_byte(c: char) -> bool {
    (c as u32) < 128u32
}

/// Whether the scan can resume after a read that failed at `i`: there is a
/// character at `i` and it is a single byte, so the next byte starts a
/// character.
pub open spec fn resumable(s: Seq<char>, i: int) -> bool {
    0 <= i < s.len() && single_byte(s[i])
}

/// Whether scanning `s` for predicates from `offset` only ever resumes where
/// it can: every read that fails does so at a single-byte character.
pub open spec fn scan_ok(s: Seq<char>, offset: int) -> bool
    decreases s.len() + 2 - offset,
{
    if offset < 0 {
        true
    } else {
        match scan_step(s, offset) {
            None => true,
            Some((found, next)) => {
                proof {
                    lemma_scan_step_advances(s, offset);
                }
                (found is Some || resumable(s, next - 1)) && scan_ok(s, next)
            },
        }
    }
}

/// Whether every pattern source can be scanned for predicates.
pub open spec fn patterns_scannable(sources: Seq<Seq<char>>) -> bool {
    forall|k: int| 0 <= k < sources.len() ==> scan_ok(#[trigger] sources[k], 0)
}

/// The `#match?` predicates written in a pattern's source.
pub open spec fn match_predicates(s: Seq<char>) -> Seq<(Seq<char>, Seq<char>)> {
    scan_from(s, 0)
}

fn find_keyword(s: &Vec<char>, from: usize) -> (r: Option<usize>)
    ensures
        r is None ==> find_from(s@, match_keyword(), from as int) is None,
        r matches Some(p) ==> find_from(s@, match_keyword(), from as int) == Some(p as int) && p + 7
            <= s@.len(),
{
    let n = s.len();
    if n < 7 {
        assert(find_from(s@, match_keyword(), from as int) is None);
        return None;
    }
    let mut k: usize = from;
    while k <= n - 7
        invariant
            n == s@.len(),
            n >= 7,
            from <= k,
            find_from(s@, match_keyword(), from as int) == find_from(s@, match_keyword(), k as int),
        decreases n - k,
    {
        if s[k] == '#' && s[k + 1] == 'm' && s[k + 2] == 'a' && s[k + 3] == 't' && s[k + 4] == 'c'
            && s[k + 5] == 'h' && s[k + 6] == '?' {
            assert(s@.subrange(k as int, k + 7) =~= match_keyword());
            return Some(k);
        }
        assert(!occurs_at(s@, match_keyword(), k as int)) by {
            if occurs_at(s@, match_keyword(), k as int) {
                assert(s@.subrange(k as int, k + 7)[0] == s@[k as int]);
                assert(s@.subrange(k as int, k + 7)[1] == s@[k + 1]);
                assert(s@.subrange(k as int, k + 7)[2] == s@[k + 2]);
                assert(s@.subrange(k as int, k + 7)[3] == s@[k + 3]);
                assert(s@.subrange(k as int, k + 7)[4] == s@[k + 4]);
                assert(s@.subrange(k as int, k + 7)[5] == s@[k + 5]);
                assert(s@.subrange(k as int, k + 7)[6] == s@[k + 6]);
            }
        }
        k = k + 1;
    }
    None
}

fn is_ascii_ws_char(c: char) -> (r: bool)
    ensures
        r == is_ascii_ws(c),
{
    c == ' ' || c == '\t' || c == '\n' || c == '\x0C' || c == '\r'
}

fn is_capture_char_exec(c: char) -> (r: bool)
    ensures
        r == is_capture_char(c),
{
    ('a' <= c && c <= 'z') || ('A' <= c && c <= 'Z') || ('0' <= c && c <= '9') || c == '_' || c
        == '-'
}

fn skip_ws_exec(s: &Vec<char>, i: usize) -> (r: usize)
    requires
        i <= s@.len(),
    ensures
        r == skip_ws(s@, i as int),
        r <= s@.len(),
{
    let mut k = i;
    while k < s.len() && is_ascii_ws_char(s[k])
        invariant
            i <= k <= s@.len(),
            skip_ws(s@, i as int) == skip_ws(s@, k as int),
        decreases s@.len() - k,
    {
        k = k + 1;
    }
    k
}

fn name_end_exec(s: &Vec<char>, i: usize) -> (r: usize)
    requires
        i <= s@.len(),
    ensures
        r == name_end(s@, i as int),
        i <= r <= s@.len(),
{
    let mut k = i;
    while k < s.len() && is_capture_char_exec(s[k])
        invariant
            i <= k <= s@.len(),
            name_end(s@, i as int) == name_end(s@, k as int),
        decreases s@.len() - k,
    {
        k = k + 1;
    }
    k
}

fn read_string_exec(s: &Vec<char>, i: usize) -> (r: (Vec<char>, usize))
    requires
        i <= s@.len(),
    ensures
        r.0@ == read_string(s@, i as int, false).0,
        r.1 == read_string(s@, i as int, false).1,
        i <= r.1 <= s@.len(),
{
    let mut out: Vec<char> = Vec::new();
    let mut k = i;
    let mut escaped = false;
    proof {
        lemma_read_string_bounds(s@, i as int, false);
    }
    while k < s.len()
        invariant
            i <= k <= s@.len(),
            out@ + read_string(s@, k as int, escaped).0 == read_string(s@, i as int, false).0,
            read_string(s@, k as int, escaped).1 == read_string(s@, i as int, false).1,
        decreases s@.len() - k,
    {
        let ch = s[k];
        let ghost before = out@;
        let ghost k0 = k as int;
        let ghost esc0 = escaped;
        k = k + 1;
        if escaped {
            let c = if ch == 'n' {
                '\n'
            } else if ch == 'r' {
                '\r'
            } else if ch == 't' {
                '\t'
            } else {
                ch
            };
            out.push(c);
            escaped = false;
            assert(before + read_string(s@, k0, esc0).0 =~= out@ + read_string(s@, k as int, false).0);
        } else if ch == '\\' {
            escaped = true;
        } else if ch == '"' {
            assert(read_string(s@, k0, false).0 =~= Seq::<char>::empty());
            assert(out@ + Seq::<char>::empty() =~= out@);
            proof {
                lemma_read_string_bounds(s@, i as int, false);
            }
            return (out, k);
        } else {
            out.push(ch);
            assert(before + read_string(s@, k0, esc0).0 =~= out@ + read_string(s@, k as int, false).0);
        }
    }
    assert(read_string(s@, k as int, escaped).0 =~= Seq::<char>::empty());
    assert(out@ + Seq::<char>::empty() =~= out@);
    (out, k)
}

/// The `#match?` predicates written in `pattern_source`, each as its capture
/// name and its regex source with escapes resolved, in order of appearance.
pub fn scan_match_predicates(pattern_source: &str) -> (r: Vec<(String, String)>)
    ensures
        r@.len() == match_predicates(pattern_source@).len(),
        forall|i: int| #![auto] 0 <= i < r@.len() ==> r@[i].0@ == match_predicates(pattern_source@)[i].0
            && r@[i].1@ == match_predicates(pattern_source@)[i].1,
{
    let s = chars_of(pattern_source);
    let ghost total = match_predicates(s@);
    let mut out: Vec<(String, String)> = Vec::new();
    let mut offset: usize = 0;
    while offset <= s.len()
        invariant
            s@ == pattern_source@,
            total == match_predicates(s@),
            offset <= s@.len() + 1,
            total.len() == out@.len() + scan_from(s@, offset as int).len(),
            forall|i: int| #![auto] 0 <= i < out@.len() ==> out@[i].0@ == total[i].0 && out@[i].1@
                == total[i].1,
            forall|i: int| #![auto] 0 <= i < scan_from(s@, offset as int).len() ==> total[out@.len() + i]
                == scan_from(s@, offset as int)[i],
        decreases s@.len() + 2 - offset,
    {
        proof {
            lemma_scan_step_advances(s@, offset as int);
        }
        let ghost rest = scan_from(s@, offset as int);
        let ghost off0 = offset as int;
        assert(match_keyword().len() == 7);
        let found = find_keyword(&s, offset);
        match found {
            None => {
                assert(scan_from(s@, offset as int) =~= Seq::<(Seq<char>, Seq<char>)>::empty());
                return out;
            },
            Some(p) => {
                let i = skip_ws_exec(&s, p + 7);
                if i >= s.len() {
                    proof {
                        lemma_scan_ends(s@, i as int + 1);
                        assert(scan_step(s@, off0) == Some((None::<(Seq<char>, Seq<char>)>, i as int + 1)));
                        assert(rest =~= scan_from(s@, i as int + 1));
                    }
                    return out;
                }
                if s[i] != '@' {
                    offset = i + 1;
                    assert(scan_step(s@, off0) == Some((None::<(Seq<char>, Seq<char>)>, offset as int)));
                    assert(rest =~= scan_from(s@, offset as int));
                    continue;
                }
                let cs = i + 1;
                let ne = name_end_exec(&s, cs);
                if ne == cs {
                    if ne >= s.len() {
                        proof {
                        lemma_scan_ends(s@, ne as int + 1);
                        assert(scan_step(s@, off0) == Some((None::<(Seq<char>, Seq<char>)>, ne as int + 1)));
                        assert(rest =~= scan_from(s@, ne as int + 1));
                    }
                        return out;
                    }
                    offset = ne + 1;
                    assert(scan_step(s@, off0) == Some((None::<(Seq<char>, Seq<char>)>, offset as int)));
                    assert(rest =~= scan_from(s@, offset as int));
                    continue;
                }
                let j = skip_ws_exec(&s, ne);
                if j >= s.len() {
                    proof {
                        lemma_scan_ends(s@, j as int + 1);
                        assert(scan_step(s@, off0) == Some((None::<(Seq<char>, Seq<char>)>, j as int + 1)));
                        assert(rest =~= scan_from(s@, j as int + 1));
                    }
                    return out;
                }
                if s[j] != '"' {
                    offset = j + 1;
                    assert(scan_step(s@, off0) == Some((None::<(Seq<char>, Seq<char>)>, offset as int)));
                    assert(rest =~= scan_from(s@, offset as int));
                    continue;
                }
                let (body, end) = read_string_exec(&s, j + 1);
                let name = slice_chars(s.as_slice(), cs, ne);
                let regex = string_of(body.as_slice());
                let ghost next = scan_from(s@, end as int);
                assert(rest =~= seq![(s@.subrange(cs as int, ne as int), body@)] + next);
                assert(rest[0] == (s@.subrange(cs as int, ne as int), body@));
                out.push((name, regex));
                offset = end;
                assert forall|k: int| #![auto] 0 <= k < next.len() implies total[out@.len() + k]
                    == next[k] by {
                    assert(rest[k + 1] == next[k]);
                }
            },
        }
    }
    assert(scan_from(s@, offset as int) =~= Seq::<(Seq<char>, Seq<char>)>::empty()) by {
        lemma_find_from_bounds(s@, match_keyword(), offset as int);
    }
    out
}


/// Whether scanning `pattern_source` for `#match?` predicates only ever
/// resumes after a failed read at a single-byte character.
pub fn pattern_scan_ok(pattern_source: &str) -> (r: bool)
    ensures
        r == scan_ok(pattern_source@, 0),
{
    let s = chars_of(pattern_source);
    let mut offset: usize = 0;
    while offset <= s.len()
        invariant
            s@ == pattern_source@,
            offset <= s@.len() + 1,
            scan_ok(s@, 0) == scan_ok(s@, offset as int),
        decreases s@.len() + 2 - offset,
    {
        proof {
            lemma_scan_step_advances(s@, offset as int);
        }
        let ghost off0 = offset as int;
        assert(match_keyword().len() == 7);
        match find_keyword(&s, offset) {
            None => {
                return true;
            },
            Some(p) => {
                let i = skip_ws_exec(&s, p + 7);
                if i >= s.len() {
                    return false;
                }
                if s[i] != '@' {
                    if (s[i] as u32) >= 128 {
                        return false;
                    }
                    offset = i + 1;
                    continue;
                }
                let cs = i + 1;
                let ne = name_end_exec(&s, cs);
                if ne == cs {
                    if ne >= s.len() || (s[ne] as u32) >= 128 {
                        return false;
                    }
                    offset = ne + 1;
                    continue;
                }
                let j = skip_ws_exec(&s, ne);
                if j >= s.len() {
                    return false;
                }
                if s[j] != '"' {
                    if (s[j] as u32) >= 128 {
                        return false;
                    }
                    offset = j + 1;
                    continue;
                }
                let (_body, end) = read_string_exec(&s, j + 1);
                offset = end;
            },
        }
    }
    proof {
        lemma_find_from_bounds(s@, match_keyword(), offset as int);
    }
    true
}

/// Whether every pattern source can be scanned for predicates.
pub fn patterns_scan_ok(pattern_sources: &[String]) -> (r: bool)
    ensures
        r == patterns_scannable(views(pattern_sources@)),
{
    let mut k: usize = 0;
    while k < pattern_sources.len()
        invariant
            k <= pattern_sources@.len(),
            forall|j: int| 0 <= j < k ==> scan_ok(#[trigger] views(pattern_sources@)[j], 0),
        decreases pattern_sources@.len() - k,
    {
        if !pattern_scan_ok(pattern_sources[k].as_str()) {
            assert(!scan_ok(views(pattern_sources@)[k as int], 0));
            return false;
        }
        k = k + 1;
    }
    true
}

// ---------------------------------------------------------------------------
// Regular expressions
// ---------------------------------------------------------------------------

#[verifier::external_type_specification]
#[verifier::external_body]
pub struct ExRegex(regex::Regex);

/// What `regex::Regex::new` reports for `pattern`: `None` when the pattern
/// compiles, else the message of its error.
pub uninterp spec fn regex_compile_error(pattern: Seq<char>) -> Option<Seq<char>>;

/// What `regex::Regex::is_match` answers for the regex compiled from
/// `pattern` on the haystack `text`.
pub uninterp spec fn regex_is_match(pattern: Seq<char>, text: Seq<char>) -> bool;

/// A compiled regular expression together with the pattern it was compiled
/// from.
pub struct CompiledRegex {
    source: String,
    regex: regex::Regex,
}

impl CompiledRegex {
    /// The pattern the regex was compiled from.
    pub closed spec fn pattern(&self) -> Seq<char> {
        self.source@
    }

    /// The pattern the regex was compiled from.
    pub fn as_str(&self) -> (r: &str)
        ensures
            r@ == self.pattern(),
    {
        self.source.as_str()
    }
}

/// `regex::Regex::new`: compiles `pattern`. On success the regex keeps the
/// pattern; on failure the error's message is returned, which is what the
/// pattern alone determines.
#[verifier::external_body]
fn compile_regex(pattern: &str) -> (r: Result<CompiledRegex, String>)
    ensures
        match r {
            Ok(c) => regex_compile_error(pattern@) is None && c.pattern() == pattern@,
            Err(m) => regex_compile_error(pattern@) == Some(m@),
        },
{
    match regex::Regex::new(pattern) {
        Ok(regex) => Ok(CompiledRegex { source: pattern.to_string(), regex }),
        Err(error) => Err(error.to_string()),
    }
}

/// `regex::Regex::is_match`: whether the regex matches somewhere in `text`.
#[verifier::external_body]
fn regex_matches(re: &CompiledRegex, text: &str) -> (r: bool)
    ensures
        r == regex_is_match(re.pattern(), text@),
{
    re.regex.is_match(text)
}

// ---------------------------------------------------------------------------
// Building the regex predicates of a query
// ---------------------------------------------------------------------------

/// A `#match?` predicate: within matches of pattern `pattern_index`, the
/// text of capture `capture_index` must match `regex`.
pub struct RegexPredicate {
    /// Index of the pattern the predicate belongs to.
    pub pattern_index: usize,
    /// Index of the capture whose text is tested.
    pub capture_index: u32,
    /// The compiled regex.
    pub regex: CompiledRegex,
}

/// A predicate as plain values: pattern index, capture index, regex source.
pub open spec fn predicate_view(p: RegexPredicate) -> (int, int, Seq<char>) {
    (p.pattern_index as int, p.capture_index as int, p.regex.pattern())
}

/// The views of a sequence of strings.
pub open spec fn views(v: Seq<String>) -> Seq<Seq<char>> {
    Seq::new(v.len(), |i: int| v[i]@)
}

/// The first position of `name` in `names`.
pub open spec fn first_position(names: Seq<Seq<char>>, name: Seq<char>) -> Option<int>
    decreases names.len(),
{
    if names.len() == 0 {
        None
    } else {
        match first_position(names.drop_last(), name) {
            Some(k) => Some(k),
            None => if names.last() == name {
                Some(names.len() - 1)
            } else {
                None
            },
        }
    }
}

/// The predicates of pattern `k`, each tagged with `k`.
pub open spec fn tagged_predicates(sources: Seq<Seq<char>>, k: int) -> Seq<(int, Seq<char>, Seq<char>)> {
    let ps = match_predicates(sources[k]);
    Seq::new(ps.len(), |i: int| (k, ps[i].0, ps[i].1))
}

/// The predicates of the patterns from `k` on, in order.
pub open spec fn predicates_from(sources: Seq<Seq<char>>, k: int) -> Seq<(int, Seq<char>, Seq<char>)>
    decreases sources.len() - k,
{
    if k < 0 || k >= sources.len() {
        Seq::empty()
    } else {
        tagged_predicates(sources, k) + predicates_from(sources, k + 1)
    }
}

/// The message of a predicate whose regex does not compile.
pub open spec fn invalid_regex_message(source: Seq<char>, error: Seq<char>) -> Seq<char> {
    "invalid regex in #match? predicate '"@ + source + "': "@ + error
}

/// Compiles the found predicates in order onto `acc`: a predicate whose
/// capture the query does not have is skipped; the first whose regex does
/// not compile ends everything with its message.
pub open spec fn fold_predicates(
    items: Seq<(int, Seq<char>, Seq<char>)>,
    names: Seq<Seq<char>>,
    acc: Seq<(int, int, Seq<char>)>,
) -> Result<Seq<(int, int, Seq<char>)>, Seq<char>>
    decreases items.len(),
{
    if items.len() == 0 {
        Ok(acc)
    } else {
        let it = items[0];
        match first_position(names, it.1) {
            None => fold_predicates(items.drop_first(), names, acc),
            Some(ci) => match regex_compile_error(it.2) {
                Some(e) => Err(invalid_regex_message(it.2, e)),
                None => fold_predicates(items.drop_first(), names, acc.push((it.0, ci, it.2))),
            },
        }
    }
}

/// The regex predicates of a query whose patterns have the sources
/// `sources` and whose captures are `names`.
pub open spec fn spec_regex_predicates(sources: Seq<Seq<char>>, names: Seq<Seq<char>>) -> Result<Seq<(int, int, Seq<char>)>, Seq<char>> {
    fold_predicates(predicates_from(sources, 0), names, Seq::empty())
}

fn position_of_name(names: &[String], name: &str) -> (r: Option<usize>)
    ensures
        r is None <==> first_position(views(names@), name@) is None,
        r matches Some(k) ==> first_position(views(names@), name@) == Some(k as int) && k
            < names@.len(),
{
    let mut k: usize = 0;
    while k < names.len()
        invariant
            k <= names@.len(),
            first_position(views(names@).take(k as int), name@) is None,
        decreases names@.len() - k,
    {
        let ghost pre = views(names@).take(k as int + 1);
        assert(pre.drop_last() =~= views(names@).take(k as int));
        if str_eq(names[k].as_str(), name) {
            proof {
                lemma_first_position_prefix(views(names@), name@, k as int + 1);
            }
            return Some(k);
        }
        k = k + 1;
    }
    assert(views(names@).take(names@.len() as int) =~= views(names@));
    None
}

/// A first position found in a prefix is the first position in the whole.
pub proof fn lemma_first_position_prefix(names: Seq<Seq<char>>, name: Seq<char>, n: int)
    requires
        0 <= n <= names.len(),
        first_position(names.take(n), name) is Some,
    ensures
        first_position(names, name) == first_position(names.take(n), name),
    decreases names.len() - n,
{
    if n < names.len() {
        let bigger = names.take(n + 1);
        assert(bigger.drop_last() =~= names.take(n));
        lemma_first_position_prefix(names, name, n + 1);
    } else {
        assert(names.take(n) =~= names);
    }
}

/// Compiles the `#match?` predicates of a query: `pattern_sources[k]` is the
/// source text of pattern `k`, `capture_names` the query's captures in index
/// order. Predicates on a capture the query lacks are skipped; a regex that
/// does not compile fails the whole query.
pub fn build_regex_predicates(pattern_sources: &[String], capture_names: &[String]) -> (r: Result<Vec<RegexPredicate>, AppError>)
    requires
        patterns_scannable(views(pattern_sources@)),
        capture_names@.len() <= u32::MAX,
    ensures
        match spec_regex_predicates(views(pattern_sources@), views(capture_names@)) {
            Ok(ps) => r matches Ok(v) && v@.len() == ps.len() && forall|i: int| #![auto] 0 <= i < ps.len() ==> predicate_view(v@[i]) == ps[i],
            Err(m) => r matches Err(AppError::QueryCompileError(e)) && e@ == m,
        },
{
    let ghost srcs = views(pattern_sources@);
    let ghost names = views(capture_names@);
    let mut out: Vec<RegexPredicate> = Vec::new();
    let ghost mut acc: Seq<(int, int, Seq<char>)> = Seq::empty();
    let mut k: usize = 0;
    while k < pattern_sources.len()
        invariant
            k <= pattern_sources@.len(),
            srcs == views(pattern_sources@),
            names == views(capture_names@),
            capture_names@.len() <= u32::MAX,
            out@.len() == acc.len(),
            forall|i: int| #![auto] 0 <= i < acc.len() ==> predicate_view(out@[i]) == acc[i],
            spec_regex_predicates(srcs, names) == fold_predicates(predicates_from(srcs, k as int), names, acc),
        decreases pattern_sources@.len() - k,
    {
        let found = scan_match_predicates(pattern_sources[k].as_str());
        let ghost tagged = tagged_predicates(srcs, k as int);
        assert(srcs[k as int] == pattern_sources@[k as int]@);
        assert(predicates_from(srcs, k as int) == tagged + predicates_from(srcs, k as int + 1));
        let mut j: usize = 0;
        assert(tagged.skip(0) =~= tagged);
        while j < found.len()
            invariant
                j <= found@.len(),
                k < pattern_sources@.len(),
                srcs == views(pattern_sources@),
                names == views(capture_names@),
                capture_names@.len() <= u32::MAX,
                tagged == tagged_predicates(srcs, k as int),
                found@.len() == tagged.len(),
                forall|i: int| #![auto] 0 <= i < found@.len() ==> tagged[i] == (k as int, found@[i].0@, found@[i].1@),
                out@.len() == acc.len(),
                forall|i: int| #![auto] 0 <= i < acc.len() ==> predicate_view(out@[i]) == acc[i],
                spec_regex_predicates(srcs, names) == fold_predicates(tagged.skip(j as int) + predicates_from(srcs, k as int + 1), names, acc),
            decreases found@.len() - j,
        {
            let ghost items = tagged.skip(j as int) + predicates_from(srcs, k as int + 1);
            assert(items[0] == tagged[j as int]);
            assert(items.drop_first() =~= tagged.skip(j as int + 1) + predicates_from(srcs, k as int + 1));
            let name = &found[j].0;
            let source = &found[j].1;
            match position_of_name(capture_names, name.as_str()) {
                None => {},
                Some(ci) => {
                    match compile_regex(source.as_str()) {
                        Err(message) => {
                            let mut text = String::new();
                            push_str(&mut text, "invalid regex in #match? predicate '");
                            push_str(&mut text, source.as_str());
                            push_str(&mut text, "': ");
                            push_str(&mut text, message.as_str());
                            assert(text@ =~= invalid_regex_message(source@, message@));
                            return Err(AppError::QueryCompileError(text));
                        },
                        Ok(regex) => {
                            let ghost old_out = out@;
                            out.push(RegexPredicate { pattern_index: k, capture_index: ci as u32, regex });
                            proof {
                                acc = acc.push((k as int, ci as int, source@));
                                assert forall|i: int| #![auto] 0 <= i < acc.len() implies predicate_view(out@[i]) == acc[i] by {
                                    if i < old_out.len() {
                                        assert(out@[i] == old_out[i]);
                                    }
                                }
                            }
                        },
                    }
                },
            }
            j = j + 1;
        }
        assert(tagged.skip(j as int) + predicates_from(srcs, k as int + 1) =~= predicates_from(srcs, k as int + 1));
        k = k + 1;
    }
    assert(predicates_from(srcs, k as int) =~= Seq::<(int, Seq<char>, Seq<char>)>::empty());
    Ok(out)
}


// ---------------------------------------------------------------------------
// Node kinds named by a query
// ---------------------------------------------------------------------------

/// Whether `needle` occurs somewhere in `hay`.
pub open spec fn contains_sub(hay: Seq<char>, needle: Seq<char>) -> bool {
    exists|i: int| occurs_at(hay, needle, i)
}

/// Node kind ids are 16-bit: only the first 65535 kinds of a language are
/// considered.
pub open spec fn kind_id_limit(count: int) -> int {
    if count <= 65535 {
        count
    } else {
        65535
    }
}

/// Whether kind `id` is one a query with source `src` names: its name (in
/// `kind_names`, indexed by id) is not empty and occurs in the source.
pub open spec fn kind_selected(kind_names: Seq<Seq<char>>, src: Seq<char>, id: int) -> bool {
    0 <= id < kind_id_limit(kind_names.len() as int) && kind_names[id].len() > 0 && contains_sub(
        src,
        kind_names[id],
    )
}

fn occurs_at_exec(hay: &Vec<char>, needle: &Vec<char>, i: usize) -> (r: bool)
    ensures
        r == occurs_at(hay@, needle@, i as int),
{
    if i > hay.len() || needle.len() > hay.len() - i {
        return false;
    }
    let hl = hay.len();
    let mut k: usize = 0;
    while k < needle.len()
        invariant
            hl == hay@.len(),
            i + needle@.len() <= hay@.len(),
            k <= needle@.len(),
            forall|j: int| 0 <= j < k ==> hay@[i + j] == needle@[j],
        decreases needle@.len() - k,
    {
        if hay[i + k] != needle[k] {
            assert(hay@.subrange(i as int, i + needle@.len())[k as int] != needle@[k as int]);
            return false;
        }
        k = k + 1;
    }
    assert(hay@.subrange(i as int, i + needle@.len()) =~= needle@);
    true
}

fn contains_chars(hay: &Vec<char>, needle: &Vec<char>) -> (r: bool)
    ensures
        r == contains_sub(hay@, needle@),
{
    if needle.len() > hay.len() {
        assert(forall|i: int| !occurs_at(hay@, needle@, i));
        return false;
    }
    let last = hay.len() - needle.len();
    let mut i: usize = 0;
    while i <= last
        invariant_except_break
            last == hay@.len() - needle@.len(),
            i <= last,
            forall|j: int| 0 <= j < i ==> !occurs_at(hay@, needle@, j),
        ensures
            forall|j: int| 0 <= j <= last ==> !occurs_at(hay@, needle@, j),
        decreases last + 1 - i,
    {
        if occurs_at_exec(hay, needle, i) {
            return true;
        }
        if i == last {
            break;
        }
        i = i + 1;
    }
    assert forall|j: int| !occurs_at(hay@, needle@, j) by {
        if j > last {
            assert(j + needle@.len() > hay@.len());
        }
    }
    false
}

/// The ids of the node kinds that a query with source `query_source` names,
/// in increasing order: those whose name (`kind_names[id]`) is not empty and
/// occurs in the source. Only ids below 65535 are considered.
pub fn build_kind_ids(kind_names: &[String], query_source: &str) -> (r: Vec<u16>)
    ensures
        forall|j: int| 0 <= j < r@.len() ==> kind_selected(views(kind_names@), query_source@, #[trigger] r@[j] as int),
        forall|id: int| kind_selected(views(kind_names@), query_source@, id) ==> exists|j: int| 0 <= j < r@.len() && #[trigger] r@[j] as int == id,
        forall|a: int, b: int| 0 <= a < b < r@.len() ==> r@[a] < r@[b],
{
    let src = chars_of(query_source);
    let limit: usize = if kind_names.len() <= 65535 {
        kind_names.len()
    } else {
        65535
    };
    let mut out: Vec<u16> = Vec::new();
    let mut id: usize = 0;
    while id < limit
        invariant
            src@ == query_source@,
            limit == kind_id_limit(kind_names@.len() as int),
            limit <= kind_names@.len(),
            limit <= 65535,
            id <= limit,
            forall|j: int| 0 <= j < out@.len() ==> kind_selected(views(kind_names@), query_source@, #[trigger] out@[j] as int),
            forall|j: int| 0 <= j < out@.len() ==> #[trigger] out@[j] < id,
            forall|x: int| 0 <= x < id && kind_selected(views(kind_names@), query_source@, x) ==> exists|j: int| 0 <= j < out@.len() && #[trigger] out@[j] as int == x,
            forall|a: int, b: int| 0 <= a < b < out@.len() ==> out@[a] < out@[b],
        decreases limit - id,
    {
        let name = chars_of(kind_names[id].as_str());
        assert(views(kind_names@)[id as int] == kind_names@[id as int]@);
        let ghost old_out = out@;
        if name.len() > 0 && contains_chars(&src, &name) {
            out.push(id as u16);
            assert(out@[old_out.len() as int] == id as u16);
            assert forall|x: int| 0 <= x < id + 1 && kind_selected(views(kind_names@), query_source@, x) implies exists|j: int| 0 <= j < out@.len() && #[trigger] out@[j] as int == x by {
                if x < id {
                    let j = choose|j: int| 0 <= j < old_out.len() && #[trigger] old_out[j] as int == x;
                    assert(out@[j] == old_out[j]);
                } else {
                    assert(out@[old_out.len() as int] as int == x);
                }
            }
        } else {
            assert forall|x: int| 0 <= x < id + 1 && kind_selected(views(kind_names@), query_source@, x) implies exists|j: int| 0 <= j < out@.len() && #[trigger] out@[j] as int == x by {
                if x == id {
                    assert(!kind_selected(views(kind_names@), query_source@, x));
                }
            }
        }
        id = id + 1;
    }
    out
}

// ---------------------------------------------------------------------------
// Compiled queries and the selection of results
// ---------------------------------------------------------------------------

/// What a query needs at search time, beside the query engine's own object:
/// its capture names in index order, the node kinds it names, and its regex
/// predicates.
pub struct CompiledQuery {
    /// Capture names, indexed by capture index.
    pub capture_names: Vec<String>,
    /// Ids of the node kinds the query names, increasing.
    pub kind_ids: Vec<u16>,
    /// The `#match?` predicates of the query.
    pub regex_predicates: Vec<RegexPredicate>,
}

/// The predicates of a compiled query as plain values.
pub open spec fn predicates_view(q: CompiledQuery) -> Seq<(int, int, Seq<char>)> {
    Seq::new(q.regex_predicates@.len(), |i: int| predicate_view(q.regex_predicates@[i]))
}

/// Compiles what a search needs of a query whose source is `query_source`:
/// `pattern_sources` are the source texts of its patterns, `capture_names`
/// its captures in index order, `kind_names` the node kind names of its
/// language indexed by kind id. Fails when a `#match?` regex does not
/// compile. The predicate scan must only resume after single-byte
/// characters (`patterns_scan_ok` tells).
pub fn compile_query(
    query_source: &str,
    pattern_sources: &[String],
    capture_names: Vec<String>,
    kind_names: &[String],
) -> (r: Result<CompiledQuery, AppError>)
    requires
        capture_names@.len() <= u32::MAX,
        patterns_scannable(views(pattern_sources@)),
    ensures
        match spec_regex_predicates(views(pattern_sources@), views(capture_names@)) {
            Ok(ps) => r matches Ok(q) && predicates_view(q) == ps && views(q.capture_names@) == views(capture_names@)
                && (forall|id: int| kind_selected(views(kind_names@), query_source@, id) <==> q.kind_ids@.map_values(|x: u16| x as int).contains(id))
                && (forall|a: int, b: int| 0 <= a < b < q.kind_ids@.len() ==> q.kind_ids@[a] < q.kind_ids@[b]),
            Err(m) => r matches Err(AppError::QueryCompileError(e)) && e@ == m,
        },
{
    let kind_ids = build_kind_ids(kind_names, query_source);
    let preds = build_regex_predicates(pattern_sources, capture_names.as_slice());
    match preds {
        Err(e) => Err(e),
        Ok(regex_predicates) => {
            let q = CompiledQuery { capture_names, kind_ids, regex_predicates };
            proof {
                let ps = spec_regex_predicates(views(pattern_sources@), views(capture_names@))->Ok_0;
                assert(predicates_view(q) =~= ps);
                let m = q.kind_ids@.map_values(|x: u16| x as int);
                assert forall|id: int| kind_selected(views(kind_names@), query_source@, id) <==> m.contains(id) by {
                    if kind_selected(views(kind_names@), query_source@, id) {
                        let j = choose|j: int| 0 <= j < q.kind_ids@.len() && #[trigger] q.kind_ids@[j] as int == id;
                        assert(m[j] == id);
                    }
                    if m.contains(id) {
                        let j = choose|j: int| 0 <= j < m.len() && m[j] == id;
                        assert(q.kind_ids@[j] as int == id);
                    }
                }
            }
            Ok(q)
        },
    }
}


/// One capture of a query match, as plain values: which capture it is, the
/// node's kind (id, name, whether it is named), its byte range and its start
/// and end positions (rows and columns 0-based).
#[derive(Debug, Clone)]
pub struct CaptureRecord {
    /// Index of the capture in the query.
    pub capture_index: u32,
    /// Kind id of the captured node.
    pub kind_id: u16,
    /// Whether the captured node is a named node.
    pub is_named: bool,
    /// Kind name of the captured node.
    pub kind: String,
    /// Byte offset where the node starts.
    pub start_byte: usize,
    /// Byte offset where the node ends.
    pub end_byte: usize,
    /// Row where the node starts.
    pub start_row: usize,
    /// Column where the node starts.
    pub start_col: usize,
    /// Row where the node ends.
    pub end_row: usize,
    /// Column where the node ends.
    pub end_col: usize,
}

/// One match of a query: the pattern that matched and its captures.
#[derive(Debug, Clone)]
pub struct MatchRecord {
    /// Index of the pattern that matched.
    pub pattern_index: usize,
    /// The captures of the match, in order.
    pub captures: Vec<CaptureRecord>,
}

/// The text of the source between two byte offsets, when they delimit whole
/// characters of it.
pub open spec fn source_text(src: Seq<u8>, a: int, b: int) -> Option<Seq<char>> {
    if 0 <= a <= b <= src.len() && valid_utf8(src.subrange(a, b)) {
        Some(decode_utf8(src.subrange(a, b)))
    } else {
        None
    }
}

/// The first capture with index `idx`.
pub open spec fn first_capture_with(caps: Seq<CaptureRecord>, idx: int) -> Option<CaptureRecord>
    decreases caps.len(),
{
    if caps.len() == 0 {
        None
    } else {
        match first_capture_with(caps.drop_last(), idx) {
            Some(c) => Some(c),
            None => if caps.last().capture_index == idx {
                Some(caps.last())
            } else {
                None
            },
        }
    }
}

/// Whether a predicate holds of a match: the first capture it tests exists,
/// its text can be read, and the regex matches it.
pub open spec fn predicate_holds(p: (int, int, Seq<char>), caps: Seq<CaptureRecord>, src: Seq<u8>) -> bool {
    match first_capture_with(caps, p.1) {
        None => false,
        Some(c) => match source_text(src, c.start_byte as int, c.end_byte as int) {
            None => false,
            Some(t) => regex_is_match(p.2, t),
        },
    }
}

/// Whether every predicate of the match's pattern holds.
pub open spec fn match_passes(pattern: int, caps: Seq<CaptureRecord>, preds: Seq<(int, int, Seq<char>)>, src: Seq<u8>) -> bool {
    forall|i: int| 0 <= i < preds.len() && (#[trigger] preds[i]).0 == pattern ==> predicate_holds(preds[i], caps, src)
}

/// Whether some capture's node kind is one the query names.
pub open spec fn kind_hit(caps: Seq<CaptureRecord>, ids: Seq<u16>) -> bool {
    exists|i: int| 0 <= i < caps.len() && ids.contains(#[trigger] caps[i].kind_id)
}

/// The name a capture is reported under: the query's capture name, with the
/// node kind in brackets after it when the node is anonymous.
pub open spec fn spec_capture_name(base: Seq<char>, is_named: bool, kind: Seq<char>) -> Seq<char> {
    if is_named {
        base
    } else {
        base + "["@ + kind + "]"@
    }
}

/// A result as plain values: file path, capture name, matched text, start
/// line, start column, end line, end column, start byte, end byte.
pub open spec fn result_view(r: MatchResult) -> (Seq<char>, Seq<char>, Seq<char>, int, int, int, int, int, int) {
    (
        r.file_path@,
        r.capture_name@,
        r.matched_text@,
        r.start_line as int,
        r.start_col as int,
        r.end_line as int,
        r.end_col as int,
        r.start_byte as int,
        r.end_byte as int,
    )
}

/// The views of a sequence of results.
pub open spec fn results_view(rs: Seq<MatchResult>) -> Seq<(Seq<char>, Seq<char>, Seq<char>, int, int, int, int, int, int)> {
    Seq::new(rs.len(), |i: int| result_view(rs[i]))
}

/// The results of the captures of a match that passed: one per capture whose
/// text can be read, lines 1-based.
pub open spec fn capture_results(caps: Seq<CaptureRecord>, names: Seq<Seq<char>>, src: Seq<u8>, path: Seq<char>) -> Seq<(Seq<char>, Seq<char>, Seq<char>, int, int, int, int, int, int)>
    decreases caps.len(),
{
    if caps.len() == 0 {
        Seq::empty()
    } else {
        let prev = capture_results(caps.drop_last(), names, src, path);
        let c = caps.last();
        match source_text(src, c.start_byte as int, c.end_byte as int) {
            None => prev,
            Some(t) => prev.push(
                (
                    path,
                    spec_capture_name(names[c.capture_index as int], c.is_named, c.kind@),
                    t,
                    c.start_row + 1,
                    c.start_col as int,
                    c.end_row + 1,
                    c.end_col as int,
                    c.start_byte as int,
                    c.end_byte as int,
                ),
            ),
        }
    }
}

/// The results a match contributes: none unless one of its captures has a
/// kind the query names and every regex predicate of its pattern holds.
pub open spec fn match_contribution(m: MatchRecord, q: CompiledQuery, src: Seq<u8>, path: Seq<char>) -> Seq<(Seq<char>, Seq<char>, Seq<char>, int, int, int, int, int, int)> {
    if kind_hit(m.captures@, q.kind_ids@) && match_passes(m.pattern_index as int, m.captures@, predicates_view(q), src) {
        capture_results(m.captures@, views(q.capture_names@), src, path)
    } else {
        Seq::empty()
    }
}

/// The results of a sequence of matches, in order.
pub open spec fn spec_extract(ms: Seq<MatchRecord>, q: CompiledQuery, src: Seq<u8>, path: Seq<char>) -> Seq<(Seq<char>, Seq<char>, Seq<char>, int, int, int, int, int, int)>
    decreases ms.len(),
{
    if ms.len() == 0 {
        Seq::empty()
    } else {
        spec_extract(ms.drop_last(), q, src, path) + match_contribution(ms.last(), q, src, path)
    }
}

/// Whether the captures of the matches refer to captures the query has and
/// their rows can be made 1-based.
pub open spec fn records_fit(ms: Seq<MatchRecord>, q: CompiledQuery) -> bool {
    forall|i: int, j: int| 0 <= i < ms.len() && 0 <= j < ms[i].captures@.len() ==> {
        let c = #[trigger] ms[i].captures@[j];
        &&& (c.capture_index as int) < q.capture_names@.len()
        &&& c.start_row < usize::MAX
        &&& c.end_row < usize::MAX
    }
}

/// The name a capture is reported under: `base`, followed by the node kind
/// in brackets when the node is anonymous.
pub fn format_capture_name(base: &str, is_named: bool, kind: &str) -> (r: String)
    ensures
        r@ == spec_capture_name(base@, is_named, kind@),
{
    let mut out = String::new();
    push_str(&mut out, base);
    if !is_named {
        push_str(&mut out, "[");
        push_str(&mut out, kind);
        push_str(&mut out, "]");
    }
    assert(out@ =~= spec_capture_name(base@, is_named, kind@));
    out
}

/// The text between byte offsets `a` and `b` of `src`, when they delimit
/// whole characters.
pub fn text_between(src: &[u8], a: usize, b: usize) -> (r: Option<String>)
    ensures
        r is Some <==> source_text(src@, a as int, b as int) is Some,
        r matches Some(t) ==> source_text(src@, a as int, b as int) == Some(t@),
{
    if a > b || b > src.len() {
        return None;
    }
    let mut bytes: Vec<u8> = Vec::new();
    let mut k = a;
    while k < b
        invariant
            a <= k <= b <= src@.len(),
            bytes@ == src@.subrange(a as int, k as int),
        decreases b - k,
    {
        bytes.push(src[k]);
        assert(src@.subrange(a as int, k + 1) =~= src@.subrange(a as int, k as int).push(src@[k as int]));
        k = k + 1;
    }
    string_from_utf8(bytes)
}

fn kind_hit_exec(caps: &Vec<CaptureRecord>, ids: &Vec<u16>) -> (r: bool)
    ensures
        r == kind_hit(caps@, ids@),
{
    let mut i: usize = 0;
    while i < caps.len()
        invariant
            i <= caps@.len(),
            forall|x: int| 0 <= x < i ==> !ids@.contains(#[trigger] caps@[x].kind_id),
        decreases caps@.len() - i,
    {
        let kid = caps[i].kind_id;
        let mut j: usize = 0;
        while j < ids.len()
            invariant
                j <= ids@.len(),
                i < caps@.len(),
                kid == caps@[i as int].kind_id,
                forall|y: int| 0 <= y < j ==> ids@[y] != kid,
            decreases ids@.len() - j,
        {
            if ids[j] == kid {
                assert(ids@[j as int] == kid);
                assert(ids@.contains(caps@[i as int].kind_id));
                return true;
            }
            j = j + 1;
        }
        i = i + 1;
    }
    false
}

fn first_capture_pos(caps: &Vec<CaptureRecord>, idx: u32) -> (r: Option<usize>)
    ensures
        r is None <==> first_capture_with(caps@, idx as int) is None,
        r matches Some(k) ==> k < caps@.len() && first_capture_with(caps@, idx as int) == Some(caps@[k as int]),
{
    let mut k: usize = 0;
    while k < caps.len()
        invariant
            k <= caps@.len(),
            first_capture_with(caps@.take(k as int), idx as int) is None,
        decreases caps@.len() - k,
    {
        assert(caps@.take(k as int + 1).drop_last() =~= caps@.take(k as int));
        if caps[k].capture_index == idx {
            proof {
                lemma_first_capture_prefix(caps@, idx as int, k as int + 1);
            }
            return Some(k);
        }
        k = k + 1;
    }
    assert(caps@.take(caps@.len() as int) =~= caps@);
    None
}

/// A capture found in a prefix is the first one in the whole.
pub proof fn lemma_first_capture_prefix(caps: Seq<CaptureRecord>, idx: int, n: int)
    requires
        0 <= n <= caps.len(),
        first_capture_with(caps.take(n), idx) is Some,
    ensures
        first_capture_with(caps, idx) == first_capture_with(caps.take(n), idx),
    decreases caps.len() - n,
{
    if n < caps.len() {
        assert(caps.take(n + 1).drop_last() =~= caps.take(n));
        lemma_first_capture_prefix(caps, idx, n + 1);
    } else {
        assert(caps.take(n) =~= caps);
    }
}

fn passes_predicates(m: &MatchRecord, q: &CompiledQuery, src: &[u8], source: &str) -> (r: bool)
    requires
        src@ == source.spec_bytes(),
    ensures
        r == match_passes(m.pattern_index as int, m.captures@, predicates_view(*q), src@),
{
    let preds = &q.regex_predicates;
    let mut i: usize = 0;
    assert(predicates_view(*q).len() == preds@.len());
    while i < preds.len()
        invariant
            i <= preds@.len(),
            preds@ == q.regex_predicates@,
            src@ == source.spec_bytes(),
            predicates_view(*q).len() == preds@.len(),
            forall|x: int| 0 <= x < i && (#[trigger] predicates_view(*q)[x]).0 == m.pattern_index ==> predicate_holds(predicates_view(*q)[x], m.captures@, src@),
        decreases preds@.len() - i,
    {
        let p = &preds[i];
        assert(predicates_view(*q)[i as int] == predicate_view(*p));
        if p.pattern_index == m.pattern_index {
            let holds = match first_capture_pos(&m.captures, p.capture_index) {
                None => false,
                Some(k) => {
                    let c = &m.captures[k];
                    match text_between(src, c.start_byte, c.end_byte) {
                        None => false,
                        Some(t) => regex_matches(&p.regex, t.as_str()),
                    }
                },
            };
            if !holds {
                return false;
            }
        }
        i = i + 1;
    }
    true
}

/// The results of running a compiled query over one file: `matches` are the
/// query engine's matches on the file at `file_path`, whose content is
/// `source`. A match is kept when one of its captures has a node kind the
/// query names and all of its pattern's regex predicates hold; each capture
/// of a kept match whose text can be read becomes one result.
pub fn extract_matches(matches: &[MatchRecord], source: &str, compiled: &CompiledQuery, file_path: &str) -> (r: Vec<MatchResult>)
    requires
        records_fit(matches@, *compiled),
    ensures
        results_view(r@) == spec_extract(matches@, *compiled, source.spec_bytes(), file_path@),
{
    let src = source.as_bytes();
    let mut out: Vec<MatchResult> = Vec::new();
    let mut i: usize = 0;
    while i < matches.len()
        invariant
            i <= matches@.len(),
            src@ == source.spec_bytes(),
            records_fit(matches@, *compiled),
            results_view(out@) == spec_extract(matches@.take(i as int), *compiled, src@, file_path@),
        decreases matches@.len() - i,
    {
        let m = &matches[i];
        assert(matches@.take(i as int + 1).drop_last() =~= matches@.take(i as int));
        assert(matches@.take(i as int + 1).last() == matches@[i as int]);
        let keep = kind_hit_exec(&m.captures, &compiled.kind_ids) && passes_predicates(m, compiled, src, source);
        if keep {
            let caps = &m.captures;
            let ghost base = results_view(out@);
            let mut j: usize = 0;
            while j < caps.len()
                invariant
                    j <= caps@.len(),
                    i < matches@.len(),
                    m == matches@[i as int],
                    caps@ == m.captures@,
                    src@ == source.spec_bytes(),
                    records_fit(matches@, *compiled),
                    results_view(out@) == base + capture_results(caps@.take(j as int), views(compiled.capture_names@), src@, file_path@),
                decreases caps@.len() - j,
            {
                let c = &caps[j];
                assert(caps@.take(j as int + 1).drop_last() =~= caps@.take(j as int));
                assert(caps@.take(j as int + 1).last() == caps@[j as int]);
                assert((c.capture_index as int) < compiled.capture_names@.len() && c.start_row < usize::MAX && c.end_row < usize::MAX) by {
                    assert(matches@[i as int].captures@[j as int] == c);
                }
                match text_between(src, c.start_byte, c.end_byte) {
                    None => {
                        assert(results_view(out@) =~= base + capture_results(caps@.take(j as int + 1), views(compiled.capture_names@), src@, file_path@));
                    },
                    Some(text) => {
                        let base_name = &compiled.capture_names[c.capture_index as usize];
                        assert(views(compiled.capture_names@)[c.capture_index as int] == base_name@);
                        let name = format_capture_name(base_name.as_str(), c.is_named, c.kind.as_str());
                        let mut path = String::new();
                        push_str(&mut path, file_path);
                        assert(path@ =~= file_path@);
                        let ghost prev = out@;
                        out.push(MatchResult {
                            file_path: path,
                            start_line: c.start_row + 1,
                            start_col: c.start_col,
                            end_line: c.end_row + 1,
                            end_col: c.end_col,
                            start_byte: c.start_byte,
                            end_byte: c.end_byte,
                            capture_name: name,
                            matched_text: text,
                        });
                        assert(results_view(out@) =~= results_view(prev).push(result_view(out@[prev.len() as int])));
                        assert(results_view(out@) =~= base + capture_results(caps@.take(j as int + 1), views(compiled.capture_names@), src@, file_path@));
                    },
                }
                j = j + 1;
            }
            assert(caps@.take(caps@.len() as int) =~= caps@);
        } else {
            assert(results_view(out@) =~= spec_extract(matches@.take(i as int), *compiled, src@, file_path@) + Seq::empty());
        }
        i = i + 1;
    }
    assert(matches@.take(matches@.len() as int) =~= matches@);
    out
}


/// The first capture with index `idx`, when there is one, is at a position
/// `j` with that index and none before it with that index.
proof fn lemma_first_capture_is_first(caps: Seq<CaptureRecord>, idx: int)
    ensures
        first_capture_with(caps, idx) matches Some(c) ==> exists|j: int|
            0 <= j < caps.len() && caps[j] == c && caps[j].capture_index == idx && forall|k: int|
                0 <= k < j ==> #[trigger] caps[k].capture_index != idx,
    decreases caps.len(),
{
    if caps.len() > 0 {
        let init = caps.drop_last();
        lemma_first_capture_is_first(init, idx);
        match first_capture_with(init, idx) {
            Some(c) => {
                let j = choose|j: int|
                    0 <= j < init.len() && init[j] == c && init[j].capture_index == idx && forall|k: int|
                        0 <= k < j ==> #[trigger] init[k].capture_index != idx;
                assert(caps[j] == c);
                assert forall|k: int| 0 <= k < j implies #[trigger] caps[k].capture_index != idx by {
                    assert(caps[k] == init[k]);
                }
            },
            None => {
                if caps.last().capture_index == idx {
                    lemma_none_means_absent(init, idx);
                    let j = caps.len() - 1;
                    assert forall|k: int| 0 <= k < j implies #[trigger] caps[k].capture_index != idx by {
                        assert(caps[k] == init[k]);
                    }
                }
            },
        }
    }
}

/// With no first capture of index `idx`, no capture has that index.
proof fn lemma_none_means_absent(caps: Seq<CaptureRecord>, idx: int)
    requires
        first_capture_with(caps, idx) is None,
    ensures
        forall|k: int| 0 <= k < caps.len() ==> #[trigger] caps[k].capture_index != idx,
    decreases caps.len(),
{
    if caps.len() > 0 {
        let init = caps.drop_last();
        lemma_none_means_absent(init, idx);
        assert forall|k: int| 0 <= k < caps.len() implies #[trigger] caps[k].capture_index != idx by {
            if k < init.len() {
                assert(caps[k] == init[k]);
            }
        }
    }
}

/// Every `#match?` predicate of a match's pattern must hold for the match to
/// give results. If one of them, tested on the first capture of the index it
/// names, fails (that capture is missing, its text cannot be read, or the
/// regex does not match the text), the match adds nothing to the results,
/// whatever the other predicates say.
pub proof fn law_failed_regex_predicate_drops_match(
    ms: Seq<MatchRecord>,
    m: MatchRecord,
    q: CompiledQuery,
    src: Seq<u8>,
    path: Seq<char>,
    i: int,
)
    requires
        0 <= i < predicates_view(q).len(),
        predicates_view(q)[i].0 == m.pattern_index,
        forall|j: int|
            0 <= j < m.captures@.len() && m.captures@[j].capture_index == predicates_view(q)[i].1 && (forall|k: int|
                0 <= k < j ==> m.captures@[k].capture_index != predicates_view(q)[i].1) ==> match source_text(
                src,
                m.captures@[j].start_byte as int,
                m.captures@[j].end_byte as int,
            ) {
                None => true,
                Some(t) => !regex_is_match(predicates_view(q)[i].2, t),
            },
    ensures
        spec_extract(ms.push(m), q, src, path) == spec_extract(ms, q, src, path),
{
    let caps = m.captures@;
    let p = predicates_view(q)[i];
    lemma_first_capture_is_first(caps, p.1);
    match first_capture_with(caps, p.1) {
        Some(c) => {
            let j = choose|j: int|
                0 <= j < caps.len() && caps[j] == c && caps[j].capture_index == p.1 && forall|k: int|
                    0 <= k < j ==> #[trigger] caps[k].capture_index != p.1;
            assert(forall|k: int| 0 <= k < j ==> caps[k].capture_index != p.1);
        },
        None => {},
    }
    assert(!predicate_holds(p, caps, src));
    assert(!match_passes(m.pattern_index as int, caps, predicates_view(q), src));
    assert(ms.push(m).drop_last() =~= ms);
    assert(spec_extract(ms.push(m), q, src, path) =~= spec_extract(ms, q, src, path));
}


/// A match whose every `#match?` predicate holds (each tested on the first
/// capture of the index it names, whose text the regex matches), and one of
/// whose captures is of a node kind the query names, adds the results of its
/// captures.
pub proof fn law_passing_match_reports_captures(
    ms: Seq<MatchRecord>,
    m: MatchRecord,
    q: CompiledQuery,
    src: Seq<u8>,
    path: Seq<char>,
)
    requires
        exists|j: int| 0 <= j < m.captures@.len() && q.kind_ids@.contains(#[trigger] m.captures@[j].kind_id),
        forall|i: int|
            0 <= i < predicates_view(q).len() && (#[trigger] predicates_view(q)[i]).0 == m.pattern_index ==> exists|j: int|
                0 <= j < m.captures@.len() && (#[trigger] m.captures@[j]).capture_index == predicates_view(q)[i].1 && (
                forall|k: int| 0 <= k < j ==> m.captures@[k].capture_index != predicates_view(q)[i].1) && source_text(
                    src,
                    m.captures@[j].start_byte as int,
                    m.captures@[j].end_byte as int,
                ) is Some && regex_is_match(
                    predicates_view(q)[i].2,
                    source_text(src, m.captures@[j].start_byte as int, m.captures@[j].end_byte as int)->Some_0,
                ),
    ensures
        spec_extract(ms.push(m), q, src, path) == spec_extract(ms, q, src, path) + capture_results(
            m.captures@,
            views(q.capture_names@),
            src,
            path,
        ),
{
    let caps = m.captures@;
    let preds = predicates_view(q);
    assert forall|i: int| 0 <= i < preds.len() && (#[trigger] preds[i]).0 == m.pattern_index implies predicate_holds(
        preds[i],
        caps,
        src,
    ) by {
        let p = preds[i];
        let j = choose|j: int|
            0 <= j < caps.len() && (#[trigger] caps[j]).capture_index == p.1 && (forall|k: int|
                0 <= k < j ==> caps[k].capture_index != p.1) && source_text(
                src,
                caps[j].start_byte as int,
                caps[j].end_byte as int,
            ) is Some && regex_is_match(p.2, source_text(src, caps[j].start_byte as int, caps[j].end_byte as int)->Some_0);
        lemma_first_capture_is_first(caps, p.1);
        match first_capture_with(caps, p.1) {
            Some(c) => {
                let j2 = choose|j2: int|
                    0 <= j2 < caps.len() && caps[j2] == c && caps[j2].capture_index == p.1 && forall|k: int|
                        0 <= k < j2 ==> #[trigger] caps[k].capture_index != p.1;
                if j2 < j {
                    assert(caps[j2].capture_index != p.1);
                } else if j < j2 {
                    assert(caps[j].capture_index != p.1);
                }
            },
            None => {
                lemma_none_means_absent(caps, p.1);
                assert(caps[j].capture_index != p.1);
            },
        }
    }
    let h = choose|j: int| 0 <= j < caps.len() && q.kind_ids@.contains(#[trigger] caps[j].kind_id);
    assert(kind_hit(caps, q.kind_ids@));
    assert(match_passes(m.pattern_index as int, caps, preds, src));
    assert(ms.push(m).drop_last() =~= ms);
}

} // verus!
