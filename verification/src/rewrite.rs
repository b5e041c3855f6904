//! Capture-based rewriting: templates that substitute `@name` tokens, the
//! edits they produce, and applying edits to source text.

use crate::text::{
    append_bytes, chars_of, decimal, push_decimal, push_str, str_eq, string_from_utf8, string_of,
};
use crate::types::MatchResult;
use vstd::prelude::*;
use vstd::string::StringSliceAdditionalSpecFns;
use vstd::utf8::*;

verus! {

/// Capture values by capture name. Inserting a name that is already present
/// replaces its value.
#[derive(Debug, Clone)]
pub struct CaptureMap {
    entries: Vec<(String, String)>,
}

/// The map that a list of insertions builds: later insertions win.
pub open spec fn map_of(entries: Seq<(String, String)>) -> Map<Seq<char>, Seq<char>>
    decreases entries.len(),
{
    if entries.len() == 0 {
        Map::empty()
    } else {
        map_of(entries.drop_last()).insert(entries.last().0@, entries.last().1@)
    }
}

impl View for CaptureMap {
    type V = Map<Seq<char>, Seq<char>>;

    closed spec fn view(&self) -> Map<Seq<char>, Seq<char>> {
        map_of(self.entries@)
    }
}

impl CaptureMap {
    /// An empty map.
    pub fn new() -> (m: Self)
        ensures
            m@ == Map::<Seq<char>, Seq<char>>::empty(),
    {
        CaptureMap { entries: Vec::new() }
    }

    /// Sets the value of `name` to `value`.
    pub fn insert(&mut self, name: &str, value: &str)
        ensures
            final(self)@ == old(self)@.insert(name@, value@),
    {
        let ghost before = self.entries@;
        self.entries.push((name.to_string(), value.to_string()));
        assert(self.entries@.drop_last() =~= before);
    }

    /// The value of the name spelled by `name`, if any.
    pub fn get_chars(&self, name: &[char]) -> (r: Option<&String>)
        ensures
            r is None <==> !self@.dom().contains(name@),
            r matches Some(v) ==> self@.dom().contains(name@) && v@ == self@[name@],
    {
        let key = string_of(name);
        let mut k = self.entries.len();
        assert(self.entries@.take(k as int) =~= self.entries@);
        while k > 0
            invariant
                k <= self.entries@.len(),
                key@ == name@,
                map_of(self.entries@).dom().contains(name@) ==> map_of(self.entries@.take(
                    k as int,
                )).dom().contains(name@) && map_of(self.entries@)[name@] == map_of(
                    self.entries@.take(k as int),
                )[name@],
                !map_of(self.entries@).dom().contains(name@) ==> !map_of(
                    self.entries@.take(k as int),
                ).dom().contains(name@),
                map_of(self.entries@.take(k as int)).dom().contains(name@)
                    ==> map_of(self.entries@).dom().contains(name@),
            decreases k,
        {
            let ghost pre = self.entries@.take(k as int);
            assert(pre.drop_last() =~= self.entries@.take(k as int - 1));
            assert(pre.last() == self.entries@[k as int - 1]);
            if str_eq(self.entries[k - 1].0.as_str(), key.as_str()) {
                return Some(&self.entries[k - 1].1);
            }
            k = k - 1;
        }
        None
    }

    /// The value of `name`, if any.
    pub fn get(&self, name: &str) -> (r: Option<&String>)
        ensures
            r is None <==> !self@.dom().contains(name@),
            r matches Some(v) ==> self@.dom().contains(name@) && v@ == self@[name@],
    {
        let cs = chars_of(name);
        self.get_chars(cs.as_slice())
    }
}

/// Whether `c` may appear in a capture name.
pub open spec fn is_name_char(c: char) -> bool {
    ('a' <= c <= 'z') || ('A' <= c <= 'Z') || ('0' <= c <= '9') || c == '_'
}

/// The end of the run of name characters of `s` that starts at `j`.
pub open spec fn name_end(s: Seq<char>, j: int) -> int
    decreases s.len() - j,
{
    if 0 <= j < s.len() && is_name_char(s[j]) {
        name_end(s, j + 1)
    } else {
        j
    }
}

/// A run of name characters ends between its start and the end of the text.
pub proof fn lemma_name_end_bounds(s: Seq<char>, j: int)
    requires
        0 <= j <= s.len(),
    ensures
        j <= name_end(s, j) <= s.len(),
    decreases s.len() - j,
{
    if j < s.len() && is_name_char(s[j]) {
        lemma_name_end_bounds(s, j + 1);
    }
}

/// The template `s` rendered from position `i` on: each `@` followed by at
/// least one name character starts a token, the whole run of name characters
/// after it; a token whose name has a value in `captures` becomes that value,
/// a token without one stays as written, and every other character is
/// copied.
pub open spec fn render_template(s: Seq<char>, i: int, captures: Map<Seq<char>, Seq<char>>) -> Seq<char>
    decreases s.len() - i,
{
    if i < 0 || i >= s.len() {
        Seq::empty()
    } else if s[i] == '@' && name_end(s, i + 1) > i + 1 {
        proof {
            lemma_name_end_bounds(s, i + 1);
        }
        let name = s.subrange(i + 1, name_end(s, i + 1));
        (if captures.dom().contains(name) {
            captures[name]
        } else {
            seq!['@'] + name
        }) + render_template(s, name_end(s, i + 1), captures)
    } else {
        seq![s[i]] + render_template(s, i + 1, captures)
    }
}

/// The result of applying the template `raw` to `captures`.
pub open spec fn template_result(raw: Seq<char>, captures: Map<Seq<char>, Seq<char>>) -> Seq<char> {
    render_template(raw, 0, captures)
}

/// A template for capture-based rewrites; capture tokens are written `@name`.
#[derive(Clone, Debug)]
pub struct RewriteTemplate {
    /// Raw template text.
    pub raw: String,
}

impl RewriteTemplate {
    /// The template with each whole `@name` token replaced by the value of
    /// `name`; a token whose name has no value stays as written.
    pub fn apply(&self, captures: &CaptureMap) -> (r: String)
        ensures
            r@ == template_result(self.raw@, captures@),
    {
        let raw = chars_of(self.raw.as_str());
        let n = raw.len();
        let mut out: Vec<char> = Vec::new();
        let mut i: usize = 0;
        while i < n
            invariant
                n == raw@.len(),
                i <= n,
                out@ + render_template(raw@, i as int, captures@) == render_template(raw@, 0, captures@),
            decreases n - i,
        {
            let ghost o = out@;
            if raw[i] == '@' {
                let e = find_name_end(raw.as_slice(), i + 1);
                if e > i + 1 {
                    let ghost name = raw@.subrange(i as int + 1, e as int);
                    let name_chars = copy_chars(raw.as_slice(), i + 1, e);
                    match captures.get_chars(name_chars.as_slice()) {
                        Some(value) => {
                            let rep = chars_of(value.as_str());
                            let mut k: usize = 0;
                            while k < rep.len()
                                invariant
                                    k <= rep@.len(),
                                    out@ == o + rep@.take(k as int),
                                decreases rep@.len() - k,
                            {
                                out.push(rep[k]);
                                assert(rep@.take(k as int + 1) =~= rep@.take(k as int).push(rep@[k as int]));
                                k = k + 1;
                            }
                            assert(rep@.take(rep@.len() as int) =~= rep@);
                        },
                        None => {
                            out.push('@');
                            let mut k: usize = 0;
                            while k < name_chars.len()
                                invariant
                                    k <= name_chars@.len(),
                                    out@ == o + seq!['@'] + name_chars@.take(k as int),
                                decreases name_chars@.len() - k,
                            {
                                out.push(name_chars[k]);
                                assert(name_chars@.take(k as int + 1) =~= name_chars@.take(k as int).push(
                                    name_chars@[k as int],
                                ));
                                assert(out@ =~= o + seq!['@'] + name_chars@.take(k as int + 1));
                                k = k + 1;
                            }
                            assert(name_chars@.take(name_chars@.len() as int) =~= name_chars@);
                        },
                    }
                    assert(out@ + render_template(raw@, e as int, captures@) =~= o + render_template(
                        raw@,
                        i as int,
                        captures@,
                    ));
                    i = e;
                    continue;
                }
            }
            out.push(raw[i]);
            assert(out@ + render_template(raw@, i as int + 1, captures@) =~= o + render_template(
                raw@,
                i as int,
                captures@,
            ));
            i = i + 1;
        }
        assert(out@ =~= render_template(raw@, 0, captures@));
        string_of(out.as_slice())
    }
}

fn find_name_end(s: &[char], j: usize) -> (e: usize)
    requires
        j <= s@.len(),
    ensures
        e == name_end(s@, j as int),
        j <= e <= s@.len(),
{
    let mut e = j;
    while e < s.len() && is_name_char_exec(s[e])
        invariant
            j <= e <= s@.len(),
            name_end(s@, e as int) == name_end(s@, j as int),
        decreases s@.len() - e,
    {
        e = e + 1;
    }
    e
}

fn is_name_char_exec(c: char) -> (r: bool)
    ensures
        r == is_name_char(c),
{
    ('a' <= c && c <= 'z') || ('A' <= c && c <= 'Z') || ('0' <= c && c <= '9') || c == '_'
}

fn copy_chars(s: &[char], a: usize, b: usize) -> (r: Vec<char>)
    requires
        a <= b <= s@.len(),
    ensures
        r@ == s@.subrange(a as int, b as int),
{
    let mut out: Vec<char> = Vec::new();
    let mut k = a;
    while k < b
        invariant
            a <= k <= b <= s@.len(),
            out@ == s@.subrange(a as int, k as int),
        decreases b - k,
    {
        out.push(s[k]);
        assert(s@.subrange(a as int, k as int + 1) =~= s@.subrange(a as int, k as int).push(
            s@[k as int],
        ));
        k = k + 1;
    }
    out
}

/// A single edit: replace the bytes `start_byte..end_byte` of a file.
#[derive(Clone, Debug, PartialEq, Eq)]
pub struct RewriteEdit {
    /// Path of the file to be edited.
    pub file_path: String,
    /// Start byte offset (inclusive).
    pub start_byte: usize,
    /// End byte offset (exclusive).
    pub end_byte: usize,
    /// Replacement text.
    pub new_text: String,
}

/// The captures of one match: its capture name bound to its matched text.
pub open spec fn single_capture(r: MatchResult) -> Map<Seq<char>, Seq<char>> {
    Map::empty().insert(r.capture_name@, r.matched_text@)
}

/// Whether the template changes the text of match `r`.
pub open spec fn changes(r: MatchResult, raw: Seq<char>) -> bool {
    template_result(raw, single_capture(r)) != r.matched_text@
}

/// The matches that the template changes, in order.
pub open spec fn changed_matches(results: Seq<MatchResult>, raw: Seq<char>) -> Seq<MatchResult>
    decreases results.len(),
{
    if results.len() == 0 {
        results
    } else {
        let init = changed_matches(results.drop_last(), raw);
        if changes(results.last(), raw) {
            init.push(results.last())
        } else {
            init
        }
    }
}

/// Whether `e` is the edit that the template makes for match `r`: same file
/// and byte range, and the template's text as replacement.
pub open spec fn is_edit_for(e: RewriteEdit, r: MatchResult, raw: Seq<char>) -> bool {
    &&& e.file_path@ == r.file_path@
    &&& e.start_byte == r.start_byte
    &&& e.end_byte == r.end_byte
    &&& e.new_text@ == template_result(raw, single_capture(r))
}

/// One edit for each match whose text the template changes, in order of the
/// matches; a match whose text would stay the same yields no edit.
pub fn compute_edits(results: &[MatchResult], template: &RewriteTemplate) -> (edits: Vec<RewriteEdit>)
    ensures
        edits@.len() == changed_matches(results@, template.raw@).len(),
        forall|k: int|
            0 <= k < edits@.len() ==> is_edit_for(
                #[trigger] edits@[k],
                changed_matches(results@, template.raw@)[k],
                template.raw@,
            ),
{
    let ghost raw = template.raw@;
    let mut edits: Vec<RewriteEdit> = Vec::new();
    let n = results.len();
    let mut k: usize = 0;
    while k < n
        invariant
            n == results@.len(),
            k <= n,
            raw == template.raw@,
            edits@.len() == changed_matches(results@.take(k as int), raw).len(),
            forall|j: int|
                0 <= j < edits@.len() ==> is_edit_for(
                    #[trigger] edits@[j],
                    changed_matches(results@.take(k as int), raw)[j],
                    raw,
                ),
        decreases n - k,
    {
        let r = &results[k];
        let mut map = CaptureMap::new();
        map.insert(r.capture_name.as_str(), r.matched_text.as_str());
        assert(map@ =~= single_capture(*r));
        let new_text = template.apply(&map);
        assert(results@.take(k as int + 1).drop_last() =~= results@.take(k as int));
        assert(results@.take(k as int + 1).last() == *r);
        if !str_eq(new_text.as_str(), r.matched_text.as_str()) {
            let e = RewriteEdit {
                file_path: r.file_path.clone(),
                start_byte: r.start_byte,
                end_byte: r.end_byte,
                new_text,
            };
            let ghost before = edits@;
            edits.push(e);
            assert forall|j: int| 0 <= j < edits@.len() implies is_edit_for(
                #[trigger] edits@[j],
                changed_matches(results@.take(k as int + 1), raw)[j],
                raw,
            ) by {
                if j < before.len() {
                    assert(edits@[j] == before[j]);
                }
            }
        }
        k = k + 1;
    }
    assert(results@.take(n as int) =~= results@);
    edits
}

/// The first position `j >= from` of `order` whose edit starts after `x`,
/// or the end of `order`.
pub open spec fn first_start_after(edits: Seq<RewriteEdit>, order: Seq<int>, x: int, from: int) -> int
    decreases order.len() - from,
{
    if from < 0 || from >= order.len() {
        order.len() as int
    } else if edits[order[from]].start_byte > x {
        from
    } else {
        first_start_after(edits, order, x, from + 1)
    }
}

/// The first position `j >= from` of `order` whose edit starts before `x`,
/// or the end of `order`.
pub open spec fn first_start_before(edits: Seq<RewriteEdit>, order: Seq<int>, x: int, from: int) -> int
    decreases order.len() - from,
{
    if from < 0 || from >= order.len() {
        order.len() as int
    } else if edits[order[from]].start_byte < x {
        from
    } else {
        first_start_before(edits, order, x, from + 1)
    }
}

/// The indices `0..n` of `edits` stably sorted by increasing start byte
/// (insertion of each index after every index with an equal or smaller start).
pub open spec fn ascending_order(edits: Seq<RewriteEdit>, n: int) -> Seq<int>
    decreases n,
{
    if n <= 0 {
        Seq::empty()
    } else {
        let prev = ascending_order(edits, n - 1);
        prev.insert(first_start_after(edits, prev, edits[n - 1].start_byte as int, 0), n - 1)
    }
}

/// The indices `0..n` of `edits` stably sorted by decreasing start byte.
pub open spec fn descending_order(edits: Seq<RewriteEdit>, n: int) -> Seq<int>
    decreases n,
{
    if n <= 0 {
        Seq::empty()
    } else {
        let prev = descending_order(edits, n - 1);
        prev.insert(first_start_before(edits, prev, edits[n - 1].start_byte as int, 0), n - 1)
    }
}

/// The first position `k >= from` where the edit at `order[k]` ends after
/// the next one starts.
pub open spec fn first_overlap(edits: Seq<RewriteEdit>, order: Seq<int>, from: int) -> Option<int>
    decreases order.len() - from,
{
    if from < 0 || from + 1 >= order.len() {
        None
    } else if edits[order[from]].end_byte > edits[order[from + 1]].start_byte {
        Some(from)
    } else {
        first_overlap(edits, order, from + 1)
    }
}

/// The message for two overlapping edits.
pub open spec fn overlap_message(a: RewriteEdit, b: RewriteEdit) -> Seq<char> {
    "overlapping edits: "@ + decimal(a.start_byte as nat) + "-"@ + decimal(a.end_byte as nat)
        + " and "@ + decimal(b.start_byte as nat) + "-"@ + decimal(b.end_byte as nat)
}

/// The message for an edit whose range does not fit the text.
pub open spec fn range_message(e: RewriteEdit) -> Seq<char> {
    "invalid edit range: "@ + decimal(e.start_byte as nat) + "-"@ + decimal(e.end_byte as nat)
}

/// `buf` with `start..end` replaced by `text`.
pub open spec fn splice(buf: Seq<u8>, start: int, end: int, text: Seq<u8>) -> Seq<u8> {
    buf.take(start) + text + buf.skip(end)
}

/// Applies the edits `order[k..]`, one after the other, each to the result
/// of the ones before; an edit whose range is reversed or ends past the
/// current text stops with its message.
pub open spec fn apply_in_order(
    buf: Seq<u8>,
    edits: Seq<RewriteEdit>,
    order: Seq<int>,
    k: int,
) -> Result<Seq<u8>, Seq<char>>
    decreases order.len() - k,
{
    if k < 0 || k >= order.len() {
        Ok(buf)
    } else {
        let e = edits[order[k]];
        if e.end_byte > buf.len() || e.start_byte > e.end_byte {
            Err(range_message(e))
        } else {
            apply_in_order(
                splice(buf, e.start_byte as int, e.end_byte as int, encode_utf8(e.new_text@)),
                edits,
                order,
                k + 1,
            )
        }
    }
}

/// What applying `edits` to `source` gives: the source itself when there
/// are no edits; the first overlap, in order of start, as an error; else
/// the edits applied from the last start to the first, then the result read
/// as UTF-8.
pub open spec fn edits_result(source: Seq<u8>, edits: Seq<RewriteEdit>) -> Result<Seq<u8>, Seq<char>> {
    if edits.len() == 0 {
        Ok(source)
    } else {
        let asc = ascending_order(edits, edits.len() as int);
        match first_overlap(edits, asc, 0) {
            Some(k) => Err(overlap_message(edits[asc[k]], edits[asc[k + 1]])),
            None => match apply_in_order(
                source,
                edits,
                descending_order(edits, edits.len() as int),
                0,
            ) {
                Err(m) => Err(m),
                Ok(bytes) => if valid_utf8(bytes) {
                    Ok(bytes)
                } else {
                    Err("resulting text is not valid UTF-8"@)
                },
            },
        }
    }
}

/// Every entry of `order` is an index into `edits`.
pub open spec fn valid_order(order: Seq<int>, n: int) -> bool {
    forall|j: int| 0 <= j < order.len() ==> 0 <= #[trigger] order[j] < n
}

proof fn lemma_first_start_after_bounds(edits: Seq<RewriteEdit>, order: Seq<int>, x: int, from: int)
    requires
        0 <= from <= order.len(),
    ensures
        from <= first_start_after(edits, order, x, from) <= order.len(),
    decreases order.len() - from,
{
    if from < order.len() && !(edits[order[from]].start_byte > x) {
        lemma_first_start_after_bounds(edits, order, x, from + 1);
    }
}

proof fn lemma_first_start_before_bounds(edits: Seq<RewriteEdit>, order: Seq<int>, x: int, from: int)
    requires
        0 <= from <= order.len(),
    ensures
        from <= first_start_before(edits, order, x, from) <= order.len(),
    decreases order.len() - from,
{
    if from < order.len() && !(edits[order[from]].start_byte < x) {
        lemma_first_start_before_bounds(edits, order, x, from + 1);
    }
}

/// The orders hold `n` indices, each below `n`.
pub proof fn lemma_orders_valid(edits: Seq<RewriteEdit>, n: int)
    requires
        0 <= n <= edits.len(),
    ensures
        ascending_order(edits, n).len() == n,
        valid_order(ascending_order(edits, n), n),
        descending_order(edits, n).len() == n,
        valid_order(descending_order(edits, n), n),
    decreases n,
{
    if n > 0 {
        lemma_orders_valid(edits, n - 1);
        let a = ascending_order(edits, n - 1);
        lemma_first_start_after_bounds(edits, a, edits[n - 1].start_byte as int, 0);
        let d = descending_order(edits, n - 1);
        lemma_first_start_before_bounds(edits, d, edits[n - 1].start_byte as int, 0);
    }
}

fn stays_before(ascending: bool, start: usize, x: usize) -> (r: bool)
    ensures
        r == (if ascending {
            start <= x
        } else {
            start >= x
        }),
{
    if ascending {
        start <= x
    } else {
        start >= x
    }
}

fn sort_positions(edits: &[RewriteEdit], ascending: bool) -> (order: Vec<usize>)
    ensures
        ascending ==> order@.map_values(|i: usize| i as int) == ascending_order(edits@, edits@.len() as int),
        !ascending ==> order@.map_values(|i: usize| i as int) == descending_order(edits@, edits@.len() as int),
        forall|j: int| 0 <= j < order@.len() ==> (#[trigger] order@[j]) < edits@.len(),
{
    let n = edits.len();
    let mut order: Vec<usize> = Vec::new();
    let mut i: usize = 0;
    while i < n
        invariant
            n == edits@.len(),
            i <= n,
            ascending ==> order@.map_values(|v: usize| v as int) == ascending_order(edits@, i as int),
            !ascending ==> order@.map_values(|v: usize| v as int) == descending_order(edits@, i as int),
            forall|j: int| 0 <= j < order@.len() ==> (#[trigger] order@[j]) < i,
            order@.len() == i,
        decreases n - i,
    {
        let ghost spec_prev = order@.map_values(|v: usize| v as int);
        let x = edits[i].start_byte;
        let mut pos: usize = 0;
        while pos < order.len() && stays_before(ascending, edits[order[pos]].start_byte, x)
            invariant
                pos <= order@.len(),
                spec_prev == order@.map_values(|v: usize| v as int),
                forall|j: int| 0 <= j < order@.len() ==> (#[trigger] order@[j]) < n,
                n == edits@.len(),
                ascending ==> first_start_after(edits@, spec_prev, x as int, pos as int)
                    == first_start_after(edits@, spec_prev, x as int, 0),
                !ascending ==> first_start_before(edits@, spec_prev, x as int, pos as int)
                    == first_start_before(edits@, spec_prev, x as int, 0),
            decreases order@.len() - pos,
        {
            assert(spec_prev[pos as int] == order@[pos as int] as int);
            pos = pos + 1;
        }
        proof {
            if pos < order@.len() {
                assert(spec_prev[pos as int] == order@[pos as int] as int);
            }
        }
        order.insert(pos, i);
        assert(order@.map_values(|v: usize| v as int) =~= spec_prev.insert(pos as int, i as int));
        i = i + 1;
    }
    order
}

/// Applies `edits` to `source`.
///
/// Edits are first checked, in order of start byte, for overlaps; the
/// first overlap gives an error. They are then applied from the last start
/// to the first, so that earlier byte offsets stay valid; an edit whose
/// range is reversed or runs past the text gives an error, and so does a
/// result that is not valid UTF-8. When no two edits start at the same
/// byte, the order in which they are given does not matter
/// (`law_edit_order_irrelevant`, `law_edit_permutation_irrelevant`).
pub fn apply_edits_to_source(source: &str, edits: &[RewriteEdit]) -> (r: Result<String, String>)
    ensures
        match edits_result(source.spec_bytes(), edits@) {
            Ok(bytes) => r matches Ok(s) && encode_utf8(s@) == bytes,
            Err(m) => r matches Err(e) && e@ == m,
        },
{
    if edits.len() == 0 {
        return Ok(source.to_string());
    }
    let n = edits.len();
    proof {
        lemma_orders_valid(edits@, n as int);
    }
    let asc = sort_positions(edits, true);
    let ghost asc_spec = asc@.map_values(|v: usize| v as int);
    let mut k: usize = 0;
    while k + 1 < asc.len()
        invariant
            asc_spec == asc@.map_values(|v: usize| v as int),
            asc_spec == ascending_order(edits@, n as int),
            n == edits@.len(),
            asc@.len() == n,
            forall|j: int| 0 <= j < asc@.len() ==> (#[trigger] asc@[j]) < n,
            k < asc@.len(),
            first_overlap(edits@, asc_spec, k as int) == first_overlap(edits@, asc_spec, 0),
        decreases asc@.len() - k,
    {
        let a = &edits[asc[k]];
        let b = &edits[asc[k + 1]];
        assert(asc_spec[k as int] == asc@[k as int] as int);
        assert(asc_spec[k as int + 1] == asc@[k as int + 1] as int);
        if a.end_byte > b.start_byte {
            let mut m = String::new();
            push_str(&mut m, "overlapping edits: ");
            push_decimal(&mut m, a.start_byte as u128);
            push_str(&mut m, "-");
            push_decimal(&mut m, a.end_byte as u128);
            push_str(&mut m, " and ");
            push_decimal(&mut m, b.start_byte as u128);
            push_str(&mut m, "-");
            push_decimal(&mut m, b.end_byte as u128);
            assert(m@ =~= overlap_message(*a, *b));
            return Err(m);
        }
        k = k + 1;
    }
    assert(first_overlap(edits@, asc_spec, k as int) is None);
    let desc = sort_positions(edits, false);
    let ghost desc_spec = desc@.map_values(|v: usize| v as int);
    let mut buffer: Vec<u8> = Vec::new();
    append_bytes(&mut buffer, source.as_bytes());
    assert(buffer@ =~= source.spec_bytes());
    let mut j: usize = 0;
    while j < desc.len()
        invariant
            desc_spec == desc@.map_values(|v: usize| v as int),
            desc_spec == descending_order(edits@, n as int),
            first_overlap(edits@, ascending_order(edits@, n as int), 0) is None,
            n == edits@.len(),
            forall|q: int| 0 <= q < desc@.len() ==> (#[trigger] desc@[q]) < n,
            j <= desc@.len(),
            apply_in_order(buffer@, edits@, desc_spec, j as int) == apply_in_order(
                source.spec_bytes(),
                edits@,
                desc_spec,
                0,
            ),
        decreases desc@.len() - j,
    {
        let e = &edits[desc[j]];
        assert(desc_spec[j as int] == desc@[j as int] as int);
        if e.end_byte > buffer.len() || e.start_byte > e.end_byte {
            let mut m = String::new();
            push_str(&mut m, "invalid edit range: ");
            push_decimal(&mut m, e.start_byte as u128);
            push_str(&mut m, "-");
            push_decimal(&mut m, e.end_byte as u128);
            assert(m@ =~= range_message(*e));
            return Err(m);
        }
        buffer = splice_bytes(buffer.as_slice(), e.start_byte, e.end_byte, e.new_text.as_str().as_bytes());
        j = j + 1;
    }
    match string_from_utf8(buffer) {
        Some(s) => {
            proof {
                decode_utf8_encode_utf8(buffer@);
            }
            Ok(s)
        },
        None => Err("resulting text is not valid UTF-8".to_string()),
    }
}

fn splice_bytes(buf: &[u8], start: usize, end: usize, text: &[u8]) -> (r: Vec<u8>)
    requires
        start <= end <= buf@.len(),
    ensures
        r@ == splice(buf@, start as int, end as int, text@),
{
    let mut out: Vec<u8> = Vec::new();
    let mut k: usize = 0;
    while k < start
        invariant
            k <= start <= end <= buf@.len(),
            out@ == buf@.take(k as int),
        decreases start - k,
    {
        out.push(buf[k]);
        assert(buf@.take(k as int + 1) =~= buf@.take(k as int).push(buf@[k as int]));
        k = k + 1;
    }
    let mut t: usize = 0;
    while t < text.len()
        invariant
            t <= text@.len(),
            out@ == buf@.take(start as int) + text@.take(t as int),
        decreases text@.len() - t,
    {
        out.push(text[t]);
        assert(text@.take(t as int + 1) =~= text@.take(t as int).push(text@[t as int]));
        assert(out@ =~= buf@.take(start as int) + text@.take(t as int + 1));
        t = t + 1;
    }
    assert(text@.take(text@.len() as int) =~= text@);
    let mut q: usize = end;
    let blen = buf.len();
    while q < blen
        invariant
            blen == buf@.len(),
            end <= q <= blen,
            out@ == buf@.take(start as int) + text@ + buf@.subrange(end as int, q as int),
        decreases blen - q,
    {
        out.push(buf[q]);
        assert(buf@.subrange(end as int, q as int + 1) =~= buf@.subrange(end as int, q as int).push(
            buf@[q as int],
        ));
        assert(out@ =~= buf@.take(start as int) + text@ + buf@.subrange(end as int, q as int + 1));
        q = q + 1;
    }
    assert(buf@.subrange(end as int, blen as int) =~= buf@.skip(end as int));
    out
}

/// What `similar` prints as the unified diff, by lines, from `old` to `new`
/// with `radius` lines of context and the file names `a` and `b` in its
/// header.
pub uninterp spec fn unified_line_diff(old: Seq<char>, new: Seq<char>, radius: nat, a: Seq<char>, b: Seq<char>) -> Seq<char>;

/// `similar::TextDiff::from_lines(..).unified_diff()` with a context radius
/// and a header, printed to a string. The diff has no deadline, so its text
/// depends on the arguments alone; what it holds is not stated here.
#[verifier::external_body]
fn unified_diff_of(original: &str, rewritten: &str, radius: usize, a: &str, b: &str) -> (r: String)
    ensures
        r@ == unified_line_diff(original@, rewritten@, radius as nat, a@, b@),
{
    similar::TextDiff::from_lines(original, rewritten).unified_diff().context_radius(radius).header(
        a,
        b,
    ).to_string()
}

/// The unified diff from `original` to `rewritten` for the file at `path`:
/// empty when nothing changed, else with three lines of context and the
/// header names `a/<path>` and `b/<path>`.
pub fn generate_diff(original: &str, rewritten: &str, path: &str) -> (r: String)
    ensures
        original@ == rewritten@ ==> r@ == Seq::<char>::empty(),
        original@ != rewritten@ ==> r@ == unified_line_diff(original@, rewritten@, 3, "a/"@ + path@, "b/"@ + path@),
{
    if str_eq(original, rewritten) {
        return String::new();
    }
    let mut a = String::new();
    push_str(&mut a, "a/");
    push_str(&mut a, path);
    let mut b = String::new();
    push_str(&mut b, "b/");
    push_str(&mut b, path);
    unified_diff_of(original, rewritten, 3, a.as_str(), b.as_str())
}

/// An edit as plain values: path, start byte, end byte, replacement.
pub open spec fn edit_view(e: RewriteEdit) -> (Seq<char>, int, int, Seq<char>) {
    (e.file_path@, e.start_byte as int, e.end_byte as int, e.new_text@)
}

/// The edits of the file at `path`, in order.
pub open spec fn edits_for(edits: Seq<RewriteEdit>, path: Seq<char>) -> Seq<(Seq<char>, int, int, Seq<char>)>
    decreases edits.len(),
{
    if edits.len() == 0 {
        Seq::empty()
    } else {
        let prev = edits_for(edits.drop_last(), path);
        if edits.last().file_path@ == path {
            prev.push(edit_view(edits.last()))
        } else {
            prev
        }
    }
}

/// The files the edits touch, each once, in order of first appearance.
pub open spec fn edited_files(edits: Seq<RewriteEdit>) -> Seq<Seq<char>>
    decreases edits.len(),
{
    if edits.len() == 0 {
        Seq::empty()
    } else {
        let prev = edited_files(edits.drop_last());
        if prev.contains(edits.last().file_path@) {
            prev
        } else {
            prev.push(edits.last().file_path@)
        }
    }
}

fn copy_edit(e: &RewriteEdit) -> (r: RewriteEdit)
    ensures
        edit_view(r) == edit_view(*e),
{
    RewriteEdit {
        file_path: e.file_path.clone(),
        start_byte: e.start_byte,
        end_byte: e.end_byte,
        new_text: e.new_text.clone(),
    }
}

/// The views of a sequence of edits.
pub open spec fn edit_views(v: Seq<RewriteEdit>) -> Seq<(Seq<char>, int, int, Seq<char>)> {
    Seq::new(v.len(), |i: int| edit_view(v[i]))
}

/// The edits grouped by file: one group per file in order of first
/// appearance, each holding that file's edits in their order.
pub fn group_edits_by_file(edits: &[RewriteEdit]) -> (r: Vec<(String, Vec<RewriteEdit>)>)
    ensures
        r@.len() == edited_files(edits@).len(),
        forall|k: int| 0 <= k < r@.len() ==> (#[trigger] r@[k]).0@ == edited_files(edits@)[k]
            && edit_views(r@[k].1@) == edits_for(edits@, edited_files(edits@)[k]),
{
    let mut groups: Vec<(String, Vec<RewriteEdit>)> = Vec::new();
    let mut i: usize = 0;
    while i < edits.len()
        invariant
            i <= edits@.len(),
            groups@.len() == edited_files(edits@.take(i as int)).len(),
            forall|k: int| 0 <= k < groups@.len() ==> (#[trigger] groups@[k]).0@ == edited_files(edits@.take(i as int))[k]
                && edit_views(groups@[k].1@) == edits_for(edits@.take(i as int), edited_files(edits@.take(i as int))[k]),
        decreases edits@.len() - i,
    {
        let ghost pre = edits@.take(i as int);
        let ghost post = edits@.take(i as int + 1);
        assert(post.drop_last() =~= pre);
        assert(post.last() == edits@[i as int]);
        let e = &edits[i];
        let mut k: usize = 0;
        while k < groups.len() && !str_eq(groups[k].0.as_str(), e.file_path.as_str())
            invariant
                k <= groups@.len(),
                forall|j: int| 0 <= j < k ==> (#[trigger] groups@[j]).0@ != e.file_path@,
            decreases groups@.len() - k,
        {
            k = k + 1;
        }
        let ghost old_groups = groups@;
        proof {
            assert forall|j: int| 0 <= j < old_groups.len() implies #[trigger] edited_files(pre)[j] == old_groups[j].0@ by {}
        }
        if k < groups.len() {
            proof {
                assert(edited_files(pre).contains(e.file_path@)) by {
                    assert(edited_files(pre)[k as int] == e.file_path@);
                }
                assert(edited_files(post) == edited_files(pre));
            }
            let mut group = (String::new(), Vec::new());
            std::mem::swap(&mut group, &mut groups[k]);
            let ghost before = edit_views(group.1@);
            group.1.push(copy_edit(e));
            assert(edit_views(group.1@) =~= before.push(edit_view(*e)));
            groups.set(k, group);
            proof {
                assert forall|j: int| 0 <= j < groups@.len() implies (#[trigger] groups@[j]).0@ == edited_files(post)[j]
                    && edit_views(groups@[j].1@) == edits_for(post, edited_files(post)[j]) by {
                    if j != k {
                        assert(groups@[j] == old_groups[j]);
                        assert(edited_files(pre)[j] != e.file_path@) by {
                            lemma_edited_files_distinct(pre);
                        }
                    }
                }
            }
        } else {
            proof {
                if edited_files(pre).contains(e.file_path@) {
                    let j = choose|j: int| 0 <= j < edited_files(pre).len() && edited_files(pre)[j] == e.file_path@;
                    assert(old_groups[j].0@ == e.file_path@);
                }
                lemma_edits_for_absent(pre, e.file_path@);
            }
            let mut v: Vec<RewriteEdit> = Vec::new();
            v.push(copy_edit(e));
            assert(edit_views(v@) =~= Seq::<(Seq<char>, int, int, Seq<char>)>::empty().push(edit_view(*e)));
            groups.push((e.file_path.clone(), v));
            proof {
                assert forall|j: int| 0 <= j < groups@.len() implies (#[trigger] groups@[j]).0@ == edited_files(post)[j]
                    && edit_views(groups@[j].1@) == edits_for(post, edited_files(post)[j]) by {
                    if j < old_groups.len() {
                        assert(groups@[j] == old_groups[j]);
                        assert(edited_files(pre)[j] != e.file_path@);
                    }
                }
            }
        }
        i = i + 1;
    }
    assert(edits@.take(edits@.len() as int) =~= edits@);
    groups
}

/// The files listed by `edited_files` are distinct.
pub proof fn lemma_edited_files_distinct(edits: Seq<RewriteEdit>)
    ensures
        forall|a: int, b: int| 0 <= a < b < edited_files(edits).len() ==> edited_files(edits)[a] != edited_files(edits)[b],
    decreases edits.len(),
{
    if edits.len() > 0 {
        lemma_edited_files_distinct(edits.drop_last());
        let prev = edited_files(edits.drop_last());
        let p = edits.last().file_path@;
        if !prev.contains(p) {
            let all = prev.push(p);
            assert forall|a: int, b: int| 0 <= a < b < all.len() implies all[a] != all[b] by {
                if b == prev.len() {
                    if all[a] == all[b] {
                        assert(prev[a] == p);
                    }
                } else {
                    assert(all[a] == prev[a] && all[b] == prev[b]);
                }
            }
        }
    }
}

/// A file that no edit touches has no edits.
pub proof fn lemma_edits_for_absent(edits: Seq<RewriteEdit>, path: Seq<char>)
    requires
        !edited_files(edits).contains(path),
    ensures
        edits_for(edits, path) == Seq::<(Seq<char>, int, int, Seq<char>)>::empty(),
    decreases edits.len(),
{
    if edits.len() > 0 {
        let prev = edited_files(edits.drop_last());
        if prev.contains(path) {
            let j = choose|j: int| 0 <= j < prev.len() && prev[j] == path;
            if !prev.contains(edits.last().file_path@) {
                assert(prev.push(edits.last().file_path@)[j] == path);
            }
        }
        if edits.last().file_path@ == path {
            if !prev.contains(path) {
                assert(prev.push(path)[prev.len() as int] == path);
            }
        }
        lemma_edits_for_absent(edits.drop_last(), path);
    }
}

/// A template renders as written from `i` on when no `@` follows.
proof fn lemma_no_at_renders_as_is(s: Seq<char>, i: int, captures: Map<Seq<char>, Seq<char>>)
    requires
        0 <= i <= s.len(),
        !s.contains('@'),
    ensures
        render_template(s, i, captures) == s.skip(i),
    decreases s.len() - i,
{
    if i < s.len() {
        assert(s[i] != '@');
        lemma_no_at_renders_as_is(s, i + 1, captures);
        assert(s.skip(i) =~= seq![s[i]] + s.skip(i + 1));
    } else {
        assert(s.skip(i) =~= Seq::<char>::empty());
    }
}

/// With no capture values a template renders as written from `i` on.
proof fn lemma_no_values_render_as_is(s: Seq<char>, i: int)
    requires
        0 <= i <= s.len(),
    ensures
        render_template(s, i, Map::empty()) == s.skip(i),
    decreases s.len() - i,
{
    if i < s.len() {
        if s[i] == '@' && name_end(s, i + 1) > i + 1 {
            let e = name_end(s, i + 1);
            lemma_name_end_bounds(s, i + 1);
            lemma_no_values_render_as_is(s, e);
            assert(s.skip(i) =~= seq!['@'] + s.subrange(i + 1, e) + s.skip(e));
        } else {
            lemma_no_values_render_as_is(s, i + 1);
            assert(s.skip(i) =~= seq![s[i]] + s.skip(i + 1));
        }
    } else {
        assert(s.skip(i) =~= Seq::<char>::empty());
    }
}

/// A template without `@` is copied as it is, whatever the captures.
pub proof fn law_template_without_captures(raw: Seq<char>, captures: Map<Seq<char>, Seq<char>>)
    requires
        !raw.contains('@'),
    ensures
        template_result(raw, captures) == raw,
{
    lemma_no_at_renders_as_is(raw, 0, captures);
    assert(raw.skip(0) =~= raw);
}

/// With no capture values, every token stays as written: the template is
/// copied as it is.
pub proof fn law_template_without_values(raw: Seq<char>)
    ensures
        template_result(raw, Map::empty()) == raw,
{
    lemma_no_values_render_as_is(raw, 0);
    assert(raw.skip(0) =~= raw);
}

/// A single edit is surgical: the bytes before its range and after it are
/// kept, and the range is replaced by the new text (when the range lies in
/// the source and the result is valid UTF-8).
pub proof fn law_single_edit_is_surgical(source: Seq<u8>, e: RewriteEdit)
    requires
        e.start_byte <= e.end_byte <= source.len(),
        valid_utf8(splice(source, e.start_byte as int, e.end_byte as int, encode_utf8(e.new_text@))),
    ensures
        edits_result(source, seq![e]) == Ok::<Seq<u8>, Seq<char>>(
            source.take(e.start_byte as int) + encode_utf8(e.new_text@) + source.skip(e.end_byte as int),
        ),
{
    let edits = seq![e];
    let asc = ascending_order(edits, 1);
    assert(ascending_order(edits, 0) =~= Seq::<int>::empty());
    assert(first_start_after(edits, Seq::<int>::empty(), e.start_byte as int, 0) == 0);
    assert(asc =~= seq![0int]);
    assert(first_overlap(edits, asc, 0) is None);
    let desc = descending_order(edits, 1);
    assert(descending_order(edits, 0) =~= Seq::<int>::empty());
    assert(first_start_before(edits, Seq::<int>::empty(), e.start_byte as int, 0) == 0);
    assert(desc =~= seq![0int]);
    let after = splice(source, e.start_byte as int, e.end_byte as int, encode_utf8(e.new_text@));
    assert(apply_in_order(after, edits, desc, 1) == Ok::<Seq<u8>, Seq<char>>(after));
    assert(apply_in_order(source, edits, desc, 0) == Ok::<Seq<u8>, Seq<char>>(after));
}

/// With no edits, the source comes back unchanged.
pub proof fn law_no_edits_keep_source(source: Seq<u8>)
    ensures
        edits_result(source, Seq::<RewriteEdit>::empty()) == Ok::<Seq<u8>, Seq<char>>(source),
{
}


/// The edits that `order` lists, in its order.
pub open spec fn by_index(edits: Seq<RewriteEdit>, order: Seq<int>) -> Seq<RewriteEdit> {
    order.map_values(|i: int| edits[i])
}

/// Whether no two edits start at the same byte.
pub open spec fn distinct_starts(edits: Seq<RewriteEdit>) -> bool {
    forall|a: int, b: int| 0 <= a < b < edits.len() ==> edits[a].start_byte != edits[b].start_byte
}

/// Whether the starts of `s` strictly increase (`inc`) or strictly decrease.
pub open spec fn strictly_by_start(s: Seq<RewriteEdit>, inc: bool) -> bool {
    forall|a: int, b: int|
        0 <= a < b < s.len() ==> if inc {
            s[a].start_byte < s[b].start_byte
        } else {
            s[a].start_byte > s[b].start_byte
        }
}

/// Whether the starts of the edits `order` lists never decrease (`inc`) or
/// never increase.
pub open spec fn order_by_start(edits: Seq<RewriteEdit>, order: Seq<int>, inc: bool) -> bool {
    forall|a: int, b: int|
        0 <= a < b < order.len() ==> if inc {
            edits[order[a]].start_byte <= edits[order[b]].start_byte
        } else {
            edits[order[a]].start_byte >= edits[order[b]].start_byte
        }
}

/// Whether `order` lists each of the indices `0..n` once.
pub open spec fn lists_each_once(order: Seq<int>, n: int) -> bool {
    &&& order.len() == n
    &&& valid_order(order, n)
    &&& forall|a: int, b: int| 0 <= a < b < order.len() ==> order[a] != order[b]
    &&& forall|i: int| 0 <= i < n ==> order.contains(i)
}

proof fn lemma_first_start_after_splits(edits: Seq<RewriteEdit>, order: Seq<int>, x: int, from: int)
    requires
        0 <= from <= order.len(),
        order_by_start(edits, order, true),
        forall|j: int| 0 <= j < from ==> edits[order[j]].start_byte <= x,
    ensures
        forall|j: int|
            0 <= j < order.len() ==> (edits[order[j]].start_byte <= x <==> j < first_start_after(
                edits,
                order,
                x,
                from,
            )),
    decreases order.len() - from,
{
    if from < order.len() {
        if edits[order[from]].start_byte > x {
            assert forall|j: int| 0 <= j < order.len() && j >= from implies edits[order[j]].start_byte > x by {
                if j > from {
                    assert(edits[order[from]].start_byte <= edits[order[j]].start_byte);
                }
            }
        } else {
            lemma_first_start_after_splits(edits, order, x, from + 1);
        }
    }
}

proof fn lemma_first_start_before_splits(edits: Seq<RewriteEdit>, order: Seq<int>, x: int, from: int)
    requires
        0 <= from <= order.len(),
        order_by_start(edits, order, false),
        forall|j: int| 0 <= j < from ==> edits[order[j]].start_byte >= x,
    ensures
        forall|j: int|
            0 <= j < order.len() ==> (edits[order[j]].start_byte >= x <==> j < first_start_before(
                edits,
                order,
                x,
                from,
            )),
    decreases order.len() - from,
{
    if from < order.len() {
        if edits[order[from]].start_byte < x {
            assert forall|j: int| 0 <= j < order.len() && j >= from implies edits[order[j]].start_byte < x by {
                if j > from {
                    assert(edits[order[from]].start_byte >= edits[order[j]].start_byte);
                }
            }
        } else {
            lemma_first_start_before_splits(edits, order, x, from + 1);
        }
    }
}

/// Inserting the new index `n - 1` at position `q` keeps every index listed
/// once.
proof fn lemma_insert_lists_each_once(prev: Seq<int>, n: int, q: int)
    requires
        n >= 1,
        lists_each_once(prev, n - 1),
        0 <= q <= prev.len(),
    ensures
        lists_each_once(prev.insert(q, n - 1), n),
{
    let o = prev.insert(q, n - 1);
    assert forall|a: int, b: int| 0 <= a < b < o.len() implies o[a] != o[b] by {
        if a != q && b != q {
            let pa = if a < q { a } else { a - 1 };
            let pb = if b < q { b } else { b - 1 };
            assert(o[a] == prev[pa] && o[b] == prev[pb]);
        } else if a == q {
            let pb = if b < q { b } else { b - 1 };
            assert(o[b] == prev[pb] && prev[pb] < n - 1);
        } else {
            let pa = if a < q { a } else { a - 1 };
            assert(o[a] == prev[pa] && prev[pa] < n - 1);
        }
    }
    assert forall|i: int| 0 <= i < n implies o.contains(i) by {
        if i == n - 1 {
            assert(o[q] == i);
        } else {
            assert(prev.contains(i));
            let j = choose|j: int| 0 <= j < prev.len() && prev[j] == i;
            if j < q {
                assert(o[j] == i);
            } else {
                assert(o[j + 1] == i);
            }
        }
    }
}

/// Both orders list each index once; the ascending one never decreases in
/// start, the descending one never increases.
proof fn lemma_orders_sorted(edits: Seq<RewriteEdit>, n: int)
    requires
        0 <= n <= edits.len(),
    ensures
        lists_each_once(ascending_order(edits, n), n),
        order_by_start(edits, ascending_order(edits, n), true),
        lists_each_once(descending_order(edits, n), n),
        order_by_start(edits, descending_order(edits, n), false),
    decreases n,
{
    if n > 0 {
        lemma_orders_sorted(edits, n - 1);
        lemma_orders_valid(edits, n);
        let x = edits[n - 1].start_byte as int;
        let a = ascending_order(edits, n - 1);
        lemma_first_start_after_bounds(edits, a, x, 0);
        lemma_first_start_after_splits(edits, a, x, 0);
        let qa = first_start_after(edits, a, x, 0);
        lemma_insert_lists_each_once(a, n, qa);
        let oa = a.insert(qa, n - 1);
        assert forall|i: int, j: int| 0 <= i < j < oa.len() implies edits[oa[i]].start_byte
            <= edits[oa[j]].start_byte by {
            let pi = if i < qa { i } else { i - 1 };
            let pj = if j < qa { j } else { j - 1 };
            if i != qa && j != qa {
                assert(oa[i] == a[pi] && oa[j] == a[pj]);
            } else if i == qa {
                assert(oa[j] == a[pj]);
            } else {
                assert(oa[i] == a[pi]);
            }
        }
        let d = descending_order(edits, n - 1);
        lemma_first_start_before_bounds(edits, d, x, 0);
        lemma_first_start_before_splits(edits, d, x, 0);
        let qd = first_start_before(edits, d, x, 0);
        lemma_insert_lists_each_once(d, n, qd);
        let od = d.insert(qd, n - 1);
        assert forall|i: int, j: int| 0 <= i < j < od.len() implies edits[od[i]].start_byte
            >= edits[od[j]].start_byte by {
            let pi = if i < qd { i } else { i - 1 };
            let pj = if j < qd { j } else { j - 1 };
            if i != qd && j != qd {
                assert(od[i] == d[pi] && od[j] == d[pj]);
            } else if i == qd {
                assert(od[j] == d[pj]);
            } else {
                assert(od[i] == d[pi]);
            }
        }
    }
}

/// With distinct starts, the edits an order lists are strictly ordered by
/// start and are exactly the edits.
proof fn lemma_by_index_view(edits: Seq<RewriteEdit>, order: Seq<int>, inc: bool)
    requires
        distinct_starts(edits),
        lists_each_once(order, edits.len() as int),
        order_by_start(edits, order, inc),
    ensures
        strictly_by_start(by_index(edits, order), inc),
        forall|e: RewriteEdit| by_index(edits, order).contains(e) <==> edits.contains(e),
{
    let s = by_index(edits, order);
    assert forall|a: int, b: int| 0 <= a < b < s.len() implies (if inc {
        s[a].start_byte < s[b].start_byte
    } else {
        s[a].start_byte > s[b].start_byte
    }) by {
        assert(order[a] != order[b]);
        if order[a] < order[b] {
            assert(edits[order[a]].start_byte != edits[order[b]].start_byte);
        } else {
            assert(edits[order[b]].start_byte != edits[order[a]].start_byte);
        }
    }
    assert forall|e: RewriteEdit| s.contains(e) <==> edits.contains(e) by {
        if s.contains(e) {
            let j = choose|j: int| 0 <= j < s.len() && s[j] == e;
            assert(edits[order[j]] == e);
        }
        if edits.contains(e) {
            let i = choose|i: int| 0 <= i < edits.len() && edits[i] == e;
            assert(order.contains(i));
            let j = choose|j: int| 0 <= j < order.len() && order[j] == i;
            assert(s[j] == e);
        }
    }
}

/// Two sequences strictly ordered by start (the same way) that hold the same
/// edits are the same.
proof fn lemma_sorted_unique(a: Seq<RewriteEdit>, b: Seq<RewriteEdit>, inc: bool)
    requires
        strictly_by_start(a, inc),
        strictly_by_start(b, inc),
        forall|e: RewriteEdit| a.contains(e) <==> b.contains(e),
    ensures
        a == b,
    decreases a.len() + b.len(),
{
    if a.len() == 0 {
        if b.len() > 0 {
            assert(b.contains(b[0]));
        }
        assert(a =~= b);
    } else if b.len() == 0 {
        assert(a.contains(a[0]));
    } else {
        assert(a.contains(a[0]));
        assert(b.contains(b[0]));
        let j = choose|j: int| 0 <= j < b.len() && b[j] == a[0];
        let i = choose|i: int| 0 <= i < a.len() && a[i] == b[0];
        if i > 0 {
            assert(j >= 0);
        }
        assert(i == 0 && j == 0);
        let a2 = a.drop_first();
        let b2 = b.drop_first();
        assert forall|e: RewriteEdit| a2.contains(e) <==> b2.contains(e) by {
            if a2.contains(e) {
                let k = choose|k: int| 0 <= k < a2.len() && a2[k] == e;
                assert(a[k + 1] == e);
                assert(b.contains(e));
                let m = choose|m: int| 0 <= m < b.len() && b[m] == e;
                assert(m != 0);
                assert(b2[m - 1] == e);
            }
            if b2.contains(e) {
                let k = choose|k: int| 0 <= k < b2.len() && b2[k] == e;
                assert(b[k + 1] == e);
                assert(a.contains(e));
                let m = choose|m: int| 0 <= m < a.len() && a[m] == e;
                assert(m != 0);
                assert(a2[m - 1] == e);
            }
        }
        lemma_sorted_unique(a2, b2, inc);
        assert(a =~= seq![a[0]] + a2);
        assert(b =~= seq![b[0]] + b2);
    }
}

proof fn lemma_first_overlap_bounds(edits: Seq<RewriteEdit>, order: Seq<int>, from: int)
    requires
        0 <= from,
    ensures
        first_overlap(edits, order, from) matches Some(k) ==> from <= k && k + 1 < order.len(),
    decreases order.len() - from,
{
    if from + 1 < order.len() && !(edits[order[from]].end_byte > edits[order[from + 1]].start_byte) {
        lemma_first_overlap_bounds(edits, order, from + 1);
    }
}

proof fn lemma_same_overlap(e1: Seq<RewriteEdit>, o1: Seq<int>, e2: Seq<RewriteEdit>, o2: Seq<int>, from: int)
    requires
        by_index(e1, o1) == by_index(e2, o2),
    ensures
        first_overlap(e1, o1, from) == first_overlap(e2, o2, from),
    decreases o1.len() - from,
{
    assert(o1.len() == by_index(e1, o1).len());
    assert(o2.len() == by_index(e2, o2).len());
    if 0 <= from && from + 1 < o1.len() {
        assert(e1[o1[from]] == by_index(e1, o1)[from]);
        assert(e1[o1[from + 1]] == by_index(e1, o1)[from + 1]);
        assert(e2[o2[from]] == by_index(e2, o2)[from]);
        assert(e2[o2[from + 1]] == by_index(e2, o2)[from + 1]);
        lemma_same_overlap(e1, o1, e2, o2, from + 1);
    }
}

proof fn lemma_same_apply(
    buf: Seq<u8>,
    e1: Seq<RewriteEdit>,
    o1: Seq<int>,
    e2: Seq<RewriteEdit>,
    o2: Seq<int>,
    k: int,
)
    requires
        by_index(e1, o1) == by_index(e2, o2),
    ensures
        apply_in_order(buf, e1, o1, k) == apply_in_order(buf, e2, o2, k),
    decreases o1.len() - k,
{
    assert(o1.len() == by_index(e1, o1).len());
    assert(o2.len() == by_index(e2, o2).len());
    if 0 <= k < o1.len() {
        assert(e1[o1[k]] == by_index(e1, o1)[k]);
        assert(e2[o2[k]] == by_index(e2, o2)[k]);
        let e = e1[o1[k]];
        if !(e.end_byte > buf.len() || e.start_byte > e.end_byte) {
            lemma_same_apply(
                splice(buf, e.start_byte as int, e.end_byte as int, encode_utf8(e.new_text@)),
                e1,
                o1,
                e2,
                o2,
                k + 1,
            );
        }
    }
}

/// The order in which edits are given does not matter when no two start at
/// the same byte: any listing of the same edits gives the same text, or the
/// same error.
pub proof fn law_edit_order_irrelevant(source: Seq<u8>, edits: Seq<RewriteEdit>, p: Seq<RewriteEdit>)
    requires
        distinct_starts(edits),
        distinct_starts(p),
        forall|e: RewriteEdit| edits.contains(e) <==> p.contains(e),
    ensures
        edits_result(source, edits) == edits_result(source, p),
{
    if edits.len() == 0 || p.len() == 0 {
        if edits.len() > 0 {
            assert(edits.contains(edits[0]));
        }
        if p.len() > 0 {
            assert(p.contains(p[0]));
        }
    } else {
        let n1 = edits.len() as int;
        let n2 = p.len() as int;
        lemma_orders_sorted(edits, n1);
        lemma_orders_sorted(p, n2);
        let a1 = ascending_order(edits, n1);
        let a2 = ascending_order(p, n2);
        let d1 = descending_order(edits, n1);
        let d2 = descending_order(p, n2);
        lemma_by_index_view(edits, a1, true);
        lemma_by_index_view(p, a2, true);
        lemma_by_index_view(edits, d1, false);
        lemma_by_index_view(p, d2, false);
        assert forall|e: RewriteEdit| by_index(edits, a1).contains(e) <==> by_index(p, a2).contains(e) by {
            assert(by_index(edits, a1).contains(e) <==> edits.contains(e));
            assert(by_index(p, a2).contains(e) <==> p.contains(e));
        }
        assert forall|e: RewriteEdit| by_index(edits, d1).contains(e) <==> by_index(p, d2).contains(e) by {
            assert(by_index(edits, d1).contains(e) <==> edits.contains(e));
            assert(by_index(p, d2).contains(e) <==> p.contains(e));
        }
        lemma_sorted_unique(by_index(edits, a1), by_index(p, a2), true);
        lemma_sorted_unique(by_index(edits, d1), by_index(p, d2), false);
        lemma_same_overlap(edits, a1, p, a2, 0);
        lemma_same_apply(source, edits, d1, p, d2, 0);
        match first_overlap(edits, a1, 0) {
            Some(k) => {
                lemma_orders_valid(edits, n1);
                lemma_first_overlap_bounds(edits, a1, 0);
                assert(edits[a1[k]] == by_index(edits, a1)[k]);
                assert(edits[a1[k + 1]] == by_index(edits, a1)[k + 1]);
                assert(p[a2[k]] == by_index(p, a2)[k]);
                assert(p[a2[k + 1]] == by_index(p, a2)[k + 1]);
            },
            None => {},
        }
    }
}


/// Listing the edits in any other order, each once, gives the same text or
/// the same error, when no two edits start at the same byte.
pub proof fn law_edit_permutation_irrelevant(source: Seq<u8>, edits: Seq<RewriteEdit>, perm: Seq<int>)
    requires
        distinct_starts(edits),
        lists_each_once(perm, edits.len() as int),
    ensures
        edits_result(source, by_index(edits, perm)) == edits_result(source, edits),
{
    let p = by_index(edits, perm);
    assert forall|a: int, b: int| 0 <= a < b < p.len() implies p[a].start_byte != p[b].start_byte by {
        assert(perm[a] != perm[b]);
        if perm[a] < perm[b] {
            assert(edits[perm[a]].start_byte != edits[perm[b]].start_byte);
        } else {
            assert(edits[perm[b]].start_byte != edits[perm[a]].start_byte);
        }
    }
    assert forall|e: RewriteEdit| edits.contains(e) <==> p.contains(e) by {
        if p.contains(e) {
            let j = choose|j: int| 0 <= j < p.len() && p[j] == e;
            assert(edits[perm[j]] == e);
        }
        if edits.contains(e) {
            let i = choose|i: int| 0 <= i < edits.len() && edits[i] == e;
            assert(perm.contains(i));
            let j = choose|j: int| 0 <= j < perm.len() && perm[j] == i;
            assert(p[j] == e);
        }
    }
    law_edit_order_irrelevant(source, edits, p);
}


/// Whether `c` is an ASCII letter, digit or `_`.
pub open spec fn ascii_word_char(c: char) -> bool {
    ('a' <= c && c <= 'z') || ('A' <= c && c <= 'Z') || ('0' <= c && c <= '9') || c == '_'
}

/// A template renders as written from `i` on when no `@` occurs from `i` on.
proof fn lemma_no_at_from_renders_as_is(s: Seq<char>, i: int, captures: Map<Seq<char>, Seq<char>>)
    requires
        0 <= i <= s.len(),
        forall|j: int| i <= j < s.len() ==> s[j] != '@',
    ensures
        render_template(s, i, captures) == s.skip(i),
    decreases s.len() - i,
{
    if i < s.len() {
        lemma_no_at_from_renders_as_is(s, i + 1, captures);
        assert(s.skip(i) =~= seq![s[i]] + s.skip(i + 1));
    } else {
        assert(s.skip(i) =~= Seq::<char>::empty());
    }
}

/// A capture name in a template runs over ASCII letters, digits and `_`, as
/// far as they go: the template `"@" + name + rest`, where `name` is a
/// non-empty run of such characters, `rest` does not start with one and has
/// no `@`, and `name` has the value `v`, renders as `v + rest` (so `@arg1`
/// with `arg1 = x` gives `x`).
pub proof fn law_token_spans_name_characters(
    name: Seq<char>,
    rest: Seq<char>,
    captures: Map<Seq<char>, Seq<char>>,
)
    requires
        name.len() > 0,
        forall|k: int| 0 <= k < name.len() ==> ascii_word_char(#[trigger] name[k]),
        rest.len() > 0 ==> !ascii_word_char(rest[0]),
        !rest.contains('@'),
        captures.dom().contains(name),
    ensures
        template_result(seq!['@'] + name + rest, captures) == captures[name] + rest,
{
    let s = seq!['@'] + name + rest;
    let e: int = name.len() + 1int;
    assert forall|j: int| 1 <= j <= e implies name_end(s, j) == e by {
        lemma_name_end_from(s, j, e);
    }
    assert(s.subrange(1, e) =~= name);
    assert forall|j: int| e <= j < s.len() implies s[j] != '@' by {
        assert(s[j] == rest[j - e]);
        assert(rest.contains(rest[j - e]));
    }
    lemma_no_at_from_renders_as_is(s, e, captures);
    assert(s.skip(e) =~= rest);
}

/// In `"@" + name + rest`, the run of name characters from `j` (within the
/// name) ends where the name ends.
proof fn lemma_name_end_from(s: Seq<char>, j: int, e: int)
    requires
        1 <= j <= e <= s.len(),
        forall|k: int| 1 <= k < e ==> ascii_word_char(#[trigger] s[k]),
        e < s.len() ==> !ascii_word_char(s[e]),
    ensures
        name_end(s, j) == e,
    decreases e - j,
{
    if j < e {
        assert(ascii_word_char(s[j]));
        lemma_name_end_from(s, j + 1, e);
    }
}

} // verus!
