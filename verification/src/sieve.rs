//! Query sifting: the string literals of queries become trigram sets, and a
//! file's Bloom filter decides whether the file needs a full parse.

use std::collections::HashSet;
use vstd::prelude::*;
use vstd::string::StringSliceAdditionalSpecFns;
use vstd::utf8::*;

use crate::bloom::{
    law_batch_no_false_negatives, may_contain, may_contain_all, seq_views, with_trigrams, BloomFilter,
    BLOOM_BYTES,
};
use crate::index::{first_match, IndexManifest};
use crate::trigram::{
    all_windows, first_occurrences, keys_match, law_unique_no_duplicates, law_unique_same_members, push_unique_windows,
    trigram_views, window_at,
};

verus! {

broadcast use vstd::std_specs::hash::group_hash_axioms;

/// Trigram sets derived from each query and whether any query contained literals.
#[derive(Debug, Clone, PartialEq, Eq)]
pub struct QueryTrigramSet {
    /// Per-query list of unique trigrams extracted from literal strings.
    pub per_query_trigrams: Vec<Vec<[u8; 3]>>,
    /// True when at least one query included a literal that produced trigrams.
    pub has_literals: bool,
}

/// File index status relative to an `IndexManifest`.
#[derive(Debug, Clone, PartialEq, Eq)]
pub enum FileIndexStatus {
    /// No index entry exists for the file.
    NotIndexed,
    /// The file has a fresh index entry, with its Bloom filter.
    Fresh(BloomFilter),
    /// The index entry exists but is stale (mtime/size mismatch or corrupt bits).
    Stale,
}

/// The number of backslashes directly before position `q`.
pub open spec fn backslashes_before(bytes: Seq<u8>, q: int) -> nat
    decreases q,
{
    if q <= 0 || bytes[q - 1] != 0x5Cu8 {
        0
    } else {
        1 + backslashes_before(bytes, q - 1)
    }
}

/// Whether the quote at `q` is escaped: an odd number of backslashes before it.
pub open spec fn is_escaped(bytes: Seq<u8>, q: int) -> bool {
    backslashes_before(bytes, q) % 2 == 1
}

/// Whether an `#eq?` predicate starts at position `i`.
pub open spec fn starts_eq(bytes: Seq<u8>, i: int) -> bool {
    0 <= i && i + 4 <= bytes.len() && bytes.subrange(i, i + 4) == seq![0x23u8, 0x65u8, 0x71u8, 0x3Fu8]
}

/// The literal spans of `bytes` from position `i`: outside a literal a `"`
/// opens one; inside a literal that opened at `start`, an unescaped `"`
/// closes it, and its contents are kept when they are not empty. A literal
/// that is never closed is dropped. Outside literals, a `#` starts a
/// predicate and a `)` ends it; `in_eq` tells whether the current predicate
/// is `#eq?`. With `required`, only the literals of `#eq?` predicates are
/// kept: those are the texts a matching file must contain.
pub open spec fn literal_spans(bytes: Seq<u8>, i: int, open: Option<int>, in_eq: bool, required: bool) -> Seq<(int, int)>
    decreases bytes.len() - i,
{
    if i >= bytes.len() || i < 0 {
        Seq::empty()
    } else {
        match open {
            None => if bytes[i] == 0x22u8 {
                literal_spans(bytes, i + 1, Some(i + 1), in_eq, required)
            } else if bytes[i] == 0x23u8 {
                literal_spans(bytes, i + 1, None, starts_eq(bytes, i), required)
            } else if bytes[i] == 0x29u8 {
                literal_spans(bytes, i + 1, None, false, required)
            } else {
                literal_spans(bytes, i + 1, None, in_eq, required)
            },
            Some(start) => if bytes[i] == 0x22u8 && !is_escaped(bytes, i) {
                (if i > start && (!required || in_eq) {
                    seq![(start, i)]
                } else {
                    Seq::empty()
                }) + literal_spans(bytes, i + 1, None, in_eq, required)
            } else {
                literal_spans(bytes, i + 1, Some(start), in_eq, required)
            },
        }
    }
}

/// The byte strings of the literals of a query: all of them, or with
/// `required` only those of its `#eq?` predicates.
pub open spec fn query_literals_in(bytes: Seq<u8>, required: bool) -> Seq<Seq<u8>> {
    literal_spans(bytes, 0, None, false, required).map_values(|sp: (int, int)| bytes.subrange(sp.0, sp.1))
}

/// The byte strings of all the literals of a query.
pub open spec fn query_literals(bytes: Seq<u8>) -> Seq<Seq<u8>> {
    query_literals_in(bytes, false)
}

/// The byte strings of the literals a file matching the query must contain:
/// those of its `#eq?` predicates. Literals of other predicates (negated
/// ones, `#match?` regexes, `#any-of?` alternatives) and of anonymous nodes
/// are left out.
pub open spec fn required_literals(bytes: Seq<u8>) -> Seq<Seq<u8>> {
    query_literals_in(bytes, true)
}

/// The UTF-8 bytes of a sequence of strings.
pub open spec fn string_bytes(v: Seq<String>) -> Seq<Seq<u8>> {
    Seq::new(v.len(), |i: int| encode_utf8(v[i]@))
}

/// All windows of each literal, literal after literal.
pub open spec fn literal_windows(literals: Seq<Seq<u8>>) -> Seq<Seq<u8>>
    decreases literals.len(),
{
    if literals.len() == 0 {
        Seq::empty()
    } else {
        literal_windows(literals.drop_last()) + all_windows(literals.last())
    }
}

/// The trigram set of one query: the distinct trigrams of its literals, in
/// order of first appearance.
pub open spec fn query_trigrams(query: Seq<u8>) -> Seq<Seq<u8>> {
    first_occurrences(literal_windows(required_literals(query)))
}

/// Flattens per-query literal lists.
pub open spec fn flatten_literals(qs: Seq<Seq<Seq<u8>>>) -> Seq<Seq<u8>>
    decreases qs.len(),
{
    if qs.len() == 0 {
        Seq::empty()
    } else {
        flatten_literals(qs.drop_last()) + qs.last()
    }
}

/// The literals of several queries, query after query.
pub open spec fn all_query_literals(queries: Seq<String>) -> Seq<Seq<u8>> {
    flatten_literals(
        Seq::new(queries.len(), |i: int| query_literals(encode_utf8(queries[i]@))),
    )
}

/// Whether a file is worth parsing: always when no query has literal
/// trigrams, otherwise when some query with trigrams may be fully contained.
pub open spec fn spec_should_parse(bits: Seq<u8>, set: Seq<Seq<Seq<u8>>>, has_literals: bool) -> bool {
    !has_literals || exists|q: int|
        0 <= q < set.len() && set[q].len() > 0 && may_contain_all(bits, #[trigger] set[q])
}

/// The literal strings of every query, query after query.
pub fn extract_literal_strings_from_queries(query_sources: &[String]) -> (r: Vec<String>)
    ensures
        string_bytes(r@) == all_query_literals(query_sources@),
{
    let ghost per = Seq::new(
        query_sources@.len(),
        |i: int| query_literals(encode_utf8(query_sources@[i]@)),
    );
    let mut out: Vec<String> = Vec::new();
    let n = query_sources.len();
    let mut k: usize = 0;
    assert(per.take(0) =~= Seq::<Seq<Seq<u8>>>::empty());
    assert(string_bytes(out@) =~= flatten_literals(per.take(0)));
    while k < n
        invariant
            n == query_sources@.len(),
            k <= n,
            per == Seq::new(
                query_sources@.len(),
                |i: int| query_literals(encode_utf8(query_sources@[i]@)),
            ),
            string_bytes(out@) == flatten_literals(per.take(k as int)),
        decreases n - k,
    {
        let lits = extract_literal_strings_from_query(query_sources[k].as_str());
        let ghost before = out@;
        let m = lits.len();
        let mut j: usize = 0;
        assert(string_bytes(out@) =~= string_bytes(before) + string_bytes(lits@).take(0));
        while j < m
            invariant
                m == lits@.len(),
                j <= m,
                string_bytes(out@) == string_bytes(before) + string_bytes(lits@).take(j as int),
            decreases m - j,
        {
            let s = lits[j].clone();
            assert(s@ == lits@[j as int]@);
            let ghost o = out@;
            out.push(s);
            proof {
                let lhs = string_bytes(out@);
                let rhs = string_bytes(before) + string_bytes(lits@).take(j as int + 1);
                assert(string_bytes(o) == string_bytes(before) + string_bytes(lits@).take(j as int));
                assert(lhs.len() == rhs.len());
                assert forall|i: int| 0 <= i < lhs.len() implies lhs[i] == rhs[i] by {
                    if i < o.len() {
                        assert(out@[i] == o[i]);
                        assert(lhs[i] == string_bytes(o)[i]);
                    } else {
                        assert(out@[i] == s);
                    }
                }
                assert(lhs =~= rhs);
            }
            j = j + 1;
        }
        assert(string_bytes(lits@).take(m as int) =~= string_bytes(lits@));
        assert(per.take(k as int + 1).drop_last() =~= per.take(k as int));
        assert(per[k as int] == query_literals(encode_utf8(query_sources@[k as int]@)));
        k = k + 1;
    }
    assert(per.take(n as int) =~= per);
    out
}

/// The per-query trigram sets of `query_sources`, and whether any is non-empty.
pub fn build_query_trigram_set(query_sources: &[String]) -> (r: QueryTrigramSet)
    ensures
        r.per_query_trigrams@.len() == query_sources@.len(),
        forall|q: int|
            0 <= q < query_sources@.len() ==> trigram_views(
                #[trigger] r.per_query_trigrams@[q]@,
            ) == query_trigrams(encode_utf8(query_sources@[q]@)),
        r.has_literals == exists|q: int|
            0 <= q < query_sources@.len() && (#[trigger] r.per_query_trigrams@[q]@).len() > 0,
{
    let mut per_query: Vec<Vec<[u8; 3]>> = Vec::new();
    let n = query_sources.len();
    let mut k: usize = 0;
    let mut any = false;
    while k < n
        invariant
            n == query_sources@.len(),
            k <= n,
            per_query@.len() == k,
            forall|q: int|
                0 <= q < k ==> trigram_views(#[trigger] per_query@[q]@) == query_trigrams(
                    encode_utf8(query_sources@[q]@),
                ),
            any == exists|q: int| 0 <= q < k && (#[trigger] per_query@[q]@).len() > 0,
        decreases n - k,
    {
        let t = trigrams_of_query(query_sources[k].as_str());
        let nonempty = t.len() > 0;
        let ghost before = per_query@;
        per_query.push(t);
        proof {
            assert(per_query@[k as int]@.len() > 0 <==> nonempty);
            assert forall|q: int| 0 <= q < k implies per_query@[q] == before[q] by {}
            if any {
                let q = choose|q: int| 0 <= q < k && (#[trigger] before[q]@).len() > 0;
                assert(per_query@[q] == before[q]);
            }
            if nonempty {
                assert(per_query@[k as int]@.len() > 0);
            }
            if exists|q: int| 0 <= q < k + 1 && (#[trigger] per_query@[q]@).len() > 0 {
                let q = choose|q: int| 0 <= q < k + 1 && (#[trigger] per_query@[q]@).len() > 0;
                if q < k {
                    assert(before[q]@.len() > 0);
                }
            }
        }
        any = any || nonempty;
        k = k + 1;
    }
    QueryTrigramSet { per_query_trigrams: per_query, has_literals: any }
}

fn trigrams_of_query(query: &str) -> (r: Vec<[u8; 3]>)
    ensures
        trigram_views(r@) == query_trigrams(query.spec_bytes()),
{
    let lits = literal_byte_spans(query.as_bytes(), true);
    let bytes = query.as_bytes();
    let ghost literals = required_literals(bytes@);
    let mut seen: HashSet<u32> = HashSet::new();
    let mut out: Vec<[u8; 3]> = Vec::new();
    let m = lits.len();
    let mut j: usize = 0;
    assert(literals.take(0) =~= Seq::<Seq<u8>>::empty());
    assert(trigram_views(out@) =~= first_occurrences(literal_windows(literals.take(0))));
    while j < m
        invariant
            m == lits@.len(),
            j <= m,
            bytes@ == query.spec_bytes(),
            literals == required_literals(bytes@),
            literals == lits@.map_values(|sp: (usize, usize)| bytes@.subrange(sp.0 as int, sp.1 as int)),
            forall|i: int| 0 <= i < m ==> (#[trigger] lits@[i]).0 <= lits@[i].1 <= bytes@.len(),
            trigram_views(out@) == first_occurrences(literal_windows(literals.take(j as int))),
            keys_match(seen@, out@),
        decreases m - j,
    {
        let (a, b) = lits[j];
        let piece = &bytes[a..b];
        assert(piece@ == literals[j as int]);
        let ghost prefix = literal_windows(literals.take(j as int));
        push_unique_windows(piece, &mut seen, &mut out, Ghost(prefix));
        assert(literals.take(j as int + 1).drop_last() =~= literals.take(j as int));
        j = j + 1;
    }
    assert(literals.take(m as int) =~= literals);
    out
}

/// The `(start, end)` byte spans of the literals of `bytes`.
fn literal_byte_spans(bytes: &[u8], required: bool) -> (r: Vec<(usize, usize)>)
    ensures
        query_literals_in(bytes@, required) == r@.map_values(
            |sp: (usize, usize)| bytes@.subrange(sp.0 as int, sp.1 as int),
        ),
        literal_spans(bytes@, 0, None, false, required) == r@.map_values(|sp: (usize, usize)| (sp.0 as int, sp.1 as int)),
        forall|i: int| 0 <= i < r@.len() ==> (#[trigger] r@[i]).0 <= r@[i].1 <= bytes@.len(),
        forall|i: int|
            0 <= i < r@.len() ==> {
                &&& 0 < (#[trigger] r@[i]).0 < r@[i].1 < bytes@.len()
                &&& bytes@[r@[i].0 - 1] == 0x22u8
                &&& bytes@[r@[i].1 as int] == 0x22u8
            },
{
    let n = bytes.len();
    let mut spans: Vec<(usize, usize)> = Vec::new();
    let mut open: Option<usize> = None;
    let mut in_eq = false;
    let mut index: usize = 0;
    let ghost full = literal_spans(bytes@, 0, None, false, required);
    while index < n
        invariant
            n == bytes@.len(),
            index <= n,
            full == literal_spans(bytes@, 0, None, false, required),
            full == spans@.map_values(|sp: (usize, usize)| (sp.0 as int, sp.1 as int))
                + literal_spans(bytes@, index as int, option_int(open), in_eq, required),
            open matches Some(st) ==> 0 < st <= index && bytes@[st - 1] == 0x22u8,
            forall|i: int| 0 <= i < spans@.len() ==> (#[trigger] spans@[i]).0 <= spans@[i].1 <= index,
            forall|i: int|
                0 <= i < spans@.len() ==> {
                    &&& 0 < (#[trigger] spans@[i]).0 < spans@[i].1 < bytes@.len()
                    &&& bytes@[spans@[i].0 - 1] == 0x22u8
                    &&& bytes@[spans@[i].1 as int] == 0x22u8
                },
        decreases n - index,
    {
        let ghost before = spans@;
        match open {
            None => {
                if bytes[index] == 0x22u8 {
                    open = Some(index + 1);
                } else if bytes[index] == 0x23u8 {
                    in_eq = starts_eq_at(bytes, index);
                } else if bytes[index] == 0x29u8 {
                    in_eq = false;
                }
            },
            Some(start) => {
                if bytes[index] == 0x22u8 && !is_escaped_quote(bytes, index) {
                    if index > start && (!required || in_eq) {
                        spans.push((start, index));
                        assert(spans@.map_values(|sp: (usize, usize)| (sp.0 as int, sp.1 as int))
                            =~= before.map_values(|sp: (usize, usize)| (sp.0 as int, sp.1 as int))
                            + seq![(start as int, index as int)]);
                    }
                    open = None;
                }
            },
        }
        index = index + 1;
    }
    proof {
        let ghost m1 = spans@.map_values(|sp: (usize, usize)| (sp.0 as int, sp.1 as int));
        assert(full =~= m1);
        assert(query_literals_in(bytes@, required) =~= spans@.map_values(
            |sp: (usize, usize)| bytes@.subrange(sp.0 as int, sp.1 as int),
        ));
    }
    spans
}

/// Whether an `#eq?` predicate starts at position `i` of `bytes`.
fn starts_eq_at(bytes: &[u8], i: usize) -> (r: bool)
    requires
        i < bytes@.len(),
    ensures
        r == starts_eq(bytes@, i as int),
{
    if bytes.len() - i < 4 {
        return false;
    }
    let r = bytes[i] == 0x23u8 && bytes[i + 1] == 0x65u8 && bytes[i + 2] == 0x71u8 && bytes[i + 3] == 0x3Fu8;
    let ghost pat = seq![0x23u8, 0x65u8, 0x71u8, 0x3Fu8];
    let ghost sub = bytes@.subrange(i as int, i as int + 4);
    if r {
        assert(sub =~= pat);
    } else {
        assert(sub[0] != pat[0] || sub[1] != pat[1] || sub[2] != pat[2] || sub[3] != pat[3]);
    }
    r
}

/// An `Option<usize>` as an `Option<int>`.
pub open spec fn option_int(o: Option<usize>) -> Option<int> {
    match o {
        Some(v) => Some(v as int),
        None => None,
    }
}

/// The literal strings of one query.
pub fn extract_literal_strings_from_query(query: &str) -> (r: Vec<String>)
    ensures
        string_bytes(r@) == query_literals(query.spec_bytes()),
{
    let bytes = query.as_bytes();
    let spans = literal_byte_spans(bytes, false);
    let mut out: Vec<String> = Vec::new();
    let m = spans.len();
    let mut j: usize = 0;
    while j < m
        invariant
            m == spans@.len(),
            j <= m,
            bytes@ == query.spec_bytes(),
            query_literals(bytes@) == spans@.map_values(
                |sp: (usize, usize)| bytes@.subrange(sp.0 as int, sp.1 as int),
            ),
            forall|i: int| 0 <= i < m ==> (#[trigger] spans@[i]).0 <= spans@[i].1 <= bytes@.len(),
            forall|i: int|
                0 <= i < m ==> {
                    &&& 0 < (#[trigger] spans@[i]).0 < spans@[i].1 < bytes@.len()
                    &&& bytes@[spans@[i].0 - 1] == 0x22u8
                    &&& bytes@[spans@[i].1 as int] == 0x22u8
                },
            string_bytes(out@) == query_literals(bytes@).take(j as int),
        decreases m - j,
    {
        let (a, b) = spans[j];
        let s = substring_between_quotes(query, a, b);
        assert(query_literals(bytes@)[j as int] == bytes@.subrange(a as int, b as int));
        let ghost o = out@;
        out.push(s);
        proof {
            let lhs = string_bytes(out@);
            let rhs = query_literals(bytes@).take(j as int + 1);
            assert(query_literals(bytes@).len() == m);
            assert(string_bytes(o).len() == o.len());
            assert(string_bytes(o) == query_literals(bytes@).take(j as int));
            assert(o.len() == j);
            assert(lhs.len() == rhs.len());
            assert forall|i: int| 0 <= i < lhs.len() implies lhs[i] == rhs[i] by {
                if i < o.len() {
                    assert(out@[i] == o[i]);
                    assert(lhs[i] == string_bytes(o)[i]);
                } else {
                    assert(out@[i] == s);
                }
            }
            assert(lhs =~= rhs);
        }
        j = j + 1;
    }
    assert(query_literals(bytes@).take(m as int) =~= query_literals(bytes@));
    out
}

/// The text of `query` between byte positions `a` and `b`, where `a` follows
/// a `"` and `b` holds one.
fn substring_between_quotes(query: &str, a: usize, b: usize) -> (s: String)
    requires
        0 < a < b < query.spec_bytes().len(),
        query.spec_bytes()[a - 1] == 0x22u8,
        query.spec_bytes()[b as int] == 0x22u8,
    ensures
        encode_utf8(s@) == query.spec_bytes().subrange(a as int, b as int),
{
    let ghost bytes = query.spec_bytes();
    proof {
        encode_utf8_valid_utf8(query@);
        is_char_boundary_iff_not_is_continuation_byte(bytes, b as int);
        lemma_not_continuation_after_ascii(bytes, a as int);
        is_char_boundary_iff_not_is_continuation_byte(bytes, a as int);
    }
    let (head, _) = query.split_at(b);
    proof {
        valid_utf8_split(bytes, b as int);
        let hb = head.spec_bytes();
        assert(hb =~= bytes.subrange(0, b as int));
        assert(hb[a as int] == bytes[a as int]);
        is_char_boundary_iff_not_is_continuation_byte(hb, a as int);
    }
    let (_, piece) = head.split_at(a);
    let s = piece.to_string();
    assert(piece.spec_bytes() =~= bytes.subrange(a as int, b as int));
    s
}

/// In valid UTF-8 the byte after an ASCII byte starts a character.
proof fn lemma_not_continuation_after_ascii(bytes: Seq<u8>, a: int)
    requires
        valid_utf8(bytes),
        0 < a < bytes.len(),
        bytes[a - 1] < 0x80,
    ensures
        !is_continuation_byte(bytes[a]),
{
    is_char_boundary_iff_not_is_continuation_byte(bytes, a - 1);
    valid_utf8_split(bytes, a - 1);
    let tail = bytes.subrange(a - 1, bytes.len() as int);
    assert(tail[0] == bytes[a - 1]);
    assert(length_of_first_scalar(tail) == 1);
    assert(pop_first_scalar(tail) =~= tail.subrange(1, tail.len() as int));
    reveal_with_fuel(is_char_boundary, 2);
    assert(is_char_boundary(tail, 1));
    is_char_boundary_iff_not_is_continuation_byte(tail, 1);
    assert(tail[1] == bytes[a]);
}

/// Whether the quote at `quote_index` is escaped by an odd run of backslashes.
fn is_escaped_quote(bytes: &[u8], quote_index: usize) -> (r: bool)
    requires
        quote_index <= bytes@.len(),
    ensures
        r == is_escaped(bytes@, quote_index as int),
{
    let mut count: usize = 0;
    let mut index = quote_index;
    while index > 0 && bytes[index - 1] == 0x5Cu8
        invariant
            index <= quote_index <= bytes@.len(),
            count + index == quote_index,
            backslashes_before(bytes@, quote_index as int) == count + backslashes_before(
                bytes@,
                index as int,
            ),
        decreases index,
    {
        count = count + 1;
        index = index - 1;
    }
    count % 2 == 1
}

/// Whether a file should be parsed, given its Bloom filter and the query
/// trigram sets. Always `true` when no query has literal trigrams.
pub fn should_parse_file(filter: &BloomFilter, trigram_set: &QueryTrigramSet) -> (r: bool)
    ensures
        r == spec_should_parse(
            filter@,
            Seq::new(
                trigram_set.per_query_trigrams@.len(),
                |q: int| seq_views(trigram_set.per_query_trigrams@[q]@),
            ),
            trigram_set.has_literals,
        ),
{
    let ghost set = Seq::new(
        trigram_set.per_query_trigrams@.len(),
        |q: int| seq_views(trigram_set.per_query_trigrams@[q]@),
    );
    if !trigram_set.has_literals {
        return true;
    }
    let n = trigram_set.per_query_trigrams.len();
    let mut k: usize = 0;
    while k < n
        invariant
            n == trigram_set.per_query_trigrams@.len(),
            k <= n,
            set == Seq::new(
                trigram_set.per_query_trigrams@.len(),
                |q: int| seq_views(trigram_set.per_query_trigrams@[q]@),
            ),
            forall|q: int|
                0 <= q < k ==> !(set[q].len() > 0 && may_contain_all(filter@, #[trigger] set[q])),
        decreases n - k,
    {
        let trigrams = &trigram_set.per_query_trigrams[k];
        if trigrams.len() > 0 {
            if filter.probably_contains_all(trigrams.as_slice()) {
                assert(set[k as int] == seq_views(trigrams@));
                return true;
            }
        }
        assert(set[k as int] == seq_views(trigrams@));
        k = k + 1;
    }
    false
}

/// The index status of `path`: not indexed when the manifest has no entry
/// for it; stale when the entry's mtime or size differs from the file's or
/// its bits are not exactly `BLOOM_BYTES` long; fresh, with the entry's
/// filter, otherwise.
pub fn get_file_index_status(
    manifest: &IndexManifest,
    path: &str,
    mtime_secs: u64,
    file_size_bytes: u64,
) -> (r: FileIndexStatus)
    ensures
        match first_match(manifest.entries@, path@) {
            None => r == FileIndexStatus::NotIndexed,
            Some(k) => {
                let e = manifest.entries@[k];
                if e.mtime_secs != mtime_secs || e.file_size_bytes != file_size_bytes
                    || e.bloom_bits@.len() != BLOOM_BYTES {
                    r == FileIndexStatus::Stale
                } else {
                    r matches FileIndexStatus::Fresh(f) && f@ == e.bloom_bits@
                }
            },
        },
{
    let entry = match manifest.find_entry(path) {
        Some(entry) => entry,
        None => return FileIndexStatus::NotIndexed,
    };
    if entry.mtime_secs != mtime_secs || entry.file_size_bytes != file_size_bytes {
        return FileIndexStatus::Stale;
    }
    if entry.bloom_bits.len() != BLOOM_BYTES {
        return FileIndexStatus::Stale;
    }
    let mut bits = [0u8; BLOOM_BYTES];
    let mut k: usize = 0;
    while k < BLOOM_BYTES
        invariant
            k <= BLOOM_BYTES,
            entry.bloom_bits@.len() == BLOOM_BYTES,
            forall|j: int| 0 <= j < k ==> bits@[j] == entry.bloom_bits@[j],
            bits@.len() == BLOOM_BYTES,
        decreases BLOOM_BYTES - k,
    {
        bits[k] = entry.bloom_bits[k];
        k = k + 1;
    }
    assert(bits@ =~= entry.bloom_bits@);
    FileIndexStatus::Fresh(BloomFilter::from_bytes(bits))
}

/// Whether `piece` occurs in `text` as a run of consecutive bytes.
pub open spec fn occurs_in(piece: Seq<u8>, text: Seq<u8>) -> bool {
    exists|p: int|
        0 <= p && p + piece.len() <= text.len() && #[trigger] text.subrange(p, p + piece.len())
            == piece
}

proof fn lemma_windows_of_piece(piece: Seq<u8>, text: Seq<u8>, x: Seq<u8>)
    requires
        occurs_in(piece, text),
        all_windows(piece).contains(x),
    ensures
        all_windows(text).contains(x),
{
    let p = choose|p: int|
        0 <= p && p + piece.len() <= text.len() && #[trigger] text.subrange(p, p + piece.len())
            == piece;
    let i = choose|i: int| 0 <= i < all_windows(piece).len() && all_windows(piece)[i] == x;
    assert(window_at(piece, i) =~= window_at(text, p + i));
    assert(all_windows(text)[p + i] == x);
}

proof fn lemma_literal_windows_member(lits: Seq<Seq<u8>>, x: Seq<u8>)
    requires
        literal_windows(lits).contains(x),
    ensures
        exists|k: int| 0 <= k < lits.len() && all_windows(#[trigger] lits[k]).contains(x),
    decreases lits.len(),
{
    if lits.len() > 0 {
        let init = lits.drop_last();
        let a = literal_windows(init);
        let b = all_windows(lits.last());
        let j = choose|j: int| 0 <= j < (a + b).len() && (a + b)[j] == x;
        if j < a.len() {
            assert(a[j] == x);
            lemma_literal_windows_member(init, x);
            let k = choose|k: int| 0 <= k < init.len() && all_windows(#[trigger] init[k]).contains(x);
            assert(lits[k] == init[k]);
        } else {
            assert(b[j - a.len()] == x);
            assert(all_windows(lits[lits.len() - 1]).contains(x));
        }
    }
}

proof fn lemma_literal_windows_has(lits: Seq<Seq<u8>>, k: int, x: Seq<u8>)
    requires
        0 <= k < lits.len(),
        all_windows(lits[k]).contains(x),
    ensures
        literal_windows(lits).contains(x),
    decreases lits.len(),
{
    let init = lits.drop_last();
    let a = literal_windows(init);
    let b = all_windows(lits.last());
    if k < init.len() {
        assert(init[k] == lits[k]);
        lemma_literal_windows_has(init, k, x);
        let j = choose|j: int| 0 <= j < a.len() && a[j] == x;
        assert((a + b)[j] == x);
    } else {
        let j = choose|j: int| 0 <= j < b.len() && b[j] == x;
        assert((a + b)[a.len() + j] == x);
    }
}

/// A query's trigram set holds each trigram once, and holds exactly the
/// trigrams of its required (`#eq?`) literals: the union of their trigram
/// sets.
pub proof fn law_query_trigrams_are_literal_trigrams(query: Seq<u8>, x: Seq<u8>)
    ensures
        query_trigrams(query).no_duplicates(),
        query_trigrams(query).contains(x) <==> exists|k: int|
            0 <= k < required_literals(query).len() && first_occurrences(
                all_windows(#[trigger] required_literals(query)[k]),
            ).contains(x),
{
    let lits = required_literals(query);
    law_unique_no_duplicates(literal_windows(lits));
    law_unique_same_members(literal_windows(lits), x);
    if query_trigrams(query).contains(x) {
        lemma_literal_windows_member(lits, x);
        let k = choose|k: int| 0 <= k < lits.len() && all_windows(#[trigger] lits[k]).contains(x);
        law_unique_same_members(all_windows(lits[k]), x);
    }
    if exists|k: int| 0 <= k < lits.len() && first_occurrences(all_windows(#[trigger] lits[k])).contains(x) {
        let k = choose|k: int| 0 <= k < lits.len() && first_occurrences(all_windows(#[trigger] lits[k])).contains(x);
        law_unique_same_members(all_windows(lits[k]), x);
        lemma_literal_windows_has(lits, k, x);
    }
}

/// No false negatives end to end: when a file's filter holds the trigrams of
/// its source, and every `#eq?` literal of some query (the text such a
/// predicate demands of a match) occurs in that source while
/// the query yields at least one trigram, the sieve lets the file through.
pub proof fn law_sieve_keeps_files_with_literals(
    bits: Seq<u8>,
    source: Seq<u8>,
    queries: Seq<Seq<u8>>,
    q: int,
    has_literals: bool,
)
    requires
        bits.len() == BLOOM_BYTES,
        0 <= q < queries.len(),
        query_trigrams(queries[q]).len() > 0,
        forall|k: int|
            0 <= k < required_literals(queries[q]).len() ==> occurs_in(
                #[trigger] required_literals(queries[q])[k],
                source,
            ),
    ensures
        spec_should_parse(
            with_trigrams(bits, first_occurrences(all_windows(source))),
            Seq::new(queries.len(), |i: int| query_trigrams(queries[i])),
            has_literals,
        ),
{
    let filter = with_trigrams(bits, first_occurrences(all_windows(source)));
    let set = Seq::new(queries.len(), |i: int| query_trigrams(queries[i]));
    let lits = required_literals(queries[q]);
    assert forall|j: int| 0 <= j < set[q].len() implies may_contain(filter, #[trigger] set[q][j]) by {
        let x = set[q][j];
        law_unique_same_members(literal_windows(lits), x);
        assert(first_occurrences(literal_windows(lits)).contains(x));
        lemma_literal_windows_member(lits, x);
        let k = choose|k: int| 0 <= k < lits.len() && all_windows(#[trigger] lits[k]).contains(x);
        lemma_windows_of_piece(lits[k], source, x);
        law_unique_same_members(all_windows(source), x);
        law_batch_no_false_negatives(bits, first_occurrences(all_windows(source)), x);
    }
    assert(may_contain_all(filter, set[q]));
}

} // verus!
