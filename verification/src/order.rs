//! The order of search results: by file path (component by component), then
//! start line, start column, end line, end column, start byte, end byte,
//! capture name and matched text (character by character).

use crate::query::{result_view, results_view};
use crate::text::chars_of;
use crate::types::MatchResult;
use vstd::prelude::*;

verus! {

/// A result as plain values (see `result_view`).
pub type ResultView = (Seq<char>, Seq<char>, Seq<char>, int, int, int, int, int, int);

/// The rank of a character in the order of texts: its code point; in the
/// order of paths a `/` ranks below every other character, so that paths are
/// ordered component by component.
pub open spec fn char_rank(c: char, paths: bool) -> int {
    if paths && c == '/' {
        -1
    } else {
        c as int
    }
}

/// Different characters have different ranks, and only `/` ranks below zero.
pub proof fn lemma_char_rank(c: char, d: char, paths: bool)
    ensures
        c != d ==> char_rank(c, paths) != char_rank(d, paths),
        char_rank(c, paths) < 0 <==> paths && c == '/',
{
    assert(c != d ==> (c as u32) != (d as u32));
}

/// Lexicographic order on character sequences, characters compared by
/// `char_rank`; a proper prefix comes first.
pub open spec fn ranked_lt(a: Seq<char>, b: Seq<char>, paths: bool) -> bool
    decreases a.len(),
{
    if a.len() == 0 {
        b.len() > 0
    } else if b.len() == 0 {
        false
    } else if a[0] != b[0] {
        char_rank(a[0], paths) < char_rank(b[0], paths)
    } else {
        ranked_lt(a.drop_first(), b.drop_first(), paths)
    }
}

/// The order of texts: by code point, character by character.
pub open spec fn text_lt(a: Seq<char>, b: Seq<char>) -> bool {
    ranked_lt(a, b, false)
}

/// The order of paths: component by component, each component compared as a
/// text (for paths without empty or `.` components, as the walk gives them).
pub open spec fn path_lt(a: Seq<char>, b: Seq<char>) -> bool {
    ranked_lt(a, b, true)
}

/// No text comes before itself.
pub proof fn lemma_text_lt_irreflexive(a: Seq<char>, paths: bool)
    ensures
        !ranked_lt(a, a, paths),
    decreases a.len(),
{
    if a.len() > 0 {
        lemma_text_lt_irreflexive(a.drop_first(), paths);
    }
}

/// The order on texts is transitive.
pub proof fn lemma_text_lt_transitive(a: Seq<char>, b: Seq<char>, c: Seq<char>, paths: bool)
    requires
        ranked_lt(a, b, paths),
        ranked_lt(b, c, paths),
    ensures
        ranked_lt(a, c, paths),
    decreases a.len(),
{
    if a.len() > 0 && b.len() > 0 && c.len() > 0 {
        if a[0] == b[0] && b[0] == c[0] {
            lemma_text_lt_transitive(a.drop_first(), b.drop_first(), c.drop_first(), paths);
        }
    }
}

/// Of two different texts, one comes before the other.
pub proof fn lemma_text_lt_total(a: Seq<char>, b: Seq<char>, paths: bool)
    requires
        a != b,
    ensures
        ranked_lt(a, b, paths) || ranked_lt(b, a, paths),
    decreases a.len(),
{
    if a.len() > 0 && b.len() > 0 && a[0] == b[0] {
        if a.drop_first() == b.drop_first() {
            assert(a =~= seq![a[0]] + a.drop_first());
            assert(b =~= seq![b[0]] + b.drop_first());
        }
        lemma_text_lt_total(a.drop_first(), b.drop_first(), paths);
    } else if a.len() > 0 && b.len() > 0 {
        lemma_char_rank(a[0], b[0], paths);
    } else if a.len() == 0 && b.len() == 0 {
        assert(a =~= b);
    }
}

/// The order of results: the fields compared in turn.
pub open spec fn key_lt(x: ResultView, y: ResultView) -> bool {
    if x.0 != y.0 {
        path_lt(x.0, y.0)
    } else if x.3 != y.3 {
        x.3 < y.3
    } else if x.4 != y.4 {
        x.4 < y.4
    } else if x.5 != y.5 {
        x.5 < y.5
    } else if x.6 != y.6 {
        x.6 < y.6
    } else if x.7 != y.7 {
        x.7 < y.7
    } else if x.8 != y.8 {
        x.8 < y.8
    } else if x.1 != y.1 {
        text_lt(x.1, y.1)
    } else if x.2 != y.2 {
        text_lt(x.2, y.2)
    } else {
        false
    }
}

/// The order on results is a strict total order.
pub proof fn lemma_key_lt_order(x: ResultView, y: ResultView, z: ResultView)
    ensures
        !key_lt(x, x),
        key_lt(x, y) ==> !key_lt(y, x),
        key_lt(x, y) && key_lt(y, z) ==> key_lt(x, z),
        x != y ==> key_lt(x, y) || key_lt(y, x),
{
    lemma_text_lt_irreflexive(x.0, true);
    lemma_text_lt_irreflexive(x.1, false);
    lemma_text_lt_irreflexive(x.2, false);
    if key_lt(x, y) && key_lt(y, z) {
        if x.0 != y.0 && y.0 != z.0 {
            lemma_text_lt_transitive(x.0, y.0, z.0, true);
            if x.0 == z.0 {
                lemma_text_lt_irreflexive(x.0, true);
            }
        }
        if x.0 == y.0 && y.0 == z.0 && x.3 == y.3 && y.3 == z.3 && x.4 == y.4 && y.4 == z.4 && x.5
            == y.5 && y.5 == z.5 && x.6 == y.6 && y.6 == z.6 && x.7 == y.7 && y.7 == z.7 && x.8 == y.8
            && y.8 == z.8 {
            if x.1 != y.1 && y.1 != z.1 {
                lemma_text_lt_transitive(x.1, y.1, z.1, false);
                if x.1 == z.1 {
                    lemma_text_lt_irreflexive(x.1, false);
                }
            }
            if x.1 == y.1 && y.1 == z.1 {
                lemma_text_lt_transitive(x.2, y.2, z.2, false);
            }
        }
    }
    if key_lt(x, y) {
        if x.0 != y.0 {
            if path_lt(y.0, x.0) {
                lemma_text_lt_transitive(x.0, y.0, x.0, true);
                lemma_text_lt_irreflexive(x.0, true);
            }
        } else if x.3 == y.3 && x.4 == y.4 && x.5 == y.5 && x.6 == y.6 && x.7 == y.7 && x.8 == y.8 {
            if x.1 != y.1 {
                if text_lt(y.1, x.1) {
                    lemma_text_lt_transitive(x.1, y.1, x.1, false);
                    lemma_text_lt_irreflexive(x.1, false);
                }
            } else if text_lt(y.2, x.2) {
                lemma_text_lt_transitive(x.2, y.2, x.2, false);
                lemma_text_lt_irreflexive(x.2, false);
            }
        }
    }
    if x != y {
        if x.0 != y.0 {
            lemma_text_lt_total(x.0, y.0, true);
        } else if x.1 != y.1 {
            lemma_text_lt_total(x.1, y.1, false);
        } else if x.2 != y.2 {
            lemma_text_lt_total(x.2, y.2, false);
        }
    }
}

/// Whether a sequence of results is in strictly increasing order (so holds
/// no result twice).
pub open spec fn strictly_sorted(v: Seq<ResultView>) -> bool {
    forall|i: int, j: int| 0 <= i < j < v.len() ==> key_lt(v[i], v[j])
}

fn text_less(a: &str, b: &str, paths: bool) -> (r: bool)
    ensures
        r == ranked_lt(a@, b@, paths),
{
    let x = chars_of(a);
    let y = chars_of(b);
    let mut k: usize = 0;
    assert(a@.skip(0) =~= a@);
    assert(b@.skip(0) =~= b@);
    while k < x.len() && k < y.len()
        invariant
            k <= x@.len(),
            k <= y@.len(),
            x@ == a@,
            y@ == b@,
            ranked_lt(a@, b@, paths) == ranked_lt(a@.skip(k as int), b@.skip(k as int), paths),
        decreases x@.len() - k,
    {
        let ghost sa = a@.skip(k as int);
        let ghost sb = b@.skip(k as int);
        assert(sa[0] == x@[k as int]);
        assert(sb[0] == y@[k as int]);
        if x[k] != y[k] {
            proof {
                lemma_char_rank(x@[k as int], y@[k as int], paths);
                lemma_char_rank(y@[k as int], x@[k as int], paths);
            }
            if paths && x[k] == '/' {
                return true;
            }
            if paths && y[k] == '/' {
                return false;
            }
            return x[k] < y[k];
        }
        assert(sa.drop_first() =~= a@.skip(k as int + 1));
        assert(sb.drop_first() =~= b@.skip(k as int + 1));
        k = k + 1;
    }
    k < y.len()
}

/// Whether result `a` comes before result `b`.
pub fn result_less(a: &MatchResult, b: &MatchResult) -> (r: bool)
    ensures
        r == key_lt(result_view(*a), result_view(*b)),
{
    let pa = a.file_path.as_str();
    let pb = b.file_path.as_str();
    if !crate::text::str_eq(pa, pb) {
        return text_less(pa, pb, true);
    }
    if a.start_line != b.start_line {
        return a.start_line < b.start_line;
    }
    if a.start_col != b.start_col {
        return a.start_col < b.start_col;
    }
    if a.end_line != b.end_line {
        return a.end_line < b.end_line;
    }
    if a.end_col != b.end_col {
        return a.end_col < b.end_col;
    }
    if a.start_byte != b.start_byte {
        return a.start_byte < b.start_byte;
    }
    if a.end_byte != b.end_byte {
        return a.end_byte < b.end_byte;
    }
    let ca = a.capture_name.as_str();
    let cb = b.capture_name.as_str();
    if !crate::text::str_eq(ca, cb) {
        return text_less(ca, cb, false);
    }
    proof {
        lemma_text_lt_irreflexive(a.matched_text@, false);
    }
    text_less(a.matched_text.as_str(), b.matched_text.as_str(), false)
}

/// Inserts `r` at its place in a strictly increasing list of results, unless
/// an equal result is already there.
pub fn insert_sorted(results: &mut Vec<MatchResult>, r: MatchResult)
    requires
        strictly_sorted(results_view(old(results)@)),
    ensures
        strictly_sorted(results_view(final(results)@)),
        results_view(final(results)@).to_set() == results_view(old(results)@).to_set().insert(
            result_view(r),
        ),
{
    let ghost v = results_view(results@);
    let n = results.len();
    let mut p: usize = 0;
    while p < n && result_less(&results[p], &r)
        invariant
            n == results@.len(),
            p <= n,
            v == results_view(results@),
            forall|i: int| 0 <= i < p ==> key_lt(#[trigger] v[i], result_view(r)),
        decreases n - p,
    {
        p = p + 1;
    }
    if p < n && !result_less(&r, &results[p]) {
        proof {
            lemma_key_lt_order(v[p as int], result_view(r), v[p as int]);
            assert(v[p as int] == result_view(r));
            assert(v.to_set().insert(result_view(r)) =~= v.to_set());
        }
        return;
    }
    proof {
        assert forall|i: int| p <= i < n implies key_lt(result_view(r), #[trigger] v[i]) by {
            if i == p {
                lemma_key_lt_order(result_view(r), v[p as int], result_view(r));
            } else {
                lemma_key_lt_order(result_view(r), v[p as int], v[i]);
                lemma_key_lt_order(v[p as int], result_view(r), v[p as int]);
            }
        }
    }
    let ghost rv = result_view(r);
    results.insert(p, r);
    proof {
        let w = results_view(results@);
        assert(w =~= v.insert(p as int, rv));
        assert forall|i: int, j: int| 0 <= i < j < w.len() implies key_lt(w[i], w[j]) by {
            if j < p {
            } else if j == p {
            } else if i < p {
                lemma_key_lt_order(w[i], rv, w[j]);
            } else if i == p {
            } else {
            }
        }
        assert forall|x: ResultView| w.to_set().contains(x) <==> v.to_set().insert(rv).contains(x) by {
            if w.to_set().contains(x) {
                let k = choose|k: int| 0 <= k < w.len() && w[k] == x;
                if k < p {
                    assert(v[k] == x);
                } else if k > p {
                    assert(v[k - 1] == x);
                }
            }
            if v.to_set().contains(x) {
                let k = choose|k: int| 0 <= k < v.len() && v[k] == x;
                if k < p {
                    assert(w[k] == x);
                } else {
                    assert(w[k + 1] == x);
                }
            }
            if x == rv {
                assert(w[p as int] == rv);
            }
        }
        assert(w.to_set() =~= v.to_set().insert(rv));
    }
}

/// Results in strictly increasing order are determined by which results they
/// hold: two such lists with the same results are the same list. So sorting
/// and deduplicating an already sorted, duplicate-free list changes nothing.
pub proof fn law_sorted_results_unique(a: Seq<ResultView>, b: Seq<ResultView>)
    requires
        strictly_sorted(a),
        strictly_sorted(b),
        a.to_set() == b.to_set(),
    ensures
        a == b,
    decreases a.len() + b.len(),
{
    if a.len() == 0 {
        if b.len() > 0 {
            assert(b.to_set().contains(b[0]));
        }
        assert(a =~= b);
    } else if b.len() == 0 {
        assert(a.to_set().contains(a[0]));
    } else {
        assert(a.to_set().contains(a[0]));
        assert(b.to_set().contains(b[0]));
        let i = choose|i: int| 0 <= i < b.len() && b[i] == a[0];
        let j = choose|j: int| 0 <= j < a.len() && a[j] == b[0];
        if i > 0 {
            lemma_key_lt_order(b[0], b[i], b[0]);
            if j > 0 {
                lemma_key_lt_order(a[0], a[j], b[i]);
                lemma_key_lt_order(b[0], a[0], b[0]);
            }
        }
        assert(a[0] == b[0]) by {
            if a[0] != b[0] {
                if i > 0 && j > 0 {
                    lemma_key_lt_order(a[0], b[0], a[0]);
                    assert(key_lt(a[0], a[j]));
                    assert(key_lt(b[0], b[i]));
                }
            }
        }
        let ta = a.drop_first();
        let tb = b.drop_first();
        assert forall|x: ResultView| ta.to_set().contains(x) <==> tb.to_set().contains(x) by {
            if ta.to_set().contains(x) {
                let k = choose|k: int| 0 <= k < ta.len() && ta[k] == x;
                assert(a[k + 1] == x);
                assert(a.to_set().contains(x));
                let m = choose|m: int| 0 <= m < b.len() && b[m] == x;
                if m == 0 {
                    lemma_key_lt_order(a[0], a[k + 1], a[0]);
                }
                assert(tb[m - 1] == x);
            }
            if tb.to_set().contains(x) {
                let k = choose|k: int| 0 <= k < tb.len() && tb[k] == x;
                assert(b[k + 1] == x);
                assert(b.to_set().contains(x));
                let m = choose|m: int| 0 <= m < a.len() && a[m] == x;
                if m == 0 {
                    lemma_key_lt_order(b[0], b[k + 1], b[0]);
                }
                assert(ta[m - 1] == x);
            }
        }
        assert(ta.to_set() =~= tb.to_set());
        law_sorted_results_unique(ta, tb);
        assert(a =~= seq![a[0]] + ta);
        assert(b =~= seq![b[0]] + tb);
    }
}

} // verus!
