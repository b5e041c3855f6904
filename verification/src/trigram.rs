//! Byte trigrams: every run of three consecutive bytes of a text.
//!
//! Trigrams feed the per-file Bloom filters and the query sieve. The plain
//! extractors keep every window in order; the unique extractors keep the
//! first occurrence of each distinct trigram, in order of first appearance.

use std::collections::HashSet;
use vstd::prelude::*;
use vstd::std_specs::hash::*;
use vstd::string::StringSliceAdditionalSpecFns;

verus! {

broadcast use vstd::std_specs::hash::group_hash_axioms;

/// The trigram of `bytes` that starts at position `i`.
pub open spec fn window_at(bytes: Seq<u8>, i: int) -> Seq<u8> {
    bytes.subrange(i, i + 3)
}

/// Number of three-byte windows of a byte sequence.
pub open spec fn window_count(bytes: Seq<u8>) -> nat {
    if bytes.len() < 3 { 0 } else { (bytes.len() - 2) as nat }
}

/// Every three-byte window of `bytes`, left to right.
pub open spec fn all_windows(bytes: Seq<u8>) -> Seq<Seq<u8>> {
    Seq::new(window_count(bytes), |i: int| window_at(bytes, i))
}

/// `s` with every element after its first occurrence removed, order kept.
pub open spec fn first_occurrences(s: Seq<Seq<u8>>) -> Seq<Seq<u8>>
    decreases s.len(),
{
    if s.len() == 0 {
        s
    } else {
        let kept = first_occurrences(s.drop_last());
        if kept.contains(s.last()) {
            kept
        } else {
            kept.push(s.last())
        }
    }
}

/// The views of a sequence of trigram arrays.
pub open spec fn trigram_views(v: Seq<[u8; 3]>) -> Seq<Seq<u8>> {
    Seq::new(v.len(), |i: int| v[i]@)
}

/// Key that identifies a trigram inside a hash set.
pub open spec fn trigram_key(t: Seq<u8>) -> u32 {
    (t[0] as int * 65536 + t[1] as int * 256 + t[2] as int) as u32
}

/// All three-byte windows of `text`'s UTF-8 bytes, in order.
pub fn extract_trigrams(text: &str) -> (r: Vec<[u8; 3]>)
    ensures
        trigram_views(r@) == all_windows(text.spec_bytes()),
{
    sliding_window(text.as_bytes())
}

/// All three-byte windows of `bytes`, in order.
pub fn extract_trigrams_from_bytes(bytes: &[u8]) -> (r: Vec<[u8; 3]>)
    ensures
        trigram_views(r@) == all_windows(bytes@),
{
    sliding_window(bytes)
}

/// The distinct three-byte windows of `text`'s UTF-8 bytes, each once, in
/// order of first appearance.
pub fn extract_unique_trigrams(text: &str) -> (r: Vec<[u8; 3]>)
    ensures
        trigram_views(r@) == first_occurrences(all_windows(text.spec_bytes())),
{
    unique_sliding_window(text.as_bytes())
}

/// The distinct three-byte windows of `bytes`, each once, in order of first
/// appearance.
pub fn extract_unique_trigrams_from_bytes(bytes: &[u8]) -> (r: Vec<[u8; 3]>)
    ensures
        trigram_views(r@) == first_occurrences(all_windows(bytes@)),
{
    unique_sliding_window(bytes)
}

/// The distinct trigrams of a query literal, each once, in order of first
/// appearance.
pub fn extract_query_trigrams(query_literal: &str) -> (r: Vec<[u8; 3]>)
    ensures
        trigram_views(r@) == first_occurrences(all_windows(query_literal.spec_bytes())),
{
    unique_sliding_window(query_literal.as_bytes())
}

fn trigram_at(bytes: &[u8], i: usize) -> (t: [u8; 3])
    requires
        i + 3 <= bytes@.len(),
    ensures
        t@ == window_at(bytes@, i as int),
{
    let t = [bytes[i], bytes[i + 1], bytes[i + 2]];
    assert(t@ =~= window_at(bytes@, i as int));
    t
}

fn sliding_window(bytes: &[u8]) -> (r: Vec<[u8; 3]>)
    ensures
        trigram_views(r@) == all_windows(bytes@),
{
    let mut result: Vec<[u8; 3]> = Vec::new();
    if bytes.len() < 3 {
        assert(trigram_views(result@) =~= all_windows(bytes@));
        return result;
    }
    let n = bytes.len() - 2;
    let mut index: usize = 0;
    while index < n
        invariant
            n == bytes@.len() - 2,
            index <= n,
            result@.len() == index,
            forall|k: int| 0 <= k < index ==> (#[trigger] result@[k])@ == window_at(bytes@, k),
        decreases n - index,
    {
        let t = trigram_at(bytes, index);
        result.push(t);
        index = index + 1;
    }
    assert(trigram_views(result@) =~= all_windows(bytes@));
    result
}

proof fn lemma_key_injective(a: Seq<u8>, b: Seq<u8>)
    requires
        a.len() == 3,
        b.len() == 3,
        trigram_key(a) == trigram_key(b),
    ensures
        a == b,
{
    let ka = a[0] as int * 65536 + a[1] as int * 256 + a[2] as int;
    let kb = b[0] as int * 65536 + b[1] as int * 256 + b[2] as int;
    assert(0 <= ka < 0x1000000);
    assert(0 <= kb < 0x1000000);
    assert(ka == kb);
    assert(a[0] == b[0]);
    assert(a[1] == b[1]);
    assert(a[2] == b[2]);
    assert(a =~= b);
}

/// The relation between a set of trigram keys and the trigrams kept so far.
pub open spec fn keys_match(seen: Set<u32>, kept: Seq<[u8; 3]>) -> bool {
    &&& forall|k: int| 0 <= k < kept.len() ==> (#[trigger] kept[k])@.len() == 3
    &&& forall|key: u32|
        seen.contains(key) <==> exists|k: int|
            0 <= k < kept.len() && trigram_key(#[trigger] kept[k]@) == key
}

/// Appends to `out` the windows of `bytes` that are not yet in it, in order,
/// keeping `seen` as the keys of `out`.
pub(crate) fn push_unique_windows(
    bytes: &[u8],
    seen: &mut HashSet<u32>,
    out: &mut Vec<[u8; 3]>,
    Ghost(prefix): Ghost<Seq<Seq<u8>>>,
)
    requires
        trigram_views(old(out)@) == first_occurrences(prefix),
        keys_match(old(seen)@, old(out)@),
    ensures
        trigram_views(final(out)@) == first_occurrences(prefix + all_windows(bytes@)),
        keys_match(final(seen)@, final(out)@),
{
    let ghost all = all_windows(bytes@);
    if bytes.len() < 3 {
        assert(prefix + all =~= prefix);
        return;
    }
    let n = bytes.len() - 2;
    let mut index: usize = 0;
    assert(prefix + all.take(0) =~= prefix);
    while index < n
        invariant
            n == bytes@.len() - 2,
            all == all_windows(bytes@),
            index <= n,
            trigram_views(out@) == first_occurrences(prefix + all.take(index as int)),
            keys_match(seen@, out@),
        decreases n - index,
    {
        let t = trigram_at(bytes, index);
        let key: u32 = ((bytes[index] as u32) * 65536) + ((bytes[index + 1] as u32) * 256)
            + (bytes[index + 2] as u32);
        assert(key == trigram_key(t@));
        let ghost before = out@;
        assert((prefix + all.take(index as int + 1)).drop_last() =~= prefix + all.take(
            index as int,
        ));
        assert((prefix + all.take(index as int + 1)).last() == t@);
        let fresh = seen.insert(key);
        if fresh {
            proof {
                if trigram_views(before).contains(t@) {
                    let j = choose|j: int|
                        0 <= j < trigram_views(before).len() && trigram_views(before)[j] == t@;
                    assert(trigram_key(before[j]@) == key);
                }
            }
            out.push(t);
            assert(trigram_views(out@) =~= trigram_views(before).push(t@));
            assert forall|key2: u32| seen@.contains(key2) implies exists|k: int|
                0 <= k < out@.len() && trigram_key(#[trigger] out@[k]@) == key2 by {
                if key2 != key {
                    let k = choose|k: int|
                        0 <= k < before.len() && trigram_key(#[trigger] before[k]@) == key2;
                    assert(out@[k] == before[k]);
                } else {
                    assert(out@[before.len() as int] == t);
                }
            }
            assert forall|key2: u32|
                (exists|k: int| 0 <= k < out@.len() && trigram_key(#[trigger] out@[k]@) == key2)
                implies seen@.contains(key2) by {
                let k = choose|k: int| 0 <= k < out@.len() && trigram_key(#[trigger] out@[k]@) == key2;
                if k < before.len() {
                    assert(out@[k] == before[k]);
                }
            }
        } else {
            proof {
                let k = choose|k: int| 0 <= k < before.len() && trigram_key(#[trigger] before[k]@) == key;
                lemma_key_injective(before[k]@, t@);
                assert(trigram_views(before)[k] == t@);
            }
        }
        index = index + 1;
    }
    assert(all.take(n as int) =~= all);
}

fn unique_sliding_window(bytes: &[u8]) -> (r: Vec<[u8; 3]>)
    ensures
        trigram_views(r@) == first_occurrences(all_windows(bytes@)),
{
    let mut seen: HashSet<u32> = HashSet::new();
    let mut result: Vec<[u8; 3]> = Vec::new();
    let ghost empty = Seq::<Seq<u8>>::empty();
    assert(trigram_views(result@) =~= first_occurrences(empty));
    push_unique_windows(bytes, &mut seen, &mut result, Ghost(empty));
    assert(empty + all_windows(bytes@) =~= all_windows(bytes@));
    result
}

/// The unique extraction keeps exactly the trigrams of the plain extraction.
pub proof fn law_unique_same_members(s: Seq<Seq<u8>>, x: Seq<u8>)
    ensures
        first_occurrences(s).contains(x) <==> s.contains(x),
    decreases s.len(),
{
    if s.len() > 0 {
        let init = s.drop_last();
        law_unique_same_members(init, x);
        let kept = first_occurrences(init);
        if s.contains(x) && x != s.last() {
            let k = choose|k: int| 0 <= k < s.len() && s[k] == x;
            assert(init[k] == x);
        }
        if init.contains(x) {
            let k = choose|k: int| 0 <= k < init.len() && init[k] == x;
            assert(s[k] == x);
        }
        if kept.contains(s.last()) {
            law_unique_same_members(init, s.last());
            let k = choose|k: int| 0 <= k < init.len() && init[k] == s.last();
            assert(s[k] == s.last());
        } else {
            if x == s.last() {
                assert(kept.push(s.last())[kept.len() as int] == x);
            }
            if kept.contains(x) {
                let k = choose|k: int| 0 <= k < kept.len() && kept[k] == x;
                assert(kept.push(s.last())[k] == x);
            }
            if kept.push(s.last()).contains(x) && x != s.last() {
                let k = choose|k: int| 0 <= k < kept.len() + 1 && kept.push(s.last())[k] == x;
                assert(kept[k] == x);
            }
        }
        if x == s.last() {
            assert(s[s.len() - 1] == x);
        }
    }
}

/// The unique extraction holds no trigram twice.
pub proof fn law_unique_no_duplicates(s: Seq<Seq<u8>>)
    ensures
        first_occurrences(s).no_duplicates(),
    decreases s.len(),
{
    if s.len() > 0 {
        law_unique_no_duplicates(s.drop_last());
        let kept = first_occurrences(s.drop_last());
        if !kept.contains(s.last()) {
            let pushed = kept.push(s.last());
            assert forall|i: int, j: int| 0 <= i < pushed.len() && 0 <= j < pushed.len() && i != j
                implies pushed[i] != pushed[j] by {
                if i < kept.len() && j < kept.len() {
                } else if i == kept.len() {
                    assert(kept[j] == pushed[j]);
                } else {
                    assert(kept[i] == pushed[i]);
                }
            }
        }
    }
}

/// The unique extraction never holds more trigrams than the plain one.
pub proof fn law_unique_not_longer(s: Seq<Seq<u8>>)
    ensures
        first_occurrences(s).len() <= s.len(),
    decreases s.len(),
{
    if s.len() > 0 {
        law_unique_not_longer(s.drop_last());
    }
}

} // verus!
