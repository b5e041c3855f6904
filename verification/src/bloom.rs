//! A fixed-size Bloom filter over byte trigrams.
//!
//! Each trigram sets two bits chosen by two FNV-1a hashes with different
//! seeds. A trigram that was inserted is always reported as present; a
//! trigram that was not inserted may be reported as present too.

use crate::trigram::first_occurrences;
use vstd::prelude::*;

verus! {

/// Number of bits in the per-file Bloom filter.
pub const BLOOM_BITS: usize = 4096;

/// Number of bytes backing the Bloom filter (`BLOOM_BITS / 8`).
pub const BLOOM_BYTES: usize = 512;

/// Number of hash functions used by the Bloom filter.
pub const NUM_HASH_FUNCTIONS: usize = 2;

/// Seed of the first FNV-1a hash (the standard 32-bit offset basis).
pub const FNV_SEED_PRIMARY: u32 = 2166136261u32;

/// Seed of the second FNV-1a hash.
pub const FNV_SEED_SECONDARY: u32 = 0x5E18FF4Eu32;

/// The 32-bit FNV prime.
pub const FNV_PRIME: u32 = 16777619u32;

/// One FNV-1a round: xor the byte in, then multiply by the prime modulo 2^32.
pub open spec fn fnv_step(hash: u32, byte: u8) -> u32 {
    ((hash ^ (byte as u32)) as int * FNV_PRIME as int % 0x1_0000_0000) as u32
}

/// FNV-1a over `bytes`, starting from `seed`.
pub open spec fn fnv1a(seed: u32, bytes: Seq<u8>) -> u32
    decreases bytes.len(),
{
    if bytes.len() == 0 {
        seed
    } else {
        fnv_step(fnv1a(seed, bytes.drop_last()), bytes.last())
    }
}

/// The two bit positions that a trigram selects.
pub open spec fn spec_bit_indices(trigram: Seq<u8>) -> (int, int) {
    (
        (fnv1a(FNV_SEED_PRIMARY, trigram) as int) % (BLOOM_BITS as int),
        (fnv1a(FNV_SEED_SECONDARY, trigram) as int) % (BLOOM_BITS as int),
    )
}

/// Whether bit `i` (byte `i / 8`, bit `i % 8` from the least significant
/// end) is set.
pub open spec fn bit_is_set(bits: Seq<u8>, i: int) -> bool {
    (bits[i / 8] >> ((i % 8) as u8)) & 1u8 == 1u8
}

/// `bits` with bit `i` set.
pub open spec fn with_bit(bits: Seq<u8>, i: int) -> Seq<u8> {
    bits.update(i / 8, bits[i / 8] | (1u8 << ((i % 8) as u8)))
}

/// `bits` after inserting `trigram`: both of its bits set.
pub open spec fn with_trigram(bits: Seq<u8>, trigram: Seq<u8>) -> Seq<u8> {
    with_bit(with_bit(bits, spec_bit_indices(trigram).0), spec_bit_indices(trigram).1)
}

/// `bits` after inserting every trigram of `trigrams`, first to last.
pub open spec fn with_trigrams(bits: Seq<u8>, trigrams: Seq<Seq<u8>>) -> Seq<u8>
    decreases trigrams.len(),
{
    if trigrams.len() == 0 {
        bits
    } else {
        with_trigram(with_trigrams(bits, trigrams.drop_last()), trigrams.last())
    }
}

/// Whether both bits of `trigram` are set.
pub open spec fn may_contain(bits: Seq<u8>, trigram: Seq<u8>) -> bool {
    bit_is_set(bits, spec_bit_indices(trigram).0) && bit_is_set(bits, spec_bit_indices(trigram).1)
}

/// Whether every trigram of `trigrams` may be contained.
pub open spec fn may_contain_all(bits: Seq<u8>, trigrams: Seq<Seq<u8>>) -> bool {
    forall|k: int| 0 <= k < trigrams.len() ==> may_contain(bits, #[trigger] trigrams[k])
}

/// Number of set bits in one byte.
pub open spec fn byte_popcount(b: u8) -> nat {
    ((b & 1u8) + ((b >> 1u8) & 1u8) + ((b >> 2u8) & 1u8) + ((b >> 3u8) & 1u8) + ((b >> 4u8) & 1u8)
        + ((b >> 5u8) & 1u8) + ((b >> 6u8) & 1u8) + ((b >> 7u8) & 1u8)) as nat
}

/// Number of set bits in a byte sequence.
pub open spec fn popcount(bits: Seq<u8>) -> nat
    decreases bits.len(),
{
    if bits.len() == 0 {
        0
    } else {
        popcount(bits.drop_last()) + byte_popcount(bits.last())
    }
}

/// A small, fixed-size Bloom filter for trigram membership tests.
///
/// It gives no false negatives for inserted trigrams and may give false
/// positives for trigrams that were not inserted.
#[derive(Debug, Clone, PartialEq, Eq)]
pub struct BloomFilter {
    bits: [u8; BLOOM_BYTES],
}

impl View for BloomFilter {
    type V = Seq<u8>;

    closed spec fn view(&self) -> Seq<u8> {
        self.bits@
    }
}

impl BloomFilter {
    /// Every filter holds exactly `BLOOM_BYTES` bytes.
    pub proof fn lemma_len(&self)
        ensures
            self@.len() == BLOOM_BYTES,
    {
    }

    /// Create a new, empty `BloomFilter` with all bits cleared.
    pub fn new() -> (f: Self)
        ensures
            f@ == Seq::new(BLOOM_BYTES as nat, |i: int| 0u8),
    {
        let f = BloomFilter { bits: [0u8; BLOOM_BYTES] };
        assert(f@ =~= Seq::new(BLOOM_BYTES as nat, |i: int| 0u8));
        f
    }

}

impl Default for BloomFilter {
    /// The empty filter, as `BloomFilter::new` makes it.
    fn default() -> (f: Self)
        ensures
            f@ == Seq::new(BLOOM_BYTES as nat, |i: int| 0u8),
    {
        Self::new()
    }
}

impl BloomFilter {
    /// Insert a 3-byte `trigram`: set its two bits. Idempotent.
    pub fn insert(&mut self, trigram: &[u8; 3])
        ensures
            final(self)@ == with_trigram(old(self)@, trigram@),
    {
        let (i1, i2) = bit_indices(trigram);
        let b1 = i1 / 8;
        let o1 = (i1 % 8) as u8;
        self.bits[b1] = self.bits[b1] | (1u8 << o1);
        let b2 = i2 / 8;
        let o2 = (i2 % 8) as u8;
        self.bits[b2] = self.bits[b2] | (1u8 << o2);
        assert(self@ =~= with_trigram(old(self)@, trigram@));
    }

    /// Whether `trigram` is probably present: both of its bits are set.
    pub fn probably_contains(&self, trigram: &[u8; 3]) -> (r: bool)
        ensures
            r == may_contain(self@, trigram@),
    {
        let (i1, i2) = bit_indices(trigram);
        let b1 = i1 / 8;
        let o1 = (i1 % 8) as u8;
        if ((self.bits[b1] >> o1) & 1u8) != 1u8 {
            return false;
        }
        let b2 = i2 / 8;
        let o2 = (i2 % 8) as u8;
        ((self.bits[b2] >> o2) & 1u8) == 1u8
    }

    /// Insert a batch of trigrams, first to last.
    pub fn insert_trigrams(&mut self, trigrams: &[[u8; 3]])
        ensures
            final(self)@ == with_trigrams(old(self)@, seq_views(trigrams@)),
    {
        let n = trigrams.len();
        let mut k: usize = 0;
        assert(seq_views(trigrams@).take(0) =~= Seq::<Seq<u8>>::empty());
        while k < n
            invariant
                n == trigrams@.len(),
                k <= n,
                self@ == with_trigrams(old(self)@, seq_views(trigrams@).take(k as int)),
            decreases n - k,
        {
            self.insert(&trigrams[k]);
            assert(seq_views(trigrams@).take(k as int + 1).drop_last() =~= seq_views(
                trigrams@,
            ).take(k as int));
            k = k + 1;
        }
        assert(seq_views(trigrams@).take(n as int) =~= seq_views(trigrams@));
    }

    /// Whether every trigram of `trigrams` is probably present.
    pub fn probably_contains_all(&self, trigrams: &[[u8; 3]]) -> (r: bool)
        ensures
            r == may_contain_all(self@, seq_views(trigrams@)),
    {
        let n = trigrams.len();
        let mut k: usize = 0;
        while k < n
            invariant
                n == trigrams@.len(),
                k <= n,
                forall|j: int| 0 <= j < k ==> may_contain(self@, #[trigger] trigrams@[j]@),
            decreases n - k,
        {
            if !self.probably_contains(&trigrams[k]) {
                assert(seq_views(trigrams@)[k as int] == trigrams@[k as int]@);
                return false;
            }
            k = k + 1;
        }
        assert forall|j: int| 0 <= j < seq_views(trigrams@).len() implies may_contain(
            self@,
            #[trigger] seq_views(trigrams@)[j],
        ) by {
            assert(seq_views(trigrams@)[j] == trigrams@[j]@);
        }
        true
    }

    /// The filter's bytes.
    pub fn to_bytes(&self) -> (r: [u8; BLOOM_BYTES])
        ensures
            r@ == self@,
    {
        self.bits
    }

    /// The filter whose bytes are `bytes`.
    pub fn from_bytes(bytes: [u8; BLOOM_BYTES]) -> (f: Self)
        ensures
            f@ == bytes@,
    {
        BloomFilter { bits: bytes }
    }

    /// Number of bits currently set in the filter.
    pub fn bit_count(&self) -> (r: usize)
        ensures
            r == popcount(self@),
    {
        let mut total: usize = 0;
        let mut k: usize = 0;
        while k < BLOOM_BYTES
            invariant
                k <= BLOOM_BYTES,
                self@.len() == BLOOM_BYTES,
                total == popcount(self@.take(k as int)),
                total <= 8 * k,
            decreases BLOOM_BYTES - k,
        {
            let b = self.bits[k];
            let c = byte_count_ones(b);
            assert(self@.take(k as int + 1).drop_last() =~= self@.take(k as int));
            total = total + c as usize;
            k = k + 1;
        }
        assert(self@.take(BLOOM_BYTES as int) =~= self@);
        total
    }
}

/// The views of a sequence of trigram arrays.
pub open spec fn seq_views(v: Seq<[u8; 3]>) -> Seq<Seq<u8>> {
    Seq::new(v.len(), |i: int| v[i]@)
}

fn byte_count_ones(b: u8) -> (r: u8)
    ensures
        r == byte_popcount(b),
        r <= 8,
{
    assert((b & 1u8) <= 1u8 && ((b >> 1u8) & 1u8) <= 1u8 && ((b >> 2u8) & 1u8) <= 1u8 && ((b
        >> 3u8) & 1u8) <= 1u8 && ((b >> 4u8) & 1u8) <= 1u8 && ((b >> 5u8) & 1u8) <= 1u8 && ((b
        >> 6u8) & 1u8) <= 1u8 && ((b >> 7u8) & 1u8) <= 1u8) by (bit_vector);
    (b & 1u8) + ((b >> 1u8) & 1u8) + ((b >> 2u8) & 1u8) + ((b >> 3u8) & 1u8) + ((b >> 4u8) & 1u8)
        + ((b >> 5u8) & 1u8) + ((b >> 6u8) & 1u8) + ((b >> 7u8) & 1u8)
}

/// FNV-1a (32-bit) of `bytes` with the standard offset basis.
pub fn fnv1a_32(bytes: &[u8]) -> (h: u32)
    ensures
        h == fnv1a(FNV_SEED_PRIMARY, bytes@),
{
    fnv1a_seeded(FNV_SEED_PRIMARY, bytes)
}

/// FNV-1a (32-bit) of `bytes` with the secondary seed.
pub fn fnv1a_32_alt(bytes: &[u8]) -> (h: u32)
    ensures
        h == fnv1a(FNV_SEED_SECONDARY, bytes@),
{
    fnv1a_seeded(FNV_SEED_SECONDARY, bytes)
}

fn fnv1a_seeded(seed: u32, bytes: &[u8]) -> (h: u32)
    ensures
        h == fnv1a(seed, bytes@),
{
    let mut hash: u32 = seed;
    let n = bytes.len();
    let mut k: usize = 0;
    while k < n
        invariant
            n == bytes@.len(),
            k <= n,
            hash == fnv1a(seed, bytes@.take(k as int)),
        decreases n - k,
    {
        let mixed: u32 = hash ^ (bytes[k] as u32);
        hash = mixed.wrapping_mul(FNV_PRIME);
        assert(bytes@.take(k as int + 1).drop_last() =~= bytes@.take(k as int));
        k = k + 1;
    }
    assert(bytes@.take(n as int) =~= bytes@);
    hash
}

/// The two bit positions of `trigram`, each below `BLOOM_BITS`.
pub fn bit_indices(trigram: &[u8; 3]) -> (r: (usize, usize))
    ensures
        r.0 as int == spec_bit_indices(trigram@).0,
        r.1 as int == spec_bit_indices(trigram@).1,
        r.0 < BLOOM_BITS,
        r.1 < BLOOM_BITS,
{
    let s = trigram.as_slice();
    let h1 = (fnv1a_32(s) % 4096u32) as usize;
    let h2 = (fnv1a_32_alt(s) % 4096u32) as usize;
    (h1, h2)
}

proof fn lemma_byte_set_bit(x: u8, o: u8, k: u8)
    requires
        o < 8,
        k < 8,
    ensures
        (((x | (1u8 << o)) >> k) & 1u8 == 1u8) == (k == o || (x >> k) & 1u8 == 1u8),
{
    assert((((x | (1u8 << o)) >> k) & 1u8 == 1u8) == (k == o || (x >> k) & 1u8 == 1u8))
        by (bit_vector)
        requires
            o < 8,
            k < 8,
    ;
}

proof fn lemma_byte_ext(x: u8, y: u8)
    requires
        forall|k: u8| k < 8 ==> (((x >> k) & 1u8 == 1u8) == ((y >> k) & 1u8 == 1u8)),
    ensures
        x == y,
{
    let e0 = ((x >> 0u8) & 1u8 == 1u8) == ((y >> 0u8) & 1u8 == 1u8);
    let e1 = ((x >> 1u8) & 1u8 == 1u8) == ((y >> 1u8) & 1u8 == 1u8);
    let e2 = ((x >> 2u8) & 1u8 == 1u8) == ((y >> 2u8) & 1u8 == 1u8);
    let e3 = ((x >> 3u8) & 1u8 == 1u8) == ((y >> 3u8) & 1u8 == 1u8);
    let e4 = ((x >> 4u8) & 1u8 == 1u8) == ((y >> 4u8) & 1u8 == 1u8);
    let e5 = ((x >> 5u8) & 1u8 == 1u8) == ((y >> 5u8) & 1u8 == 1u8);
    let e6 = ((x >> 6u8) & 1u8 == 1u8) == ((y >> 6u8) & 1u8 == 1u8);
    let e7 = ((x >> 7u8) & 1u8 == 1u8) == ((y >> 7u8) & 1u8 == 1u8);
    assert(e0 && e1 && e2 && e3 && e4 && e5 && e6 && e7);
    assert(x == y) by (bit_vector)
        requires
            ((x >> 0u8) & 1u8 == 1u8) == ((y >> 0u8) & 1u8 == 1u8),
            ((x >> 1u8) & 1u8 == 1u8) == ((y >> 1u8) & 1u8 == 1u8),
            ((x >> 2u8) & 1u8 == 1u8) == ((y >> 2u8) & 1u8 == 1u8),
            ((x >> 3u8) & 1u8 == 1u8) == ((y >> 3u8) & 1u8 == 1u8),
            ((x >> 4u8) & 1u8 == 1u8) == ((y >> 4u8) & 1u8 == 1u8),
            ((x >> 5u8) & 1u8 == 1u8) == ((y >> 5u8) & 1u8 == 1u8),
            ((x >> 6u8) & 1u8 == 1u8) == ((y >> 6u8) & 1u8 == 1u8),
            ((x >> 7u8) & 1u8 == 1u8) == ((y >> 7u8) & 1u8 == 1u8),
    ;
}

/// Setting bit `i` sets exactly that bit and leaves every other bit as it was.
pub proof fn lemma_with_bit(bits: Seq<u8>, i: int, j: int)
    requires
        bits.len() == BLOOM_BYTES,
        0 <= i < BLOOM_BITS,
        0 <= j < BLOOM_BITS,
    ensures
        with_bit(bits, i).len() == BLOOM_BYTES,
        bit_is_set(with_bit(bits, i), j) == (j == i || bit_is_set(bits, j)),
{
    if j / 8 == i / 8 {
        lemma_byte_set_bit(bits[i / 8], (i % 8) as u8, (j % 8) as u8);
    }
}

/// Two filters with the same bits are the same filter.
pub proof fn lemma_bits_ext(a: Seq<u8>, b: Seq<u8>)
    requires
        a.len() == BLOOM_BYTES,
        b.len() == BLOOM_BYTES,
        forall|i: int| 0 <= i < BLOOM_BITS ==> bit_is_set(a, i) == bit_is_set(b, i),
    ensures
        a == b,
{
    assert forall|q: int| 0 <= q < BLOOM_BYTES implies a[q] == b[q] by {
        assert forall|k: u8| k < 8 implies (((a[q] >> k) & 1u8 == 1u8) == ((b[q] >> k) & 1u8
            == 1u8)) by {
            let i = 8 * q + k as int;
            assert(i / 8 == q && i % 8 == k as int);
            assert(bit_is_set(a, i) == bit_is_set(b, i));
        }
        lemma_byte_ext(a[q], b[q]);
    }
    assert(a =~= b);
}

/// Inserting a trigram sets its two bits and no others.
pub proof fn lemma_with_trigram_bits(bits: Seq<u8>, t: Seq<u8>, j: int)
    requires
        bits.len() == BLOOM_BYTES,
        0 <= j < BLOOM_BITS,
    ensures
        with_trigram(bits, t).len() == BLOOM_BYTES,
        bit_is_set(with_trigram(bits, t), j) == (j == spec_bit_indices(t).0 || j
            == spec_bit_indices(t).1 || bit_is_set(bits, j)),
{
    let (i1, i2) = spec_bit_indices(t);
    lemma_with_bit(bits, i1, j);
    lemma_with_bit(with_bit(bits, i1), i2, j);
}

/// No false negatives: a trigram is reported present right after it is inserted.
pub proof fn law_inserted_is_contained(bits: Seq<u8>, t: Seq<u8>)
    requires
        bits.len() == BLOOM_BYTES,
    ensures
        may_contain(with_trigram(bits, t), t),
{
    let (i1, i2) = spec_bit_indices(t);
    lemma_with_trigram_bits(bits, t, i1);
    lemma_with_trigram_bits(bits, t, i2);
}

/// Inserting never clears a bit, so whatever was reported present stays present.
pub proof fn law_insert_keeps_members(bits: Seq<u8>, t: Seq<u8>, u: Seq<u8>)
    requires
        bits.len() == BLOOM_BYTES,
        may_contain(bits, u),
    ensures
        may_contain(with_trigram(bits, t), u),
{
    let (j1, j2) = spec_bit_indices(u);
    lemma_with_trigram_bits(bits, t, j1);
    lemma_with_trigram_bits(bits, t, j2);
}

/// Setting bits of a byte never lowers its number of set bits.
proof fn lemma_byte_popcount_or(b: u8, m: u8)
    ensures
        byte_popcount(b | m) >= byte_popcount(b),
{
    assert(((b | m) & 1u8) >= (b & 1u8) && (((b | m) >> 1u8) & 1u8) >= ((b >> 1u8) & 1u8) && (((b | m) >> 2u8)
        & 1u8) >= ((b >> 2u8) & 1u8) && (((b | m) >> 3u8) & 1u8) >= ((b >> 3u8) & 1u8) && (((b | m) >> 4u8) & 1u8)
        >= ((b >> 4u8) & 1u8) && (((b | m) >> 5u8) & 1u8) >= ((b >> 5u8) & 1u8) && (((b | m) >> 6u8) & 1u8) >= ((b
        >> 6u8) & 1u8) && (((b | m) >> 7u8) & 1u8) >= ((b >> 7u8) & 1u8)) by (bit_vector);
}

/// Replacing a byte by one with at least as many set bits never lowers the
/// number of set bits of the sequence.
proof fn lemma_popcount_update_grows(bits: Seq<u8>, j: int, x: u8)
    requires
        0 <= j < bits.len(),
        byte_popcount(x) >= byte_popcount(bits[j]),
    ensures
        popcount(bits.update(j, x)) >= popcount(bits),
    decreases bits.len(),
{
    if j == bits.len() - 1 {
        assert(bits.update(j, x).drop_last() =~= bits.drop_last());
    } else {
        lemma_popcount_update_grows(bits.drop_last(), j, x);
        assert(bits.update(j, x).drop_last() =~= bits.drop_last().update(j, x));
    }
}

/// Setting a bit never lowers the number of set bits.
proof fn lemma_with_bit_grows(bits: Seq<u8>, i: int)
    requires
        bits.len() == BLOOM_BYTES,
        0 <= i < BLOOM_BITS,
    ensures
        popcount(with_bit(bits, i)) >= popcount(bits),
        with_bit(bits, i).len() == BLOOM_BYTES,
{
    lemma_byte_popcount_or(bits[i / 8], 1u8 << ((i % 8) as u8));
    lemma_popcount_update_grows(bits, i / 8, bits[i / 8] | (1u8 << ((i % 8) as u8)));
}

/// Inserting a trigram never lowers the number of set bits: a filter only
/// fills up, so the false-positive rate estimated from its bit count never
/// falls as trigrams are inserted.
pub proof fn law_insert_never_lowers_bit_count(bits: Seq<u8>, t: Seq<u8>)
    requires
        bits.len() == BLOOM_BYTES,
    ensures
        popcount(with_trigram(bits, t)) >= popcount(bits),
{
    let (i1, i2) = spec_bit_indices(t);
    lemma_with_bit_grows(bits, i1);
    lemma_with_bit_grows(with_bit(bits, i1), i2);
}

/// Inserting a trigram twice has the same effect as inserting it once.
pub proof fn law_insert_idempotent(bits: Seq<u8>, t: Seq<u8>)
    requires
        bits.len() == BLOOM_BYTES,
    ensures
        with_trigram(with_trigram(bits, t), t) == with_trigram(bits, t),
{
    let once = with_trigram(bits, t);
    assert forall|j: int| 0 <= j < BLOOM_BITS implies bit_is_set(with_trigram(once, t), j)
        == bit_is_set(once, j) by {
        lemma_with_trigram_bits(bits, t, j);
        lemma_with_trigram_bits(once, t, j);
    }
    lemma_with_trigram_bits(bits, t, 0);
    lemma_with_trigram_bits(once, t, 0);
    lemma_bits_ext(with_trigram(once, t), once);
}

/// The order of insertions does not matter.
pub proof fn law_insert_commutes(bits: Seq<u8>, t: Seq<u8>, u: Seq<u8>)
    requires
        bits.len() == BLOOM_BYTES,
    ensures
        with_trigram(with_trigram(bits, t), u) == with_trigram(with_trigram(bits, u), t),
{
    let tu = with_trigram(with_trigram(bits, t), u);
    let ut = with_trigram(with_trigram(bits, u), t);
    assert forall|j: int| 0 <= j < BLOOM_BITS implies bit_is_set(tu, j) == bit_is_set(ut, j) by {
        lemma_with_trigram_bits(bits, t, j);
        lemma_with_trigram_bits(with_trigram(bits, t), u, j);
        lemma_with_trigram_bits(bits, u, j);
        lemma_with_trigram_bits(with_trigram(bits, u), t, j);
    }
    lemma_with_trigram_bits(bits, t, 0);
    lemma_with_trigram_bits(with_trigram(bits, t), u, 0);
    lemma_with_trigram_bits(bits, u, 0);
    lemma_with_trigram_bits(with_trigram(bits, u), t, 0);
    lemma_bits_ext(tu, ut);
}

/// A batch insertion keeps the filter's size.
pub proof fn lemma_with_trigrams_len(bits: Seq<u8>, ts: Seq<Seq<u8>>)
    requires
        bits.len() == BLOOM_BYTES,
    ensures
        with_trigrams(bits, ts).len() == BLOOM_BYTES,
    decreases ts.len(),
{
    if ts.len() > 0 {
        lemma_with_trigrams_len(bits, ts.drop_last());
        lemma_with_trigram_bits(with_trigrams(bits, ts.drop_last()), ts.last(), 0);
    }
}

/// No false negatives for a batch: after inserting a list of trigrams, each of
/// them, and each trigram present before, is reported present.
pub proof fn law_batch_no_false_negatives(bits: Seq<u8>, ts: Seq<Seq<u8>>, u: Seq<u8>)
    requires
        bits.len() == BLOOM_BYTES,
        ts.contains(u) || may_contain(bits, u),
    ensures
        may_contain(with_trigrams(bits, ts), u),
    decreases ts.len(),
{
    if ts.len() > 0 {
        let prev = with_trigrams(bits, ts.drop_last());
        lemma_with_trigrams_len(bits, ts.drop_last());
        if u == ts.last() {
            law_inserted_is_contained(prev, u);
        } else {
            if ts.contains(u) {
                let k = choose|k: int| 0 <= k < ts.len() && ts[k] == u;
                assert(ts.drop_last()[k] == u);
            }
            law_batch_no_false_negatives(bits, ts.drop_last(), u);
            law_insert_keeps_members(prev, ts.last(), u);
        }
    }
}

/// A fresh filter reports nothing present.
pub proof fn law_empty_contains_nothing(t: Seq<u8>)
    ensures
        !may_contain(Seq::new(BLOOM_BYTES as nat, |i: int| 0u8), t),
{
    let z = Seq::new(BLOOM_BYTES as nat, |i: int| 0u8);
    let i1 = spec_bit_indices(t).0;
    assert(z[i1 / 8] == 0u8);
    let o = (i1 % 8) as u8;
    assert((0u8 >> o) & 1u8 == 0u8) by (bit_vector);
}

/// A fresh filter has no bit set.
pub proof fn law_empty_popcount(n: nat)
    ensures
        popcount(Seq::new(n, |i: int| 0u8)) == 0,
    decreases n,
{
    if n > 0 {
        assert(Seq::new(n, |i: int| 0u8).drop_last() =~= Seq::new((n - 1) as nat, |i: int| 0u8));
        law_empty_popcount((n - 1) as nat);
        assert(byte_popcount(0u8) == 0) by (bit_vector);
    }
}


/// Setting bit `o` of a byte adds one set bit when it was clear, none when it
/// was set.
proof fn lemma_byte_popcount_set(b: u8, o: u8)
    requires
        o < 8,
    ensures
        byte_popcount(b | (1u8 << o)) == byte_popcount(b) + (if (b >> o) & 1u8 == 1u8 { 0nat } else { 1nat }),
{
    assert(((b | (1u8 << o)) & 1u8) + (((b | (1u8 << o)) >> 1u8) & 1u8) + (((b | (1u8 << o)) >> 2u8) & 1u8) + (((b
        | (1u8 << o)) >> 3u8) & 1u8) + (((b | (1u8 << o)) >> 4u8) & 1u8) + (((b | (1u8 << o)) >> 5u8) & 1u8) + (((b
        | (1u8 << o)) >> 6u8) & 1u8) + (((b | (1u8 << o)) >> 7u8) & 1u8) == (b & 1u8) + ((b >> 1u8) & 1u8) + ((b
        >> 2u8) & 1u8) + ((b >> 3u8) & 1u8) + ((b >> 4u8) & 1u8) + ((b >> 5u8) & 1u8) + ((b >> 6u8) & 1u8) + ((b
        >> 7u8) & 1u8) + (if (b >> o) & 1u8 == 1u8 { 0u8 } else { 1u8 })) by (bit_vector)
        requires
            o < 8,
    ;
}

/// A byte with a set bit has at least one set bit.
proof fn lemma_byte_popcount_pos(b: u8, o: u8)
    requires
        o < 8,
        (b >> o) & 1u8 == 1u8,
    ensures
        byte_popcount(b) >= 1,
{
    assert((b & 1u8) + ((b >> 1u8) & 1u8) + ((b >> 2u8) & 1u8) + ((b >> 3u8) & 1u8) + ((b >> 4u8) & 1u8) + ((b
        >> 5u8) & 1u8) + ((b >> 6u8) & 1u8) + ((b >> 7u8) & 1u8) >= 1) by (bit_vector)
        requires
            o < 8,
            (b >> o) & 1u8 == 1u8,
    ;
}

/// Replacing byte `j` changes the number of set bits by the difference of
/// the two bytes' counts.
proof fn lemma_popcount_update(bits: Seq<u8>, j: int, x: u8)
    requires
        0 <= j < bits.len(),
    ensures
        popcount(bits.update(j, x)) + byte_popcount(bits[j]) == popcount(bits) + byte_popcount(x),
    decreases bits.len(),
{
    if j == bits.len() - 1 {
        assert(bits.update(j, x).drop_last() =~= bits.drop_last());
    } else {
        lemma_popcount_update(bits.drop_last(), j, x);
        assert(bits.update(j, x).drop_last() =~= bits.drop_last().update(j, x));
    }
}

/// The number of set bits is at least the number in any one byte.
proof fn lemma_popcount_ge_byte(bits: Seq<u8>, j: int)
    requires
        0 <= j < bits.len(),
    ensures
        popcount(bits) >= byte_popcount(bits[j]),
    decreases bits.len(),
{
    if j < bits.len() - 1 {
        lemma_popcount_ge_byte(bits.drop_last(), j);
    }
}

/// Setting bit `i` adds one set bit when it was clear, none when it was set.
proof fn lemma_with_bit_count(bits: Seq<u8>, i: int)
    requires
        bits.len() == BLOOM_BYTES,
        0 <= i < BLOOM_BITS,
    ensures
        popcount(with_bit(bits, i)) == popcount(bits) + (if bit_is_set(bits, i) { 0nat } else { 1nat }),
{
    lemma_byte_popcount_set(bits[i / 8], (i % 8) as u8);
    lemma_popcount_update(bits, i / 8, bits[i / 8] | (1u8 << ((i % 8) as u8)));
}

/// Inserting never clears a bit: every bit set before is set after.
pub proof fn law_insert_never_clears_bits(bits: Seq<u8>, t: Seq<u8>, j: int)
    requires
        bits.len() == BLOOM_BYTES,
        0 <= j < BLOOM_BITS,
        bit_is_set(bits, j),
    ensures
        bit_is_set(with_trigram(bits, t), j),
{
    lemma_with_trigram_bits(bits, t, j);
}

/// Inserting a trigram adds at most two set bits, and none when the trigram
/// is already reported present.
pub proof fn law_insert_adds_at_most_two_bits(bits: Seq<u8>, t: Seq<u8>)
    requires
        bits.len() == BLOOM_BYTES,
    ensures
        popcount(bits) <= popcount(with_trigram(bits, t)) <= popcount(bits) + 2,
        may_contain(bits, t) ==> popcount(with_trigram(bits, t)) == popcount(bits),
{
    let (i1, i2) = spec_bit_indices(t);
    lemma_with_bit_count(bits, i1);
    lemma_with_bit(bits, i1, i2);
    lemma_with_bit_count(with_bit(bits, i1), i2);
}

/// A filter with a bit set has at least one set bit.
proof fn lemma_set_bit_counts(bits: Seq<u8>, i: int)
    requires
        bits.len() == BLOOM_BYTES,
        0 <= i < BLOOM_BITS,
        bit_is_set(bits, i),
    ensures
        popcount(bits) >= 1,
{
    lemma_byte_popcount_pos(bits[i / 8], (i % 8) as u8);
    lemma_popcount_ge_byte(bits, i / 8);
}

/// After inserting a list of trigrams into a filter, it has at most two more
/// set bits per distinct trigram of the list.
pub proof fn law_batch_bit_count_bound(bits: Seq<u8>, ts: Seq<Seq<u8>>)
    requires
        bits.len() == BLOOM_BYTES,
    ensures
        popcount(bits) <= popcount(with_trigrams(bits, ts)) <= popcount(bits) + 2 * first_occurrences(ts).len(),
    decreases ts.len(),
{
    if ts.len() > 0 {
        let init = ts.drop_last();
        law_batch_bit_count_bound(bits, init);
        lemma_with_trigrams_len(bits, init);
        let prev = with_trigrams(bits, init);
        law_insert_adds_at_most_two_bits(prev, ts.last());
        if first_occurrences(init).contains(ts.last()) {
            crate::trigram::law_unique_same_members(init, ts.last());
            law_batch_no_false_negatives(bits, init, ts.last());
        }
    }
}

/// A fresh filter after inserting a non-empty list of `n` distinct
/// trigrams has between 1 and `2 * n` set bits (and never more than
/// `BLOOM_BITS`).
pub proof fn law_fresh_bit_count_bounds(ts: Seq<Seq<u8>>)
    requires
        ts.len() > 0,
    ensures
        1 <= popcount(with_trigrams(Seq::new(BLOOM_BYTES as nat, |i: int| 0u8), ts)),
        popcount(with_trigrams(Seq::new(BLOOM_BYTES as nat, |i: int| 0u8), ts)) <= 2 * first_occurrences(ts).len(),
        popcount(with_trigrams(Seq::new(BLOOM_BYTES as nat, |i: int| 0u8), ts)) <= BLOOM_BITS,
{
    let z = Seq::new(BLOOM_BYTES as nat, |i: int| 0u8);
    law_empty_popcount(BLOOM_BYTES as nat);
    law_batch_bit_count_bound(z, ts);
    lemma_with_trigrams_len(z, ts);
    let full = with_trigrams(z, ts);
    assert(ts.contains(ts.last()));
    law_batch_no_false_negatives(z, ts, ts.last());
    lemma_set_bit_counts(full, spec_bit_indices(ts.last()).0);
    lemma_popcount_bounded(full);
}

/// A byte sequence has at most eight set bits per byte.
proof fn lemma_popcount_bounded(bits: Seq<u8>)
    ensures
        popcount(bits) <= 8 * bits.len(),
    decreases bits.len(),
{
    if bits.len() > 0 {
        lemma_popcount_bounded(bits.drop_last());
        let b = bits.last();
        assert((b & 1u8) + ((b >> 1u8) & 1u8) + ((b >> 2u8) & 1u8) + ((b >> 3u8) & 1u8) + ((b >> 4u8) & 1u8) + ((b
            >> 5u8) & 1u8) + ((b >> 6u8) & 1u8) + ((b >> 7u8) & 1u8) <= 8) by (bit_vector);
    }
}


/// `bits` after a series of insertions, each a list of trigrams (a single
/// `insert` being a list of one), first to last.
pub open spec fn with_batches(bits: Seq<u8>, batches: Seq<Seq<Seq<u8>>>) -> Seq<u8>
    decreases batches.len(),
{
    if batches.len() == 0 {
        bits
    } else {
        with_trigrams(with_batches(bits, batches.drop_last()), batches.last())
    }
}

/// A series of insertions keeps the filter's size.
proof fn lemma_with_batches_len(bits: Seq<u8>, batches: Seq<Seq<Seq<u8>>>)
    requires
        bits.len() == BLOOM_BYTES,
    ensures
        with_batches(bits, batches).len() == BLOOM_BYTES,
    decreases batches.len(),
{
    if batches.len() > 0 {
        lemma_with_batches_len(bits, batches.drop_last());
        lemma_with_trigrams_len(with_batches(bits, batches.drop_last()), batches.last());
    }
}

/// No false negatives over any series of insertions: a trigram that one of
/// them inserted, or that was present before, is reported present after all
/// of them.
pub proof fn law_batches_no_false_negatives(bits: Seq<u8>, batches: Seq<Seq<Seq<u8>>>, t: Seq<u8>)
    requires
        bits.len() == BLOOM_BYTES,
        may_contain(bits, t) || exists|k: int| 0 <= k < batches.len() && (#[trigger] batches[k]).contains(t),
    ensures
        may_contain(with_batches(bits, batches), t),
    decreases batches.len(),
{
    if batches.len() > 0 {
        let init = batches.drop_last();
        lemma_with_batches_len(bits, init);
        let prev = with_batches(bits, init);
        if batches.last().contains(t) {
            law_batch_no_false_negatives(prev, batches.last(), t);
        } else {
            let k = choose|k: int| 0 <= k < batches.len() && (#[trigger] batches[k]).contains(t);
            if may_contain(bits, t) {
                law_batches_no_false_negatives(bits, init, t);
            } else {
                assert(k < batches.len() - 1);
                assert(init[k] == batches[k]);
                law_batches_no_false_negatives(bits, init, t);
            }
            law_batch_no_false_negatives(prev, batches.last(), t);
        }
    }
}

} // verus!
