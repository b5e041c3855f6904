use dora::bloom::{bit_indices, fnv1a_32, fnv1a_32_alt, BloomFilter, BLOOM_BYTES};
use dora::trigram::{extract_query_trigrams, extract_unique_trigrams};

#[test]
fn test_new_filter_all_zeros() {
    let f = BloomFilter::new();
    assert_eq!(f.to_bytes(), [0u8; BLOOM_BYTES]);
}

#[test]
fn default_filter_equals_new() {
    let d = BloomFilter::default();
    assert_eq!(d, BloomFilter::new());
    assert_eq!(d.bit_count(), 0);
}

#[test]
fn test_insert_sets_bits() {
    let mut f = BloomFilter::new();
    f.insert(&[b'f', b'n', b' ']);
    let count = f.bit_count();
    assert!(count > 0);
    assert!(count <= 2);
}

#[test]
fn test_probably_contains_after_insert() {
    let mut f = BloomFilter::new();
    let t = [b't', b'e', b's'];
    f.insert(&t);
    assert!(f.probably_contains(&t));
}

#[test]
fn test_probably_contains_false_for_empty() {
    let f = BloomFilter::new();
    assert!(!f.probably_contains(&[b'a', b'b', b'c']));
}

#[test]
fn test_zero_false_negatives_for_inserted_trigrams() {
    let mut f = BloomFilter::new();
    let source = "fn authenticate(user: &str) -> bool { true }";
    let trigrams = extract_unique_trigrams(source);
    f.insert_trigrams(&trigrams);
    for t in trigrams.iter() {
        assert!(f.probably_contains(t));
    }
}

#[test]
fn test_insert_trigrams_batch() {
    let mut f1 = BloomFilter::new();
    let mut f2 = BloomFilter::new();
    let trigrams = vec![[b'a', b'b', b'c'], [b'd', b'e', b'f']];
    f1.insert_trigrams(&trigrams);
    f2.insert(&[b'a', b'b', b'c']);
    f2.insert(&[b'd', b'e', b'f']);
    assert_eq!(f1, f2);
}

#[test]
fn test_probably_contains_all_true_when_all_inserted() {
    let mut f = BloomFilter::new();
    let a = [b'a', b'b', b'c'];
    let b = [b'd', b'e', b'f'];
    let c = [b'g', b'h', b'i'];
    f.insert(&a);
    f.insert(&b);
    f.insert(&c);
    assert!(f.probably_contains_all(&[a, b, c]));
}

#[test]
fn test_probably_contains_all_false_when_one_missing() {
    let mut f = BloomFilter::new();
    let a = [b'a', b'b', b'c'];
    let b = [b'd', b'e', b'f'];
    let c = [0xFFu8, 0xFEu8, 0xFDu8];
    f.insert(&a);
    f.insert(&b);
    assert!(!f.probably_contains_all(&[a, b, c]));
}

#[test]
fn test_to_bytes_from_bytes_roundtrip() {
    let mut f = BloomFilter::new();
    f.insert(&[b'a', b'b', b'c']);
    let bytes = f.to_bytes();
    let g = BloomFilter::from_bytes(bytes);
    assert_eq!(f, g);
}

#[test]
fn test_bit_count_increases_with_inserts() {
    let mut f = BloomFilter::new();
    assert_eq!(f.bit_count(), 0);
    f.insert(&[b'a', b'b', b'c']);
    let c1 = f.bit_count();
    assert!(c1 >= 1 && c1 <= 2);
    f.insert(&[b'd', b'e', b'f']);
    let c2 = f.bit_count();
    assert!(c2 <= 4);
}

#[test]
fn test_hash_functions_are_deterministic() {
    let t = [b'a', b'b', b'c'];
    let i1 = bit_indices(&t);
    let i2 = bit_indices(&t);
    assert_eq!(i1, i2);
}

#[test]
fn test_hash_functions_are_independent() {
    let samples = vec![
        [b'a', b'b', b'c'],
        [b'f', b'n', b' '],
        [b'g', b'o', b'o'],
        [b'h', b'e', b'y'],
        [b'r', b'u', b's'],
        [b't', b'e', b's'],
        [b'u', b'n', b'i'],
        [b'v', b'a', b'r'],
        [b'x', b'y', b'z'],
        [b'k', b'l', b'm'],
    ];
    let mut distinct = 0usize;
    for s in samples {
        let (a, b) = bit_indices(&s);
        if a != b {
            distinct += 1;
        }
    }
    assert!(distinct >= 8);
}

#[test]
fn test_full_pipeline_with_trigram_module() {
    let source = "fn authenticate(user: &str) -> bool { true }";
    let trigrams = extract_unique_trigrams(source);
    let mut f = BloomFilter::new();
    f.insert_trigrams(&trigrams);
    let query = extract_query_trigrams("authenticate");
    assert!(f.probably_contains_all(&query));
}

#[test]
fn test_bloom_filter_is_clone() {
    let f = BloomFilter::new();
    let _ = f.clone();
}

#[test]
fn fnv1a_known_values() {
    assert_eq!(fnv1a_32(b""), 0x811c9dc5);
    assert_eq!(fnv1a_32(b"a"), 0xe40c292c);
    assert_ne!(fnv1a_32(b"abc"), fnv1a_32_alt(b"abc"));
}

#[test]
fn bit_indices_within_filter() {
    let (a, b) = bit_indices(&[b'a', b'b', b'c']);
    assert!(a < BLOOM_BYTES * 8);
    assert!(b < BLOOM_BYTES * 8);
    assert_eq!(a, (fnv1a_32(b"abc") % 4096) as usize);
    assert_eq!(b, (fnv1a_32_alt(b"abc") % 4096) as usize);
}

#[test]
fn insert_is_idempotent() {
    let mut f = BloomFilter::new();
    f.insert(&[b'x', b'y', b'z']);
    let once = f.to_bytes();
    f.insert(&[b'x', b'y', b'z']);
    assert_eq!(once, f.to_bytes());
}

#[test]
fn insert_order_does_not_matter() {
    let mut f = BloomFilter::new();
    let mut g = BloomFilter::new();
    f.insert(&[b'a', b'b', b'c']);
    f.insert(&[b'q', b'r', b's']);
    g.insert(&[b'q', b'r', b's']);
    g.insert(&[b'a', b'b', b'c']);
    assert_eq!(f, g);
}

#[test]
fn bit_count_never_falls_while_inserting() {
    let mut filter = BloomFilter::new();
    let mut last = filter.bit_count();
    assert_eq!(last, 0);
    for text in ["fn main() {}", "let x = 1;", "fn main() {}", "struct S;"] {
        for t in text.as_bytes().windows(3) {
            filter.insert(&[t[0], t[1], t[2]]);
            let now = filter.bit_count();
            assert!(now >= last);
            assert!(now <= last + 2);
            last = now;
        }
    }
    assert!(last > 0);
}

fn estimate(f: &BloomFilter) -> f64 {
    let fraction = (f.bit_count() as f64) / (dora::bloom::BLOOM_BITS as f64);
    fraction.powi(dora::bloom::NUM_HASH_FUNCTIONS as i32)
}

#[test]
fn test_false_positive_estimate_zero_for_empty() {
    let f = BloomFilter::new();
    assert_eq!(estimate(&f), 0.0);
}

#[test]
fn test_false_positive_estimate_increases_with_inserts() {
    let mut f = BloomFilter::new();
    assert_eq!(estimate(&f), 0.0);
    for i in 0..500u16 {
        let t = [(i % 256) as u8, ((i + 1) % 256) as u8, ((i + 2) % 256) as u8];
        f.insert(&t);
    }
    let est = estimate(&f);
    assert!(est > 0.0 && est < 1.0);
}

#[test]
fn test_bloom_filter_size_is_512_bytes() {
    assert_eq!(std::mem::size_of::<BloomFilter>(), BLOOM_BYTES);
}
