use dora::index::{
    check_manifest_version, index_path_for_root, IndexEntry, IndexManifest, INDEX_FORMAT_VERSION,
};
use dora::indexer::{
    assemble_manifest, contains_string, index_entry_from_source, index_report, is_fresh,
    language_label, parse_language, removed_entries, reusable_entry_for, stale_store_paths,
};
use dora::bloom::BloomFilter;
use dora::trigram::extract_query_trigrams;
use dora::types::{AppError, LangMode, Language};

fn entry(path: &str, mtime: u64, size: u64, lang: &str) -> IndexEntry {
    IndexEntry {
        path: path.to_string(),
        mtime_secs: mtime,
        file_size_bytes: size,
        bloom_bits: vec![],
        language: lang.to_string(),
    }
}

#[test]
fn test_index_path_for_root() {
    let p = index_path_for_root("/tmp/myrepo");
    assert_eq!(p, "/tmp/myrepo/.doora-index".to_string());
}

#[test]
fn test_index_manifest_new() {
    let m = IndexManifest::new("/tmp/test".to_string());
    assert_eq!(m.version, INDEX_FORMAT_VERSION);
    assert_eq!(m.root_path, "/tmp/test".to_string());
    assert!(m.entries.is_empty());
    assert!(m.indexed_at_secs > 0);
}

#[test]
fn test_upsert_entry_inserts_new() {
    let mut m = IndexManifest::new("/tmp/test".to_string());
    m.upsert_entry(entry("/tmp/a.rs", 1, 10, "rust"));
    assert_eq!(m.entries.len(), 1);
}

#[test]
fn test_upsert_entry_replaces_existing() {
    let mut m = IndexManifest::new("/tmp/test".to_string());
    m.upsert_entry(entry("/tmp/a.rs", 1, 10, "rust"));
    m.upsert_entry(entry("/tmp/a.rs", 42, 10, "rust"));
    assert_eq!(m.entries.len(), 1);
    assert_eq!(m.entries[0].mtime_secs, 42);
}

#[test]
fn test_find_entry_returns_correct() {
    let mut m = IndexManifest::new("/tmp/test".to_string());
    m.entries.push(entry("/tmp/a.rs", 1, 10, "rust"));
    m.entries.push(entry("/tmp/b.rs", 2, 20, "python"));
    m.entries.push(entry("/tmp/c.rs", 3, 30, "js"));
    let found = m.find_entry("/tmp/b.rs").unwrap();
    assert_eq!(found.path, "/tmp/b.rs".to_string());
}

#[test]
fn test_find_entry_returns_none_for_missing() {
    let m = IndexManifest::new("/tmp/test".to_string());
    let found = m.find_entry("/tmp/missing.rs");
    assert!(found.is_none());
}

#[test]
fn test_remove_stale_entries() {
    let mut m = IndexManifest::new("/tmp/test".to_string());
    m.entries.push(entry("/tmp/a.rs", 1, 10, "rust"));
    m.entries.push(entry("/tmp/b.rs", 2, 20, "python"));
    m.entries.push(entry("/tmp/c.rs", 3, 30, "js"));
    let set = vec!["/tmp/a.rs".to_string(), "/tmp/c.rs".to_string()];
    m.remove_stale_entries(&set);
    assert_eq!(m.entries.len(), 2);
    assert!(m.find_entry("/tmp/b.rs").is_none());
}

#[test]
fn test_index_entry_derives() {
    let e1 = IndexEntry {
        path: "/tmp/a.rs".to_string(),
        mtime_secs: 1,
        file_size_bytes: 10,
        bloom_bits: vec![1, 2, 3],
        language: "rust".to_string(),
    };
    let e2 = e1.clone();
    assert_eq!(e1, e2);
    let e3 = e1.clone();
    assert_eq!(e3, e1);
}

#[test]
fn test_version_mismatch_returns_error() {
    let mut m = IndexManifest::new("/tmp/test".to_string());
    m.version = 999;
    let res = check_manifest_version(m);
    assert_eq!(res, Err(AppError::IndexVersionMismatch { found: 999, expected: INDEX_FORMAT_VERSION }));
}

#[test]
fn current_version_is_accepted() {
    let m = IndexManifest::new("/tmp/test".to_string());
    let res = check_manifest_version(m.clone());
    assert_eq!(res, Ok(m));
}

#[test]
fn lookup_after_upsert_finds_the_entry() {
    let mut m = IndexManifest::new("/r".to_string());
    m.upsert_entry(entry("/r/x.rs", 5, 6, "rust"));
    m.upsert_entry(entry("/r/y.rs", 7, 8, "go"));
    m.upsert_entry(entry("/r/x.rs", 9, 6, "rust"));
    let found = m.find_entry("/r/x.rs").unwrap();
    assert_eq!(found.mtime_secs, 9);
    assert_eq!(m.find_entry("/r/y.rs").unwrap().language, "go".to_string());
}

#[test]
fn test_is_fresh_true_when_mtime_and_size_match() {
    let e = entry("/r/a.rs", 100, 13, "rust");
    assert!(is_fresh(&e, 100, 13));
}

#[test]
fn test_is_fresh_false_when_mtime_differs() {
    let e = entry("/r/a.rs", 101, 13, "rust");
    assert!(!is_fresh(&e, 100, 13));
}

#[test]
fn test_is_fresh_false_when_size_differs() {
    let e = entry("/r/a.rs", 100, 14, "rust");
    assert!(!is_fresh(&e, 100, 13));
}

#[test]
fn test_index_file_builds_bloom_filter() {
    let source = b"fn authenticate(user: &str) -> bool { true }\n";
    let e = index_entry_from_source("/r/a.rs".to_string(), 1, 2, "rust", source).unwrap();
    let bits: [u8; 512] = e.bloom_bits.clone().try_into().unwrap();
    let bf = BloomFilter::from_bytes(bits);
    let query = extract_query_trigrams("authenticate");
    assert!(bf.probably_contains_all(&query));
}

#[test]
fn test_index_file_language_field() {
    let e = index_entry_from_source("/r/b.rs".to_string(), 1, 2, "rust", b"fn main() {}\n").unwrap();
    assert_eq!(e.language, "rust");
    assert_eq!(e.path, "/r/b.rs");
    assert_eq!(e.mtime_secs, 1);
    assert_eq!(e.file_size_bytes, 2);
    assert_eq!(e.bloom_bits.len(), 512);
}

#[test]
fn entry_of_empty_source_has_empty_filter() {
    let e = index_entry_from_source("/r/e.rs".to_string(), 0, 0, "rust", b"").unwrap();
    assert!(e.bloom_bits.iter().all(|b| *b == 0));
}

#[test]
fn fresh_entry_is_reused_and_stale_one_is_not() {
    let mut m = IndexManifest::new("/r".to_string());
    m.entries.push(entry("/r/a.rs", 10, 20, "rust"));
    let kept = reusable_entry_for(&m, "/r/a.rs", 10, 20).unwrap();
    assert_eq!(kept, entry("/r/a.rs", 10, 20, "rust"));
    assert!(reusable_entry_for(&m, "/r/a.rs", 11, 20).is_none());
    assert!(reusable_entry_for(&m, "/r/other.rs", 10, 20).is_none());
}

#[test]
fn language_labels() {
    assert_eq!(language_label(&LangMode::Single(Language::TypeScript), "x.py"), "ts");
    assert_eq!(language_label(&LangMode::Auto, "src/main.py"), "python");
    assert_eq!(language_label(&LangMode::Auto, "README"), "unknown");
    assert_eq!(parse_language(&LangMode::Auto, "a.go"), Some(Language::Go));
    assert_eq!(parse_language(&LangMode::Auto, "a.txt"), None);
    assert_eq!(parse_language(&LangMode::Single(Language::C), "a.txt"), Some(Language::C));
}

#[test]
fn assembled_manifest_keeps_collected_entries() {
    let collected = vec![entry("/r/a.rs", 1, 1, "rust"), entry("/r/b.rs", 2, 2, "rust")];
    let m = assemble_manifest("/r".to_string(), collected);
    assert_eq!(m.root_path, "/r");
    assert_eq!(m.version, INDEX_FORMAT_VERSION);
    assert_eq!(m.entries.len(), 2);
    assert_eq!(m.entries[1].path, "/r/b.rs");
}

#[test]
fn stale_store_paths_are_those_not_current() {
    let stored = vec!["/r/a.rs".to_string(), "/r/gone.rs".to_string(), "/r/b.rs".to_string()];
    let current = vec!["/r/a.rs".to_string(), "/r/b.rs".to_string()];
    assert_eq!(stale_store_paths(&stored, &current), vec!["/r/gone.rs".to_string()]);
    assert!(contains_string(&current, "/r/b.rs"));
    assert!(!contains_string(&current, "/r/c.rs"));
}

#[test]
fn index_report_lines() {
    assert_eq!(index_report(3, 1, 0, 7, true), "indexed 3 files, skipped 1 fresh, removed 0 stale entries, extracted 7 symbols");
    assert_eq!(index_report(2, 0, 0, 0, false), "indexed 2 files, skipped 0 fresh, removed 0 stale entries");
}

#[test]
fn manifest_new_at_is_stamped_with_the_given_time() {
    let m = IndexManifest::new_at("/tmp/test".to_string(), 1_700_000_000);
    assert_eq!(m.version, INDEX_FORMAT_VERSION);
    assert_eq!(m.root_path, "/tmp/test");
    assert!(m.entries.is_empty());
    assert_eq!(m.indexed_at_secs, 1_700_000_000);
}

#[test]
fn removed_entries_counts_paths_gone_from_the_new_manifest() {
    let mut previous = IndexManifest::new("/r".to_string());
    previous.upsert_entry(entry("/r/a.rs", 1, 1, "rust"));
    previous.upsert_entry(entry("/r/b.rs", 1, 1, "rust"));
    previous.upsert_entry(entry("/r/c.rs", 1, 1, "rust"));
    let mut current = IndexManifest::new("/r".to_string());
    current.upsert_entry(entry("/r/b.rs", 2, 2, "rust"));
    current.upsert_entry(entry("/r/d.rs", 1, 1, "rust"));
    assert_eq!(removed_entries(&previous, &current), 2);
    assert_eq!(removed_entries(&current, &current), 0);
}
