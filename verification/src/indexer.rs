//! The decisions of an index build: when a recorded entry is still current,
//! what a fresh entry holds, which label a file's language gets, and how the
//! collected entries become the new manifest.
//!
//! Walking the tree, reading files and their metadata, and writing the
//! manifest and the symbol store happen outside the library.

use crate::bloom::{seq_views, with_trigrams, BloomFilter, BLOOM_BYTES};
use crate::index::{first_match, kept_entries, string_views, IndexEntry, IndexManifest};
use crate::parser::{detect_language, language_name, spec_detect_language, spec_language_name};
use crate::text::{decimal, push_decimal, push_str};
use crate::trigram::{all_windows, extract_unique_trigrams_from_bytes, first_occurrences};
use crate::types::{LangMode, Language};
use vstd::prelude::*;

verus! {

/// Two entries that hold the same values.
pub open spec fn same_entry(a: IndexEntry, b: IndexEntry) -> bool {
    &&& a.path@ == b.path@
    &&& a.mtime_secs == b.mtime_secs
    &&& a.file_size_bytes == b.file_size_bytes
    &&& a.bloom_bits@ == b.bloom_bits@
    &&& a.language@ == b.language@
}

/// The Bloom filter bytes of a file whose content is `bytes`: every distinct
/// trigram inserted into an empty filter, in order of first appearance.
pub open spec fn content_bloom(bytes: Seq<u8>) -> Seq<u8> {
    with_trigrams(Seq::new(BLOOM_BYTES as nat, |i: int| 0u8), first_occurrences(all_windows(bytes)))
}

/// Whether a recorded entry still describes a file whose modification time
/// and size are `mtime_secs` and `file_size_bytes`.
pub fn is_fresh(entry: &IndexEntry, mtime_secs: u64, file_size_bytes: u64) -> (r: bool)
    ensures
        r == (entry.mtime_secs == mtime_secs && entry.file_size_bytes == file_size_bytes),
{
    mtime_secs == entry.mtime_secs && file_size_bytes == entry.file_size_bytes
}

/// A copy of an entry.
pub fn copy_entry(e: &IndexEntry) -> (r: IndexEntry)
    ensures
        same_entry(r, *e),
{
    let bits = e.bloom_bits.clone();
    assert(bits@ =~= e.bloom_bits@);
    IndexEntry {
        path: e.path.clone(),
        mtime_secs: e.mtime_secs,
        file_size_bytes: e.file_size_bytes,
        bloom_bits: bits,
        language: e.language.clone(),
    }
}

/// The entry for a file at `abs_path` with the given modification time, size,
/// language label and content: its filter holds every trigram of the content.
pub fn index_entry_from_source(
    abs_path: String,
    mtime_secs: u64,
    file_size_bytes: u64,
    language: &str,
    bytes: &[u8],
) -> (r: Result<IndexEntry, crate::types::AppError>)
    ensures
        r matches Ok(e) && e.path@ == abs_path@ && e.mtime_secs == mtime_secs && e.file_size_bytes
            == file_size_bytes && e.bloom_bits@ == content_bloom(bytes@) && e.language@
            == language@,
{
    let trigrams = extract_unique_trigrams_from_bytes(bytes);
    let mut filter = BloomFilter::new();
    filter.insert_trigrams(trigrams.as_slice());
    let arr = filter.to_bytes();
    let mut bits: Vec<u8> = Vec::new();
    let mut k: usize = 0;
    while k < BLOOM_BYTES
        invariant
            k <= BLOOM_BYTES,
            arr@.len() == BLOOM_BYTES,
            bits@ == arr@.take(k as int),
        decreases BLOOM_BYTES - k,
    {
        bits.push(arr[k]);
        assert(arr@.take(k as int + 1) =~= arr@.take(k as int).push(arr@[k as int]));
        k = k + 1;
    }
    assert(arr@.take(BLOOM_BYTES as int) =~= arr@);
    assert(seq_views(trigrams@) =~= crate::trigram::trigram_views(trigrams@));
    let mut label = String::new();
    push_str(&mut label, language);
    assert(label@ =~= language@);
    Ok(IndexEntry {
        path: abs_path,
        mtime_secs,
        file_size_bytes,
        bloom_bits: bits,
        language: label,
    })
}

/// The recorded entry that an index build can keep for a file: the first
/// entry with the file's path, when it is still fresh.
pub open spec fn reusable_entry(entries: Seq<IndexEntry>, path: Seq<char>, mtime_secs: u64, size: u64) -> Option<IndexEntry> {
    match first_match(entries, path) {
        Some(k) => if entries[k].mtime_secs == mtime_secs && entries[k].file_size_bytes == size {
            Some(entries[k])
        } else {
            None
        },
        None => None,
    }
}

/// The entry of `manifest` that can be kept unchanged for the file at `path`,
/// or `None` when the file has to be read and indexed again.
pub fn reusable_entry_for(
    manifest: &IndexManifest,
    path: &str,
    mtime_secs: u64,
    file_size_bytes: u64,
) -> (r: Option<IndexEntry>)
    ensures
        r is None <==> reusable_entry(manifest.entries@, path@, mtime_secs, file_size_bytes) is None,
        r matches Some(e) ==> same_entry(
            e,
            reusable_entry(manifest.entries@, path@, mtime_secs, file_size_bytes)->0,
        ),
{
    match manifest.find_entry(path) {
        Some(e) => {
            if is_fresh(e, mtime_secs, file_size_bytes) {
                Some(copy_entry(e))
            } else {
                None
            }
        },
        None => None,
    }
}

/// The language label recorded for a file: the short name of the search
/// language, or of the detected language, or "unknown".
pub open spec fn spec_language_label(mode: LangMode, path: Seq<char>) -> Seq<char> {
    match mode {
        LangMode::Single(lang) => spec_language_name(lang),
        LangMode::Auto => match spec_detect_language(path) {
            Some(lang) => spec_language_name(lang),
            None => "unknown"@,
        },
    }
}

/// The language label that an index build records for the file at `path`.
pub fn language_label(mode: &LangMode, path: &str) -> (r: String)
    ensures
        r@ == spec_language_label(*mode, path@),
{
    let mut out = String::new();
    match mode {
        LangMode::Single(lang) => push_str(&mut out, language_name(lang)),
        LangMode::Auto => match detect_language(path) {
            Some(lang) => push_str(&mut out, language_name(&lang)),
            None => push_str(&mut out, "unknown"),
        },
    }
    assert(out@ =~= spec_language_label(*mode, path@));
    out
}

/// The language a file is parsed with for symbol extraction: the search
/// language, or the one detected from the path.
pub fn parse_language(mode: &LangMode, path: &str) -> (r: Option<Language>)
    ensures
        r == (match *mode {
            LangMode::Single(lang) => Some(lang),
            LangMode::Auto => spec_detect_language(path@),
        }),
{
    match mode {
        LangMode::Single(lang) => Some(*lang),
        LangMode::Auto => detect_language(path),
    }
}

/// The paths of a sequence of entries.
pub open spec fn entry_paths(entries: Seq<IndexEntry>) -> Seq<Seq<char>> {
    Seq::new(entries.len(), |i: int| entries[i].path@)
}

/// The paths of `entries`, in order.
pub fn paths_of(entries: &Vec<IndexEntry>) -> (r: Vec<String>)
    ensures
        string_views(r@) == entry_paths(entries@),
{
    let mut out: Vec<String> = Vec::new();
    let mut k: usize = 0;
    while k < entries.len()
        invariant
            k <= entries@.len(),
            out@.len() == k,
            forall|j: int| 0 <= j < k ==> (#[trigger] out@[j])@ == entries@[j].path@,
        decreases entries@.len() - k,
    {
        out.push(entries[k].path.clone());
        k = k + 1;
    }
    assert(string_views(out@) =~= entry_paths(entries@));
    out
}

/// The manifest that an index build writes: a fresh manifest for the root,
/// holding the collected entries, pruned to the paths that were collected.
pub fn assemble_manifest(root_path: String, collected: Vec<IndexEntry>) -> (m: IndexManifest)
    ensures
        m.version == crate::index::INDEX_FORMAT_VERSION,
        m.root_path@ == root_path@,
        m.entries@ == kept_entries(collected@, entry_paths(collected@)),
{
    let current = paths_of(&collected);
    let mut manifest = IndexManifest::new(root_path);
    manifest.entries = collected;
    manifest.remove_stale_entries(current.as_slice());
    manifest
}

/// The stored files that are no longer part of the index and are removed
/// from the symbol store: those whose path is not among `current`.
pub fn stale_store_paths(stored: &Vec<String>, current: &Vec<String>) -> (r: Vec<String>)
    ensures
        forall|s: Seq<char>| #![auto] string_views(r@).contains(s) <==> (string_views(
            stored@,
        ).contains(s) && !string_views(current@).contains(s)),
{
    let mut out: Vec<String> = Vec::new();
    let mut k: usize = 0;
    while k < stored.len()
        invariant
            k <= stored@.len(),
            forall|s: Seq<char>| #![auto] string_views(out@).contains(s) <==> (string_views(
                stored@.take(k as int),
            ).contains(s) && !string_views(current@).contains(s)),
        decreases stored@.len() - k,
    {
        let p = &stored[k];
        let listed = contains_string(current, p.as_str());
        let ghost before = out@;
        if !listed {
            out.push(p.clone());
        }
        proof {
            broadcast use vstd::seq_lib::lemma_seq_contains_after_push;
            let taken = stored@.take(k as int + 1);
            assert(string_views(taken) =~= string_views(stored@.take(k as int)).push(p@));
            if !listed {
                assert(string_views(out@) =~= string_views(before).push(p@));
            } else {
                assert(string_views(out@) =~= string_views(before));
            }
        }
        k = k + 1;
    }
    assert(stored@.take(stored@.len() as int) =~= stored@);
    out
}

/// Whether `s` is one of `list`.
pub fn contains_string(list: &Vec<String>, s: &str) -> (r: bool)
    ensures
        r == string_views(list@).contains(s@),
{
    let mut k: usize = 0;
    while k < list.len()
        invariant
            k <= list@.len(),
            forall|j: int| 0 <= j < k ==> (#[trigger] list@[j])@ != s@,
        decreases list@.len() - k,
    {
        if crate::text::str_eq(list[k].as_str(), s) {
            assert(string_views(list@)[k as int] == s@);
            return true;
        }
        k = k + 1;
    }
    proof {
        if string_views(list@).contains(s@) {
            let j = choose|j: int| 0 <= j < string_views(list@).len() && string_views(list@)[j] == s@;
            assert(list@[j]@ == s@);
        }
    }
    false
}

/// The closing report of an index build.
pub open spec fn spec_index_report(indexed: nat, skipped: nat, removed: nat, symbols: nat, persist: bool) -> Seq<char> {
    let base = "indexed "@ + decimal(indexed) + " files, skipped "@ + decimal(skipped)
        + " fresh, removed "@ + decimal(removed) + " stale entries"@;
    if persist {
        base + ", extracted "@ + decimal(symbols) + " symbols"@
    } else {
        base
    }
}

/// How many entries of `previous` name a path that `current` has no entry
/// for: the stale entries an index build removed.
pub open spec fn removed_count(previous: Seq<IndexEntry>, current: Seq<IndexEntry>) -> nat
    decreases previous.len(),
{
    if previous.len() == 0 {
        0
    } else {
        removed_count(previous.drop_last(), current) + if first_match(current, previous.last().path@) is None {
            1nat
        } else {
            0nat
        }
    }
}

/// The number of stale entries an index build removed: the entries of the
/// previous manifest whose path the new manifest has no entry for.
pub fn removed_entries(previous: &IndexManifest, current: &IndexManifest) -> (r: usize)
    ensures
        r == removed_count(previous.entries@, current.entries@),
{
    let mut count: usize = 0;
    let mut k: usize = 0;
    while k < previous.entries.len()
        invariant
            k <= previous.entries@.len(),
            count == removed_count(previous.entries@.take(k as int), current.entries@),
            count <= k,
        decreases previous.entries@.len() - k,
    {
        assert(previous.entries@.take(k as int + 1).drop_last() =~= previous.entries@.take(k as int));
        assert(previous.entries@.take(k as int + 1).last() == previous.entries@[k as int]);
        if current.find_entry(previous.entries[k].path.as_str()).is_none() {
            count = count + 1;
        }
        k = k + 1;
    }
    assert(previous.entries@.take(previous.entries@.len() as int) =~= previous.entries@);
    count
}

/// The closing report of an index build: how many files were indexed,
/// skipped as fresh and removed, and, when the symbol store is kept, how many
/// symbols were extracted.
pub fn index_report(indexed: usize, skipped: usize, removed: usize, symbols: usize, persist: bool) -> (r: String)
    ensures
        r@ == spec_index_report(indexed as nat, skipped as nat, removed as nat, symbols as nat, persist),
{
    let mut out = String::new();
    push_str(&mut out, "indexed ");
    push_decimal(&mut out, indexed as u128);
    push_str(&mut out, " files, skipped ");
    push_decimal(&mut out, skipped as u128);
    push_str(&mut out, " fresh, removed ");
    push_decimal(&mut out, removed as u128);
    push_str(&mut out, " stale entries");
    if persist {
        push_str(&mut out, ", extracted ");
        push_decimal(&mut out, symbols as u128);
        push_str(&mut out, " symbols");
    }
    assert(out@ =~= spec_index_report(indexed as nat, skipped as nat, removed as nat, symbols as nat, persist));
    out
}

} // verus!
