//! The index manifest: per-file metadata and Bloom filter bits.
//!
//! Encoding the manifest to bytes and writing it to disk happen outside the
//! library; this module holds the manifest's own rules: lookup by path,
//! insert-or-replace, pruning, version checking and the index file's path.

use crate::paths::{join_path, join_relative};
use crate::text::str_eq;
use crate::types::AppError;
use vstd::prelude::*;

verus! {

/// Filename used to store the index in a repository root.
pub const INDEX_FILENAME: &'static str = ".doora-index";

/// Current on-disk index format version.
pub const INDEX_FORMAT_VERSION: u32 = 1;

/// Metadata and Bloom filter for a single file recorded in the index.
#[derive(Debug, Clone, PartialEq)]
pub struct IndexEntry {
    /// Path to the file.
    pub path: String,
    /// Last-modified time in seconds since the UNIX epoch.
    pub mtime_secs: u64,
    /// Size of the file in bytes at indexing time.
    pub file_size_bytes: u64,
    /// The file's Bloom filter bytes.
    pub bloom_bits: Vec<u8>,
    /// Language identifier used when the file was indexed (for example "rust").
    pub language: String,
}

/// The top-level manifest stored in the index file.
#[derive(Debug, Clone, PartialEq)]
pub struct IndexManifest {
    /// Format version of the manifest.
    pub version: u32,
    /// Index creation time in seconds since the UNIX epoch.
    pub indexed_at_secs: u64,
    /// Root directory the index covers.
    pub root_path: String,
    /// Per-file entries.
    pub entries: Vec<IndexEntry>,
}

/// The position of the first entry whose path is `path`.
pub open spec fn first_match(entries: Seq<IndexEntry>, path: Seq<char>) -> Option<int>
    decreases entries.len(),
{
    if entries.len() == 0 {
        None
    } else {
        match first_match(entries.drop_last(), path) {
            Some(k) => Some(k),
            None => if entries.last().path@ == path {
                Some(entries.len() - 1)
            } else {
                None
            },
        }
    }
}

/// The entries after inserting `entry`: it replaces the first entry with its
/// path, or is appended when there is none.
pub open spec fn upserted(entries: Seq<IndexEntry>, entry: IndexEntry) -> Seq<IndexEntry> {
    match first_match(entries, entry.path@) {
        Some(k) => entries.update(k, entry),
        None => entries.push(entry),
    }
}

/// The entries whose path is one of `current`, in their order.
pub open spec fn kept_entries(entries: Seq<IndexEntry>, current: Seq<Seq<char>>) -> Seq<IndexEntry>
    decreases entries.len(),
{
    if entries.len() == 0 {
        entries
    } else {
        let kept = kept_entries(entries.drop_last(), current);
        if current.contains(entries.last().path@) {
            kept.push(entries.last())
        } else {
            kept
        }
    }
}

/// The views of a sequence of strings.
pub open spec fn string_views(v: Seq<String>) -> Seq<Seq<char>> {
    Seq::new(v.len(), |i: int| v[i]@)
}

/// The clock, in whole seconds since the UNIX epoch (0 when the clock reads
/// earlier than the epoch). The value depends on when it is called, so
/// nothing is promised about it.
#[verifier::external_body]
fn current_unix_secs() -> u64 {
    std::time::SystemTime::now().duration_since(std::time::UNIX_EPOCH).unwrap_or_default().as_secs()
}

impl IndexManifest {
    /// An empty manifest for `root_path`, stamped with the current time (see
    /// `new_at`).
    pub fn new(root_path: String) -> (m: Self)
        ensures
            m.version == INDEX_FORMAT_VERSION,
            m.root_path@ == root_path@,
            m.entries@.len() == 0,
    {
        IndexManifest::new_at(root_path, current_unix_secs())
    }

    /// An empty manifest for `root_path`, stamped `now_secs` (whole seconds
    /// since the UNIX epoch).
    pub fn new_at(root_path: String, now_secs: u64) -> (m: Self)
        ensures
            m.version == INDEX_FORMAT_VERSION,
            m.root_path@ == root_path@,
            m.entries@.len() == 0,
            m.indexed_at_secs == now_secs,
    {
        IndexManifest { version: INDEX_FORMAT_VERSION, indexed_at_secs: now_secs, root_path, entries: Vec::new() }
    }

    /// The first entry whose path is `path`, if any.
    pub fn find_entry(&self, path: &str) -> (r: Option<&IndexEntry>)
        ensures
            r is None <==> first_match(self.entries@, path@) is None,
            r matches Some(e) ==> first_match(self.entries@, path@) matches Some(k) && *e
                == self.entries@[k],
    {
        match self.position_of(path) {
            Some(k) => Some(&self.entries[k]),
            None => None,
        }
    }

    fn position_of(&self, path: &str) -> (r: Option<usize>)
        ensures
            r matches Some(k) ==> first_match(self.entries@, path@) == Some(k as int) && k
                < self.entries@.len(),
            r is None <==> first_match(self.entries@, path@) is None,
    {
        let n = self.entries.len();
        let mut k: usize = 0;
        while k < n
            invariant
                n == self.entries@.len(),
                k <= n,
                first_match(self.entries@.take(k as int), path@) is None,
            decreases n - k,
        {
            assert(self.entries@.take(k as int + 1).drop_last() =~= self.entries@.take(k as int));
            if str_eq(self.entries[k].path.as_str(), path) {
                proof {
                    lemma_first_match_prefix(self.entries@, path@, k as int + 1);
                }
                return Some(k);
            }
            k = k + 1;
        }
        assert(self.entries@.take(n as int) =~= self.entries@);
        None
    }

    /// Inserts `entry`, replacing the first entry with the same path.
    pub fn upsert_entry(&mut self, entry: IndexEntry)
        ensures
            final(self).entries@ == upserted(old(self).entries@, entry),
            final(self).version == old(self).version,
            final(self).indexed_at_secs == old(self).indexed_at_secs,
            final(self).root_path == old(self).root_path,
    {
        match self.position_of(entry.path.as_str()) {
            Some(pos) => {
                self.entries.set(pos, entry);
            },
            None => {
                self.entries.push(entry);
            },
        }
    }

    /// Removes the entries whose path is not one of `current_paths`.
    pub fn remove_stale_entries(&mut self, current_paths: &[String])
        ensures
            final(self).entries@ == kept_entries(old(self).entries@, string_views(current_paths@)),
            final(self).version == old(self).version,
            final(self).indexed_at_secs == old(self).indexed_at_secs,
            final(self).root_path == old(self).root_path,
    {
        let ghost current = string_views(current_paths@);
        let mut old_entries: Vec<IndexEntry> = Vec::new();
        std::mem::swap(&mut old_entries, &mut self.entries);
        let ghost all = old_entries@;
        let mut kept: Vec<IndexEntry> = Vec::new();
        for e in it: old_entries.into_iter()
            invariant
                it.seq() == all,
                kept@ == kept_entries(all.take(it.index() as int), current),
                current == string_views(current_paths@),
        {
            let ghost k = it.index() as int;
            assert(all.take(k + 1).drop_last() =~= all.take(k));
            assert(all[k] == e);
            if is_listed(current_paths, e.path.as_str()) {
                kept.push(e);
            }
        }
        assert(all.take(all.len() as int) =~= all);
        self.entries = kept;
    }
}

fn is_listed(paths: &[String], path: &str) -> (r: bool)
    ensures
        r == string_views(paths@).contains(path@),
{
    let n = paths.len();
    let mut k: usize = 0;
    while k < n
        invariant
            n == paths@.len(),
            k <= n,
            forall|j: int| 0 <= j < k ==> paths@[j]@ != path@,
        decreases n - k,
    {
        if str_eq(paths[k].as_str(), path) {
            assert(string_views(paths@)[k as int] == path@);
            return true;
        }
        k = k + 1;
    }
    proof {
        if string_views(paths@).contains(path@) {
            let j = choose|j: int| 0 <= j < n && string_views(paths@)[j] == path@;
            assert(paths@[j]@ == path@);
        }
    }
    false
}

proof fn lemma_first_match_prefix(entries: Seq<IndexEntry>, path: Seq<char>, m: int)
    requires
        0 < m <= entries.len(),
        first_match(entries.take(m - 1), path) is None,
        entries[m - 1].path@ == path,
    ensures
        first_match(entries, path) == Some(m - 1),
    decreases entries.len() - m,
{
    assert(entries.take(m).drop_last() =~= entries.take(m - 1));
    if m < entries.len() {
        assert(entries.take(m + 1).drop_last() =~= entries.take(m));
        lemma_first_match_extend(entries, path, m + 1, m - 1);
    } else {
        assert(entries.take(m) =~= entries);
    }
}

proof fn lemma_first_match_extend(entries: Seq<IndexEntry>, path: Seq<char>, m: int, k: int)
    requires
        0 < m <= entries.len(),
        first_match(entries.take(m - 1), path) == Some(k),
    ensures
        first_match(entries, path) == Some(k),
    decreases entries.len() - m,
{
    assert(entries.take(m).drop_last() =~= entries.take(m - 1));
    if m < entries.len() {
        lemma_first_match_extend(entries, path, m + 1, k);
    } else {
        assert(entries.take(m) =~= entries);
    }
}

/// Checks the version of a decoded manifest: the manifest itself when it has
/// the current format version, and `IndexVersionMismatch` otherwise.
pub fn check_manifest_version(manifest: IndexManifest) -> (r: Result<IndexManifest, AppError>)
    ensures
        manifest.version == INDEX_FORMAT_VERSION ==> r == Ok::<IndexManifest, AppError>(manifest),
        manifest.version != INDEX_FORMAT_VERSION ==> r == Err::<IndexManifest, AppError>(
            AppError::IndexVersionMismatch {
                found: manifest.version,
                expected: INDEX_FORMAT_VERSION,
            },
        ),
{
    if manifest.version != INDEX_FORMAT_VERSION {
        return Err(
            AppError::IndexVersionMismatch {
                found: manifest.version,
                expected: INDEX_FORMAT_VERSION,
            },
        );
    }
    Ok(manifest)
}

/// The index file path for `root`.
pub fn index_path_for_root(root: &str) -> (r: String)
    ensures
        r@ == join_path(root@, INDEX_FILENAME@),
{
    join_relative(root, INDEX_FILENAME)
}

/// `first_match` finds the least position whose path matches, or nothing
/// when no path matches.
pub proof fn lemma_first_match_spec(entries: Seq<IndexEntry>, path: Seq<char>)
    ensures
        first_match(entries, path) matches Some(k) ==> {
            &&& 0 <= k < entries.len()
            &&& entries[k].path@ == path
            &&& forall|j: int| 0 <= j < k ==> (#[trigger] entries[j]).path@ != path
        },
        first_match(entries, path) is None ==> forall|j: int|
            0 <= j < entries.len() ==> (#[trigger] entries[j]).path@ != path,
    decreases entries.len(),
{
    if entries.len() > 0 {
        let init = entries.drop_last();
        lemma_first_match_spec(init, path);
        if let Some(k) = first_match(init, path) {
            assert forall|j: int| 0 <= j < k implies (#[trigger] entries[j]).path@ != path by {
                assert(entries[j] == init[j]);
            }
            assert(entries[k] == init[k]);
        } else {
            assert forall|j: int| 0 <= j < entries.len() - 1 implies (#[trigger] entries[j]).path@
                != path by {
                assert(entries[j] == init[j]);
            }
        }
    }
}

/// Read after write: after inserting `entry`, looking up its path finds it.
pub proof fn law_upsert_then_find(entries: Seq<IndexEntry>, entry: IndexEntry)
    ensures
        first_match(upserted(entries, entry), entry.path@) matches Some(k) && upserted(
            entries,
            entry,
        )[k] == entry,
{
    let after = upserted(entries, entry);
    lemma_first_match_spec(entries, entry.path@);
    lemma_first_match_spec(after, entry.path@);
    match first_match(entries, entry.path@) {
        Some(k) => {
            assert(after[k] == entry);
            assert forall|j: int| 0 <= j < k implies (#[trigger] after[j]).path@ != entry.path@ by {
                assert(after[j] == entries[j]);
            }
            if first_match(after, entry.path@) is None {
                assert(after[k].path@ != entry.path@);
            }
            let k2 = first_match(after, entry.path@)->0;
            if k2 < k {
                assert(after[k2] == entries[k2]);
            }
            if k2 > k {
                assert(after[k].path@ != entry.path@);
            }
        },
        None => {
            let n = entries.len() as int;
            assert(after[n] == entry);
            if first_match(after, entry.path@) is None {
                assert(after[n].path@ != entry.path@);
            }
            let k2 = first_match(after, entry.path@)->0;
            if k2 < n {
                assert(after[k2] == entries[k2]);
            }
        },
    }
}

/// Inserting an entry does not change what a lookup of any other path finds.
pub proof fn law_upsert_keeps_other_paths(
    entries: Seq<IndexEntry>,
    entry: IndexEntry,
    path: Seq<char>,
)
    requires
        path != entry.path@,
    ensures
        first_match(upserted(entries, entry), path) == first_match(entries, path),
        first_match(entries, path) matches Some(k) ==> upserted(entries, entry)[k] == entries[k],
{
    let after = upserted(entries, entry);
    lemma_first_match_spec(entries, path);
    lemma_first_match_spec(after, path);
    lemma_first_match_spec(entries, entry.path@);
    assert forall|j: int| 0 <= j < entries.len() implies (#[trigger] after[j]).path@ == path
        <==> entries[j].path@ == path by {
        if let Some(k) = first_match(entries, entry.path@) {
            if j == k {
                assert(after[j] == entry);
            } else {
                assert(after[j] == entries[j]);
            }
        } else {
            assert(after[j] == entries[j]);
        }
    }
    if first_match(entries, entry.path@) is None {
        assert(after[entries.len() as int] == entry);
    }
    match (first_match(after, path), first_match(entries, path)) {
        (Some(a), Some(b)) => {
            if a < b {
                assert(after[a].path@ == path);
            }
            if b < a {
                assert(entries[b].path@ == path);
                assert(after[b].path@ == path);
            }
        },
        (Some(a), None) => {
            if a < entries.len() {
                assert(after[a].path@ == path);
            } else {
                assert(after[a] == entry);
            }
        },
        (None, Some(b)) => {
            assert(entries[b].path@ == path);
            assert(after[b].path@ == path);
        },
        (None, None) => {},
    }
    if let Some(k) = first_match(entries, path) {
        if let Some(q) = first_match(entries, entry.path@) {
            if q == k {
                assert(entries[k].path@ == entry.path@);
            }
        }
    }
}

/// After pruning, every entry left has a listed path, and every entry with a
/// listed path is left.
pub proof fn law_kept_entries_are_listed(
    entries: Seq<IndexEntry>,
    current: Seq<Seq<char>>,
    e: IndexEntry,
)
    ensures
        kept_entries(entries, current).contains(e) <==> (entries.contains(e) && current.contains(
            e.path@,
        )),
    decreases entries.len(),
{
    if entries.len() > 0 {
        let init = entries.drop_last();
        law_kept_entries_are_listed(init, current, e);
        let kept = kept_entries(init, current);
        if entries.contains(e) && e != entries.last() {
            let k = choose|k: int| 0 <= k < entries.len() && entries[k] == e;
            assert(init[k] == e);
        }
        if init.contains(e) {
            let k = choose|k: int| 0 <= k < init.len() && init[k] == e;
            assert(entries[k] == e);
        }
        if e == entries.last() {
            assert(entries[entries.len() - 1] == e);
        }
        if current.contains(entries.last().path@) {
            let pushed = kept.push(entries.last());
            if e == entries.last() {
                assert(pushed[kept.len() as int] == e);
            }
            if kept.contains(e) {
                let k = choose|k: int| 0 <= k < kept.len() && kept[k] == e;
                assert(pushed[k] == e);
            }
            if pushed.contains(e) && e != entries.last() {
                let k = choose|k: int| 0 <= k < pushed.len() && pushed[k] == e;
                assert(kept[k] == e);
            }
        }
    }
}

} // verus!
