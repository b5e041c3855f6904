//! The command line's rules: validating the options, resolving the language
//! option, the messages about files that were skipped, and the decisions a
//! search makes per file and at its end.
//!
//! Parsing the arguments, checking the filesystem and printing happen
//! outside the library.

use crate::bloom::BLOOM_BYTES;
use crate::index::{string_views, IndexEntry};
use crate::indexer::{content_bloom, index_entry_from_source};
use crate::order::{insert_sorted, strictly_sorted};
use crate::parser::{language_name, spec_language_name};
use crate::query::{result_view, results_view};
use crate::sieve::FileIndexStatus;
use crate::text::{decimal, push_decimal, push_str, str_eq};
use crate::tui::{blank, path_runs};
use crate::types::{error_message, AppError, LangMode, Language, MatchResult};
use vstd::prelude::*;

verus! {

/// A problem with one file during a search; the file is skipped.
#[derive(Debug, Clone, PartialEq, Eq)]
pub enum FileError {
    /// The walker could not access an entry (its path, when known).
    WalkerAccess { path: Option<String>, message: String },
    /// The file could not be read.
    ReadFailure { path: String, message: String },
    /// The file could not be parsed.
    ParseFailure { path: String, message: String },
}

/// The warning printed for a skipped file.
pub open spec fn spec_file_error(e: FileError) -> Seq<char> {
    match e {
        FileError::WalkerAccess { path, message } => "warning: [walker] "@ + (match path {
            Some(p) => p@,
            None => "<path unknown>"@,
        }) + ": "@ + message@,
        FileError::ReadFailure { path, message } => "warning: [read] "@ + path@ + ": "@ + message@,
        FileError::ParseFailure { path, message } => "warning: [parse] "@ + path@ + ": "@ + message@,
    }
}

/// The warning printed for a skipped file: its category, its path (or
/// `<path unknown>`) and the message.
pub fn format_file_error(error: &FileError) -> (r: String)
    ensures
        r@ == spec_file_error(*error),
{
    let mut out = String::new();
    match error {
        FileError::WalkerAccess { path, message } => {
            push_str(&mut out, "warning: [walker] ");
            match path {
                Some(p) => push_str(&mut out, p.as_str()),
                None => push_str(&mut out, "<path unknown>"),
            }
            push_str(&mut out, ": ");
            push_str(&mut out, message.as_str());
        },
        FileError::ReadFailure { path, message } => {
            push_str(&mut out, "warning: [read] ");
            push_str(&mut out, path.as_str());
            push_str(&mut out, ": ");
            push_str(&mut out, message.as_str());
        },
        FileError::ParseFailure { path, message } => {
            push_str(&mut out, "warning: [parse] ");
            push_str(&mut out, path.as_str());
            push_str(&mut out, ": ");
            push_str(&mut out, message.as_str());
        },
    }
    assert(out@ =~= spec_file_error(*error));
    out
}

/// How a failure to read or parse a file is reported: I/O errors as read
/// failures, parse errors as parse failures, anything else as a read failure
/// marked unexpected.
pub fn file_error_for(error: &AppError, path: &str) -> (r: FileError)
    ensures
        match *error {
            AppError::IoError(_) => r matches FileError::ReadFailure { path: p, message: m } && p@ == path@
                && m@ == error_message(*error),
            AppError::ParseError(_) => r matches FileError::ParseFailure { path: p, message: m } && p@ == path@
                && m@ == error_message(*error),
            _ => r matches FileError::ReadFailure { path: p, message: m } && p@ == path@ && m@
                == "unexpected error: "@ + error_message(*error),
        },
{
    let mut p = String::new();
    push_str(&mut p, path);
    assert(p@ =~= path@);
    match error {
        AppError::IoError(_) => FileError::ReadFailure { path: p, message: error.message() },
        AppError::ParseError(_) => FileError::ParseFailure { path: p, message: error.message() },
        _ => {
            let mut m = String::new();
            push_str(&mut m, "unexpected error: ");
            let text = error.message();
            push_str(&mut m, text.as_str());
            assert(m@ =~= "unexpected error: "@ + error_message(*error));
            FileError::ReadFailure { path: p, message: m }
        },
    }
}

/// The language names the `--lang` option accepts besides `auto`.
pub open spec fn spec_lang_names() -> Seq<Seq<char>> {
    seq!["rust"@, "python"@, "js"@, "ts"@, "go"@, "c"@, "cpp"@]
}

/// Whether `s` is a value the `--lang` option accepts.
pub open spec fn lang_option_ok(s: Seq<char>) -> bool {
    spec_lang_names().contains(s) || s == "auto"@
}

/// The language of a `--lang` value.
pub open spec fn spec_resolve_lang(s: Seq<char>) -> Language {
    if s == "rust"@ {
        Language::Rust
    } else if s == "python"@ {
        Language::Python
    } else if s == "js"@ {
        Language::JavaScript
    } else if s == "ts"@ {
        Language::TypeScript
    } else if s == "go"@ {
        Language::Go
    } else if s == "c"@ {
        Language::C
    } else {
        Language::Cpp
    }
}

/// The language named by a validated `--lang` value.
pub fn resolve_lang(lang_str: &str) -> (r: Language)
    requires
        spec_lang_names().contains(lang_str@),
    ensures
        r == spec_resolve_lang(lang_str@),
        spec_language_name(r) == lang_str@,
{
    proof {
        let k = choose|k: int| 0 <= k < 7 && spec_lang_names()[k] == lang_str@;
        reveal_strlit("rust");
        reveal_strlit("python");
        reveal_strlit("js");
        reveal_strlit("ts");
        reveal_strlit("go");
        reveal_strlit("c");
        reveal_strlit("cpp");
    }
    if str_eq(lang_str, "rust") {
        Language::Rust
    } else if str_eq(lang_str, "python") {
        Language::Python
    } else if str_eq(lang_str, "js") {
        Language::JavaScript
    } else if str_eq(lang_str, "ts") {
        Language::TypeScript
    } else if str_eq(lang_str, "go") {
        Language::Go
    } else if str_eq(lang_str, "c") {
        Language::C
    } else {
        Language::Cpp
    }
}

/// How a validated `--lang` value chooses languages: `auto` detects per
/// file, anything else names one language.
pub fn resolve_lang_mode(lang_str: &str) -> (r: LangMode)
    requires
        lang_option_ok(lang_str@),
    ensures
        lang_str@ == "auto"@ ==> r == LangMode::Auto,
        lang_str@ != "auto"@ ==> r == LangMode::Single(spec_resolve_lang(lang_str@)),
{
    if str_eq(lang_str, "auto") {
        LangMode::Auto
    } else {
        LangMode::Single(resolve_lang(lang_str))
    }
}

/// The name a language is recorded under in the index.
pub fn language_to_index_name(lang: &Language) -> (r: &'static str)
    ensures
        r@ == spec_language_name(*lang),
{
    language_name(lang)
}

/// The command-line options of a search.
#[derive(Debug, Clone)]
pub struct Cli {
    /// The query strings.
    pub query: Vec<String>,
    /// The root directory to search.
    pub path: String,
    /// The `--lang` value.
    pub lang: String,
    /// Whether colour is turned off.
    pub no_color: bool,
    /// Whether per-match lines are suppressed.
    pub quiet: bool,
    /// Whether statistics are printed.
    pub stats: bool,
    /// Whether the index is left unchanged.
    pub no_update_index: bool,
    /// The shell to print completions for, if asked.
    pub generate_completions: Option<String>,
}

/// The message for a root path that does not exist.
pub open spec fn missing_path_message(path: Seq<char>) -> Seq<char> {
    "path does not exist: "@ + path + "\n  hint: check for typos or run from the correct directory"@
}

/// The message for a root path that is not a directory.
pub open spec fn not_dir_message(path: Seq<char>) -> Seq<char> {
    "path is not a directory: "@ + path + "\n  hint: --path must point to a directory, not a file"@
}

/// The message for an unsupported `--lang` value.
pub open spec fn bad_lang_message(lang: Seq<char>) -> Seq<char> {
    "unsupported language: '"@ + lang
        + "'\n      supported languages: rust, python, js, ts, go, c, cpp, auto\n      example: --lang rust"@
}

/// The outcome of validating options: nothing to check when completions are
/// asked for; else, in this order, some query must not be blank, the path
/// must exist and be a directory, and the language must be supported.
pub open spec fn spec_validate(cli: Cli, path_exists: bool, path_is_dir: bool) -> Result<(), Seq<char>> {
    if cli.generate_completions is Some {
        Ok(())
    } else if forall|i: int| 0 <= i < cli.query@.len() ==> blank(#[trigger] cli.query@[i]@) {
        Err("at least one query string must not be empty"@)
    } else if !path_exists {
        Err(missing_path_message(cli.path@))
    } else if !path_is_dir {
        Err(not_dir_message(cli.path@))
    } else if !lang_option_ok(cli.lang@) {
        Err(bad_lang_message(cli.lang@))
    } else {
        Ok(())
    }
}

fn all_blank(queries: &Vec<String>) -> (r: bool)
    ensures
        r == forall|i: int| 0 <= i < queries@.len() ==> blank(#[trigger] queries@[i]@),
{
    let mut k: usize = 0;
    while k < queries.len()
        invariant
            k <= queries@.len(),
            forall|i: int| 0 <= i < k ==> blank(#[trigger] queries@[i]@),
        decreases queries@.len() - k,
    {
        if !crate::tui::is_blank_text(queries[k].as_str()) {
            return false;
        }
        k = k + 1;
    }
    true
}

fn lang_supported(lang: &str) -> (r: bool)
    ensures
        r == lang_option_ok(lang@),
{
    let names = ["rust", "python", "js", "ts", "go", "c", "cpp"];
    proof {
        assert(spec_lang_names().len() == 7);
    }
    let mut k: usize = 0;
    while k < 7
        invariant
            k <= 7,
            forall|j: int| 0 <= j < 7 ==> (#[trigger] names@[j])@ == spec_lang_names()[j],
            forall|j: int| 0 <= j < k ==> spec_lang_names()[j] != lang@,
        decreases 7 - k,
    {
        if str_eq(names[k], lang) {
            assert(spec_lang_names()[k as int] == lang@);
            return true;
        }
        k = k + 1;
    }
    str_eq(lang, "auto")
}

impl Cli {
    /// Validates the options. `path_exists` and `path_is_dir` describe the
    /// root path on the filesystem.
    pub fn validate(&self, path_exists: bool, path_is_dir: bool) -> (r: Result<(), String>)
        ensures
            match spec_validate(*self, path_exists, path_is_dir) {
                Ok(()) => r is Ok,
                Err(m) => r matches Err(e) && e@ == m,
            },
    {
        if self.generate_completions.is_some() {
            return Ok(());
        }
        if all_blank(&self.query) {
            let mut m = String::new();
            push_str(&mut m, "at least one query string must not be empty");
            return Err(m);
        }
        if !path_exists {
            let mut m = String::new();
            push_str(&mut m, "path does not exist: ");
            push_str(&mut m, self.path.as_str());
            push_str(&mut m, "\n  hint: check for typos or run from the correct directory");
            assert(m@ =~= missing_path_message(self.path@));
            return Err(m);
        }
        if !path_is_dir {
            let mut m = String::new();
            push_str(&mut m, "path is not a directory: ");
            push_str(&mut m, self.path.as_str());
            push_str(&mut m, "\n  hint: --path must point to a directory, not a file");
            assert(m@ =~= not_dir_message(self.path@));
            return Err(m);
        }
        if !lang_supported(self.lang.as_str()) {
            let mut m = String::new();
            push_str(&mut m, "unsupported language: '");
            push_str(&mut m, self.lang.as_str());
            push_str(
                &mut m,
                "'\n      supported languages: rust, python, js, ts, go, c, cpp, auto\n      example: --lang rust",
            );
            assert(m@ =~= bad_lang_message(self.lang@));
            return Err(m);
        }
        Ok(())
    }
}

/// The warning about skipped files, with the right plural.
pub open spec fn spec_skip_warning(count: nat) -> Seq<char> {
    "warning: skipped "@ + decimal(count) + (if count == 1 {
        " file"@
    } else {
        " files"@
    }) + " due to errors"@
}

/// The warning printed when files were skipped because of errors.
pub fn skip_warning(count: usize) -> (r: String)
    ensures
        r@ == spec_skip_warning(count as nat),
{
    let mut out = String::new();
    push_str(&mut out, "warning: skipped ");
    push_decimal(&mut out, count as u128);
    if count == 1 {
        push_str(&mut out, " file");
    } else {
        push_str(&mut out, " files");
    }
    push_str(&mut out, " due to errors");
    assert(out@ =~= spec_skip_warning(count as nat));
    out
}

/// The results of a search as reported: in increasing order, each once.
pub fn finalize_results(results: Vec<MatchResult>) -> (r: Vec<MatchResult>)
    ensures
        strictly_sorted(results_view(r@)),
        results_view(r@).to_set() == results_view(results@).to_set(),
{
    let mut out: Vec<MatchResult> = Vec::new();
    let ghost all = results_view(results@);
    for x in it: results.into_iter()
        invariant
            it.seq() == results@,
            all == results_view(results@),
            strictly_sorted(results_view(out@)),
            results_view(out@).to_set() == all.take(it.index() as int).to_set(),
    {
        let ghost k = it.index() as int;
        assert(results@[k] == x);
        insert_sorted(&mut out, x);
        proof {
            assert(all.take(k + 1) =~= all.take(k).push(result_view(x)));
            all.take(k).lemma_push_to_set_commute(result_view(x));
        }
    }
    assert(all.take(all.len() as int) =~= all);
    out
}

/// The number of files with matches in sorted results: the number of
/// distinct paths.
pub fn files_with_matches(results: &Vec<MatchResult>) -> (r: usize)
    ensures
        r == path_runs(results_view(results@)).len(),
{
    let ghost v = results_view(results@);
    let mut count: usize = 0;
    let mut k: usize = 0;
    while k < results.len()
        invariant
            k <= results@.len(),
            v == results_view(results@),
            count == path_runs(v.take(k as int)).len(),
            count <= k,
            k > 0 ==> path_runs(v.take(k as int)).last().0 == v[k - 1].0,
            k > 0 ==> path_runs(v.take(k as int)).len() > 0,
        decreases results@.len() - k,
    {
        assert(v.take(k as int + 1).drop_last() =~= v.take(k as int));
        assert(v.take(k as int + 1).last() == v[k as int]);
        if k == 0 || !str_eq(results[k - 1].file_path.as_str(), results[k].file_path.as_str()) {
            count = count + 1;
        }
        k = k + 1;
    }
    assert(v.take(results@.len() as int) =~= v);
    count
}

/// The index entry a search records for a file it parsed: none when index
/// updates are off or the file's entry is fresh; else an entry for the file
/// as read, labelled with its language.
pub fn search_index_update(
    no_update_index: bool,
    status: &FileIndexStatus,
    path: &str,
    mtime_secs: u64,
    file_size_bytes: u64,
    lang: &Language,
    bytes: &[u8],
) -> (r: Option<IndexEntry>)
    ensures
        (no_update_index || status is Fresh) ==> r is None,
        !(no_update_index || status is Fresh) ==> (r matches Some(e) && e.path@ == path@ && e.mtime_secs
            == mtime_secs && e.file_size_bytes == file_size_bytes && e.bloom_bits@ == content_bloom(bytes@)
            && e.language@ == spec_language_name(*lang)),
{
    if no_update_index {
        return None;
    }
    match status {
        FileIndexStatus::Fresh(_) => None,
        _ => {
            let mut p = String::new();
            push_str(&mut p, path);
            assert(p@ =~= path@);
            match index_entry_from_source(p, mtime_secs, file_size_bytes, language_name(lang), bytes) {
                Ok(e) => Some(e),
                Err(_) => None,
            }
        },
    }
}

/// The parts joined with `sep` between them.
pub open spec fn joined(parts: Seq<Seq<char>>, sep: Seq<char>) -> Seq<char>
    decreases parts.len(),
{
    if parts.len() == 0 {
        Seq::empty()
    } else if parts.len() == 1 {
        parts[0]
    } else {
        joined(parts.drop_last(), sep) + sep + parts.last()
    }
}

/// The message when no supported language accepts the queries, listing
/// them.
pub open spec fn spec_no_language_message(queries: Seq<Seq<char>>) -> Seq<char> {
    "query did not compile against any supported language\n  query: "@ + joined(queries, "\n  query: "@)
        + "\n  hint: check the S-expression syntax and node type names"@
}

/// The error printed when, detecting languages per file, the queries
/// compile for none of them.
pub fn no_language_message(queries: &[String]) -> (r: String)
    ensures
        r@ == spec_no_language_message(string_views(queries@)),
{
    let ghost qs = string_views(queries@);
    let mut out = String::new();
    push_str(&mut out, "query did not compile against any supported language\n  query: ");
    let ghost head = out@;
    let mut k: usize = 0;
    while k < queries.len()
        invariant
            k <= queries@.len(),
            qs == string_views(queries@),
            out@ == head + joined(qs.take(k as int), "\n  query: "@),
        decreases queries@.len() - k,
    {
        assert(qs.take(k as int + 1).drop_last() =~= qs.take(k as int));
        if k > 0 {
            push_str(&mut out, "\n  query: ");
        }
        push_str(&mut out, queries[k].as_str());
        proof {
            if k == 0 {
                assert(qs.take(1) =~= seq![qs[0]]);
                assert(joined(qs.take(0), "\n  query: "@) =~= Seq::<char>::empty());
            }
        }
        k = k + 1;
        assert(out@ =~= head + joined(qs.take(k as int), "\n  query: "@));
    }
    assert(qs.take(queries@.len() as int) =~= qs);
    push_str(&mut out, "\n  hint: check the S-expression syntax and node type names");
    assert(out@ =~= spec_no_language_message(qs));
    out
}

} // verus!
