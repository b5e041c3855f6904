//! Common enums, structs and the crate-wide error type.

use crate::text::{decimal, push_decimal, push_str};
use vstd::prelude::*;

verus! {

/// A programming language supported by the search.
#[derive(Debug, Clone, Copy, PartialEq, Eq, Hash, Structural)]
pub enum Language {
    /// The Rust programming language.
    Rust,
    /// The Python programming language.
    Python,
    /// JavaScript.
    JavaScript,
    /// TypeScript.
    TypeScript,
    /// The Go programming language.
    Go,
    /// The C programming language.
    C,
    /// C++.
    Cpp,
}

/// How the language of a search is chosen: one language for every file, or
/// detected per file.
#[derive(Debug, Clone, Copy, PartialEq, Eq, Hash, Structural)]
pub enum LangMode {
    /// Use a specific language for the entire search.
    Single(Language),
    /// Detect a language per file.
    Auto,
}

/// A single structural match.
///
/// Lines are 1-based as produced by the search pipeline; columns and byte
/// offsets are 0-based.
#[derive(Debug, Clone, PartialEq, Eq, PartialOrd, Ord, Hash)]
pub struct MatchResult {
    /// Path to the file containing the match.
    pub file_path: String,
    /// Start line of the match.
    pub start_line: usize,
    /// Start column of the match.
    pub start_col: usize,
    /// End line of the match.
    pub end_line: usize,
    /// End column of the match.
    pub end_col: usize,
    /// Byte offset of the start of the match within the file.
    pub start_byte: usize,
    /// Byte offset of the end of the match within the file.
    pub end_byte: usize,
    /// The capture name as written in the query (for example `fn.name`).
    pub capture_name: String,
    /// The matched text.
    pub matched_text: String,
}

/// Options of one search run.
#[derive(Debug, Clone, PartialEq, Eq)]
pub struct SearchConfig {
    /// One or more S-expression query strings to execute.
    pub queries: Vec<String>,
    /// Root directory to search under.
    pub root_path: String,
    /// How to select a language for files under `root_path`.
    pub lang_mode: LangMode,
}

/// Errors of the library.
#[derive(Debug, Clone, PartialEq, Eq)]
pub enum AppError {
    /// An I/O error, with its message.
    IoError(String),
    /// An error from the filesystem walker, with its message.
    WalkError(String),
    /// The file could not be parsed.
    ParseError(String),
    /// Query compilation failed.
    QueryCompileError(String),
    /// The requested language is not supported.
    LanguageNotSupported(String),
    /// A database error.
    DbError(String),
    /// The on-disk index is corrupt or could not be decoded.
    IndexCorrupt(String),
    /// The index file version is not the expected one.
    IndexVersionMismatch { found: u32, expected: u32 },
    /// The index was built for another root directory.
    IndexRootMismatch { index_root: String, search_root: String },
}

/// The message of an error, as its `Display` form shows it.
pub open spec fn error_message(e: AppError) -> Seq<char> {
    match e {
        AppError::IoError(m) => "I/O error: "@ + m@,
        AppError::WalkError(m) => "Walk error: "@ + m@,
        AppError::ParseError(m) => "Parse error: "@ + m@,
        AppError::QueryCompileError(m) => "Failed to compile query: "@ + m@,
        AppError::LanguageNotSupported(m) => "Language not supported: "@ + m@,
        AppError::DbError(m) => "Database error: "@ + m@,
        AppError::IndexCorrupt(m) => "Index corrupt: "@ + m@,
        AppError::IndexVersionMismatch { found, expected } => "Index version mismatch: found "@
            + decimal(found as nat) + ", expected "@ + decimal(expected as nat),
        AppError::IndexRootMismatch { index_root, search_root } => "Index root mismatch: index root "@
            + index_root@ + ", search root "@ + search_root@,
    }
}

impl AppError {
    /// The error's message.
    pub fn message(&self) -> (r: String)
        ensures
            r@ == error_message(*self),
    {
        let mut s = String::new();
        match self {
            AppError::IoError(m) => {
                push_str(&mut s, "I/O error: ");
                push_str(&mut s, m.as_str());
            },
            AppError::WalkError(m) => {
                push_str(&mut s, "Walk error: ");
                push_str(&mut s, m.as_str());
            },
            AppError::ParseError(m) => {
                push_str(&mut s, "Parse error: ");
                push_str(&mut s, m.as_str());
            },
            AppError::QueryCompileError(m) => {
                push_str(&mut s, "Failed to compile query: ");
                push_str(&mut s, m.as_str());
            },
            AppError::LanguageNotSupported(m) => {
                push_str(&mut s, "Language not supported: ");
                push_str(&mut s, m.as_str());
            },
            AppError::DbError(m) => {
                push_str(&mut s, "Database error: ");
                push_str(&mut s, m.as_str());
            },
            AppError::IndexCorrupt(m) => {
                push_str(&mut s, "Index corrupt: ");
                push_str(&mut s, m.as_str());
            },
            AppError::IndexVersionMismatch { found, expected } => {
                push_str(&mut s, "Index version mismatch: found ");
                push_decimal(&mut s, *found as u128);
                push_str(&mut s, ", expected ");
                push_decimal(&mut s, *expected as u128);
            },
            AppError::IndexRootMismatch { index_root, search_root } => {
                push_str(&mut s, "Index root mismatch: index root ");
                push_str(&mut s, index_root.as_str());
                push_str(&mut s, ", search root ");
                push_str(&mut s, search_root.as_str());
            },
        }
        s
    }
}

} // verus!
