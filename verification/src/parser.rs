//! Languages by name and by file extension, and the rules a file's text
//! must meet before it is parsed.
//!
//! Parsing itself (grammars, memory maps, the parser) runs outside the
//! library.

use crate::paths::{law_path_extension_after_last_dot, path_extension, path_extension_of};
use crate::text::{chars_of, push_str, str_eq, string_from_utf8};
use crate::types::{AppError, Language};
use vstd::prelude::*;
use vstd::utf8::{decode_utf8, valid_utf8};

verus! {

/// The threshold at and above which a file is memory-mapped instead of read.
pub const MMAP_THRESHOLD_BYTES: u64 = 1048576;

/// `c` with ASCII upper-case letters made lower-case.
pub open spec fn ascii_lower(c: char) -> char {
    if 'A' <= c <= 'Z' {
        ((c as u32) + 32) as char
    } else {
        c
    }
}

/// `s` with ASCII upper-case letters made lower-case.
pub open spec fn ascii_lower_seq(s: Seq<char>) -> Seq<char> {
    Seq::new(s.len(), |i: int| ascii_lower(s[i]))
}

/// The language of a lower-case extension.
pub open spec fn language_of_extension(ext: Seq<char>) -> Option<Language> {
    if ext == "rs"@ {
        Some(Language::Rust)
    } else if ext == "py"@ || ext == "pyi"@ {
        Some(Language::Python)
    } else if ext == "js"@ || ext == "mjs"@ || ext == "cjs"@ {
        Some(Language::JavaScript)
    } else if ext == "ts"@ || ext == "mts"@ || ext == "cts"@ || ext == "tsx"@ {
        Some(Language::TypeScript)
    } else if ext == "go"@ {
        Some(Language::Go)
    } else if ext == "c"@ || ext == "h"@ {
        Some(Language::C)
    } else if ext == "cpp"@ || ext == "cc"@ || ext == "hpp"@ || ext == "hxx"@ || ext == "cxx"@ {
        Some(Language::Cpp)
    } else {
        None
    }
}

/// The language that a path's extension denotes, ignoring case.
pub open spec fn spec_detect_language(path: Seq<char>) -> Option<Language> {
    match path_extension(path) {
        None => None,
        Some(ext) => language_of_extension(ascii_lower_seq(ext)),
    }
}

/// `s` with ASCII letters lower-cased.
///
/// Only ASCII letters change. For the extensions this library recognises
/// that gives the same answer as full Unicode lower-casing: no non-ASCII
/// character lower-cases to a text made only of the ASCII letters they use.
pub fn to_ascii_lower(s: &str) -> (r: String)
    ensures
        r@ == ascii_lower_seq(s@),
{
    let cs = chars_of(s);
    let mut out = String::new();
    let n = cs.len();
    let mut k: usize = 0;
    while k < n
        invariant
            n == cs@.len(),
            cs@ == s@,
            k <= n,
            out@ == ascii_lower_seq(s@).take(k as int),
        decreases n - k,
    {
        let c = cs[k];
        let l = if 'A' <= c && c <= 'Z' {
            ((c as u32) + 32) as u8 as char
        } else {
            c
        };
        assert(l == ascii_lower(c));
        crate::text::push_char(&mut out, l);
        assert(ascii_lower_seq(s@).take(k as int + 1) =~= ascii_lower_seq(s@).take(k as int).push(l));
        k = k + 1;
    }
    assert(ascii_lower_seq(s@).take(n as int) =~= ascii_lower_seq(s@));
    out
}

/// The language of a lower-case extension.
pub fn language_for_extension(ext: &str) -> (r: Option<Language>)
    ensures
        r == language_of_extension(ext@),
{
    if str_eq(ext, "rs") {
        Some(Language::Rust)
    } else if str_eq(ext, "py") || str_eq(ext, "pyi") {
        Some(Language::Python)
    } else if str_eq(ext, "js") || str_eq(ext, "mjs") || str_eq(ext, "cjs") {
        Some(Language::JavaScript)
    } else if str_eq(ext, "ts") || str_eq(ext, "mts") || str_eq(ext, "cts") || str_eq(ext, "tsx") {
        Some(Language::TypeScript)
    } else if str_eq(ext, "go") {
        Some(Language::Go)
    } else if str_eq(ext, "c") || str_eq(ext, "h") {
        Some(Language::C)
    } else if str_eq(ext, "cpp") || str_eq(ext, "cc") || str_eq(ext, "hpp") || str_eq(ext, "hxx")
        || str_eq(ext, "cxx") {
        Some(Language::Cpp)
    } else {
        None
    }
}

/// The language of `path`, from its extension, ignoring case; `None` when
/// the path has no extension or an unknown one.
pub fn detect_language(path: &str) -> (r: Option<Language>)
    ensures
        r == spec_detect_language(path@),
{
    match path_extension_of(path) {
        None => None,
        Some(ext) => {
            let lower = to_ascii_lower(ext.as_str());
            language_for_extension(lower.as_str())
        },
    }
}

/// The short name of a language, as used on the command line and in the
/// index.
pub open spec fn spec_language_name(lang: Language) -> Seq<char> {
    match lang {
        Language::Rust => "rust"@,
        Language::Python => "python"@,
        Language::JavaScript => "js"@,
        Language::TypeScript => "ts"@,
        Language::Go => "go"@,
        Language::C => "c"@,
        Language::Cpp => "cpp"@,
    }
}

/// The short name of a language ("rust", "python", "js", "ts", "go", "c",
/// "cpp").
pub fn language_name(lang: &Language) -> (r: &'static str)
    ensures
        r@ == spec_language_name(*lang),
{
    match lang {
        Language::Rust => "rust",
        Language::Python => "python",
        Language::JavaScript => "js",
        Language::TypeScript => "ts",
        Language::Go => "go",
        Language::C => "c",
        Language::Cpp => "cpp",
    }
}

/// The language whose short name is `name`.
pub open spec fn spec_language_named(name: Seq<char>) -> Option<Language> {
    if name == "rust"@ {
        Some(Language::Rust)
    } else if name == "python"@ {
        Some(Language::Python)
    } else if name == "js"@ {
        Some(Language::JavaScript)
    } else if name == "ts"@ {
        Some(Language::TypeScript)
    } else if name == "go"@ {
        Some(Language::Go)
    } else if name == "c"@ {
        Some(Language::C)
    } else if name == "cpp"@ {
        Some(Language::Cpp)
    } else {
        None
    }
}

/// The language named `lang`, or `LanguageNotSupported` with the list of
/// supported names.
pub fn get_language(lang: &str) -> (r: Result<Language, AppError>)
    ensures
        match spec_language_named(lang@) {
            Some(l) => r == Ok::<Language, AppError>(l),
            None => r matches Err(AppError::LanguageNotSupported(m)) && m@ == "Language '"@
                + lang@ + "' is not supported. Supported: rust, python, js, ts, go, c, cpp"@,
        },
{
    if str_eq(lang, "rust") {
        Ok(Language::Rust)
    } else if str_eq(lang, "python") {
        Ok(Language::Python)
    } else if str_eq(lang, "js") {
        Ok(Language::JavaScript)
    } else if str_eq(lang, "ts") {
        Ok(Language::TypeScript)
    } else if str_eq(lang, "go") {
        Ok(Language::Go)
    } else if str_eq(lang, "c") {
        Ok(Language::C)
    } else if str_eq(lang, "cpp") {
        Ok(Language::Cpp)
    } else {
        let mut m = String::new();
        push_str(&mut m, "Language '");
        push_str(&mut m, lang);
        push_str(&mut m, "' is not supported. Supported: rust, python, js, ts, go, c, cpp");
        Err(AppError::LanguageNotSupported(m))
    }
}

/// Every supported language, in a fixed order.
pub fn all_languages() -> (r: Vec<Language>)
    ensures
        r@ == seq![
            Language::Rust,
            Language::Python,
            Language::JavaScript,
            Language::TypeScript,
            Language::Go,
            Language::C,
            Language::Cpp,
        ],
{
    let mut v: Vec<Language> = Vec::new();
    v.push(Language::Rust);
    v.push(Language::Python);
    v.push(Language::JavaScript);
    v.push(Language::TypeScript);
    v.push(Language::Go);
    v.push(Language::C);
    v.push(Language::Cpp);
    assert(v@ =~= seq![
        Language::Rust,
        Language::Python,
        Language::JavaScript,
        Language::TypeScript,
        Language::Go,
        Language::C,
        Language::Cpp,
    ]);
    v
}

/// Reading back the short name of any language gives that language.
pub proof fn law_language_name_roundtrip(lang: Language)
    ensures
        spec_language_named(spec_language_name(lang)) == Some(lang),
{
    reveal_strlit("rust");
    reveal_strlit("python");
    reveal_strlit("js");
    reveal_strlit("ts");
    reveal_strlit("go");
    reveal_strlit("c");
    reveal_strlit("cpp");
    match lang {
        Language::Rust => {},
        Language::Python => {
            assert("python"@.len() != "rust"@.len());
        },
        Language::JavaScript => {
            assert("js"@.len() != "rust"@.len());
            assert("js"@.len() != "python"@.len());
        },
        Language::TypeScript => {
            assert("ts"@.len() != "rust"@.len());
            assert("ts"@.len() != "python"@.len());
            assert("ts"@[0] != "js"@[0]);
        },
        Language::Go => {
            assert("go"@.len() != "rust"@.len());
            assert("go"@.len() != "python"@.len());
            assert("go"@[0] != "js"@[0]);
            assert("go"@[0] != "ts"@[0]);
        },
        Language::C => {
            assert("c"@.len() != "rust"@.len());
            assert("c"@.len() != "python"@.len());
            assert("c"@.len() != "js"@.len());
            assert("c"@.len() != "ts"@.len());
            assert("c"@.len() != "go"@.len());
        },
        Language::Cpp => {
            assert("cpp"@.len() != "rust"@.len());
            assert("cpp"@.len() != "python"@.len());
            assert("cpp"@.len() != "js"@.len());
            assert("cpp"@.len() != "ts"@.len());
            assert("cpp"@.len() != "go"@.len());
            assert("cpp"@.len() != "c"@.len());
        },
    }
}

/// Whether a file of `size` bytes is mapped into memory rather than read.
pub fn maps_file(size: u64) -> (r: bool)
    ensures
        r == (size >= MMAP_THRESHOLD_BYTES),
{
    size >= MMAP_THRESHOLD_BYTES
}

/// The message for a file with nothing to parse.
pub open spec fn empty_file_message(path: Seq<char>) -> Seq<char> {
    "File is empty and contains no parseable content: "@ + path
}

/// The message for a mapped file that is not UTF-8.
pub open spec fn invalid_utf8_message(path: Seq<char>) -> Seq<char> {
    "file contains invalid UTF-8: "@ + path
}

/// The message for a file the parser produced no tree for.
pub open spec fn no_tree_message(path: Seq<char>) -> Seq<char> {
    "Tree-sitter returned no parse tree for: "@ + path + ". This may indicate a grammar/library version mismatch."@
}

fn parse_error(prefix: &str, path: &str, suffix: &str) -> (r: AppError)
    ensures
        r matches AppError::ParseError(m) && m@ == prefix@ + path@ + suffix@,
{
    let mut m = String::new();
    push_str(&mut m, prefix);
    push_str(&mut m, path);
    push_str(&mut m, suffix);
    assert(m@ =~= prefix@ + path@ + suffix@);
    AppError::ParseError(m)
}

/// The text read from the file at `path`, refused when it is empty.
pub fn nonempty_source(path: &str, text: String) -> (r: Result<String, AppError>)
    ensures
        text@.len() == 0 ==> (r matches Err(AppError::ParseError(m)) && m@ == empty_file_message(path@)),
        text@.len() > 0 ==> r == Ok::<String, AppError>(text),
{
    if text.as_str().unicode_len() == 0 {
        proof {
            reveal_strlit("");
        }
        Err(parse_error("File is empty and contains no parseable content: ", path, ""))
    } else {
        Ok(text)
    }
}

/// The text of the file at `path` from its mapped bytes: refused when the
/// bytes are not UTF-8 or when there are none.
pub fn mapped_source(path: &str, bytes: Vec<u8>) -> (r: Result<String, AppError>)
    ensures
        !valid_utf8(bytes@) ==> (r matches Err(AppError::ParseError(m)) && m@ == invalid_utf8_message(path@)),
        valid_utf8(bytes@) && bytes@.len() == 0 ==> (r matches Err(AppError::ParseError(m)) && m@
            == empty_file_message(path@)),
        valid_utf8(bytes@) && bytes@.len() > 0 ==> (r matches Ok(s) && s@ == decode_utf8(bytes@)),
{
    let empty = bytes.len() == 0;
    match string_from_utf8(bytes) {
        None => {
            proof {
                reveal_strlit("");
            }
            Err(parse_error("file contains invalid UTF-8: ", path, ""))
        },
        Some(text) => {
            if empty {
                proof {
                    reveal_strlit("");
                }
                Err(parse_error("File is empty and contains no parseable content: ", path, ""))
            } else {
                Ok(text)
            }
        },
    }
}

/// The error for a file the parser produced no tree for.
pub fn no_tree_error(path: &str) -> (r: AppError)
    ensures
        r matches AppError::ParseError(m) && m@ == no_tree_message(path@),
{
    parse_error(
        "Tree-sitter returned no parse tree for: ",
        path,
        ". This may indicate a grammar/library version mismatch.",
    )
}


/// A path's language is chosen by the text after the last `.` of its file
/// name: for `d + a + "." + e` (`d` empty or ending with `/`, non-empty stem
/// `a` and extension `e` without `/`, no `.` in `e`) it is the language of
/// `e`, ignoring case; in particular any such path whose `e` is `ts` is
/// TypeScript, whatever dots `a` holds (`app.test.ts`).
pub proof fn law_language_from_last_extension(d: Seq<char>, a: Seq<char>, e: Seq<char>)
    requires
        d.len() == 0 || d.last() == '/',
        a.len() > 0,
        e.len() > 0,
        !a.contains('/'),
        !e.contains('/'),
        !e.contains('.'),
    ensures
        spec_detect_language(d + a + seq!['.'] + e) == language_of_extension(ascii_lower_seq(e)),
        e == "ts"@ ==> spec_detect_language(d + a + seq!['.'] + e) == Some(Language::TypeScript),
{
    law_path_extension_after_last_dot(d, a, e);
    if e == "ts"@ {
        reveal_strlit("ts");
        reveal_strlit("rs");
        reveal_strlit("py");
        reveal_strlit("pyi");
        reveal_strlit("js");
        reveal_strlit("mjs");
        reveal_strlit("cjs");
        assert(ascii_lower_seq(e) =~= "ts"@);
        assert("ts"@[0] != "rs"@[0]);
        assert("ts"@[0] != "py"@[0]);
        assert("ts"@.len() != "pyi"@.len());
        assert("ts"@[0] != "js"@[0]);
        assert("ts"@.len() != "mjs"@.len());
        assert("ts"@.len() != "cjs"@.len());
    }
}

} // verus!
