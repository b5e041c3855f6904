//! Which files a walk keeps: excluded directory names, extensions per
//! language, and the binary-content test.
//!
//! Walking the filesystem and reading file samples run outside the library;
//! the decisions about what they find are made here.

use crate::parser::{ascii_lower_seq, to_ascii_lower};
use crate::paths::{path_extension, path_extension_of};
use crate::text::{is_valid_utf8, str_eq};
use crate::types::Language;
use vstd::prelude::*;
use vstd::utf8::valid_utf8;

verus! {

/// Number of bytes of a file that the binary test looks at.
pub const BINARY_SAMPLE_BYTES: usize = 8192;

/// The names of directories that walks never enter.
pub open spec fn excluded_dir_names() -> Seq<Seq<char>> {
    seq![
        ".git"@, ".hg"@, ".svn"@, "target"@, "node_modules"@, ".tox"@, ".venv"@, "venv"@,
        "__pycache__"@, ".mypy_cache"@, ".pytest_cache"@, "dist"@, "build"@, ".idea"@,
        ".vscode"@,
    ]
}

/// Whether a walk skips an entry: it is a directory and its name is one of
/// the excluded names.
pub fn is_excluded_dir(name: &str, is_dir: bool) -> (r: bool)
    ensures
        r == (is_dir && excluded_dir_names().contains(name@)),
{
    if !is_dir {
        return false;
    }
    let names = [
        ".git",
        ".hg",
        ".svn",
        "target",
        "node_modules",
        ".tox",
        ".venv",
        "venv",
        "__pycache__",
        ".mypy_cache",
        ".pytest_cache",
        "dist",
        "build",
        ".idea",
        ".vscode",
    ];
    let ghost spec_names = excluded_dir_names();
    assert(spec_names.len() == 15);
    let mut k: usize = 0;
    while k < 15
        invariant
            k <= 15,
            is_dir,
            spec_names == excluded_dir_names(),
            spec_names.len() == 15,
            forall|j: int| 0 <= j < 15 ==> (#[trigger] names@[j])@ == spec_names[j],
            forall|j: int| 0 <= j < k ==> spec_names[j] != name@,
        decreases 15 - k,
    {
        if str_eq(names[k], name) {
            assert(spec_names[k as int] == name@);
            return true;
        }
        k = k + 1;
    }
    false
}

/// The file extensions of a language, without the leading dot.
pub open spec fn spec_extensions(lang: Language) -> Seq<Seq<char>> {
    match lang {
        Language::Rust => seq!["rs"@],
        Language::Python => seq!["py"@, "pyi"@],
        Language::JavaScript => seq!["js"@, "mjs"@, "cjs"@],
        Language::TypeScript => seq!["ts"@, "mts"@, "cts"@, "tsx"@],
        Language::Go => seq!["go"@],
        Language::C => seq!["c"@, "h"@],
        Language::Cpp => seq!["cpp"@, "cc"@, "hpp"@, "hxx"@, "cxx"@, "h"@],
    }
}

/// The filename extensions associated with `lang`, without a leading dot.
pub fn extensions_for_language(lang: &Language) -> (r: Vec<&'static str>)
    ensures
        r@.len() == spec_extensions(*lang).len(),
        forall|i: int| 0 <= i < r@.len() ==> (#[trigger] r@[i])@ == spec_extensions(*lang)[i],
{
    let mut v: Vec<&'static str> = Vec::new();
    match lang {
        Language::Rust => {
            v.push("rs");
        },
        Language::Python => {
            v.push("py");
            v.push("pyi");
        },
        Language::JavaScript => {
            v.push("js");
            v.push("mjs");
            v.push("cjs");
        },
        Language::TypeScript => {
            v.push("ts");
            v.push("mts");
            v.push("cts");
            v.push("tsx");
        },
        Language::Go => {
            v.push("go");
        },
        Language::C => {
            v.push("c");
            v.push("h");
        },
        Language::Cpp => {
            v.push("cpp");
            v.push("cc");
            v.push("hpp");
            v.push("hxx");
            v.push("cxx");
            v.push("h");
        },
    }
    v
}

/// Whether `path`'s extension, lower-cased, is one of `lang`'s extensions.
pub open spec fn spec_has_language_extension(path: Seq<char>, lang: Language) -> bool {
    match path_extension(path) {
        None => false,
        Some(ext) => spec_extensions(lang).contains(ascii_lower_seq(ext)),
    }
}

/// Whether `path`'s extension, lower-cased, is an extension of some
/// supported language.
pub open spec fn spec_has_supported_extension(path: Seq<char>) -> bool {
    exists|lang: Language| spec_has_language_extension(path, lang)
}

fn contains_str(list: &Vec<&'static str>, s: &str) -> (r: bool)
    ensures
        r == exists|i: int| 0 <= i < list@.len() && (#[trigger] list@[i])@ == s@,
{
    let mut k: usize = 0;
    while k < list.len()
        invariant
            k <= list@.len(),
            forall|j: int| 0 <= j < k ==> (#[trigger] list@[j])@ != s@,
        decreases list@.len() - k,
    {
        if str_eq(list[k], s) {
            return true;
        }
        k = k + 1;
    }
    false
}

/// Whether `path` has one of `lang`'s extensions, ignoring case.
pub fn has_language_extension(path: &str, lang: &Language) -> (r: bool)
    ensures
        r == spec_has_language_extension(path@, *lang),
{
    match path_extension_of(path) {
        None => false,
        Some(ext) => {
            let lower = to_ascii_lower(ext.as_str());
            let exts = extensions_for_language(lang);
            let found = contains_str(&exts, lower.as_str());
            proof {
                if found {
                    let i = choose|i: int| 0 <= i < exts@.len() && (#[trigger] exts@[i])@ == lower@;
                    assert(spec_extensions(*lang)[i] == lower@);
                }
                if spec_extensions(*lang).contains(lower@) {
                    let i = choose|i: int|
                        0 <= i < spec_extensions(*lang).len() && spec_extensions(*lang)[i]
                            == lower@;
                    assert(exts@[i]@ == lower@);
                }
            }
            found
        },
    }
}

/// Whether `path` has an extension of any supported language, ignoring case.
pub fn has_supported_extension(path: &str) -> (r: bool)
    ensures
        r == spec_has_supported_extension(path@),
{
    let r = has_language_extension(path, &Language::Rust) || has_language_extension(
        path,
        &Language::Python,
    ) || has_language_extension(path, &Language::JavaScript) || has_language_extension(
        path,
        &Language::TypeScript,
    ) || has_language_extension(path, &Language::Go) || has_language_extension(
        path,
        &Language::C,
    ) || has_language_extension(path, &Language::Cpp);
    proof {
        if spec_has_supported_extension(path@) {
            let lang = choose|lang: Language| spec_has_language_extension(path@, lang);
            match lang {
                Language::Rust => {},
                Language::Python => {},
                Language::JavaScript => {},
                Language::TypeScript => {},
                Language::Go => {},
                Language::C => {},
                Language::Cpp => {},
            }
        }
    }
    r
}

/// Whether a file sample looks binary: it holds a zero byte or is not valid
/// UTF-8.
pub fn is_binary_sample(sample: &[u8]) -> (r: bool)
    ensures
        r == (sample@.contains(0u8) || !valid_utf8(sample@)),
{
    let mut k: usize = 0;
    while k < sample.len()
        invariant
            k <= sample@.len(),
            forall|j: int| 0 <= j < k ==> sample@[j] != 0u8,
        decreases sample@.len() - k,
    {
        if sample[k] == 0u8 {
            assert(sample@[k as int] == 0u8);
            return true;
        }
        k = k + 1;
    }
    !is_valid_utf8(sample)
}

} // verus!
