//! Symbol extraction: which queries find the symbols of each language, and
//! how the captures of their matches become symbol rows.
//!
//! The queries are run over a parsed file in `syntax` (through tree-sitter);
//! here their matches are plain records.

use crate::memory::{NewSymbolRow, SymbolKind};
use crate::query::{source_text, text_between, views, CaptureRecord, MatchRecord};
use crate::text::{chars_of, push_char, push_str, str_eq};
use crate::types::Language;
use vstd::prelude::*;
use vstd::string::StringSliceAdditionalSpecFns;

verus! {

/// Longest signature kept, in characters.
pub const MAX_SIGNATURE_CHARS: usize = 500;

/// A signature shortened to `MAX_SIGNATURE_CHARS` characters, with an
/// ellipsis appended when something was cut.
pub open spec fn spec_truncate_signature(text: Seq<char>) -> Seq<char> {
    if text.len() <= 500 {
        text
    } else {
        text.take(500).push('…')
    }
}

/// Shortens a signature to at most 500 characters; a longer one keeps its
/// first 500 characters followed by `…`.
pub fn truncate_signature(text: &str) -> (r: String)
    ensures
        r@ == spec_truncate_signature(text@),
{
    let cs = chars_of(text);
    if cs.len() <= MAX_SIGNATURE_CHARS {
        let mut out = String::new();
        push_str(&mut out, text);
        assert(out@ =~= text@);
        return out;
    }
    let mut out = crate::paths::slice_chars(cs.as_slice(), 0, MAX_SIGNATURE_CHARS);
    push_char(&mut out, '…');
    assert(out@ =~= text@.take(500).push('…'));
    out
}

/// The symbol queries of a language, one per kind of symbol it has.
#[derive(Debug, Clone, Copy)]
pub struct LangQueries {
    /// Functions.
    pub functions: Option<&'static str>,
    /// Structs.
    pub structs: Option<&'static str>,
    /// Classes.
    pub classes: Option<&'static str>,
    /// Interfaces.
    pub interfaces: Option<&'static str>,
    /// Type aliases.
    pub type_aliases: Option<&'static str>,
    /// Imports.
    pub imports: Option<&'static str>,
    /// Traits and trait implementations.
    pub traits: Option<&'static str>,
    /// Enums.
    pub enums: Option<&'static str>,
}

/// The queries of a language as a sequence, in the order they run, each
/// with the kind of symbol it finds; absent ones are `None`.
pub open spec fn query_slots(q: LangQueries) -> Seq<(Option<Seq<char>>, SymbolKind)> {
    seq![
        (opt_view(q.functions), SymbolKind::Function),
        (opt_view(q.structs), SymbolKind::Struct),
        (opt_view(q.classes), SymbolKind::Class),
        (opt_view(q.interfaces), SymbolKind::Interface),
        (opt_view(q.type_aliases), SymbolKind::TypeAlias),
        (opt_view(q.imports), SymbolKind::Import),
        (opt_view(q.traits), SymbolKind::Trait),
        (opt_view(q.enums), SymbolKind::Enum),
    ]
}

/// The view of an optional string.
pub open spec fn opt_view(s: Option<&'static str>) -> Option<Seq<char>> {
    match s {
        Some(t) => Some(t@),
        None => None,
    }
}

/// Which kinds of symbol a language's queries look for.
pub open spec fn spec_query_kinds(lang: Language) -> Seq<bool> {
    match lang {
        Language::Rust => seq![true, true, false, false, true, true, true, true],
        Language::Python => seq![true, false, true, false, false, true, false, false],
        Language::JavaScript => seq![true, false, true, false, false, true, false, false],
        Language::TypeScript => seq![true, false, true, true, true, true, false, false],
        Language::Go => seq![true, true, false, false, false, true, false, false],
        Language::C => seq![true, true, false, false, false, true, false, true],
        Language::Cpp => seq![true, true, true, false, false, true, false, true],
    }
}

/// The query texts of a language, in the order of `query_slots`.
pub open spec fn spec_queries(lang: Language) -> Seq<Option<Seq<char>>> {
    match lang {
        Language::Rust => seq![
            Some("(source_file (function_item name: (identifier) @name) @sig)"@),
            Some("(struct_item name: (type_identifier) @name) @sig"@),
            None,
            None,
            Some("(type_item name: (type_identifier) @name) @sig"@),
            Some("(use_declaration (_) @name) @sig"@),
            Some("(trait_item name: (type_identifier) @name) @sig\n(impl_item trait: (_) @trait_name type: (_) @type_name) @sig"@),
            Some("(enum_item name: (type_identifier) @name) @sig"@),
        ],
        Language::Python => seq![
            Some("(function_definition name: (identifier) @name) @sig"@),
            None,
            Some("(class_definition name: (identifier) @name) @sig"@),
            None,
            None,
            Some("(import_statement (dotted_name) @name) @sig\n(import_from_statement module_name: (dotted_name) @name) @sig"@),
            None,
            None,
        ],
        Language::JavaScript => seq![
            Some("(function_declaration name: (identifier) @name) @sig"@),
            None,
            Some("(class_declaration name: (identifier) @name) @sig"@),
            None,
            None,
            Some("(import_statement source: (string) @name) @sig"@),
            None,
            None,
        ],
        Language::TypeScript => seq![
            Some("(function_declaration name: (identifier) @name) @sig"@),
            None,
            Some("(class_declaration name: (type_identifier) @name) @sig"@),
            Some("(interface_declaration name: (type_identifier) @name) @sig"@),
            Some("(type_alias_declaration name: (type_identifier) @name) @sig"@),
            Some("(import_statement source: (string) @name) @sig"@),
            None,
            None,
        ],
        Language::Go => seq![
            Some("(function_declaration name: (identifier) @name) @sig"@),
            Some("(type_declaration (type_spec name: (type_identifier) @name) @sig)"@),
            None,
            None,
            None,
            Some("(import_declaration (import_spec path: (interpreted_string_literal) @name) @sig)"@),
            None,
            None,
        ],
        Language::C => seq![
            Some("(function_definition declarator: (function_declarator declarator: (identifier) @name) @sig)"@),
            Some("(type_definition declarator: (type_identifier) @name) @sig\n(struct_specifier name: (type_identifier) @name) @sig"@),
            None,
            None,
            None,
            Some("(preproc_include path: (_) @name) @sig"@),
            None,
            Some("(enum_specifier name: (type_identifier) @name) @sig"@),
        ],
        Language::Cpp => seq![
            Some("(function_definition declarator: (function_declarator declarator: (identifier) @name) @sig)"@),
            Some("(struct_specifier name: (type_identifier) @name) @sig"@),
            Some("(class_specifier name: (type_identifier) @name) @sig"@),
            None,
            None,
            Some("(preproc_include path: (_) @name) @sig"@),
            None,
            Some("(enum_specifier name: (type_identifier) @name) @sig"@),
        ],
    }
}

/// The symbol queries of `lang`. Which kinds a language has queries for is
/// `spec_query_kinds`; the query texts are the tree-sitter patterns that
/// name each kind's node and capture its name as `@name` and the whole
/// declaration as `@sig` (trait implementations capture `@trait_name` and
/// `@type_name`).
pub fn queries_for_language(lang: &Language) -> (r: LangQueries)
    ensures
        forall|i: int| 0 <= i < 8 ==> (#[trigger] query_slots(r)[i]).0 == spec_queries(*lang)[i],
        forall|i: int| 0 <= i < 8 ==> (#[trigger] query_slots(r)[i]).0 is Some == spec_query_kinds(*lang)[i],
{
    let r = match lang {
        Language::Rust => LangQueries {
            functions: Some("(source_file (function_item name: (identifier) @name) @sig)"),
            structs: Some("(struct_item name: (type_identifier) @name) @sig"),
            classes: None,
            interfaces: None,
            type_aliases: Some("(type_item name: (type_identifier) @name) @sig"),
            imports: Some("(use_declaration (_) @name) @sig"),
            traits: Some(
                "(trait_item name: (type_identifier) @name) @sig\n(impl_item trait: (_) @trait_name type: (_) @type_name) @sig",
            ),
            enums: Some("(enum_item name: (type_identifier) @name) @sig"),
        },
        Language::Python => LangQueries {
            functions: Some("(function_definition name: (identifier) @name) @sig"),
            structs: None,
            classes: Some("(class_definition name: (identifier) @name) @sig"),
            interfaces: None,
            type_aliases: None,
            imports: Some(
                "(import_statement (dotted_name) @name) @sig\n(import_from_statement module_name: (dotted_name) @name) @sig",
            ),
            traits: None,
            enums: None,
        },
        Language::JavaScript => LangQueries {
            functions: Some("(function_declaration name: (identifier) @name) @sig"),
            structs: None,
            classes: Some("(class_declaration name: (identifier) @name) @sig"),
            interfaces: None,
            type_aliases: None,
            imports: Some("(import_statement source: (string) @name) @sig"),
            traits: None,
            enums: None,
        },
        Language::TypeScript => LangQueries {
            functions: Some("(function_declaration name: (identifier) @name) @sig"),
            structs: None,
            classes: Some("(class_declaration name: (type_identifier) @name) @sig"),
            interfaces: Some("(interface_declaration name: (type_identifier) @name) @sig"),
            type_aliases: Some("(type_alias_declaration name: (type_identifier) @name) @sig"),
            imports: Some("(import_statement source: (string) @name) @sig"),
            traits: None,
            enums: None,
        },
        Language::Go => LangQueries {
            functions: Some("(function_declaration name: (identifier) @name) @sig"),
            structs: Some("(type_declaration (type_spec name: (type_identifier) @name) @sig)"),
            classes: None,
            interfaces: None,
            type_aliases: None,
            imports: Some(
                "(import_declaration (import_spec path: (interpreted_string_literal) @name) @sig)",
            ),
            traits: None,
            enums: None,
        },
        Language::C => LangQueries {
            functions: Some(
                "(function_definition declarator: (function_declarator declarator: (identifier) @name) @sig)",
            ),
            structs: Some(
                "(type_definition declarator: (type_identifier) @name) @sig\n(struct_specifier name: (type_identifier) @name) @sig",
            ),
            classes: None,
            interfaces: None,
            type_aliases: None,
            imports: Some("(preproc_include path: (_) @name) @sig"),
            traits: None,
            enums: Some("(enum_specifier name: (type_identifier) @name) @sig"),
        },
        Language::Cpp => LangQueries {
            functions: Some(
                "(function_definition declarator: (function_declarator declarator: (identifier) @name) @sig)",
            ),
            structs: Some("(struct_specifier name: (type_identifier) @name) @sig"),
            classes: Some("(class_specifier name: (type_identifier) @name) @sig"),
            interfaces: None,
            type_aliases: None,
            imports: Some("(preproc_include path: (_) @name) @sig"),
            traits: None,
            enums: Some("(enum_specifier name: (type_identifier) @name) @sig"),
        },
    };
    assert(query_slots(r).len() == 8);
    r
}

/// The queries of a language that exist, in the order they run, each with
/// the kind of symbol it finds.
pub open spec fn present_slots(slots: Seq<(Option<Seq<char>>, SymbolKind)>) -> Seq<(Seq<char>, SymbolKind)>
    decreases slots.len(),
{
    if slots.len() == 0 {
        Seq::empty()
    } else {
        let prev = present_slots(slots.drop_last());
        match slots.last().0 {
            Some(q) => prev.push((q, slots.last().1)),
            None => prev,
        }
    }
}

/// The symbol queries that run, in order (functions, structs,
/// classes, interfaces, type aliases, imports, traits, enums), each with the
/// kind of the symbols it finds.
pub fn extraction_plan(q: &LangQueries) -> (r: Vec<(&'static str, SymbolKind)>)
    ensures
        r@.len() == present_slots(query_slots(*q)).len(),
        forall|i: int| #![auto] 0 <= i < r@.len() ==> r@[i].0@ == present_slots(query_slots(*q))[i].0
            && r@[i].1 == present_slots(query_slots(*q))[i].1,
{
    let q = *q;
    let slots: [(Option<&'static str>, SymbolKind); 8] = [
        (q.functions, SymbolKind::Function),
        (q.structs, SymbolKind::Struct),
        (q.classes, SymbolKind::Class),
        (q.interfaces, SymbolKind::Interface),
        (q.type_aliases, SymbolKind::TypeAlias),
        (q.imports, SymbolKind::Import),
        (q.traits, SymbolKind::Trait),
        (q.enums, SymbolKind::Enum),
    ];
    let ghost all = query_slots(q);
    assert forall|i: int| 0 <= i < 8 implies #[trigger] opt_view(slots@[i].0) == all[i].0 && slots@[i].1 == all[i].1 by {}
    let mut out: Vec<(&'static str, SymbolKind)> = Vec::new();
    let mut k: usize = 0;
    while k < 8
        invariant
            k <= 8,
            all == query_slots(q),
            all.len() == 8,
            forall|i: int| 0 <= i < 8 ==> #[trigger] opt_view(slots@[i].0) == all[i].0 && slots@[i].1 == all[i].1,
            out@.len() == present_slots(all.take(k as int)).len(),
            forall|i: int| #![auto] 0 <= i < out@.len() ==> out@[i].0@ == present_slots(all.take(k as int))[i].0
                && out@[i].1 == present_slots(all.take(k as int))[i].1,
        decreases 8 - k,
    {
        assert(all.take(k as int + 1).drop_last() =~= all.take(k as int));
        assert(all.take(k as int + 1).last() == all[k as int]);
        let (slot, kind) = slots[k];
        assert(opt_view(slot) == all[k as int].0);
        match slot {
            Some(text) => {
                out.push((text, kind));
            },
            None => {},
        }
        k = k + 1;
    }
    assert(all.take(8) =~= all);
    out
}

/// The last capture of a match whose capture name is `label`.
pub open spec fn last_labeled(caps: Seq<CaptureRecord>, names: Seq<Seq<char>>, label: Seq<char>) -> Option<CaptureRecord>
    decreases caps.len(),
{
    if caps.len() == 0 {
        None
    } else if names[caps.last().capture_index as int] == label {
        Some(caps.last())
    } else {
        last_labeled(caps.drop_last(), names, label)
    }
}

/// What a match holds under `label`: the last capture with that name and
/// its text, when the text can be read.
pub open spec fn labeled_text(caps: Seq<CaptureRecord>, names: Seq<Seq<char>>, src: Seq<u8>, label: Seq<char>) -> Option<(CaptureRecord, Seq<char>)> {
    match last_labeled(caps, names, label) {
        None => None,
        Some(c) => match source_text(src, c.start_byte as int, c.end_byte as int) {
            None => None,
            Some(t) => Some((c, t)),
        },
    }
}

/// The symbol a match describes, as name, start line, start column, end
/// line, end column and signature; `None` when the match lacks the captures
/// its kind needs. A trait match without `@name` is an implementation, named
/// "<trait> for <type>".
pub open spec fn spec_symbol(kind: SymbolKind, caps: Seq<CaptureRecord>, names: Seq<Seq<char>>, src: Seq<u8>) -> Option<(Seq<char>, int, int, int, int, Option<Seq<char>>)> {
    let n = labeled_text(caps, names, src, "name"@);
    let tn = labeled_text(caps, names, src, "trait_name"@);
    let ty = labeled_text(caps, names, src, "type_name"@);
    let signature = match labeled_text(caps, names, src, "sig"@) {
        Some(p) => Some(spec_truncate_signature(p.1)),
        None => None,
    };
    if kind == SymbolKind::Trait && n is None {
        match (tn, ty) {
            (Some(a), Some(b)) => Some(
                (
                    a.1 + " for "@ + b.1,
                    a.0.start_row + 1,
                    a.0.start_col as int,
                    b.0.end_row + 1,
                    b.0.end_col as int,
                    signature,
                ),
            ),
            _ => None,
        }
    } else {
        match (if n is Some { n } else { tn }) {
            Some(p) => Some(
                (p.1, p.0.start_row + 1, p.0.start_col as int, p.0.end_row + 1, p.0.end_col as int, signature),
            ),
            None => None,
        }
    }
}

/// A symbol row as plain values.
pub open spec fn symbol_view(r: NewSymbolRow) -> (Seq<char>, int, int, int, int, Option<Seq<char>>) {
    (
        r.name@,
        r.start_line as int,
        r.start_col as int,
        r.end_line as int,
        r.end_col as int,
        match r.signature {
            Some(s) => Some(s@),
            None => None,
        },
    )
}

/// Whether a match's captures name captures of the query and have rows
/// that can be made 1-based.
pub open spec fn captures_fit(caps: Seq<CaptureRecord>, names_len: int) -> bool {
    forall|j: int| 0 <= j < caps.len() ==> {
        let c = #[trigger] caps[j];
        &&& (c.capture_index as int) < names_len
        &&& c.start_row < usize::MAX
        &&& c.end_row < usize::MAX
    }
}

fn find_labeled(caps: &Vec<CaptureRecord>, names: &[String], label: &str, src: &[u8]) -> (r: Option<(usize, String)>)
    requires
        captures_fit(caps@, names@.len() as int),
    ensures
        match labeled_text(caps@, views(names@), src@, label@) {
            None => r is None,
            Some(p) => r matches Some((k, t)) && k < caps@.len() && caps@[k as int] == p.0 && t@ == p.1,
        },
{
    let mut found: Option<usize> = None;
    let mut k: usize = 0;
    while k < caps.len()
        invariant
            k <= caps@.len(),
            captures_fit(caps@, names@.len() as int),
            match last_labeled(caps@.take(k as int), views(names@), label@) {
                None => found is None,
                Some(c) => found matches Some(i) && i < k && caps@[i as int] == c,
            },
        decreases caps@.len() - k,
    {
        assert(caps@.take(k as int + 1).drop_last() =~= caps@.take(k as int));
        assert(caps@.take(k as int + 1).last() == caps@[k as int]);
        let idx = caps[k].capture_index as usize;
        assert(views(names@)[idx as int] == names@[idx as int]@);
        if str_eq(names[idx].as_str(), label) {
            found = Some(k);
        }
        k = k + 1;
    }
    assert(caps@.take(caps@.len() as int) =~= caps@);
    match found {
        None => None,
        Some(i) => {
            let c = &caps[i];
            match text_between(src, c.start_byte, c.end_byte) {
                None => None,
                Some(t) => Some((i, t)),
            }
        },
    }
}

/// The symbol row of one match of a `kind` query on a file with content
/// `source`, whose captures are named by `capture_names`; `None` when the
/// match lacks the captures the kind needs.
pub fn symbol_from_match(
    file_id: i64,
    kind: SymbolKind,
    m: &MatchRecord,
    capture_names: &[String],
    source: &str,
) -> (r: Option<NewSymbolRow>)
    requires
        captures_fit(m.captures@, capture_names@.len() as int),
    ensures
        match spec_symbol(kind, m.captures@, views(capture_names@), source.spec_bytes()) {
            None => r is None,
            Some(v) => r matches Some(row) && symbol_view(row) == v && row.file_id == file_id && row.kind == kind,
        },
{
    let src = source.as_bytes();
    let caps = &m.captures;
    let n = find_labeled(caps, capture_names, "name", src);
    let tn = find_labeled(caps, capture_names, "trait_name", src);
    let ty = find_labeled(caps, capture_names, "type_name", src);
    let sig = find_labeled(caps, capture_names, "sig", src);
    let signature = match sig {
        Some((_, t)) => Some(truncate_signature(t.as_str())),
        None => None,
    };
    if kind == SymbolKind::Trait && n.is_none() {
        match (tn, ty) {
            (Some((a, at)), Some((b, bt))) => {
                let mut name = String::new();
                push_str(&mut name, at.as_str());
                push_str(&mut name, " for ");
                push_str(&mut name, bt.as_str());
                let ca = &caps[a];
                let cb = &caps[b];
                assert(name@ =~= at@ + " for "@ + bt@);
                Some(NewSymbolRow {
                    file_id,
                    kind,
                    name,
                    start_line: ca.start_row + 1,
                    start_col: ca.start_col,
                    end_line: cb.end_row + 1,
                    end_col: cb.end_col,
                    signature,
                })
            },
            _ => None,
        }
    } else {
        let chosen = if n.is_some() {
            n
        } else {
            tn
        };
        match chosen {
            Some((i, t)) => {
                let c = &caps[i];
                Some(NewSymbolRow {
                    file_id,
                    kind,
                    name: t,
                    start_line: c.start_row + 1,
                    start_col: c.start_col,
                    end_line: c.end_row + 1,
                    end_col: c.end_col,
                    signature,
                })
            },
            None => None,
        }
    }
}

/// The symbols of a sequence of matches, in order.
pub open spec fn spec_symbols(kind: SymbolKind, ms: Seq<MatchRecord>, names: Seq<Seq<char>>, src: Seq<u8>) -> Seq<(Seq<char>, int, int, int, int, Option<Seq<char>>)>
    decreases ms.len(),
{
    if ms.len() == 0 {
        Seq::empty()
    } else {
        let prev = spec_symbols(kind, ms.drop_last(), names, src);
        match spec_symbol(kind, ms.last().captures@, names, src) {
            Some(v) => prev.push(v),
            None => prev,
        }
    }
}

/// The symbol rows of the matches of one `kind` query over a file with
/// content `source`, in order, each tied to `file_id`.
pub fn symbols_from_matches(
    file_id: i64,
    kind: SymbolKind,
    matches: &[MatchRecord],
    capture_names: &[String],
    source: &str,
) -> (r: Vec<NewSymbolRow>)
    requires
        forall|i: int| 0 <= i < matches@.len() ==> captures_fit((#[trigger] matches@[i]).captures@, capture_names@.len() as int),
    ensures
        r@.len() == spec_symbols(kind, matches@, views(capture_names@), source.spec_bytes()).len(),
        forall|i: int| 0 <= i < r@.len() ==> symbol_view(#[trigger] r@[i]) == spec_symbols(kind, matches@, views(capture_names@), source.spec_bytes())[i]
            && r@[i].file_id == file_id && r@[i].kind == kind,
{
    let ghost names = views(capture_names@);
    let ghost src = source.spec_bytes();
    let mut out: Vec<NewSymbolRow> = Vec::new();
    let mut k: usize = 0;
    while k < matches.len()
        invariant
            k <= matches@.len(),
            names == views(capture_names@),
            src == source.spec_bytes(),
            forall|i: int| 0 <= i < matches@.len() ==> captures_fit((#[trigger] matches@[i]).captures@, capture_names@.len() as int),
            out@.len() == spec_symbols(kind, matches@.take(k as int), names, src).len(),
            forall|i: int| 0 <= i < out@.len() ==> symbol_view(#[trigger] out@[i]) == spec_symbols(kind, matches@.take(k as int), names, src)[i]
                && out@[i].file_id == file_id && out@[i].kind == kind,
        decreases matches@.len() - k,
    {
        assert(matches@.take(k as int + 1).drop_last() =~= matches@.take(k as int));
        assert(matches@.take(k as int + 1).last() == matches@[k as int]);
        let ghost prev = out@;
        match symbol_from_match(file_id, kind, &matches[k], capture_names, source) {
            Some(row) => {
                out.push(row);
                assert forall|i: int| 0 <= i < out@.len() implies symbol_view(#[trigger] out@[i]) == spec_symbols(kind, matches@.take(k as int + 1), names, src)[i]
                    && out@[i].file_id == file_id && out@[i].kind == kind by {
                    if i < prev.len() {
                        assert(out@[i] == prev[i]);
                    }
                }
            },
            None => {},
        }
        k = k + 1;
    }
    assert(matches@.take(matches@.len() as int) =~= matches@);
    out
}

/// The query slots of a language: its query texts with the kinds they find.
pub open spec fn lang_slots(lang: Language) -> Seq<(Option<Seq<char>>, SymbolKind)> {
    let q = spec_queries(lang);
    seq![
        (q[0], SymbolKind::Function),
        (q[1], SymbolKind::Struct),
        (q[2], SymbolKind::Class),
        (q[3], SymbolKind::Interface),
        (q[4], SymbolKind::TypeAlias),
        (q[5], SymbolKind::Import),
        (q[6], SymbolKind::Trait),
        (q[7], SymbolKind::Enum),
    ]
}

/// Extracts the symbols of files in one language.
#[derive(Debug, Clone, Copy)]
pub struct SymbolExtractor {
    /// The language to extract symbols for.
    pub language: Language,
}

impl SymbolExtractor {
    /// The queries that extraction runs over a file, in order, each with the
    /// kind of the symbols it finds.
    pub fn plan(&self) -> (r: Vec<(&'static str, SymbolKind)>)
        ensures
            r@.len() == present_slots(lang_slots(self.language)).len(),
            forall|i: int| #![auto] 0 <= i < r@.len() ==> r@[i].0@ == present_slots(lang_slots(self.language))[i].0
                && r@[i].1 == present_slots(lang_slots(self.language))[i].1,
    {
        let q = queries_for_language(&self.language);
        assert(query_slots(q) =~= lang_slots(self.language)) by {
            assert forall|i: int| 0 <= i < 8 implies query_slots(q)[i] == lang_slots(self.language)[i] by {
                assert(query_slots(q)[i].0 == spec_queries(self.language)[i]);
            }
        }
        extraction_plan(&q)
    }
}

} // verus!
