//! Tree-sitter in the search: grammars, parsing, compiling queries, running
//! them over a tree and walking a tree. Each call into tree-sitter stands
//! behind a small trusted wrapper; what the search does around the calls is
//! verified.
//!
//! Grammars, queries and trees are paired with the language and text they
//! come from, and what tree-sitter answers about them is named over those
//! plain values (`ts_*`); the functions of this module state their results
//! over these names.

use crate::extractor::{
    captures_fit, lang_slots, present_slots, spec_symbols, symbol_view, symbols_from_matches, SymbolExtractor,
};
use crate::memory::{NewSymbolRow, SymbolKind};
use crate::query::{
    compile_query, extract_matches, patterns_scan_ok, patterns_scannable, predicates_view, records_fit,
    results_view, source_text, spec_extract, spec_regex_predicates, views, CaptureRecord, CompiledQuery,
    MatchRecord,
};
use crate::tui::{ast_acyclic, AstNode};
use crate::types::{AppError, Language, MatchResult};
use crate::view::{leaf_preview, spec_leaf_preview};
use crate::text::{str_eq, string_from_utf8};
use tree_sitter::Language as Grammar;
use vstd::prelude::*;
use vstd::string::StringSliceAdditionalSpecFns;
use vstd::utf8::{decode_utf8, encode_utf8, valid_utf8};

verus! {

/// A tree-sitter grammar.
#[verifier::external_type_specification]
#[verifier::external_body]
pub struct ExGrammar(Grammar);

/// A tree-sitter parser.
#[verifier::external_type_specification]
#[verifier::external_body]
pub struct ExParser(tree_sitter::Parser);

/// A syntax tree.
#[verifier::external_type_specification]
#[verifier::external_body]
pub struct ExTree(tree_sitter::Tree);

/// A compiled tree-sitter query.
#[verifier::external_type_specification]
#[verifier::external_body]
pub struct ExQuery(tree_sitter::Query);

/// `tree_sitter_rust::LANGUAGE`, as a grammar.
#[verifier::external_body]
fn rust_grammar() -> Grammar {
    tree_sitter_rust::LANGUAGE.into()
}

/// `tree_sitter_python::LANGUAGE`, as a grammar.
#[verifier::external_body]
fn python_grammar() -> Grammar {
    tree_sitter_python::LANGUAGE.into()
}

/// `tree_sitter_javascript::LANGUAGE`, as a grammar.
#[verifier::external_body]
fn javascript_grammar() -> Grammar {
    tree_sitter_javascript::LANGUAGE.into()
}

/// `tree_sitter_typescript::LANGUAGE_TSX` (TypeScript with JSX), as a
/// grammar.
#[verifier::external_body]
fn tsx_grammar() -> Grammar {
    tree_sitter_typescript::LANGUAGE_TSX.into()
}

/// `tree_sitter_go::LANGUAGE`, as a grammar.
#[verifier::external_body]
fn go_grammar() -> Grammar {
    tree_sitter_go::LANGUAGE.into()
}

/// `tree_sitter_c::LANGUAGE`, as a grammar.
#[verifier::external_body]
fn c_grammar() -> Grammar {
    tree_sitter_c::LANGUAGE.into()
}

/// `tree_sitter_cpp::LANGUAGE`, as a grammar.
#[verifier::external_body]
fn cpp_grammar() -> Grammar {
    tree_sitter_cpp::LANGUAGE.into()
}

/// The grammar files of `lang` are parsed with; TypeScript files are parsed
/// with the TSX grammar.
pub fn grammar(lang: Language) -> Grammar {
    match lang {
        Language::Rust => rust_grammar(),
        Language::Python => python_grammar(),
        Language::JavaScript => javascript_grammar(),
        Language::TypeScript => tsx_grammar(),
        Language::Go => go_grammar(),
        Language::C => c_grammar(),
        Language::Cpp => cpp_grammar(),
    }
}

/// A grammar together with the language it is the grammar of. Only
/// `language_grammar` makes one.
pub struct LanguageGrammar {
    language: Language,
    grammar: Grammar,
}

impl View for LanguageGrammar {
    type V = Language;

    closed spec fn view(&self) -> Language {
        self.language
    }
}

/// The grammar of `lang`, together with `lang`.
pub fn language_grammar(lang: Language) -> (r: LanguageGrammar)
    ensures
        r@ == lang,
{
    LanguageGrammar { language: lang, grammar: grammar(lang) }
}

impl LanguageGrammar {
    /// The grammar itself.
    pub fn into_grammar(self) -> Grammar {
        self.grammar
    }
}

/// Whether tree-sitter's parser accepts the grammar of `lang`.
pub uninterp spec fn ts_grammar_accepted(lang: Language) -> bool;

/// The message of the error tree-sitter reports when it compiles `source`
/// as a query for the grammar of `lang`, if it reports one.
pub uninterp spec fn ts_query_error(lang: Language, source: Seq<char>) -> Option<Seq<char>>;

/// Where each pattern of the query `source` starts, as tree-sitter reports
/// it for the grammar of `lang`.
pub uninterp spec fn ts_pattern_starts(lang: Language, source: Seq<char>) -> Seq<usize>;

/// The capture names of the query `source`, by capture index, as
/// tree-sitter reports them for the grammar of `lang`.
pub uninterp spec fn ts_capture_names(lang: Language, source: Seq<char>) -> Seq<Seq<char>>;

/// The number of node kinds of the grammar of `lang`.
pub uninterp spec fn ts_kind_count(lang: Language) -> usize;

/// The name of node kind `id` of the grammar of `lang`, if it has one.
pub uninterp spec fn ts_kind_name(lang: Language, id: u16) -> Option<Seq<char>>;

/// The matches tree-sitter finds for the query `query` (compiled for the
/// grammar of `query_lang`) over the whole tree of `text` (parsed with the
/// grammar of `text_lang`), in the order it reports them.
pub uninterp spec fn ts_matches(
    query_lang: Language,
    query: Seq<char>,
    text_lang: Language,
    text: Seq<char>,
) -> Seq<(usize, Seq<CaptureView>)>;

/// `tree_sitter::Parser::new`.
#[verifier::external_body]
fn new_parser() -> tree_sitter::Parser {
    tree_sitter::Parser::new()
}

/// `tree_sitter::Parser::set_language` with the grammar of `g@`: whether it
/// was accepted. The verdict depends on the grammar alone (its ABI version
/// and whether it can be parsed with).
#[verifier::external_body]
fn set_parser_grammar(parser: &mut tree_sitter::Parser, g: &LanguageGrammar) -> (r: bool)
    ensures
        r == ts_grammar_accepted(g@),
{
    parser.set_language(&g.grammar).is_ok()
}

/// A parser whose grammar tree-sitter has accepted. Only `parse_source`
/// makes one, right after `set_parser_grammar` answered `true`.
struct ReadyParser {
    parser: tree_sitter::Parser,
}

/// `tree_sitter::Parser::parse` of `source` with no earlier tree. Its
/// documentation says it gives a tree unless no language was assigned to
/// the parser; a `ReadyParser` has one, and no timeout or cancellation flag
/// is ever set here, so a tree always comes back.
#[verifier::external_body]
fn parse_with(p: &mut ReadyParser, source: &str) -> (r: Option<tree_sitter::Tree>)
    ensures
        r is Some,
{
    p.parser.parse(source, None)
}

/// A syntax tree together with the language and the text it was parsed
/// from. Only `parse_source` makes one.
pub struct ParsedSource {
    language: Language,
    source: String,
    tree: tree_sitter::Tree,
}

impl View for ParsedSource {
    type V = (Language, Seq<char>);

    closed spec fn view(&self) -> (Language, Seq<char>) {
        (self.language, self.source@)
    }
}

impl ParsedSource {
    /// The text the tree was parsed from.
    pub fn source(&self) -> (r: &str)
        ensures
            r@ == self@.1,
    {
        self.source.as_str()
    }

    /// The language whose grammar the text was parsed with.
    pub fn language(&self) -> (r: Language)
        ensures
            r == self@.0,
    {
        self.language
    }
}

/// Parses `source` with the grammar of `lang`: a tree exactly when
/// tree-sitter's parser accepts that grammar.
pub fn parse_source(lang: Language, source: &str) -> (r: Option<ParsedSource>)
    ensures
        r is Some <==> ts_grammar_accepted(lang),
        r matches Some(p) ==> p@ == (lang, source@),
{
    let mut parser = new_parser();
    if !set_parser_grammar(&mut parser, &language_grammar(lang)) {
        return None;
    }
    let mut ready = ReadyParser { parser };
    match parse_with(&mut ready, source) {
        Some(tree) => Some(ParsedSource { language: lang, source: source.to_string(), tree }),
        None => None,
    }
}

/// A query compiled by tree-sitter, together with the language and source
/// it was compiled from. Only `new_query` makes one.
pub struct TsQuery {
    language: Language,
    source: String,
    query: tree_sitter::Query,
}

impl View for TsQuery {
    type V = (Language, Seq<char>);

    closed spec fn view(&self) -> (Language, Seq<char>) {
        (self.language, self.source@)
    }
}

impl TsQuery {
    /// The language whose grammar the query was compiled for.
    pub fn language(&self) -> (r: Language)
        ensures
            r == self@.0,
    {
        self.language
    }
}

/// `tree_sitter::Query::new` of `source` for the grammar of `g@`: the
/// query, or the message of the error tree-sitter reports, which depends on
/// the grammar and the source alone.
#[verifier::external_body]
fn new_query(g: &LanguageGrammar, source: &str) -> (r: Result<TsQuery, String>)
    ensures
        r is Err <==> ts_query_error(g@, source@) is Some,
        r matches Err(m) ==> ts_query_error(g@, source@) == Some(m@),
        r matches Ok(q) ==> q@ == (g@, source@),
{
    match tree_sitter::Query::new(&g.grammar, source) {
        Ok(query) => Ok(TsQuery { language: g.language, source: source.to_string(), query }),
        Err(e) => Err(e.to_string()),
    }
}

/// `tree_sitter::Query::start_byte_for_pattern` for every pattern, in order
/// (`pattern_count` of them).
#[verifier::external_body]
fn pattern_starts(q: &TsQuery) -> (r: Vec<usize>)
    ensures
        r@ == ts_pattern_starts(q@.0, q@.1),
{
    (0..q.query.pattern_count()).map(|i| q.query.start_byte_for_pattern(i)).collect()
}

/// `tree_sitter::Query::capture_names`, as strings, in capture index order.
#[verifier::external_body]
fn query_capture_names(q: &TsQuery) -> (r: Vec<String>)
    ensures
        views(r@) == ts_capture_names(q@.0, q@.1),
{
    q.query.capture_names().iter().map(|name| name.to_string()).collect()
}

/// `tree_sitter::Language::node_kind_count`.
#[verifier::external_body]
fn kind_count(g: &LanguageGrammar) -> (r: usize)
    ensures
        r == ts_kind_count(g@),
{
    g.grammar.node_kind_count()
}

/// `tree_sitter::Language::node_kind_for_id`, as a string.
#[verifier::external_body]
fn kind_name_for_id(g: &LanguageGrammar, id: u16) -> (r: Option<String>)
    ensures
        r is Some <==> ts_kind_name(g@, id) is Some,
        r matches Some(s) ==> ts_kind_name(g@, id) == Some(s@),
{
    g.grammar.node_kind_for_id(id).map(|kind| kind.to_string())
}

/// The node kind names of the grammar of `lang`, by kind id, for the ids
/// below both its kind count and `u16::MAX` (empty for an id without a
/// name).
pub open spec fn grammar_kind_names(lang: Language) -> Seq<Seq<char>> {
    let n: int = if ts_kind_count(lang) < 65535 { ts_kind_count(lang) as int } else { 65535 };
    Seq::new(
        n as nat,
        |i: int|
            match ts_kind_name(lang, i as u16) {
                Some(s) => s,
                None => Seq::<char>::empty(),
            },
    )
}

/// The node kind names of the grammar of `lang` (see `grammar_kind_names`).
pub fn kind_names(lang: Language) -> (r: Vec<String>)
    ensures
        views(r@) == grammar_kind_names(lang),
{
    let g = language_grammar(lang);
    let count = kind_count(&g);
    let limit: usize = if count < 65535 { count } else { 65535 };
    let ghost all = grammar_kind_names(lang);
    let mut out: Vec<String> = Vec::new();
    let mut id: usize = 0;
    while id < limit
        invariant
            id <= limit <= 65535,
            limit == all.len(),
            g@ == lang,
            all == grammar_kind_names(lang),
            views(out@) == all.take(id as int),
        decreases limit - id,
    {
        let ghost before = out@;
        match kind_name_for_id(&g, id as u16) {
            Some(name) => out.push(name),
            None => out.push(String::new()),
        }
        proof {
            assert(views(out@) =~= views(before).push(all[id as int]));
            assert(all.take(id as int + 1) =~= all.take(id as int).push(all[id as int]));
        }
        id = id + 1;
    }
    assert(all.take(limit as int) =~= all);
    out
}

/// Whether bytes `a..b` of `bytes` are a range of them that is valid UTF-8.
pub open spec fn text_range_ok(bytes: Seq<u8>, a: int, b: int) -> bool {
    0 <= a <= b <= bytes.len() && valid_utf8(bytes.subrange(a, b))
}

/// The text of bytes `a..b` of `source`, when that is a range of it that is
/// valid UTF-8.
fn byte_range_text(source: &str, a: usize, b: usize) -> (r: Option<String>)
    ensures
        r is Some <==> text_range_ok(source.spec_bytes(), a as int, b as int),
        r matches Some(t) ==> t@ == decode_utf8(source.spec_bytes().subrange(a as int, b as int)),
{
    let bytes = source.as_bytes();
    if !(a <= b && b <= bytes.len()) {
        return None;
    }
    let mut piece: Vec<u8> = Vec::new();
    let mut k = a;
    while k < b
        invariant
            a <= k <= b <= bytes@.len(),
            piece@ == bytes@.subrange(a as int, k as int),
        decreases b - k,
    {
        piece.push(bytes[k]);
        k = k + 1;
        assert(piece@ =~= bytes@.subrange(a as int, k as int));
    }
    string_from_utf8(piece)
}

/// Where pattern `k` ends: where the next one starts, or, for the last, at
/// `len`.
pub open spec fn pattern_end(starts: Seq<usize>, len: int, k: int) -> int {
    if k + 1 < starts.len() {
        starts[k + 1] as int
    } else {
        len
    }
}

/// The source texts of a query's patterns: from each pattern's start to the
/// next one's, the last to the end of the source; `None` when the starts do
/// not cut the source into UTF-8 pieces.
fn pattern_texts(source: &str, starts: &Vec<usize>) -> (r: Option<Vec<String>>)
    ensures
        r is Some <==> forall|k: int| 0 <= k < starts@.len() ==> text_range_ok(
            source.spec_bytes(),
            #[trigger] starts@[k] as int,
            pattern_end(starts@, source.spec_bytes().len() as int, k),
        ),
        r matches Some(v) ==> v@.len() == starts@.len() && forall|k: int| 0 <= k < v@.len() ==> (#[trigger] v@[k])@
            == decode_utf8(
            source.spec_bytes().subrange(starts@[k] as int, pattern_end(starts@, source.spec_bytes().len() as int, k)),
        ),
{
    let len = source.as_bytes().len();
    let ghost bytes = source.spec_bytes();
    let mut out: Vec<String> = Vec::new();
    let mut k: usize = 0;
    while k < starts.len()
        invariant
            k <= starts@.len(),
            out@.len() == k,
            bytes == source.spec_bytes(),
            len == bytes.len(),
            forall|j: int| 0 <= j < k ==> text_range_ok(bytes, #[trigger] starts@[j] as int, pattern_end(starts@, len as int, j)),
            forall|j: int| 0 <= j < k ==> (#[trigger] out@[j])@ == decode_utf8(
                bytes.subrange(starts@[j] as int, pattern_end(starts@, len as int, j)),
            ),
        decreases starts@.len() - k,
    {
        let end = if k + 1 < starts.len() { starts[k + 1] } else { len };
        assert(end == pattern_end(starts@, len as int, k as int));
        match byte_range_text(source, starts[k], end) {
            Some(t) => out.push(t),
            None => {
                assert(!text_range_ok(bytes, starts@[k as int] as int, pattern_end(starts@, len as int, k as int)));
                return None;
            },
        }
        k = k + 1;
    }
    Some(out)
}

/// Whether the starts cut the bytes into pieces that are valid UTF-8: each
/// from a pattern's start to where the pattern ends.
pub open spec fn starts_cut(bytes: Seq<u8>, starts: Seq<usize>) -> bool {
    forall|k: int|
        0 <= k < starts.len() ==> text_range_ok(
            bytes,
            #[trigger] starts[k] as int,
            pattern_end(starts, bytes.len() as int, k),
        )
}

/// The texts of the patterns that start at `starts` in `bytes`.
pub open spec fn spec_pattern_texts(bytes: Seq<u8>, starts: Seq<usize>) -> Seq<Seq<char>> {
    Seq::new(
        starts.len(),
        |k: int| decode_utf8(bytes.subrange(starts[k] as int, pattern_end(starts, bytes.len() as int, k))),
    )
}

/// Whether what tree-sitter reports of the query `source` for the grammar
/// of `lang` can be used: its pattern starts cut the source into UTF-8
/// pieces, it has no more captures than capture indices, and every
/// `#match?` scan of its patterns resumes on a character boundary.
pub open spec fn query_usable(lang: Language, source: Seq<char>) -> bool {
    let bytes = encode_utf8(source);
    let starts = ts_pattern_starts(lang, source);
    &&& starts_cut(bytes, starts)
    &&& ts_capture_names(lang, source).len() <= u32::MAX
    &&& patterns_scannable(spec_pattern_texts(bytes, starts))
}

/// A query compiled both for tree-sitter and for the search.
pub struct LoadedQuery {
    /// The grammar the query was compiled for.
    pub grammar: Grammar,
    /// Tree-sitter's query.
    pub query: TsQuery,
    /// What the search needs of it.
    pub compiled: CompiledQuery,
}

impl LoadedQuery {
    /// The language and source tree-sitter compiled the query from.
    pub open spec fn query_view(&self) -> (Language, Seq<char>) {
        self.query@
    }
}

/// Whether `q` is what `compile_query` makes of a query whose source is
/// `source`, whose patterns' texts are `texts` and whose grammar's kind
/// names are `kinds`.
pub open spec fn compiled_from(q: CompiledQuery, source: Seq<char>, texts: Seq<Seq<char>>, kinds: Seq<Seq<char>>) -> bool {
    &&& spec_regex_predicates(texts, views(q.capture_names@)) == Ok::<Seq<(int, int, Seq<char>)>, Seq<char>>(
        predicates_view(q),
    )
    &&& forall|id: int| crate::query::kind_selected(kinds, source, id) <==> q.kind_ids@.map_values(
        |x: u16| x as int,
    ).contains(id)
}

/// Compiles `source` for the grammar of `lang`. An error when tree-sitter
/// refuses the query (with its message) or when a `#match?` regex does not
/// compile; `None` when what tree-sitter reports of the query cannot be
/// used (`query_usable`); the compiled query otherwise.
pub fn load_query(lang: Language, source: &str) -> (r: Option<Result<LoadedQuery, AppError>>)
    ensures
        match ts_query_error(lang, source@) {
            Some(m) => r matches Some(Err(AppError::QueryCompileError(e))) && e@ == m,
            None => if !query_usable(lang, source@) {
                r is None
            } else {
                let texts = spec_pattern_texts(source.spec_bytes(), ts_pattern_starts(lang, source@));
                match spec_regex_predicates(texts, ts_capture_names(lang, source@)) {
                    Ok(ps) => r matches Some(Ok(l)) && l.query_view() == (lang, source@) && views(
                        l.compiled.capture_names@,
                    ) == ts_capture_names(lang, source@) && compiled_from(
                        l.compiled,
                        source@,
                        texts,
                        grammar_kind_names(lang),
                    ),
                    Err(m) => r matches Some(Err(AppError::QueryCompileError(e))) && e@ == m,
                }
            },
        },
{
    let g = language_grammar(lang);
    let query = match new_query(&g, source) {
        Ok(q) => q,
        Err(message) => return Some(Err(AppError::QueryCompileError(message))),
    };
    let starts = pattern_starts(&query);
    let ghost bytes = source.spec_bytes();
    let texts = match pattern_texts(source, &starts) {
        Some(t) => t,
        None => {
            assert(!starts_cut(bytes, starts@));
            return None;
        },
    };
    assert(starts_cut(bytes, starts@));
    assert(views(texts@) =~= spec_pattern_texts(bytes, starts@));
    let names = query_capture_names(&query);
    if names.len() > 4294967295 {
        return None;
    }
    if !patterns_scan_ok(texts.as_slice()) {
        return None;
    }
    let kinds = kind_names(lang);
    match compile_query(source, texts.as_slice(), names, kinds.as_slice()) {
        Ok(compiled) => {
            let loaded = LoadedQuery { grammar: g.into_grammar(), query, compiled };
            proof {
                assert(compiled_from(loaded.compiled, source@, views(texts@), views(kinds@)));
            }
            Some(Ok(loaded))
        },
        Err(e) => Some(Err(e)),
    }
}

/// What a capture record holds, as plain values.
pub type CaptureView = (u32, u16, bool, Seq<char>, usize, usize, usize, usize, usize, usize);

/// A capture record as plain values.
pub open spec fn capture_view(c: CaptureRecord) -> CaptureView {
    (c.capture_index, c.kind_id, c.is_named, c.kind@, c.start_byte, c.end_byte, c.start_row, c.start_col, c.end_row, c.end_col)
}

/// Match records as plain values: each its pattern index and its captures.
pub open spec fn records_view(ms: Seq<MatchRecord>) -> Seq<(usize, Seq<CaptureView>)> {
    ms.map_values(|m: MatchRecord| (m.pattern_index, m.captures@.map_values(|c: CaptureRecord| capture_view(c))))
}

/// Whether every capture of `rs` is one of `n` captures and lies on rows
/// with a next row.
pub open spec fn view_fits(rs: Seq<(usize, Seq<CaptureView>)>, n: int) -> bool {
    forall|i: int, j: int|
        0 <= i < rs.len() && 0 <= j < rs[i].1.len() ==> {
            let c = #[trigger] rs[i].1[j];
            &&& (c.0 as int) < n
            &&& c.6 < usize::MAX
            &&& c.8 < usize::MAX
        }
}

/// The records fit `n` captures exactly when their plain values do.
proof fn lemma_fits_view(ms: Seq<MatchRecord>, n: int)
    ensures
        (forall|i: int| 0 <= i < ms.len() ==> captures_fit((#[trigger] ms[i]).captures@, n)) <==> view_fits(
            records_view(ms),
            n,
        ),
{
    let rs = records_view(ms);
    if forall|i: int| 0 <= i < ms.len() ==> captures_fit((#[trigger] ms[i]).captures@, n) {
        assert forall|i: int, j: int| 0 <= i < rs.len() && 0 <= j < rs[i].1.len() implies {
            let c = #[trigger] rs[i].1[j];
            &&& (c.0 as int) < n
            &&& c.6 < usize::MAX
            &&& c.8 < usize::MAX
        } by {
            assert(captures_fit(ms[i].captures@, n));
            assert(rs[i].1[j] == capture_view(ms[i].captures@[j]));
        }
    }
    if view_fits(rs, n) {
        assert forall|i: int| 0 <= i < ms.len() implies captures_fit((#[trigger] ms[i]).captures@, n) by {
            assert forall|j: int| 0 <= j < ms[i].captures@.len() implies {
                let c = #[trigger] ms[i].captures@[j];
                &&& (c.capture_index as int) < n
                &&& c.start_row < usize::MAX
                &&& c.end_row < usize::MAX
            } by {
                assert(rs[i].1[j] == capture_view(ms[i].captures@[j]));
            }
        }
    }
}

/// A capture as tree-sitter reports it: its index, then its node's kind id,
/// whether the node is named, its kind, byte range, start row and column,
/// and end row and column.
pub type RawCapture = (u32, u16, bool, String, usize, usize, usize, usize, usize, usize);

/// Reported captures as plain values.
pub open spec fn raw_view(raw: Seq<(usize, Vec<RawCapture>)>) -> Seq<(usize, Seq<CaptureView>)> {
    raw.map_values(
        |m: (usize, Vec<RawCapture>)|
            (m.0, m.1@.map_values(|c: RawCapture| (c.0, c.1, c.2, c.3@, c.4, c.5, c.6, c.7, c.8, c.9))),
    )
}

/// `tree_sitter::QueryCursor::matches` of `q` over the whole tree of `p`
/// (parsed with the grammar `q` was compiled for, as tree-sitter requires),
/// with the text the tree was parsed from: each match as its pattern index
/// and its captures, each with what the `Node` getters report of its node.
/// The matches depend on the query's grammar and source and on the tree's
/// grammar and text alone.
#[verifier::external_body]
fn query_matches(q: &TsQuery, p: &ParsedSource) -> (r: Vec<(usize, Vec<RawCapture>)>)
    requires
        q@.0 == p@.0,
    ensures
        raw_view(r@) == ts_matches(q@.0, q@.1, p@.0, p@.1),
{
    let mut cursor = tree_sitter::QueryCursor::new();
    let mut found = cursor.matches(&q.query, p.tree.root_node(), p.source.as_bytes());
    let mut out = Vec::new();
    while let Some(m) = tree_sitter::StreamingIterator::next(&mut found) {
        out.push((m.pattern_index, m.captures().iter().map(|c| {
            let (n, s, e) = (c.node, c.node.start_position(), c.node.end_position());
            (c.index, n.kind_id(), n.is_named(), n.kind().to_string(), n.start_byte(), n.end_byte(), s.row, s.column, e.row, e.column)
        }).collect()));
    }
    out
}

/// The match records of reported matches.
fn records_of(raw: Vec<(usize, Vec<RawCapture>)>) -> (r: Vec<MatchRecord>)
    ensures
        records_view(r@) == raw_view(raw@),
{
    let mut out: Vec<MatchRecord> = Vec::new();
    let mut i: usize = 0;
    while i < raw.len()
        invariant
            i <= raw@.len(),
            out@.len() == i,
            records_view(out@) == raw_view(raw@).take(i as int),
        decreases raw@.len() - i,
    {
        let caps = &raw[i].1;
        let mut records: Vec<CaptureRecord> = Vec::new();
        let mut j: usize = 0;
        while j < caps.len()
            invariant
                i < raw@.len(),
                caps@ == raw@[i as int].1@,
                j <= caps@.len(),
                records@.len() == j,
                records@.map_values(|c: CaptureRecord| capture_view(c)) == raw_view(raw@)[i as int].1.take(j as int),
            decreases caps@.len() - j,
        {
            let c = &caps[j];
            let ghost before = records@;
            records.push(CaptureRecord {
                capture_index: c.0,
                kind_id: c.1,
                is_named: c.2,
                kind: c.3.clone(),
                start_byte: c.4,
                end_byte: c.5,
                start_row: c.6,
                start_col: c.7,
                end_row: c.8,
                end_col: c.9,
            });
            proof {
                let v = raw_view(raw@)[i as int].1;
                assert(v[j as int] == capture_view(records@[j as int]));
                assert(records@.map_values(|c: CaptureRecord| capture_view(c)) =~= v.take(j as int + 1)) by {
                    assert forall|k: int| 0 <= k < j implies records@[k] == before[k] by {}
                    assert(before.map_values(|c: CaptureRecord| capture_view(c)) == v.take(j as int));
                    assert forall|k: int| 0 <= k <= j implies #[trigger] capture_view(records@[k]) == v[k] by {
                        if k < j {
                            assert(capture_view(before[k]) == before.map_values(|c: CaptureRecord| capture_view(c))[k]);
                        }
                    }
                }
            }
            j = j + 1;
        }
        let ghost before = out@;
        out.push(MatchRecord { pattern_index: raw[i].0, captures: records });
        proof {
            let rv = raw_view(raw@);
            assert(records@.map_values(|c: CaptureRecord| capture_view(c)) =~= rv[i as int].1);
            assert(records_view(out@) =~= rv.take(i as int + 1)) by {
                assert forall|k: int| 0 <= k <= i implies #[trigger] records_view(out@)[k] == rv[k] by {
                    if k < i {
                        assert(out@[k] == before[k]);
                        assert(records_view(before)[k] == rv.take(i as int)[k]);
                    }
                }
            }
        }
        i = i + 1;
    }
    assert(raw_view(raw@).take(raw@.len() as int) =~= raw_view(raw@));
    out
}

/// Whether every capture of `ms` is one of `n` captures and lies on rows
/// with a next row.
fn all_captures_fit(ms: &Vec<MatchRecord>, n: usize) -> (r: bool)
    ensures
        r == forall|i: int| 0 <= i < ms@.len() ==> captures_fit((#[trigger] ms@[i]).captures@, n as int),
{
    let mut i: usize = 0;
    while i < ms.len()
        invariant
            i <= ms@.len(),
            forall|k: int| 0 <= k < i ==> captures_fit((#[trigger] ms@[k]).captures@, n as int),
        decreases ms@.len() - i,
    {
        let caps = &ms[i].captures;
        let mut j: usize = 0;
        while j < caps.len()
            invariant
                i < ms@.len(),
                caps@ == ms@[i as int].captures@,
                j <= caps@.len(),
                forall|k: int| 0 <= k < j ==> {
                    let c = #[trigger] caps@[k];
                    &&& (c.capture_index as int) < n
                    &&& c.start_row < usize::MAX
                    &&& c.end_row < usize::MAX
                },
            decreases caps@.len() - j,
        {
            let c = &caps[j];
            if !((c.capture_index as usize) < n && c.start_row < usize::MAX && c.end_row < usize::MAX) {
                assert(!captures_fit(ms@[i as int].captures@, n as int)) by {
                    assert(caps@[j as int] == c);
                }
                return false;
            }
            j = j + 1;
        }
        i = i + 1;
    }
    true
}

/// Whether `v` is what extracting results gives for match records whose
/// plain values are `named`.
pub open spec fn extracted_from(
    v: Seq<MatchResult>,
    q: CompiledQuery,
    src: Seq<u8>,
    path: Seq<char>,
    named: Seq<(usize, Seq<CaptureView>)>,
) -> bool {
    exists|ms: Seq<MatchRecord>| records_view(ms) == named && #[trigger] spec_extract(ms, q, src, path) == results_view(v)
}

/// The results of `loaded` on the parsed file at `path`: the matches
/// tree-sitter finds, turned into results by `extract_matches`. `None`
/// exactly when tree-sitter reports a capture the query does not have, or a
/// position on the last possible row.
pub fn search_tree(loaded: &LoadedQuery, parsed: &ParsedSource, path: &str) -> (r: Option<Vec<MatchResult>>)
    requires
        loaded.query_view().0 == parsed@.0,
    ensures
        r is Some <==> view_fits(
            ts_matches(loaded.query_view().0, loaded.query_view().1, parsed@.0, parsed@.1),
            loaded.compiled.capture_names@.len() as int,
        ),
        r matches Some(v) ==> extracted_from(
            v@,
            loaded.compiled,
            encode_utf8(parsed@.1),
            path@,
            ts_matches(loaded.query_view().0, loaded.query_view().1, parsed@.0, parsed@.1),
        ),
{
    let records = records_of(query_matches(&loaded.query, parsed));
    proof {
        lemma_fits_view(records@, loaded.compiled.capture_names@.len() as int);
    }
    if !all_captures_fit(&records, loaded.compiled.capture_names.len()) {
        return None;
    }
    assert(records_fit(records@, loaded.compiled)) by {
        assert forall|i: int, j: int| 0 <= i < records@.len() && 0 <= j < records@[i].captures@.len() implies {
            let c = #[trigger] records@[i].captures@[j];
            &&& (c.capture_index as int) < loaded.compiled.capture_names@.len()
            &&& c.start_row < usize::MAX
            &&& c.end_row < usize::MAX
        } by {
            assert(captures_fit(records@[i].captures@, loaded.compiled.capture_names@.len() as int));
        }
    }
    let source = parsed.source();
    let results = extract_matches(records.as_slice(), source, &loaded.compiled, path);
    assert(spec_extract(records@, loaded.compiled, source.spec_bytes(), path@) == results_view(results@));
    Some(results)
}

/// The kinds of symbols the extractor of `lang` looks for.
pub open spec fn plan_kinds(lang: Language) -> Seq<SymbolKind> {
    present_slots(lang_slots(lang)).map_values(|s: (Seq<char>, SymbolKind)| s.1)
}

/// The query texts the extractor of `lang` runs, in order.
pub open spec fn plan_queries(lang: Language) -> Seq<Seq<char>> {
    present_slots(lang_slots(lang)).map_values(|s: (Seq<char>, SymbolKind)| s.0)
}

/// The symbols, each with its kind, that the plan's queries give in order,
/// where query `k` (finding symbols of kind `kinds[k]`) found the matches
/// `parts[k].0` and has the capture names `parts[k].1`.
pub open spec fn plan_rows(
    kinds: Seq<SymbolKind>,
    parts: Seq<(Seq<MatchRecord>, Seq<Seq<char>>)>,
    src: Seq<u8>,
) -> Seq<(SymbolKind, (Seq<char>, int, int, int, int, Option<Seq<char>>))>
    decreases parts.len(),
{
    if parts.len() == 0 {
        Seq::empty()
    } else {
        let k = parts.len() - 1;
        plan_rows(kinds, parts.drop_last(), src) + spec_symbols(kinds[k], parts[k].0, parts[k].1, src).map_values(
            |x: (Seq<char>, int, int, int, int, Option<Seq<char>>)| (kinds[k], x),
        )
    }
}

/// A symbol row as its kind and plain values.
pub open spec fn kinded_row(r: NewSymbolRow) -> (SymbolKind, (Seq<char>, int, int, int, int, Option<Seq<char>>)) {
    (r.kind, symbol_view(r))
}

/// Whether query `k` of the plan of `lang` runs on the parsed text `text`
/// (in language `text_lang`): tree-sitter compiles it, and its matches fit
/// its captures.
pub open spec fn plan_query_ok(lang: Language, k: int, text_lang: Language, text: Seq<char>) -> bool {
    let q = plan_queries(lang)[k];
    &&& ts_query_error(lang, q) is None
    &&& view_fits(ts_matches(lang, q, text_lang, text), ts_capture_names(lang, q).len() as int)
}

/// Whether `parts` holds, for each query of the plan of `lang`, the match
/// records tree-sitter reports on `text` and the query's capture names.
pub open spec fn plan_parts(
    parts: Seq<(Seq<MatchRecord>, Seq<Seq<char>>)>,
    lang: Language,
    text_lang: Language,
    text: Seq<char>,
) -> bool {
    &&& parts.len() == plan_queries(lang).len()
    &&& forall|k: int|
        0 <= k < parts.len() ==> records_view((#[trigger] parts[k]).0) == ts_matches(
            lang,
            plan_queries(lang)[k],
            text_lang,
            text,
        ) && parts[k].1 == ts_capture_names(lang, plan_queries(lang)[k])
}

/// Whether `v` holds, in order, the symbols that the plan of `lang` gives on
/// the parsed text `text`, from the matches tree-sitter reports.
pub open spec fn extracted_symbols(v: Seq<NewSymbolRow>, lang: Language, text_lang: Language, text: Seq<char>) -> bool {
    exists|parts: Seq<(Seq<MatchRecord>, Seq<Seq<char>>)>|
        plan_parts(parts, lang, text_lang, text) && #[trigger] plan_rows(plan_kinds(lang), parts, encode_utf8(text))
            == v.map_values(|r: NewSymbolRow| kinded_row(r))
}

impl SymbolExtractor {
    /// The symbols of the parsed file `file_id`: for each query of the
    /// extractor's plan, in order, the rows `symbols_from_matches` makes of
    /// the matches tree-sitter finds. `None` exactly when tree-sitter
    /// refuses one of the plan's queries or reports a capture that does not
    /// fit it.
    pub fn extract(&self, parsed: &ParsedSource, file_id: i64) -> (r: Option<Vec<NewSymbolRow>>)
        requires
            self.language == parsed@.0,
        ensures
            r is Some <==> forall|k: int|
                0 <= k < plan_queries(self.language).len() ==> plan_query_ok(self.language, k, parsed@.0, parsed@.1),
            r matches Some(v) ==> forall|i: int| 0 <= i < v@.len() ==> (#[trigger] v@[i]).file_id == file_id
                && plan_kinds(self.language).contains(v@[i].kind),
            r matches Some(v) ==> extracted_symbols(v@, self.language, parsed@.0, parsed@.1),
    {
        let g = language_grammar(self.language);
        let plan = self.plan();
        let source = parsed.source();
        let mut rows: Vec<NewSymbolRow> = Vec::new();
        let mut k: usize = 0;
        let ghost kinds = plan_kinds(self.language);
        let ghost queries = plan_queries(self.language);
        let ghost src = source.spec_bytes();
        let ghost mut parts: Seq<(Seq<MatchRecord>, Seq<Seq<char>>)> = Seq::empty();
        while k < plan.len()
            invariant
                k <= plan@.len(),
                g@ == self.language,
                self.language == parsed@.0,
                source@ == parsed@.1,
                plan@.len() == present_slots(lang_slots(self.language)).len(),
                forall|i: int| #![auto] 0 <= i < plan@.len() ==> plan@[i].1 == present_slots(lang_slots(self.language))[i].1
                    && plan@[i].0@ == present_slots(lang_slots(self.language))[i].0,
                forall|i: int| 0 <= i < rows@.len() ==> (#[trigger] rows@[i]).file_id == file_id
                    && plan_kinds(self.language).contains(rows@[i].kind),
                kinds == plan_kinds(self.language),
                queries == plan_queries(self.language),
                src == source.spec_bytes(),
                parts.len() == k,
                forall|j: int| 0 <= j < k ==> plan_query_ok(self.language, j, parsed@.0, parsed@.1),
                forall|j: int|
                    0 <= j < k ==> records_view((#[trigger] parts[j]).0) == ts_matches(
                        self.language,
                        queries[j],
                        parsed@.0,
                        parsed@.1,
                    ) && parts[j].1 == ts_capture_names(self.language, queries[j]),
                plan_rows(kinds, parts, src) == rows@.map_values(|r: NewSymbolRow| kinded_row(r)),
            decreases plan@.len() - k,
        {
            let (query_source, kind) = plan[k];
            assert(query_source@ == queries[k as int]);
            let query = match new_query(&g, query_source) {
                Ok(q) => q,
                Err(_) => {
                    assert(!plan_query_ok(self.language, k as int, parsed@.0, parsed@.1));
                    return None;
                },
            };
            let names = query_capture_names(&query);
            let records = records_of(query_matches(&query, parsed));
            proof {
                lemma_fits_view(records@, names@.len() as int);
                assert(names@.len() == views(names@).len());
            }
            if !all_captures_fit(&records, names.len()) {
                assert(!plan_query_ok(self.language, k as int, parsed@.0, parsed@.1));
                return None;
            }
            let found = symbols_from_matches(file_id, kind, records.as_slice(), names.as_slice(), source);
            proof {
                assert(plan_kinds(self.language)[k as int] == kind);
            }
            let ghost before = rows@;
            let ghost found_view = found@;
            let ghost before_parts = parts;
            let mut found = found;
            rows.append(&mut found);
            proof {
                assert forall|i: int| 0 <= i < rows@.len() implies (#[trigger] rows@[i]).file_id == file_id
                    && plan_kinds(self.language).contains(rows@[i].kind) by {
                    if i >= before.len() {
                        assert(rows@[i].kind == kind);
                    }
                }
                let part = (records@, views(names@));
                parts = parts.push(part);
                assert(parts.drop_last() =~= before_parts);
                assert(parts[k as int] == part);
                assert(kinds[k as int] == kind);
                assert forall|j: int| 0 <= j < k + 1 implies records_view((#[trigger] parts[j]).0) == ts_matches(
                    self.language,
                    queries[j],
                    parsed@.0,
                    parsed@.1,
                ) && parts[j].1 == ts_capture_names(self.language, queries[j]) by {
                    if j < k {
                        assert(parts[j] == before_parts[j]);
                    }
                }
                let syms = spec_symbols(kind, records@, views(names@), src);
                assert(plan_rows(kinds, parts, src) == plan_rows(kinds, before_parts, src) + syms.map_values(
                    |x: (Seq<char>, int, int, int, int, Option<Seq<char>>)| (kind, x),
                ));
                assert(rows@.map_values(|r: NewSymbolRow| kinded_row(r)) =~= plan_rows(kinds, parts, src)) by {
                    assert(rows@ =~= before + found_view);
                    assert forall|i: int| 0 <= i < rows@.len() implies #[trigger] kinded_row(rows@[i]) == plan_rows(
                        kinds,
                        parts,
                        src,
                    )[i] by {
                        if i < before.len() {
                            assert(rows@[i] == before[i]);
                            assert(kinded_row(before[i]) == before.map_values(|r: NewSymbolRow| kinded_row(r))[i]);
                        } else {
                            assert(rows@[i] == found_view[i - before.len()]);
                        }
                    }
                }
            }
            k = k + 1;
        }
        proof {
            assert(queries.len() == plan@.len());
            assert(plan_parts(parts, self.language, parsed@.0, parsed@.1));
        }
        Some(rows)
    }
}

/// Most nodes listed for the syntax pane.
pub const MAX_AST_NODES: usize = 5000;

/// What tree-sitter reports of a node.
pub struct NodeFacts {
    /// The id of the node's kind.
    pub kind_id: u16,
    /// The node's kind.
    pub kind: String,
    /// Whether the node is named.
    pub is_named: bool,
    /// Whether the node is an error node.
    pub is_error: bool,
    /// Number of children.
    pub child_count: u32,
    /// Byte offset where the node starts.
    pub start_byte: usize,
    /// Byte offset where the node ends.
    pub end_byte: usize,
    /// Row where the node starts (0-based).
    pub start_row: usize,
    /// Column where the node starts.
    pub start_col: usize,
    /// Row where the node ends (0-based).
    pub end_row: usize,
    /// Column where the node ends.
    pub end_col: usize,
}

/// What tree-sitter reports of a node, as plain values (the fields of
/// `NodeFacts`, in order).
pub type FactsView = (u16, Seq<char>, bool, bool, u32, usize, usize, usize, usize, usize, usize);

/// Node facts as plain values.
pub open spec fn facts_view(f: NodeFacts) -> FactsView {
    (
        f.kind_id,
        f.kind@,
        f.is_named,
        f.is_error,
        f.child_count,
        f.start_byte,
        f.end_byte,
        f.start_row,
        f.start_col,
        f.end_row,
        f.end_col,
    )
}

/// An optional string as an optional character sequence.
pub open spec fn opt_text(o: Option<String>) -> Option<Seq<char>> {
    match o {
        Some(s) => Some(s@),
        None => None,
    }
}

/// How many nodes the tree of `text` (parsed with the grammar of `lang`)
/// has, the root included.
pub uninterp spec fn ts_node_count(lang: Language, text: Seq<char>) -> usize;

/// Node `k` of the tree of `text` (parsed with the grammar of `lang`) in
/// pre-order, the root being node 0: what tree-sitter reports of it, its
/// depth below the root and the field name under which it hangs from its
/// parent.
pub uninterp spec fn ts_node_at(lang: Language, text: Seq<char>, k: usize) -> (FactsView, u32, Option<Seq<char>>);

/// `tree_sitter::Node::descendant_count` of the root of the tree: how many
/// nodes the tree has, the root included, so at least one.
#[verifier::external_body]
fn node_count(p: &ParsedSource) -> (r: usize)
    ensures
        r == ts_node_count(p@.0, p@.1),
        r >= 1,
{
    p.tree.root_node().descendant_count()
}

/// Node `k` of the tree in pre-order: a cursor made at the root
/// (`Tree::walk`) is moved to its `k`-th descendant
/// (`TreeCursor::goto_descendant`, 0 being the root itself); then what the
/// `Node` getters report of the node, the cursor's depth
/// (`TreeCursor::depth`) and field name (`TreeCursor::field_name`).
#[verifier::external_body]
fn node_at(p: &ParsedSource, k: usize) -> (r: (NodeFacts, u32, Option<String>))
    requires
        k < ts_node_count(p@.0, p@.1),
    ensures
        (facts_view(r.0), r.1, opt_text(r.2)) == ts_node_at(p@.0, p@.1, k),
{
    let mut cursor = p.tree.walk();
    cursor.goto_descendant(k);
    let (n, s, e) = (cursor.node(), cursor.node().start_position(), cursor.node().end_position());
    let facts = NodeFacts {
        kind_id: n.kind_id(), kind: n.kind().to_string(), is_named: n.is_named(), is_error: n.is_error(),
        child_count: n.child_count(), start_byte: n.start_byte(), end_byte: n.end_byte(), start_row: s.row,
        start_col: s.column, end_row: e.row, end_col: e.column,
    };
    (facts, cursor.depth(), cursor.field_name().map(|name| name.to_string()))
}

/// Whether nodes are listed with their parents: each numbered by its
/// position, a node with a parent one level below it and after it, and only
/// leaves with a text preview.
pub open spec fn walk_listing(nodes: Seq<AstNode>) -> bool {
    forall|k: int| 0 <= k < nodes.len() ==> {
        let n = #[trigger] nodes[k];
        &&& n.id == k
        &&& match n.parent_id {
            Some(p) => p < k && nodes[p as int].depth + 1 == n.depth,
            None => true,
        }
        &&& n.text_preview is Some ==> !n.has_children
    }
}

/// Whether a listed node is shown as a walk shows it: an `ERROR` node marked
/// as an error, and its lines counted from one.
pub open spec fn node_shown(n: AstNode) -> bool {
    &&& n.kind@ == "ERROR"@ ==> n.is_error
    &&& n.start_line >= 1
    &&& n.end_line >= 1
}

/// The 1-based line of a 0-based row (the last row stays the last line).
pub open spec fn line_of(row: usize) -> usize {
    if row < usize::MAX {
        (row + 1) as usize
    } else {
        usize::MAX
    }
}

/// Whether `n` shows the node that tree-sitter reports as `f`, in a file
/// whose bytes are `src`: its kind, whether it is named, whether it is an
/// error (reported as one, or of kind `ERROR`), its lines counted from one,
/// its columns, whether it has children, and, for a leaf whose bytes are
/// valid UTF-8, the preview of its text.
pub open spec fn node_from_facts(n: AstNode, f: FactsView, src: Seq<u8>) -> bool {
    &&& n.kind@ == f.1
    &&& n.is_named == f.2
    &&& n.is_error == (f.3 || f.1 == "ERROR"@)
    &&& n.start_line == line_of(f.7)
    &&& n.start_col == f.8
    &&& n.end_line == line_of(f.9)
    &&& n.end_col == f.10
    &&& n.has_children == (f.4 > 0)
    &&& match n.text_preview {
        Some(p) => f.4 == 0 && source_text(src, f.5 as int, f.6 as int) is Some && p@ == spec_leaf_preview(
            source_text(src, f.5 as int, f.6 as int)->Some_0,
        ),
        None => f.4 > 0 || source_text(src, f.5 as int, f.6 as int) is None,
    }
}

/// The listed node number `id`, at depth `depth` below `parent_id` and
/// hanging from it as `field_name`, that shows the node tree-sitter reports
/// as `facts` in the file `source`.
pub fn ast_node_from(
    facts: NodeFacts,
    source: &str,
    id: usize,
    depth: usize,
    parent_id: Option<usize>,
    field_name: Option<String>,
) -> (r: AstNode)
    ensures
        node_from_facts(r, facts_view(facts), source.spec_bytes()),
        node_shown(r),
        r.id == id,
        r.depth == depth,
        r.parent_id == parent_id,
        r.field_name == field_name,
{
    let ghost f = facts_view(facts);
    let has_children = facts.child_count > 0;
    let text_preview = if has_children {
        None
    } else {
        match byte_range_text(source, facts.start_byte, facts.end_byte) {
            Some(text) => Some(leaf_preview(text.as_str())),
            None => None,
        }
    };
    let is_error = facts.is_error || str_eq(facts.kind.as_str(), "ERROR");
    let r = AstNode {
        id,
        depth,
        kind: facts.kind,
        is_named: facts.is_named,
        is_error,
        field_name,
        start_line: facts.start_row.saturating_add(1),
        start_col: facts.start_col,
        end_line: facts.end_row.saturating_add(1),
        end_col: facts.end_col,
        text_preview,
        has_children,
        parent_id,
    };
    assert(node_from_facts(r, f, source.spec_bytes()));
    r
}

/// The last of the first `j` depths that is one less than `d`, if any: the
/// parent, in a pre-order listing, of a node at depth `d` listed after them.
pub open spec fn last_parent(depths: Seq<int>, d: int, j: int) -> Option<usize>
    decreases j,
{
    if j <= 0 {
        None
    } else if depths[j - 1] + 1 == d {
        Some((j - 1) as usize)
    } else {
        last_parent(depths, d, j - 1)
    }
}

/// The depths of the first `k` nodes of the tree of `text` in pre-order.
pub open spec fn node_depths(lang: Language, text: Seq<char>, k: int) -> Seq<int> {
    Seq::new(k as nat, |i: int| ts_node_at(lang, text, i as usize).1 as int)
}

/// The parent of node `k` of the tree of `text` in pre-order: none for a
/// node at depth zero, otherwise the last node before it one level up.
pub open spec fn tree_parent(lang: Language, text: Seq<char>, k: int) -> Option<usize> {
    let d = ts_node_at(lang, text, k as usize).1 as int;
    if d == 0 {
        None
    } else {
        last_parent(node_depths(lang, text, k), d, k)
    }
}

/// Whether `n` lists node `k` of the tree of `text`: the node tree-sitter
/// reports (see `node_from_facts`), numbered `k`, with its depth, its field
/// name and its parent.
pub open spec fn listed_as(n: AstNode, lang: Language, text: Seq<char>, k: int) -> bool {
    let t = ts_node_at(lang, text, k as usize);
    &&& node_from_facts(n, t.0, encode_utf8(text))
    &&& n.id == k
    &&& n.depth == t.1
    &&& opt_text(n.field_name) == t.2
    &&& n.parent_id == tree_parent(lang, text, k)
}

proof fn lemma_last_parent(depths: Seq<int>, d: int, j: int)
    requires
        j <= depths.len() <= usize::MAX,
    ensures
        last_parent(depths, d, j) matches Some(p) ==> p < j && depths[p as int] + 1 == d,
    decreases j,
{
    if j > 0 && depths[j - 1] + 1 != d {
        lemma_last_parent(depths, d, j - 1);
    }
}

/// The parent of a node at depth `d` listed after `nodes`: the last of them
/// one level up, or none at depth zero.
fn parent_of(nodes: &Vec<AstNode>, d: usize) -> (r: Option<usize>)
    ensures
        r == (if d == 0 {
            None
        } else {
            last_parent(nodes@.map_values(|n: AstNode| n.depth as int), d as int, nodes@.len() as int)
        }),
        r matches Some(p) ==> p < nodes@.len() && nodes@[p as int].depth + 1 == d,
{
    let ghost depths = nodes@.map_values(|n: AstNode| n.depth as int);
    let len = nodes.len();
    proof {
        assert(depths.len() == len);
        lemma_last_parent(depths, d as int, len as int);
    }
    if d == 0 {
        return None;
    }
    let mut j = nodes.len();
    while j > 0
        invariant
            j <= nodes@.len(),
            d > 0,
            depths == nodes@.map_values(|n: AstNode| n.depth as int),
            last_parent(depths, d as int, nodes@.len() as int) == last_parent(depths, d as int, j as int),
        decreases j,
    {
        if nodes[j - 1].depth == d - 1 {
            assert(depths[j - 1] == nodes@[j - 1].depth as int);
            return Some(j - 1);
        }
        assert(depths[j - 1] == nodes@[j - 1].depth as int);
        j = j - 1;
    }
    None
}

/// The nodes of the parsed tree in pre-order, the root first, at most
/// `MAX_AST_NODES` of them: node `k` as `listed_as` says, with what
/// tree-sitter reports of it, its depth, field name and parent.
pub fn ast_nodes(parsed: &ParsedSource) -> (r: Vec<AstNode>)
    ensures
        r@.len() == (if ts_node_count(parsed@.0, parsed@.1) < MAX_AST_NODES {
            ts_node_count(parsed@.0, parsed@.1)
        } else {
            MAX_AST_NODES
        }),
        1 <= r@.len() <= MAX_AST_NODES,
        forall|k: int| 0 <= k < r@.len() ==> listed_as(#[trigger] r@[k], parsed@.0, parsed@.1, k),
        walk_listing(r@),
        ast_acyclic(r@),
        forall|k: int| 0 <= k < r@.len() ==> node_shown(#[trigger] r@[k]),
{
    let source = parsed.source();
    let count = node_count(parsed);
    let n = if count < MAX_AST_NODES { count } else { MAX_AST_NODES };
    let ghost lang = parsed@.0;
    let ghost text = parsed@.1;
    let mut nodes: Vec<AstNode> = Vec::new();
    let mut k: usize = 0;
    while k < n
        invariant
            n <= count,
            count == ts_node_count(lang, text),
            lang == parsed@.0,
            text == parsed@.1,
            source@ == text,
            k <= n,
            nodes@.len() == k,
            nodes@.map_values(|m: AstNode| m.depth as int) == node_depths(lang, text, k as int),
            forall|j: int| 0 <= j < k ==> listed_as(#[trigger] nodes@[j], lang, text, j),
            walk_listing(nodes@),
            ast_acyclic(nodes@),
            forall|j: int| 0 <= j < k ==> node_shown(#[trigger] nodes@[j]),
        decreases n - k,
    {
        let (facts, depth, field_name) = node_at(parsed, k);
        let d = depth as usize;
        let parent = parent_of(&nodes, d);
        let node = ast_node_from(facts, source, k, d, parent, field_name);
        let ghost before = nodes@;
        nodes.push(node);
        proof {
            let t = ts_node_at(lang, text, k as usize);
            assert(node_depths(lang, text, k as int + 1) =~= node_depths(lang, text, k as int).push(t.1 as int));
            assert(nodes@.map_values(|m: AstNode| m.depth as int) =~= before.map_values(|m: AstNode| m.depth as int).push(
                t.1 as int,
            ));
            assert(listed_as(nodes@[k as int], lang, text, k as int));
            assert forall|j: int| 0 <= j < k + 1 implies listed_as(#[trigger] nodes@[j], lang, text, j) by {
                if j < k {
                    assert(nodes@[j] == before[j]);
                }
            }
            assert forall|j: int| 0 <= j < k + 1 implies node_shown(#[trigger] nodes@[j]) by {
                if j < k {
                    assert(nodes@[j] == before[j]);
                }
            }
            assert forall|j: int| 0 <= j < nodes@.len() implies {
                let m = #[trigger] nodes@[j];
                &&& m.id == j
                &&& match m.parent_id {
                    Some(p) => p < j && nodes@[p as int].depth + 1 == m.depth,
                    None => true,
                }
                &&& m.text_preview is Some ==> !m.has_children
            } by {
                if j < k {
                    assert(nodes@[j] == before[j]);
                    match before[j].parent_id {
                        Some(p) => assert(nodes@[p as int] == before[p as int]),
                        None => {},
                    }
                } else {
                    match parent {
                        Some(p) => assert(nodes@[p as int] == before[p as int]),
                        None => {},
                    }
                }
            }
            assert forall|j: int| 0 <= j < nodes@.len() implies match (#[trigger] nodes@[j]).parent_id {
                Some(p) => p < j,
                None => true,
            } by {
                if j < k {
                    assert(nodes@[j] == before[j]);
                }
            }
        }
        k = k + 1;
    }
    nodes
}

} // verus!
