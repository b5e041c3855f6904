//! The library's tree-sitter functions on real sources: compiling queries,
//! parsing, running queries, extracting symbols and listing syntax trees.

use std::collections::HashSet;
use std::sync::{Arc, Mutex};

use dora::extractor::SymbolExtractor;
use dora::memory::{NewSymbolRow, SymbolKind};
use dora::syntax::{ast_nodes, grammar, load_query, parse_source, search_tree, LoadedQuery, MAX_AST_NODES};
use dora::tui::nodes_acyclic;
use dora::types::{AppError, Language, MatchResult};
use rayon::iter::{IntoParallelRefIterator, ParallelIterator};

fn compile(lang: Language, source: &str) -> Result<Arc<LoadedQuery>, AppError> {
    load_query(lang, source).expect("tree-sitter reports usable pattern offsets").map(Arc::new)
}

fn extract(loaded: &LoadedQuery, lang: Language, source: &str, path: &str) -> Vec<MatchResult> {
    let parsed = parse_source(lang, source).expect("parses");
    search_tree(loaded, &parsed, path).expect("captures fit")
}

fn rust(query: &str) -> Arc<LoadedQuery> {
    compile(Language::Rust, query).expect("query compiles")
}

fn on_rust(loaded: &LoadedQuery, source: &str) -> Vec<MatchResult> {
    extract(loaded, Language::Rust, source, "test_file.rs")
}

fn symbols(lang: Language, source: &str) -> Vec<NewSymbolRow> {
    let parsed = parse_source(lang, source).expect("parses");
    (SymbolExtractor { language: lang }).extract(&parsed, 7).expect("extractor queries compile")
}

#[test]
fn test_exact_fields_eq_predicate() {
    let source = "fn first() {}\n  fn target_fn() {}\nfn third() {}";
    let compiled = rust(r#"(function_item name: (identifier) @fn_name (#eq? @fn_name "target_fn"))"#);
    let results = on_rust(&compiled, source);
    assert_eq!(results.len(), 1, "Expected exactly 1 match for #eq? predicate, got: {:?}", results);
    let r = &results[0];
    assert_eq!(r.capture_name, "fn_name");
    assert_eq!(r.matched_text, "target_fn");
    assert_eq!(r.start_line, 2);
    assert_eq!(r.start_col, 5);
    assert_eq!(r.end_col, 5 + "target_fn".len());
}

#[test]
fn test_exact_fields_match_predicate() {
    let source = "fn other() {}\nfn handle_one() {}\nfn noop() {}\n    fn handle_two() {}";
    let compiled = rust(r#"(function_item name: (identifier) @fn_name (#match? @fn_name "^handle_"))"#);
    let mut results = on_rust(&compiled, source);
    results.sort_by_key(|r| r.start_line);
    assert_eq!(results.len(), 2, "Expected exactly 2 matches for ^handle_ prefix, got: {:?}", results);
    let a = &results[0];
    assert_eq!(a.capture_name, "fn_name");
    assert!(a.matched_text.starts_with("handle_"));
    assert_eq!(a.start_line, 2);
    let b = &results[1];
    assert_eq!(b.capture_name, "fn_name");
    assert!(b.matched_text.starts_with("handle_"));
    assert_eq!(b.start_line, 4);
}

#[test]
fn test_exact_fields_no_matches_idempotent() {
    let source = "struct S { a: i32 }\nfn foo() {}\nlet x = 3;";
    let compiled = rust("(impl_item) @impl");
    let results1 = on_rust(&compiled, source);
    assert_eq!(results1.len(), 0);
    assert_eq!(results1, Vec::new());
    let results2 = on_rust(&compiled, source);
    assert_eq!(results2, Vec::new());
}

#[test]
fn test_rayon_arc_query_concurrent_scope() {
    let compiled = rust("(function_item name: (identifier) @fn_name)");
    let n = 8usize;
    let mut sources = Vec::new();
    for i in 0..n {
        let mut s = String::new();
        for j in 0..(i + 1) {
            s.push_str(&format!("fn f{}_{}() {{}}\n", i, j));
        }
        sources.push(s);
    }
    let counts = Arc::new(Mutex::new(Vec::new()));
    rayon::scope(|s| {
        for (i, src) in sources.clone().into_iter().enumerate() {
            let q_cl = Arc::clone(&compiled);
            let counts_cl = Arc::clone(&counts);
            s.spawn(move |_| {
                let results = extract(&q_cl, Language::Rust, &src, &format!("f{}.rs", i));
                counts_cl.lock().expect("mutex lock").push(results.len());
            });
        }
    });
    let mut final_counts = counts.lock().expect("mutex lock").clone();
    final_counts.sort();
    assert_eq!(final_counts.len(), n);
    assert_eq!(final_counts, (1..=n).collect::<Vec<usize>>());
    assert_eq!(Arc::strong_count(&compiled), 1);
}

#[test]
fn test_rayon_par_iter_mirrors_production() {
    let query = rust("(function_item name: (identifier) @fn_name)");
    let files: Vec<(String, String)> =
        (0..20usize).map(|i| (format!("f{}.rs", i), format!("fn func_{}() {{}}", i))).collect();
    let results: Vec<MatchResult> = files
        .par_iter()
        .map(|(path, src)| extract(&query, Language::Rust, src, path))
        .flat_map_iter(|v| v.into_iter())
        .collect();
    assert_eq!(results.len(), 20);
    for r in &results {
        assert_eq!(r.capture_name, "fn_name");
        assert_eq!(r.start_line, 1);
    }
    let names: HashSet<String> = results.into_iter().map(|r| r.matched_text).collect();
    let expected: HashSet<String> = (0..20usize).map(|i| format!("func_{}", i)).collect();
    assert_eq!(names, expected);
}

#[test]
fn test_compile_query_valid() {
    let result = compile(Language::Rust, "(function_item name: (identifier) @fn_name)");
    assert!(result.is_ok(), "Valid S-expression should compile without error, got: {:?}", result.as_ref().err());
    let compiled = result.unwrap();
    assert!(compiled.compiled.capture_names.contains(&"fn_name".to_string()));
}

#[test]
fn test_compile_query_invalid_returns_error() {
    let result = compile(Language::Rust, "((( this is not valid");
    assert!(matches!(result, Err(AppError::QueryCompileError(_))));
    if let Err(AppError::QueryCompileError(msg)) = result {
        assert!(!msg.is_empty());
        assert!(msg.len() > 5, "QueryCompileError message should be descriptive, got: '{msg}'");
    }
}

#[test]
fn test_compile_query_unknown_node_type() {
    let result = compile(Language::Rust, "(nonexistent_node_xyz @cap)");
    assert!(matches!(result, Err(AppError::QueryCompileError(_))));
}

#[test]
fn test_compile_query_arc_is_shareable() {
    let compiled = rust("(identifier) @id");
    let compiled2 = Arc::clone(&compiled);
    assert_eq!(compiled.compiled.capture_names, compiled2.compiled.capture_names);
    assert_eq!(Arc::strong_count(&compiled), 2);
}

#[test]
fn test_extract_matches_function_definition() {
    let source = "\nfn authenticate(user: &str, password: &str) -> bool {\n    true\n}\nfn logout() {}\n";
    let compiled = rust("(function_item name: (identifier) @fn_name)");
    let results = on_rust(&compiled, source);
    assert_eq!(results.len(), 2, "Expected 2 function matches, got: {:?}", results);
    let names: Vec<&str> = results.iter().map(|r| r.matched_text.as_str()).collect();
    assert!(names.contains(&"authenticate"));
    assert!(names.contains(&"logout"));
    for result in &results {
        assert_eq!(result.capture_name, "fn_name");
    }
}

#[test]
fn test_extract_matches_no_matches_returns_empty() {
    let compiled = rust("(struct_item name: (type_identifier) @struct_name)");
    let results = on_rust(&compiled, "fn main() { let x = 1; }");
    assert!(results.is_empty(), "Expected no matches, got: {:?}", results);
}

#[test]
fn test_extract_matches_line_numbers_are_1_indexed() {
    let compiled = rust("(function_item name: (identifier) @fn_name)");
    let results = on_rust(&compiled, "\nfn first() {}\nfn second() {}");
    assert_eq!(results.len(), 2);
    let first = results.iter().find(|r| r.matched_text == "first").unwrap();
    assert_eq!(first.start_line, 2);
    let second = results.iter().find(|r| r.matched_text == "second").unwrap();
    assert_eq!(second.start_line, 3);
}

#[test]
fn test_extract_matches_eq_predicate() {
    let source = "\nfn connect() {}\nfn disconnect() {}\nfn reconnect() {}\n";
    let compiled = rust(
        r#"
            (function_item
              name: (identifier) @fn_name
              (#eq? @fn_name "connect"))
        "#,
    );
    let results = on_rust(&compiled, source);
    assert_eq!(results.len(), 1, "Expected exactly 1 match for #eq? predicate, got: {:?}", results);
    assert_eq!(results[0].matched_text, "connect");
}

#[test]
fn test_extract_matches_file_path_populated() {
    let compiled = rust("(function_item name: (identifier) @fn_name)");
    let results = extract(&compiled, Language::Rust, "fn foo() {}", "src/auth/handler.rs");
    assert_eq!(results.len(), 1);
    assert_eq!(results[0].file_path, "src/auth/handler.rs");
}

#[test]
fn test_extract_matches_multiple_captures_per_match() {
    let compiled = rust(
        r#"
            (function_item
              name: (identifier) @fn_name
              parameters: (parameters
                (parameter pattern: (identifier) @param_name)))
        "#,
    );
    let results = on_rust(&compiled, "fn process(input: String) {}");
    assert_eq!(results.len(), 2, "Expected 2 captures (fn_name + param_name), got: {:?}", results);
    let fn_result = results.iter().find(|r| r.capture_name == "fn_name").expect("Must have fn_name capture");
    assert_eq!(fn_result.matched_text, "process");
    let param_result =
        results.iter().find(|r| r.capture_name == "param_name").expect("Must have param_name capture");
    assert_eq!(param_result.matched_text, "input");
}

#[test]
fn test_compiled_query_has_non_empty_kind_ids() {
    let compiled = rust("(function_item name: (identifier) @fn_name)");
    assert!(!compiled.compiled.kind_ids.is_empty());
}

#[test]
fn test_kind_ids_contains_identifier() {
    let compiled = rust("(function_item name: (identifier) @fn_name)");
    let id_id = grammar(Language::Rust).id_for_node_kind("identifier", true);
    assert!(compiled.compiled.kind_ids.contains(&id_id));
}

#[test]
fn test_extract_matches_correct_with_kind_filter() {
    let compiled = rust("(function_item name: (identifier) @fn_name)");
    let results = on_rust(&compiled, "fn alpha() {}\nfn beta() {}");
    assert_eq!(results.len(), 2);
    let names: Vec<&str> = results.iter().map(|r| r.matched_text.as_str()).collect();
    assert!(names.contains(&"alpha"));
    assert!(names.contains(&"beta"));
}

#[test]
fn test_kind_filter_preserves_eq_predicate_results() {
    let compiled = rust(r#"(function_item name: (identifier) @fn_name (#eq? @fn_name "connect"))"#);
    let results = on_rust(&compiled, "fn connect() {}\nfn disconnect() {}");
    assert_eq!(results.len(), 1);
    assert_eq!(results[0].matched_text, "connect");
}

#[test]
fn test_build_kind_ids_is_superset() {
    let compiled = rust("(function_item name: (identifier) @fn_name)");
    let results = on_rust(&compiled, "fn foo() { let x = 1; }");
    for result in &results {
        assert_eq!(result.matched_text.as_str(), "foo");
    }
    assert_eq!(results.len(), 1);
}

#[test]
fn test_compiled_query_language_field() {
    let rust_lang = grammar(Language::Rust);
    let compiled = rust("(identifier) @id");
    assert_eq!(compiled.grammar.node_kind_count(), rust_lang.node_kind_count());
}

#[test]
fn test_multiple_match_predicates_all_evaluated() {
    let compiled = rust(r#"(function_item name: (identifier) @fn (#match? @fn "^get_") (#match? @fn "_data$"))"#);
    assert_eq!(compiled.compiled.regex_predicates.len(), 2);
}

#[test]
fn test_no_regex_predicates_still_matches() {
    let compiled = rust("(function_item name: (identifier) @fn_name)");
    assert!(compiled.compiled.regex_predicates.is_empty());
    let results = on_rust(&compiled, "fn foo() {}\nfn bar() {}");
    assert_eq!(results.len(), 2);
}

#[test]
fn test_match_predicate_python_language() {
    let source = "def test_login(): pass\ndef login(): pass\ndef test_logout(): pass";
    let compiled =
        compile(Language::Python, r#"(function_definition name: (identifier) @fn (#match? @fn "^test_"))"#).unwrap();
    assert_eq!(compiled.compiled.regex_predicates.len(), 1);
    let results = extract(&compiled, Language::Python, source, "t.py");
    assert_eq!(results.len(), 2);
    let names: Vec<&str> = results.iter().map(|result| result.matched_text.as_str()).collect();
    assert!(names.contains(&"test_login"));
    assert!(names.contains(&"test_logout"));
}

#[test]
fn test_extract_rust_functions() {
    let rows = symbols(Language::Rust, "fn alpha() {}\nfn beta() {}");
    assert_eq!(rows.len(), 2);
    assert!(rows.iter().all(|row| row.kind == SymbolKind::Function));
    let names: Vec<_> = rows.iter().map(|row| row.name.as_str()).collect();
    assert!(names.contains(&"alpha"));
    assert!(names.contains(&"beta"));
}

#[test]
fn test_extract_rust_struct() {
    let rows = symbols(Language::Rust, "struct Config { timeout: u64 }");
    assert_eq!(rows.len(), 1);
    assert_eq!(rows[0].kind, SymbolKind::Struct);
    assert_eq!(rows[0].name, "Config");
}

#[test]
fn test_extract_rust_enum() {
    let rows = symbols(Language::Rust, "enum Status { Active, Inactive }");
    assert_eq!(rows.len(), 1);
    assert_eq!(rows[0].kind, SymbolKind::Enum);
    assert_eq!(rows[0].name, "Status");
}

#[test]
fn test_extract_rust_trait_impl() {
    let rows = symbols(
        Language::Rust,
        "impl core::fmt::Display for Config { fn fmt(&self, f: &mut core::fmt::Formatter<'_>) -> core::fmt::Result { Ok(()) } }",
    );
    assert_eq!(rows.len(), 1);
    assert_eq!(rows[0].kind, SymbolKind::Trait);
    assert!(rows[0].name.contains("Display"));
    assert!(rows[0].name.contains("Config"));
}

#[test]
fn test_extract_python_functions() {
    let rows = symbols(Language::Python, "def greet(name):\n    pass\ndef farewell():\n    pass");
    assert_eq!(rows.len(), 2);
    assert!(rows.iter().all(|row| row.kind == SymbolKind::Function));
}

#[test]
fn test_extract_python_class() {
    let rows = symbols(Language::Python, "class MyClass:\n    pass");
    assert_eq!(rows.len(), 1);
    assert_eq!(rows[0].kind, SymbolKind::Class);
    assert_eq!(rows[0].name, "MyClass");
}

#[test]
fn test_extract_javascript_function() {
    let rows = symbols(Language::JavaScript, "function authenticate(user) { return true; }");
    assert_eq!(rows.len(), 1);
    assert_eq!(rows[0].kind, SymbolKind::Function);
}

#[test]
fn test_extract_typescript_interface() {
    let rows = symbols(Language::TypeScript, "interface Shape { area(): number; }");
    assert_eq!(rows.len(), 1);
    assert_eq!(rows[0].kind, SymbolKind::Interface);
    assert_eq!(rows[0].name, "Shape");
}

#[test]
fn test_extract_typescript_type_alias() {
    let rows = symbols(Language::TypeScript, "type Point = { x: number; y: number; };\n");
    assert_eq!(rows.len(), 1);
    assert_eq!(rows[0].kind, SymbolKind::TypeAlias);
    assert_eq!(rows[0].name, "Point");
}

#[test]
fn test_extract_go_function() {
    let rows = symbols(Language::Go, "package main\nfunc greet(name string) string { return name }");
    assert_eq!(rows.len(), 1);
    assert_eq!(rows[0].kind, SymbolKind::Function);
}

#[test]
fn test_extract_c_function() {
    let rows = symbols(Language::C, "int add(int a, int b) { return a + b; }");
    assert_eq!(rows.len(), 1);
    assert_eq!(rows[0].kind, SymbolKind::Function);
    assert_eq!(rows[0].name, "add");
}

#[test]
fn test_extract_cpp_class() {
    let rows = symbols(Language::Cpp, "class Calculator { public: int add(int a, int b); };\n");
    assert_eq!(rows.len(), 1);
    assert_eq!(rows[0].kind, SymbolKind::Class);
    assert_eq!(rows[0].name, "Calculator");
}

#[test]
fn test_extract_empty_source_returns_empty() {
    let rows = symbols(Language::Rust, "let x = 1;");
    assert!(rows.is_empty());
}

#[test]
fn test_extract_returns_correct_positions() {
    let rows = symbols(Language::Rust, "fn foo() {}");
    assert_eq!(rows.len(), 1);
    assert_eq!(rows[0].start_line, 1);
    assert_eq!(rows[0].start_col, 3);
}

#[test]
fn ast_listing_walks_the_whole_tree_in_pre_order() {
    let source = "fn f(a: i32) { let x = 1; }\nstruct S;";
    let parsed = parse_source(Language::Rust, source).expect("parses");
    let nodes = ast_nodes(&parsed);
    assert!(nodes.len() > 10);
    assert!(nodes.len() <= MAX_AST_NODES);
    assert!(nodes_acyclic(&nodes));
    assert_eq!(nodes[0].kind, "source_file");
    assert_eq!(nodes[0].parent_id, None);
    assert_eq!(nodes[0].depth, 0);
    assert_eq!(nodes[1].kind, "function_item");
    assert_eq!(nodes[1].parent_id, Some(0));
    assert_eq!(nodes[1].depth, 1);
    for (k, n) in nodes.iter().enumerate() {
        assert_eq!(n.id, k);
        if let Some(p) = n.parent_id {
            assert_eq!(nodes[p].depth + 1, n.depth);
            assert!(nodes[p].has_children);
        }
        if n.text_preview.is_some() {
            assert!(!n.has_children);
        }
    }
    let name = nodes.iter().find(|n| n.kind == "identifier").expect("an identifier");
    assert_eq!(name.text_preview.as_deref(), Some("f"));
    assert_eq!(name.field_name.as_deref(), Some("name"));
    assert_eq!((name.start_line, name.start_col), (1, 3));
    assert!(nodes.iter().any(|n| n.kind == "struct_item" && n.depth == 1));
}

#[test]
fn ast_listing_marks_error_nodes() {
    let source = "fn f( {";
    let parsed = parse_source(Language::Rust, source).expect("parses");
    let nodes = ast_nodes(&parsed);
    assert!(nodes.iter().any(|n| n.is_error));
}

#[test]
fn ast_listing_starts_at_root_and_marks_error_nodes() {
    let source = "fn broken( {";
    let parsed = parse_source(Language::Rust, source).expect("tree");
    let nodes = ast_nodes(&parsed);
    assert!(!nodes.is_empty());
    assert_eq!(nodes[0].depth, 0);
    assert_eq!(nodes[0].parent_id, None);
    assert!(nodes.iter().any(|n| n.is_error));
    for n in &nodes {
        if n.kind == "ERROR" {
            assert!(n.is_error);
        }
        assert!(n.start_line >= 1 && n.end_line >= 1);
    }
}

#[test]
fn extraction_keeps_plan_order_of_kinds() {
    let source = "struct S;\nfn f() {}\n";
    let parsed = parse_source(Language::Rust, source).expect("tree");
    let rows = SymbolExtractor { language: Language::Rust }.extract(&parsed, 7).expect("rows");
    let kinds: Vec<SymbolKind> = rows.iter().map(|r| r.kind.clone()).collect();
    let f = kinds.iter().position(|k| *k == SymbolKind::Function).expect("function");
    let s = kinds.iter().position(|k| *k == SymbolKind::Struct).expect("struct");
    assert!(f < s);
    assert!(rows.iter().all(|r| r.file_id == 7));
}

#[test]
fn symbol_kind_parses_from_its_name() {
    assert_eq!("function".parse::<SymbolKind>(), Ok(SymbolKind::Function));
    assert_eq!("type_alias".parse::<SymbolKind>(), Ok(SymbolKind::TypeAlias));
    assert_eq!("Function".parse::<SymbolKind>(), Ok(SymbolKind::Unknown));
    assert_eq!("".parse::<SymbolKind>(), Ok(SymbolKind::Unknown));
}

#[test]
fn old_type_alias_spelling_is_unknown() {
    assert_eq!("typealias".parse::<SymbolKind>(), Ok(SymbolKind::Unknown));
}

#[test]
fn parsed_source_keeps_its_text_and_language() {
    let parsed = parse_source(Language::Python, "def f():\n    pass\n").expect("parses");
    assert_eq!(parsed.source(), "def f():\n    pass\n");
    assert_eq!(parsed.language(), Language::Python);
}

#[test]
fn query_compile_errors_carry_tree_sitters_message() {
    match load_query(Language::Rust, "(not_a_node_kind) @x") {
        Some(Err(AppError::QueryCompileError(message))) => assert!(!message.is_empty()),
        _ => panic!("expected a compile error"),
    }
}

#[test]
fn ast_listing_stops_at_the_node_limit() {
    let mut source = String::from("fn f() {\n");
    for i in 0..2000 {
        source.push_str(&format!("    let x{} = {};\n", i, i));
    }
    source.push_str("}\n");
    let parsed = parse_source(Language::Rust, &source).expect("parses");
    let nodes = ast_nodes(&parsed);
    assert_eq!(nodes.len(), MAX_AST_NODES);
    for (k, n) in nodes.iter().enumerate().skip(1) {
        let p = n.parent_id.expect("every node but the root has a parent");
        assert!(p < k);
        assert_eq!(nodes[p].depth + 1, n.depth);
    }
}

#[test]
fn ast_listing_of_a_small_tree_holds_every_node() {
    let source = "struct S;";
    let parsed = parse_source(Language::Rust, source).expect("parses");
    let nodes = ast_nodes(&parsed);
    let kinds: Vec<&str> = nodes.iter().map(|n| n.kind.as_str()).collect();
    assert_eq!(kinds, vec!["source_file", "struct_item", "struct", "type_identifier", ";"]);
    assert_eq!(nodes[3].field_name.as_deref(), Some("name"));
    assert_eq!(nodes[3].text_preview.as_deref(), Some("S"));
    assert_eq!(nodes[3].parent_id, Some(1));
}
