use dora::cli::finalize_results;
use dora::types::{AppError, LangMode, Language, MatchResult, SearchConfig};

#[test]
fn match_result_derives() {
    let a = MatchResult {
        file_path: "src/main.rs".to_string(),
        capture_name: "fn.name".to_string(),
        matched_text: "main".to_string(),
        start_line: 0,
        start_col: 3,
        end_line: 0,
        end_col: 7,
        start_byte: 0,
        end_byte: 0,
    };
    let b = a.clone();
    assert_eq!(a, b);

    let mut results = vec![b.clone(), a.clone()];
    results.sort();
    assert_eq!(results[0], a);
}

#[test]
fn search_config_derives() {
    let config = SearchConfig {
        queries: vec!["(function_item name: (identifier) @fn.name)".to_string()],
        root_path: "/home/user/project".to_string(),
        lang_mode: LangMode::Single(Language::Rust),
    };

    let cloned = config.clone();
    assert_eq!(config, cloned);

    let _ = format!("{:?}", config);
}

#[test]
fn search_config_inequality() {
    let base = SearchConfig {
        queries: vec!["fn main".to_string()],
        root_path: ".".to_string(),
        lang_mode: LangMode::Single(Language::Rust),
    };
    let different_lang =
        SearchConfig { lang_mode: LangMode::Single(Language::Python), ..base.clone() };

    assert_ne!(base, different_lang);
}

#[test]
fn parse_error_display() {
    let err = AppError::ParseError("unexpected token '}'".to_string());
    assert_eq!(err.message(), "Parse error: unexpected token '}'");
}

#[test]
fn query_compile_error_display() {
    let err = AppError::QueryCompileError("invalid node type 'foobar'".to_string());
    assert_eq!(err.message(), "Failed to compile query: invalid node type 'foobar'");
}

#[test]
fn language_not_supported_display() {
    let err = AppError::LanguageNotSupported("COBOL".to_string());
    assert_eq!(err.message(), "Language not supported: COBOL");
}

#[test]
fn test_match_result_sort_order_file_then_line_then_col() {
    let e = MatchResult {
        file_path: "src/a.rs".to_string(),
        start_line: 1,
        start_col: 0,
        end_line: 1,
        end_col: 3,
        start_byte: 0,
        end_byte: 0,
        capture_name: "e".to_string(),
        matched_text: "e".to_string(),
    };
    let b = MatchResult {
        file_path: "src/a.rs".to_string(),
        start_line: 2,
        start_col: 0,
        end_line: 2,
        end_col: 3,
        start_byte: 0,
        end_byte: 0,
        capture_name: "b".to_string(),
        matched_text: "b".to_string(),
    };
    let d = MatchResult {
        file_path: "src/a.rs".to_string(),
        start_line: 2,
        start_col: 3,
        end_line: 2,
        end_col: 5,
        start_byte: 0,
        end_byte: 0,
        capture_name: "d".to_string(),
        matched_text: "d".to_string(),
    };
    let a = MatchResult {
        file_path: "src/a.rs".to_string(),
        start_line: 10,
        start_col: 5,
        end_line: 10,
        end_col: 8,
        start_byte: 0,
        end_byte: 0,
        capture_name: "a".to_string(),
        matched_text: "a".to_string(),
    };
    let c = MatchResult {
        file_path: "src/z.rs".to_string(),
        start_line: 1,
        start_col: 0,
        end_line: 1,
        end_col: 3,
        start_byte: 0,
        end_byte: 0,
        capture_name: "c".to_string(),
        matched_text: "c".to_string(),
    };

    let mut results = vec![c.clone(), a.clone(), b.clone(), d.clone(), e.clone()];
    results.sort();

    assert_eq!(results[0].file_path, "src/a.rs".to_string());
    assert_eq!(results[0].start_line, 1);
    assert_eq!(results[0].start_col, 0);

    assert_eq!(results[1].file_path, "src/a.rs".to_string());
    assert_eq!(results[1].start_line, 2);
    assert_eq!(results[1].start_col, 0);

    assert_eq!(results[2].file_path, "src/a.rs".to_string());
    assert_eq!(results[2].start_line, 2);
    assert_eq!(results[2].start_col, 3);

    assert_eq!(results[3].file_path, "src/a.rs".to_string());
    assert_eq!(results[3].start_line, 10);
    assert_eq!(results[3].start_col, 5);

    assert_eq!(results[4].file_path, "src/z.rs".to_string());
    assert_eq!(results[4].start_line, 1);
    assert_eq!(results[4].start_col, 0);
}

#[test]
fn test_match_result_sort_stable_on_position_tie() {
    let y = MatchResult {
        file_path: "src/a.rs".to_string(),
        start_line: 5,
        start_col: 2,
        end_line: 5,
        end_col: 4,
        start_byte: 0,
        end_byte: 0,
        capture_name: "aaa".to_string(),
        matched_text: "bar".to_string(),
    };
    let x = MatchResult {
        file_path: "src/a.rs".to_string(),
        start_line: 5,
        start_col: 2,
        end_line: 5,
        end_col: 8,
        start_byte: 0,
        end_byte: 0,
        capture_name: "zzz".to_string(),
        matched_text: "foo".to_string(),
    };

    let mut results = vec![x.clone(), y.clone()];
    results.sort();

    assert_eq!(results[0], y);
    assert_eq!(results[1], x);
}

#[test]
fn test_match_result_dedup_removes_exact_duplicates() {
    let a = MatchResult {
        file_path: "src/a.rs".to_string(),
        start_line: 1,
        start_col: 0,
        end_line: 1,
        end_col: 3,
        start_byte: 0,
        end_byte: 0,
        capture_name: "fn_name".to_string(),
        matched_text: "foo".to_string(),
    };
    let b = a.clone();
    let c = MatchResult {
        file_path: "src/a.rs".to_string(),
        start_line: 2,
        start_col: 0,
        end_line: 2,
        end_col: 3,
        start_byte: 0,
        end_byte: 0,
        capture_name: "fn_name".to_string(),
        matched_text: "bar".to_string(),
    };

    let mut results = vec![a.clone(), b, c.clone()];
    results.sort();
    results.dedup();

    assert_eq!(results.len(), 2);
    assert_eq!(results[0], a);
    assert_eq!(results[1], c);
}

#[test]
fn test_match_result_dedup_preserves_different_capture_names() {
    let a = MatchResult {
        file_path: "src/a.rs".to_string(),
        start_line: 1,
        start_col: 0,
        end_line: 1,
        end_col: 3,
        start_byte: 0,
        end_byte: 0,
        capture_name: "cap_one".to_string(),
        matched_text: "foo".to_string(),
    };
    let b = MatchResult {
        file_path: "src/a.rs".to_string(),
        start_line: 1,
        start_col: 0,
        end_line: 1,
        end_col: 3,
        start_byte: 0,
        end_byte: 0,
        capture_name: "cap_two".to_string(),
        matched_text: "foo".to_string(),
    };

    let mut results = vec![a, b];
    results.sort();
    results.dedup();

    assert_eq!(results.len(), 2);
}

#[test]
fn test_match_result_dedup_preserves_different_matched_text() {
    let a = MatchResult {
        file_path: "src/a.rs".to_string(),
        start_line: 1,
        start_col: 0,
        end_line: 1,
        end_col: 3,
        start_byte: 0,
        end_byte: 0,
        capture_name: "cap".to_string(),
        matched_text: "foo".to_string(),
    };
    let b = MatchResult {
        file_path: "src/a.rs".to_string(),
        start_line: 1,
        start_col: 0,
        end_line: 1,
        end_col: 3,
        start_byte: 0,
        end_byte: 0,
        capture_name: "cap".to_string(),
        matched_text: "bar".to_string(),
    };

    let mut results = vec![a, b];
    results.sort();
    results.dedup();

    assert_eq!(results.len(), 2);
}

#[test]
fn test_match_result_dedup_empty_vec() {
    let mut results: Vec<MatchResult> = vec![];
    results.sort();
    results.dedup();

    assert_eq!(results.len(), 0);
}

#[test]
fn test_match_result_dedup_single_element() {
    let a = MatchResult {
        file_path: "src/a.rs".to_string(),
        start_line: 1,
        start_col: 0,
        end_line: 1,
        end_col: 3,
        start_byte: 0,
        end_byte: 0,
        capture_name: "cap".to_string(),
        matched_text: "foo".to_string(),
    };

    let mut results = vec![a.clone()];
    results.sort();
    results.dedup();

    assert_eq!(results.len(), 1);
    assert_eq!(results[0], a);
}

#[test]
fn test_match_result_sort_idempotent() {
    let a = MatchResult {
        file_path: "src/a.rs".to_string(),
        start_line: 1,
        start_col: 0,
        end_line: 1,
        end_col: 3,
        start_byte: 0,
        end_byte: 0,
        capture_name: "a".to_string(),
        matched_text: "a".to_string(),
    };
    let b = MatchResult {
        file_path: "src/a.rs".to_string(),
        start_line: 2,
        start_col: 0,
        end_line: 2,
        end_col: 3,
        start_byte: 0,
        end_byte: 0,
        capture_name: "b".to_string(),
        matched_text: "b".to_string(),
    };
    let c = MatchResult {
        file_path: "src/b.rs".to_string(),
        start_line: 1,
        start_col: 0,
        end_line: 1,
        end_col: 3,
        start_byte: 0,
        end_byte: 0,
        capture_name: "c".to_string(),
        matched_text: "c".to_string(),
    };

    let mut results = vec![a.clone(), b.clone(), c.clone()];
    results.sort();
    let after_first_sort = results.clone();

    results.sort();
    let after_second_sort = results.clone();

    assert_eq!(after_first_sort, after_second_sort);
}

#[test]
fn test_match_result_sort_by_line_ascending() {
    let mut results = vec![];
    for line in [99, 1, 50, 2, 100] {
        results.push(MatchResult {
            file_path: "src/a.rs".to_string(),
            start_line: line,
            start_col: 0,
            end_line: line,
            end_col: 3,
            start_byte: 0,
            end_byte: 0,
            capture_name: "cap".to_string(),
            matched_text: "txt".to_string(),
        });
    }

    results.sort();

    assert_eq!(results[0].start_line, 1);
    assert_eq!(results[1].start_line, 2);
    assert_eq!(results[2].start_line, 50);
    assert_eq!(results[3].start_line, 99);
    assert_eq!(results[4].start_line, 100);
}

#[test]
fn test_match_result_sort_by_col_ascending() {
    let mut results = vec![];
    for col in [10, 0, 7, 3] {
        results.push(MatchResult {
            file_path: "src/a.rs".to_string(),
            start_line: 5,
            start_col: col,
            end_line: 5,
            end_col: col + 3,
            start_byte: 0,
            end_byte: 0,
            capture_name: "cap".to_string(),
            matched_text: "txt".to_string(),
        });
    }

    results.sort();

    assert_eq!(results[0].start_col, 0);
    assert_eq!(results[1].start_col, 3);
    assert_eq!(results[2].start_col, 7);
    assert_eq!(results[3].start_col, 10);
}

fn mr(path: &str, line: usize, col: usize, cap: &str, text: &str) -> MatchResult {
    MatchResult {
        file_path: path.to_string(),
        start_line: line,
        start_col: col,
        end_line: line,
        end_col: col + 1,
        start_byte: 0,
        end_byte: 0,
        capture_name: cap.to_string(),
        matched_text: text.to_string(),
    }
}

#[test]
fn finalized_results_are_sorted_and_unique() {
    let a = mr("src/a.rs", 2, 0, "c", "x");
    let b = mr("src/a.rs", 1, 5, "c", "y");
    let c = mr("src/b.rs", 1, 0, "c", "z");
    let out = finalize_results(vec![c.clone(), a.clone(), b.clone(), a.clone()]);
    assert_eq!(out, vec![b, a, c]);
}

#[test]
fn finalize_is_idempotent() {
    let input = vec![mr("z", 1, 0, "c", "1"), mr("a", 3, 0, "c", "2"), mr("a", 3, 0, "c", "2")];
    let once = finalize_results(input);
    let twice = finalize_results(once.clone());
    assert_eq!(once, twice);
}

#[test]
fn error_messages() {
    assert_eq!(AppError::IoError("gone".to_string()).message(), "I/O error: gone");
    assert_eq!(AppError::IndexVersionMismatch { found: 2, expected: 1 }.message(), "Index version mismatch: found 2, expected 1");
}
