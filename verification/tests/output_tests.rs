use dora::memory::{FileRow, SymbolKind, SymbolRow};
use dora::output::{
    color_mode_for, colorize, format_match, format_summary, plural_file, plural_match,
    print_lookup_results, print_match, print_summary, ColorMode, CYAN, GREEN, YELLOW,
};
use dora::types::MatchResult;
use std::time::Duration;

fn buf_to_string(buf: Vec<u8>) -> String {
    String::from_utf8(buf).expect("output contained non-UTF-8 bytes")
}

fn ms(d: Duration) -> u128 {
    d.as_millis()
}

fn result(path: &str, cap: &str, text: &str, line: usize, col: usize, end_line: usize, end_col: usize) -> MatchResult {
    MatchResult {
        file_path: path.to_string(),
        capture_name: cap.to_string(),
        matched_text: text.to_string(),
        start_line: line,
        start_col: col,
        end_line,
        end_col,
        start_byte: 0,
        end_byte: 0,
    }
}

fn canonical_match_result() -> MatchResult {
    result("src/auth/handler.rs", "fn_name", "authenticate", 42, 4, 42, 16)
}

fn canonical_lookup_rows() -> (SymbolRow, FileRow) {
    (
        SymbolRow {
            id: 7,
            file_id: 3,
            kind: SymbolKind::Function,
            name: "authenticate".to_string(),
            start_line: 42,
            start_col: 4,
            end_line: 42,
            end_col: 16,
            signature: Some("fn authenticate(user: User) -> bool".to_string()),
        },
        FileRow {
            id: 3,
            path: "src/auth/handler.rs".to_string(),
            mtime: 1,
            language: "rust".to_string(),
            indexed_at: 1,
        },
    )
}

#[test]
fn test_colorize_off_returns_plain() {
    assert_eq!(colorize("hello", CYAN, &ColorMode::Off), "hello");
    assert_eq!(colorize("world", YELLOW, &ColorMode::Off), "world");
    assert_eq!(colorize("", GREEN, &ColorMode::Off), "");
}

#[test]
fn test_colorize_on_wraps_with_codes() {
    assert!(colorize("hello", CYAN, &ColorMode::On).starts_with("\x1b["));
    assert!(colorize("hello", CYAN, &ColorMode::On).ends_with("\x1b[0m"));
    assert!(colorize("hello", CYAN, &ColorMode::On).contains("hello"));
    assert_eq!(colorize("x", CYAN, &ColorMode::On), "\x1b[36mx\x1b[0m");
    assert_eq!(colorize("y", YELLOW, &ColorMode::On), "\x1b[33my\x1b[0m");
    assert_eq!(colorize("z", GREEN, &ColorMode::On), "\x1b[32mz\x1b[0m");
}

#[test]
fn test_colorize_on_empty_produces_reset_only() {
    assert_eq!(colorize("", CYAN, &ColorMode::On), "\x1b[36m\x1b[0m");
}

#[test]
fn test_resolve_color_mode_flag_wins() {
    assert_eq!(color_mode_for(true, None), ColorMode::Off);
    assert_eq!(color_mode_for(true, Some("")), ColorMode::Off);
}

#[test]
fn test_resolve_color_mode_env_var_behavior() {
    assert_eq!(color_mode_for(false, Some("1")), ColorMode::Off);
    assert_eq!(color_mode_for(false, Some("true")), ColorMode::Off);
    assert_eq!(color_mode_for(false, Some("")), ColorMode::On);
}

#[test]
fn test_resolve_color_mode_default_on() {
    assert_eq!(color_mode_for(false, None), ColorMode::On);
}

#[test]
fn test_plural_match() {
    assert_eq!(plural_match(0), "matches");
    assert_eq!(plural_match(1), "match");
    assert_eq!(plural_match(2), "matches");
    assert_eq!(plural_match(100), "matches");
}

#[test]
fn test_plural_file() {
    assert_eq!(plural_file(0), "files");
    assert_eq!(plural_file(1), "file");
    assert_eq!(plural_file(2), "files");
    assert_eq!(plural_file(100), "files");
}

#[test]
fn test_format_match_off_exact() {
    let r = result("src/auth.rs", "fn_name", "login", 10, 4, 10, 9);
    let out = format_match(&r, &ColorMode::Off);
    assert_eq!(out, "src/auth.rs:10:4  [@fn_name]  \"login\"");
}

#[test]
fn test_format_match_on_contains_codes() {
    let r = result("src/auth.rs", "fn_name", "login", 10, 4, 10, 9);
    let out = format_match(&r, &ColorMode::On);
    assert!(out.contains("\x1b[36m"));
    assert!(out.contains("\x1b[33m"));
    assert!(out.contains("\x1b[32m"));
    assert!(out.contains("\x1b[0m"));
    assert!(out.contains("src/auth.rs"));
    assert!(out.contains("fn_name"));
    assert!(out.contains("login"));
    assert!(out.contains(":10:4"));
    assert!(out.contains('"'));
}

#[test]
fn test_format_match_path_with_spaces() {
    let r = result("src/my project/auth handler.rs", "fn_name", "login", 1, 0, 1, 5);
    let out = format_match(&r, &ColorMode::Off);
    assert!(out.starts_with("src/my project/auth handler.rs:"));
}

#[test]
fn test_format_summary_zero_matches() {
    let out = format_summary(0, 15, ms(Duration::from_millis(42)), &ColorMode::Off);
    assert_eq!(out, "No matches found across 15 files in 42ms");
}

#[test]
fn test_format_summary_singular() {
    let out = format_summary(1, 1, ms(Duration::from_millis(7)), &ColorMode::Off);
    assert_eq!(out, "Found 1 match across 1 file in 7ms");
}

#[test]
fn test_format_summary_plural() {
    let out = format_summary(47, 312, ms(Duration::from_millis(156)), &ColorMode::Off);
    assert_eq!(out, "Found 47 matches across 312 files in 156ms");
}

#[test]
fn test_format_summary_duration_rounding() {
    let out = format_summary(1, 1, ms(Duration::from_micros(1500)), &ColorMode::Off);
    assert!(out.contains("in 1ms"));
}

#[test]
fn test_format_summary_color_invariant() {
    let a = format_summary(5, 10, ms(Duration::from_millis(20)), &ColorMode::On);
    let b = format_summary(5, 10, ms(Duration::from_millis(20)), &ColorMode::Off);
    assert_eq!(a, b);
}

#[test]
fn test_print_match_writes_to_provided_writer() {
    let result = canonical_match_result();
    let mut buf: Vec<u8> = Vec::new();
    print_match(&result, &ColorMode::Off, &mut buf);
    let output = buf_to_string(buf);
    assert!(!output.is_empty());
    assert!(output.contains("src/auth/handler.rs"));
    assert!(output.contains("fn_name"));
    assert!(output.contains("authenticate"));
}

#[test]
fn test_print_match_output_equals_format_match_plus_newline() {
    let result = canonical_match_result();
    let mut buf: Vec<u8> = Vec::new();
    print_match(&result, &ColorMode::Off, &mut buf);
    let expected = format!("{}\n", format_match(&result, &ColorMode::Off));
    assert_eq!(buf_to_string(buf), expected);
}

#[test]
fn test_print_match_color_off_no_ansi_in_writer() {
    let result = canonical_match_result();
    let mut buf: Vec<u8> = Vec::new();
    print_match(&result, &ColorMode::Off, &mut buf);
    let output = buf_to_string(buf);
    assert!(!output.contains("\x1b["));
    assert!(output.contains("src/auth/handler.rs"));
    assert!(output.contains("fn_name"));
    assert!(output.contains("authenticate"));
}

#[test]
fn test_print_match_color_on_ansi_present_in_writer() {
    let result = canonical_match_result();
    let mut buf: Vec<u8> = Vec::new();
    print_match(&result, &ColorMode::On, &mut buf);
    let output = buf_to_string(buf);
    assert!(output.contains("\x1b[36m"));
    assert!(output.contains("\x1b[33m"));
    assert!(output.contains("\x1b[32m"));
    assert!(output.contains("\x1b[0m"));
    assert!(output.contains("src/auth/handler.rs"));
    assert!(output.contains("authenticate"));
    assert!(output.contains(":42:4"));
    assert!(!output.contains(":42:4\x1b"));
}

#[test]
fn test_print_match_writes_exactly_one_newline() {
    let result = canonical_match_result();
    let mut buf: Vec<u8> = Vec::new();
    print_match(&result, &ColorMode::Off, &mut buf);
    let output = buf_to_string(buf);
    assert!(output.ends_with('\n'));
    assert_eq!(output.chars().filter(|&c| c == '\n').count(), 1);
}

#[test]
fn test_print_match_multiple_results_accumulate_in_writer() {
    let result1 = result("src/a.rs", "fn_name", "alpha", 1, 3, 1, 8);
    let result2 = result("src/b.rs", "fn_name", "beta", 5, 3, 5, 7);
    let mut buf: Vec<u8> = Vec::new();
    print_match(&result1, &ColorMode::Off, &mut buf);
    print_match(&result2, &ColorMode::Off, &mut buf);
    let output = buf_to_string(buf);
    assert!(output.contains("src/a.rs"));
    assert!(output.contains("alpha"));
    assert!(output.contains("src/b.rs"));
    assert!(output.contains("beta"));
    assert_eq!(output.lines().count(), 2);
    assert!(output.lines().next().unwrap().contains("alpha"));
    assert!(output.lines().nth(1).unwrap().contains("beta"));
}

#[test]
fn test_print_match_empty_matched_text() {
    let r = result("src/main.rs", "optional_cap", "", 1, 0, 1, 0);
    let mut buf: Vec<u8> = Vec::new();
    print_match(&r, &ColorMode::Off, &mut buf);
    let output = buf_to_string(buf);
    assert!(output.contains("optional_cap"));
    assert!(output.contains("\"\""));
}

#[test]
fn test_print_summary_writes_to_provided_writer() {
    let mut buf: Vec<u8> = Vec::new();
    print_summary(5, 20, ms(Duration::from_millis(38)), &ColorMode::Off, &mut buf);
    let output = buf_to_string(buf);
    assert!(!output.is_empty());
    assert!(output.contains("5"));
    assert!(output.contains("20"));
    assert!(output.contains("38ms"));
}

#[test]
fn test_print_summary_output_equals_format_summary_plus_newline() {
    let elapsed = Duration::from_millis(123);
    let mut buf: Vec<u8> = Vec::new();
    print_summary(10, 50, ms(elapsed), &ColorMode::Off, &mut buf);
    let expected = format!("{}\n", format_summary(10, 50, ms(elapsed), &ColorMode::Off));
    assert_eq!(buf_to_string(buf), expected);
}

#[test]
fn test_print_summary_zero_matches_in_writer() {
    let mut buf: Vec<u8> = Vec::new();
    print_summary(0, 8, ms(Duration::from_millis(12)), &ColorMode::Off, &mut buf);
    let output = buf_to_string(buf);
    assert!(output.contains("No matches"));
    assert!(!output.contains("Found 0"));
    assert!(output.contains("8"));
    assert!(output.contains("12ms"));
}

#[test]
fn test_print_summary_singular_forms_in_writer() {
    let mut buf: Vec<u8> = Vec::new();
    print_summary(1, 1, ms(Duration::from_millis(3)), &ColorMode::Off, &mut buf);
    let output = buf_to_string(buf);
    assert!(output.contains("1 match"));
    assert!(!output.contains("matches"));
    assert!(output.contains("1 file"));
    assert!(!output.contains("files"));
    assert!(output.contains("3ms"));
}

#[test]
fn test_print_summary_writes_exactly_one_newline() {
    let mut buf: Vec<u8> = Vec::new();
    print_summary(3, 10, ms(Duration::from_millis(5)), &ColorMode::Off, &mut buf);
    let output = buf_to_string(buf);
    assert!(output.ends_with('\n'));
    assert_eq!(output.chars().filter(|&c| c == '\n').count(), 1);
}

#[test]
fn test_print_match_and_summary_write_to_independent_writers() {
    let result = canonical_match_result();
    let mut match_buf: Vec<u8> = Vec::new();
    let mut summary_buf: Vec<u8> = Vec::new();
    print_match(&result, &ColorMode::Off, &mut match_buf);
    print_summary(1, 1, ms(Duration::from_millis(5)), &ColorMode::Off, &mut summary_buf);
    assert!(!match_buf.is_empty());
    assert!(!summary_buf.is_empty());
    assert!(!buf_to_string(match_buf.clone()).contains("Found"));
    assert!(!buf_to_string(match_buf.clone()).contains("No matches"));
    assert!(!buf_to_string(summary_buf.clone()).contains("[@fn_name]"));
    assert!(buf_to_string(match_buf).contains("authenticate"));
    assert!(buf_to_string(summary_buf).contains("1 match"));
}

#[test]
fn test_print_match_multiline_matched_text() {
    let r = result("src/main.rs", "block", "fn foo() {\n    42\n}", 1, 0, 3, 1);
    let mut buf: Vec<u8> = Vec::new();
    print_match(&r, &ColorMode::Off, &mut buf);
    let output = buf_to_string(buf);
    assert!(output.contains("block"));
    assert!(output.contains("fn foo()"));
    assert!(output.lines().any(|line| line.contains("block")));
}

#[test]
fn test_print_lookup_results_writes_match_like_output() {
    let (symbol, file) = canonical_lookup_rows();
    let mut buf: Vec<u8> = Vec::new();
    print_lookup_results(&[(symbol, file)], &ColorMode::Off, &mut buf);
    let output = buf_to_string(buf);
    assert!(output.contains("src/auth/handler.rs:42:4"));
    assert!(output.contains("[@function]"));
    assert!(output.contains("\"authenticate\""));
    assert!(!output.contains("signature:"));
}

#[test]
fn test_print_lookup_results_prints_signature_only_with_color() {
    let (symbol, file) = canonical_lookup_rows();
    let mut buf: Vec<u8> = Vec::new();
    print_lookup_results(&[(symbol, file)], &ColorMode::On, &mut buf);
    let output = buf_to_string(buf);
    assert!(output.contains("signature: fn authenticate(user: User) -> bool"));
    assert!(output.contains("\x1b[36m"));
    assert!(output.contains("\x1b[33m"));
    assert!(output.contains("\x1b[32m"));
}

#[test]
fn format_match_on_exact() {
    let r = result("a.rs", "c", "t", 2, 3, 2, 4);
    assert_eq!(
        format_match(&r, &ColorMode::On),
        "\x1b[36ma.rs\x1b[0m:2:3  [@\x1b[33mc\x1b[0m]  \"\x1b[32mt\x1b[0m\""
    );
}

#[test]
fn summary_large_counts() {
    assert_eq!(format_summary(2, 1, 0, &ColorMode::Off), "Found 2 matches across 1 file in 0ms");
}
