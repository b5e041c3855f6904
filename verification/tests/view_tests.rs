use dora::tui::{AppState, AstNode, FileTreeEntry, PaneId};
use dora::types::MatchResult;
use dora::view::{
    ast_node_line, clamp_selection, file_pane_hint, highlighted_line, file_pane_title, file_tree_line, is_match_line, leaf_preview,
    line_cuts_ok, line_segments, push_spaces, status_hint, status_line, visible_rows, PartKind, Segment,
};

fn span(start_line: usize, start_col: usize, end_line: usize, end_col: usize) -> MatchResult {
    MatchResult {
        file_path: "f.rs".to_string(),
        start_line,
        start_col,
        end_line,
        end_col,
        start_byte: 0,
        end_byte: 0,
        capture_name: "c".to_string(),
        matched_text: String::new(),
    }
}

fn seg(start: usize, end: usize, highlighted: bool) -> Segment {
    Segment { start, end, highlighted }
}

#[test]
fn visible_rows_clamps_to_the_last_page() {
    assert_eq!(visible_rows(5, 100, 10), (5, 15));
    assert_eq!(visible_rows(95, 100, 10), (90, 100));
    assert_eq!(visible_rows(3, 5, 10), (0, 5));
    assert_eq!(visible_rows(0, 0, 10), (0, 0));
}

#[test]
fn clamp_selection_stays_on_the_last_row() {
    assert_eq!(clamp_selection(7, 3), 2);
    assert_eq!(clamp_selection(1, 3), 1);
    assert_eq!(clamp_selection(4, 0), 0);
}

#[test]
fn pane_title_keeps_short_paths_and_names_no_file() {
    let mut s = AppState::new();
    assert_eq!(file_pane_title(&s, 30), " Files ");
    s.file_tree.push(FileTreeEntry { path: "src/lib.rs".to_string(), match_count: 2 });
    assert_eq!(file_pane_title(&s, 30), "src/lib.rs");
    assert_eq!(file_pane_title(&s, 8), "….rs");
}

#[test]
fn file_line_pads_to_the_pane_and_stops_padding_when_full() {
    assert_eq!(file_tree_line("src/main.rs", 3, 20), " main.rs          3");
    assert_eq!(file_tree_line("src/main.rs", 12, 5), " main.rs12");
    assert_eq!(file_tree_line("/", 1, 6), "    1");
}

#[test]
fn hints_and_status_line() {
    assert_eq!(file_pane_hint(false, true), "No matches");
    assert_eq!(status_hint(PaneId::CodeView), "  [↑↓/jk] scroll code   [Tab] focus file tree  ");
    let mut s = AppState::new();
    assert_eq!(status_line(&s), "  [↑↓/jk] select file   [Tab] focus code view  ");
    s.search_running = true;
    s.frame_count = 13;
    s.active_pane = PaneId::AstView;
    assert_eq!(
        status_line(&s),
        "  [↑↓/jk] navigate   [Enter] expand/collapse   [g/G] top/bottom    [searching ⠸]"
    );
}

#[test]
fn match_lines_cover_start_and_span() {
    let ms = vec![span(3, 0, 5, 1), span(9, 2, 8, 0)];
    assert!(is_match_line(&ms, 3));
    assert!(is_match_line(&ms, 4));
    assert!(is_match_line(&ms, 5));
    assert!(!is_match_line(&ms, 6));
    assert!(is_match_line(&ms, 9));
    assert!(!is_match_line(&ms, 8));
}

#[test]
fn segments_of_a_single_line_match() {
    let line = "let x = foo(bar);";
    let ms = vec![span(1, 8, 1, 16)];
    assert!(line_cuts_ok(line, 1, &ms));
    assert_eq!(line_segments(line, 1, &ms), vec![seg(0, 8, false), seg(8, 16, true), seg(16, 17, false)]);
}

#[test]
fn segments_inside_a_multi_line_match() {
    let line = "    body();";
    let ms = vec![span(1, 4, 3, 1)];
    assert_eq!(line_segments(line, 2, &ms), vec![seg(0, 11, true)]);
    assert_eq!(line_segments(line, 1, &ms), vec![seg(0, 4, false), seg(4, 11, true)]);
    assert_eq!(line_segments(line, 3, &ms), vec![seg(0, 1, true), seg(1, 11, false)]);
    assert_eq!(line_segments(line, 4, &ms), vec![seg(0, 11, false)]);
}

#[test]
fn segments_when_the_match_end_is_past_the_line() {
    let line = "abc";
    let ms = vec![span(1, 1, 1, 9)];
    assert!(line_cuts_ok(line, 1, &ms));
    assert_eq!(line_segments(line, 1, &ms), vec![seg(0, 1, false), seg(1, 3, false)]);
}

#[test]
fn cuts_outside_the_line_or_inside_a_character_are_refused() {
    assert!(!line_cuts_ok("abc", 1, &[span(1, 5, 1, 6)]));
    assert!(!line_cuts_ok("é", 1, &[span(1, 1, 1, 2)]));
    assert!(line_cuts_ok("é", 1, &[span(1, 0, 1, 2)]));
}

#[test]
fn ast_line_parts_with_position_flush_right() {
    let node = AstNode {
        id: 4,
        depth: 1,
        kind: "identifier".to_string(),
        is_named: true,
        is_error: false,
        field_name: Some("name".to_string()),
        start_line: 3,
        start_col: 4,
        end_line: 3,
        end_col: 7,
        text_preview: Some("foo".to_string()),
        has_children: false,
        parent_id: Some(0),
    };
    let parts = ast_node_line(&node, true, false, 40);
    let got: Vec<(String, PartKind)> = parts.into_iter().map(|p| (p.text, p.kind)).collect();
    let want: Vec<(String, PartKind)> = vec![
        ("  ".to_string(), PartKind::Indent),
        ("  ".to_string(), PartKind::Leaf),
        ("name: ".to_string(), PartKind::Field),
        ("identifier".to_string(), PartKind::NamedKind),
        (" ●".to_string(), PartKind::MatchMark),
        (" \"foo\"".to_string(), PartKind::Preview),
        ("       ".to_string(), PartKind::Padding),
        ("[3:4]".to_string(), PartKind::Position),
    ];
    assert_eq!(got, want);
    let narrow = ast_node_line(&node, false, false, 20);
    assert_eq!(narrow.len(), 5);
    assert_eq!(narrow[4].kind, PartKind::Preview);
}

#[test]
fn ast_line_marks_collapsed_branches_and_errors() {
    let node = AstNode {
        id: 0,
        depth: 0,
        kind: "ERROR".to_string(),
        is_named: true,
        is_error: true,
        field_name: None,
        start_line: 1,
        start_col: 0,
        end_line: 2,
        end_col: 0,
        text_preview: None,
        has_children: true,
        parent_id: None,
    };
    let parts = ast_node_line(&node, false, true, 0);
    assert_eq!(parts.len(), 3);
    assert_eq!(parts[0].text, "");
    assert_eq!(parts[1].text, "▶ ");
    assert_eq!(parts[1].kind, PartKind::Branch);
    assert_eq!(parts[2].kind, PartKind::ErrorKind);
}

#[test]
fn push_spaces_appends_blanks() {
    let mut s = "ab".to_string();
    push_spaces(&mut s, 3);
    assert_eq!(s, "ab   ");
}

#[test]
fn highlighted_line_cuts_around_one_range() {
    let line = "fn hello()";
    assert_eq!(highlighted_line(line, None), vec![seg(0, 10, false)]);
    assert_eq!(highlighted_line(line, Some((3, 8))), vec![seg(0, 3, false), seg(3, 8, true), seg(8, 10, false)]);
    assert_eq!(highlighted_line(line, Some((5, 5))), vec![seg(0, 10, false)]);
    assert_eq!(highlighted_line(line, Some((5, 11))), vec![seg(0, 10, false)]);
    assert_eq!(highlighted_line("é!", Some((1, 3))), vec![seg(0, 3, false)]);
}

#[test]
fn leaf_preview_cuts_long_text() {
    assert_eq!(leaf_preview("short"), "short");
    let forty = "a".repeat(40);
    assert_eq!(leaf_preview(&forty), forty);
    let long = format!("{}bcd", "é".repeat(40));
    assert_eq!(leaf_preview(&long), format!("{}…", "é".repeat(40)));
}
