use dora::paths::path_file_name;
use dora::tui::{
    is_terminal_too_small, node_matches_capture, nodes_acyclic, AppEvent, AppState, AstNode, FileTreeEntry, Key,
    PaneId, SearchCommand,
};
use dora::types::{Language, MatchResult};
use dora::view::{
    file_pane_hint, file_pane_title, file_tree_line, line_segments, query_line, spinner_char, visible_rows, Segment,
};

fn mr(path: &str, line: usize, cap: &str, text: &str) -> MatchResult {
    MatchResult {
        file_path: path.to_string(),
        start_line: line,
        start_col: 0,
        end_line: line,
        end_col: 1,
        start_byte: 0,
        end_byte: 0,
        capture_name: cap.to_string(),
        matched_text: text.to_string(),
    }
}

fn entry(path: &str) -> FileTreeEntry {
    FileTreeEntry { path: path.to_string(), match_count: 1 }
}

fn node(id: usize, parent: Option<usize>, has_children: bool) -> AstNode {
    AstNode {
        id,
        depth: 0,
        kind: "n".to_string(),
        is_named: true,
        is_error: false,
        field_name: None,
        start_line: 1,
        start_col: 0,
        end_line: 1,
        end_col: 0,
        text_preview: None,
        has_children,
        parent_id: parent,
    }
}

fn key(s: &mut AppState, k: Key) -> Option<SearchCommand> {
    s.handle_event(AppEvent::Keystroke(k), 1_000)
}

#[test]
fn test_app_state_new_defaults() {
    let s = AppState::new();
    assert!(s.query_input.is_empty());
    assert!(s.results.is_empty());
    assert_eq!(s.selected_index, 0);
    assert!(!s.should_quit);
    assert!(!s.search_running);
    assert!(s.error_message.is_none());
}

#[test]
fn test_append_results_sorts_and_deduplicates() {
    let mut s = AppState::new();
    let a = mr("src/b.rs", 2, "c", "x");
    let b = mr("src/a.rs", 1, "c", "y");
    let c = mr("src/a.rs", 3, "c", "z");
    s.append_results(vec![a.clone(), b.clone(), c.clone()]);
    assert_eq!(s.results[0].file_path, "src/a.rs".to_string());
    assert_eq!(s.results.len(), 3);
    s.append_results(vec![b.clone(), b.clone()]);
    assert_eq!(s.results.len(), 3);
}

#[test]
fn test_clear_results_resets_state() {
    let mut s = AppState::new();
    s.append_results(vec![mr("src/x.rs", 1, "c", "m")]);
    s.clear_results();
    assert!(s.results.is_empty());
    assert_eq!(s.selected_index, 0);
    assert!(s.file_tree.is_empty());
}

#[test]
fn test_select_next_wraps() {
    let mut s = AppState::new();
    s.file_tree = vec![entry("a"), entry("b"), entry("c")];
    s.selected_file_index = 2;
    s.select_next();
    assert_eq!(s.selected_file_index, 0);
}

#[test]
fn test_select_prev_wraps() {
    let mut s = AppState::new();
    s.file_tree = vec![entry("a"), entry("b"), entry("c")];
    s.selected_file_index = 0;
    s.select_prev();
    assert_eq!(s.selected_file_index, 2);
}

#[test]
fn test_scroll_up_saturates_at_zero() {
    let mut s = AppState::new();
    s.scroll_offset = 0;
    s.scroll_up();
    assert_eq!(s.scroll_offset, 0);
}

#[test]
fn test_results_for_selected_file_empty_when_no_results() {
    let s = AppState::new();
    assert!(s.results_for_selected_file().is_empty());
}

#[test]
fn test_rebuild_file_tree_groups_by_path() {
    let mut s = AppState::new();
    s.append_results(vec![
        mr("src/a.rs", 1, "c", "t"),
        mr("src/a.rs", 2, "c", "u"),
        mr("src/a.rs", 3, "c", "v"),
        mr("src/b.rs", 2, "c", "u"),
    ]);
    assert_eq!(s.file_tree.len(), 2);
    let e = s.file_tree.iter().find(|e| e.path.ends_with("a.rs")).unwrap();
    assert_eq!(e.match_count, 3);
}

#[test]
fn test_file_tree_entry_sorted_by_path() {
    let mut s = AppState::new();
    s.append_results(vec![mr("src/z.rs", 1, "c", "t"), mr("src/a.rs", 1, "c", "t")]);
    assert!(s.file_tree[0].path.ends_with("a.rs"));
}

#[test]
fn test_debounce_deadline_set_on_char_keystroke() {
    let mut s = AppState::new();
    key(&mut s, Key::Char('a'));
    assert!(s.debounce_deadline.is_some());
}

#[test]
fn test_debounce_deadline_cleared_on_enter() {
    let mut s = AppState::new();
    s.debounce_deadline = Some(10_000);
    key(&mut s, Key::Enter);
    assert!(s.debounce_deadline.is_none());
}

#[test]
fn test_debounce_prevents_duplicate_dispatch() {
    let mut s = AppState::new();
    s.query_input = "foo".to_string();
    s.submitted_query = Some("foo".to_string());
    s.debounce_deadline = Some(0);
    let cmd = s.on_debounce_elapsed();
    assert!(cmd.is_none());
    assert!(s.debounce_deadline.is_none());
    assert_eq!(s.submitted_query.as_deref().unwrap(), "foo");
}

#[test]
fn test_search_started_clears_results() {
    let mut s = AppState::new();
    s.append_results(vec![mr("x", 1, "c", "m")]);
    assert!(!s.results.is_empty());
    s.handle_event(AppEvent::SearchStarted, 0);
    assert!(s.results.is_empty());
    assert!(s.search_running);
}

#[test]
fn test_search_complete_sets_running_false() {
    let mut s = AppState::new();
    s.search_running = true;
    s.handle_event(AppEvent::SearchComplete, 0);
    assert!(!s.search_running);
}

#[test]
fn test_append_results_incremental() {
    let mut s = AppState::new();
    s.append_results(vec![mr("a", 1, "c", "x")]);
    s.append_results(vec![mr("b", 2, "c", "y")]);
    s.append_results(vec![mr("c", 3, "c", "z")]);
    assert_eq!(s.results.len(), 3);
}

#[test]
fn test_debounce_deadline_resets_on_each_keystroke() {
    let mut s = AppState::new();
    s.handle_event(AppEvent::Keystroke(Key::Char('a')), 100);
    let old = s.debounce_deadline.unwrap();
    s.handle_event(AppEvent::Keystroke(Key::Char('b')), 150);
    let new = s.debounce_deadline.unwrap();
    assert!(new > old);
}

#[test]
fn test_file_tree_entry_display_format() {
    let entry = FileTreeEntry { path: "src/auth/handler.rs".to_string(), match_count: 3 };
    let filename = path_file_name(&entry.path).unwrap_or_default();
    assert_eq!(filename, "handler.rs");
    assert_eq!(file_tree_line(&entry.path, entry.match_count, 20), " handler.rs       3");
}

#[test]
fn test_spinner_cycles() {
    for frame_count in 0u64..10 {
        let spinner_chars = ['⠋', '⠙', '⠹', '⠸', '⠼', '⠴', '⠦', '⠧', '⠇', '⠏'];
        let spinner_index = (frame_count as usize) % 10;
        let _ = spinner_chars[spinner_index];
        assert!(spinner_index < 10);
        assert_eq!(spinner_char(frame_count), spinner_chars[spinner_index]);
        assert_eq!(spinner_char(frame_count + 10), spinner_chars[spinner_index]);
    }
}

#[test]
fn test_cursor_blink_logic() {
    for frame_count in 0u64..8 {
        let should_show = frame_count % 8 < 4;
        if frame_count < 4 {
            assert!(should_show);
        } else {
            assert!(!should_show);
        }
    }
    let should_show_at_8 = 8u64 % 8 < 4;
    assert!(should_show_at_8);
    let mut s = AppState::new();
    s.query_input = "fn".to_string();
    for frame_count in 0u64..9 {
        s.frame_count = frame_count;
        let expected = if frame_count % 8 < 4 { "fn|" } else { "fn " };
        assert_eq!(query_line(&s), expected);
    }
}

#[test]
fn test_selected_file_full_path_truncation() {
    let path_str = "/very/long/path/to/some/deeply/nested/file.rs";
    let pane_width = 20usize;
    let truncated = if path_str.len() > pane_width.saturating_sub(4) {
        let chars: Vec<char> = path_str.chars().collect();
        let start = chars.len().saturating_sub(pane_width.saturating_sub(5));
        let truncated: String = chars[start..].iter().collect();
        format!("…{}", truncated)
    } else {
        path_str.to_string()
    };
    assert!(truncated.starts_with('…'));
    assert!(truncated.len() <= pane_width);
    let mut s = AppState::new();
    s.file_tree.push(FileTreeEntry { path: path_str.to_string(), match_count: 1 });
    let title = file_pane_title(&s, pane_width);
    assert_eq!(title, truncated);
    assert_eq!(title, "…/nested/file.rs");
}

#[test]
fn test_empty_file_tree_hint_when_no_query() {
    let s = AppState::new();
    assert!(s.submitted_query.is_none());
    assert!(s.file_tree.is_empty());
    assert_eq!(file_pane_hint(s.search_running, s.submitted_query.is_some()), "Type a query to search");
}

#[test]
fn test_file_tree_hint_when_searching() {
    let mut s = AppState::new();
    s.search_running = true;
    s.file_tree.clear();
    assert!(s.search_running);
    assert!(s.file_tree.is_empty());
    assert_eq!(file_pane_hint(s.search_running, s.submitted_query.is_some()), "Searching...");
}

#[test]
fn test_auto_scroll_centers_on_first_match() {
    let mut s = AppState::new();
    s.file_tree.push(entry("test.rs"));
    s.results.push(mr("test.rs", 50, "test", "fn"));
    s.selected_file_index = 0;
    s.auto_scroll_to_first_match();
    assert!(s.scroll_offset >= 20);
    assert!(s.scroll_offset <= 40);
    assert_eq!(s.scroll_offset, 34);
}

#[test]
fn test_auto_scroll_does_not_fire_twice() {
    let mut s = AppState::new();
    s.file_tree.push(entry("test.rs"));
    s.results.push(mr("test.rs", 50, "test", "fn"));
    s.selected_file_index = 0;
    s.auto_scroll_to_first_match();
    let offset_after_first = s.scroll_offset;
    s.scroll_offset = 3;
    s.auto_scroll_to_first_match();
    assert_eq!(s.scroll_offset, 3);
    assert_eq!(offset_after_first, 34);
}

#[test]
fn test_auto_scroll_resets_on_file_change() {
    let mut s = AppState::new();
    s.file_tree.push(entry("a.rs"));
    s.file_tree.push(entry("b.rs"));
    s.auto_scrolled_for = Some("a.rs".to_string());
    s.selected_file_index = 0;
    assert!(s.auto_scrolled_for == Some("a.rs".to_string()));
    s.select_next();
    assert_eq!(s.auto_scrolled_for, Some("b.rs".to_string()));
}

#[test]
fn test_pane_id_tab_cycles() {
    let mut s = AppState::new();
    assert!(matches!(s.active_pane, PaneId::FileTree));
    key(&mut s, Key::Tab);
    assert!(matches!(s.active_pane, PaneId::CodeView));
    key(&mut s, Key::Tab);
    assert!(matches!(s.active_pane, PaneId::AstView));
    key(&mut s, Key::Tab);
    assert!(matches!(s.active_pane, PaneId::FileTree));
}

#[test]
fn test_jk_scrolls_code_when_code_pane_active() {
    let mut s = AppState::new();
    s.active_pane = PaneId::CodeView;
    s.scroll_offset = 5;
    key(&mut s, Key::Char('j'));
    assert_eq!(s.scroll_offset, 6);
    key(&mut s, Key::Char('k'));
    assert_eq!(s.scroll_offset, 5);
}

#[test]
fn test_jk_navigates_files_when_file_tree_active() {
    let mut s = AppState::new();
    s.active_pane = PaneId::FileTree;
    s.file_tree.push(entry("a.rs"));
    s.file_tree.push(entry("b.rs"));
    s.selected_file_index = 0;
    s.select_next();
    assert_eq!(s.selected_file_index, 1);
}

#[test]
fn test_scroll_offset_clamp_does_not_mutate_state() {
    let scroll_offset = 1000usize;
    let visible_height = 30usize;
    let total_lines = 50usize;
    let max_scroll = total_lines.saturating_sub(visible_height);
    let effective_offset = scroll_offset.min(max_scroll);
    assert_eq!(effective_offset, 20);
    assert_eq!(scroll_offset, 1000);
    assert_eq!(visible_rows(scroll_offset, total_lines, visible_height), (20, 50));
}

#[test]
fn test_match_on_line_produces_reversed_segment() {
    let line_text = "fn hello()";
    let start_col = 0;
    let end_col = 2;
    let match_segment = &line_text[start_col..end_col];
    assert_eq!(match_segment, "fn");
    let m = MatchResult {
        file_path: "a.rs".to_string(),
        start_line: 1,
        start_col,
        end_line: 1,
        end_col,
        start_byte: 0,
        end_byte: 2,
        capture_name: "kw".to_string(),
        matched_text: "fn".to_string(),
    };
    let pieces = line_segments(line_text, 1, &[m]);
    assert_eq!(pieces[0], Segment { start: 0, end: 2, highlighted: true });
    assert_eq!(&line_text[pieces[0].start..pieces[0].end], "fn");
    assert_eq!(pieces[1], Segment { start: 2, end: 10, highlighted: false });
}

#[test]
fn test_submit_query_updates_submitted_query() {
    let mut s = AppState::new();
    s.query_input = "fn greet".to_string();
    let cmd = key(&mut s, Key::Enter);
    assert_eq!(s.submitted_query, Some("fn greet".to_string()));
    assert_eq!(cmd, Some(SearchCommand::Run("fn greet".to_string())));
}

#[test]
fn test_search_result_event_updates_results() {
    let mut s = AppState::new();
    s.handle_event(AppEvent::SearchResult(vec![mr("a", 1, "c", "x"), mr("b", 2, "c", "y")]), 0);
    assert_eq!(s.results.len(), 2);
}

#[test]
fn test_search_complete_clears_running_flag() {
    let mut s = AppState::new();
    s.search_running = true;
    s.handle_event(AppEvent::SearchComplete, 0);
    assert!(!s.search_running);
}

#[test]
fn test_search_started_clears_results_and_sets_running() {
    let mut s = AppState::new();
    s.results.push(mr("x", 1, "c", "m"));
    s.handle_event(AppEvent::SearchStarted, 0);
    assert!(s.results.is_empty());
    assert!(s.search_running);
}

#[test]
fn test_search_error_sets_error_message() {
    let mut s = AppState::new();
    s.handle_event(AppEvent::SearchError("parse failed".to_string()), 0);
    assert_eq!(s.error_message, Some("parse failed".to_string()));
    assert!(!s.search_running);
}

#[test]
fn test_selecting_result_updates_index() {
    let mut s = AppState::new();
    s.file_tree = vec![entry("a"), entry("b"), entry("c")];
    s.selected_file_index = 0;
    key(&mut s, Key::Down);
    assert_eq!(s.selected_file_index, 1);
}

#[test]
fn test_j_key_same_as_down_in_file_tree() {
    let mut s = AppState::new();
    s.file_tree = vec![entry("a"), entry("b"), entry("c")];
    s.selected_file_index = 0;
    key(&mut s, Key::Char('j'));
    assert_eq!(s.selected_file_index, 1);
}

#[test]
fn test_k_key_moves_selection_up() {
    let mut s = AppState::new();
    s.file_tree = vec![entry("a"), entry("b"), entry("c")];
    s.selected_file_index = 2;
    key(&mut s, Key::Char('k'));
    assert_eq!(s.selected_file_index, 1);
}

#[test]
fn test_quit_sets_should_quit() {
    let mut s = AppState::new();
    key(&mut s, Key::Char('q'));
    assert!(s.should_quit);
}

#[test]
fn test_esc_sets_should_quit() {
    let mut s = AppState::new();
    key(&mut s, Key::Esc);
    assert!(s.should_quit);
}

#[test]
fn test_resize_updates_terminal_dimensions() {
    let mut s = AppState::new();
    s.terminal_width = 80;
    s.terminal_height = 24;
    s.handle_event(AppEvent::Resize(120, 40), 0);
    assert_eq!(s.terminal_width, 120);
    assert_eq!(s.terminal_height, 40);
}

#[test]
fn test_resize_sets_force_redraw() {
    let mut s = AppState::new();
    s.force_redraw = false;
    s.handle_event(AppEvent::Resize(100, 30), 0);
    assert!(s.force_redraw);
}

#[test]
fn test_tab_cycles_panes() {
    let mut s = AppState::new();
    s.active_pane = PaneId::FileTree;
    key(&mut s, Key::Tab);
    assert!(matches!(s.active_pane, PaneId::CodeView));
    key(&mut s, Key::Tab);
    assert!(matches!(s.active_pane, PaneId::AstView));
    key(&mut s, Key::Tab);
    assert!(matches!(s.active_pane, PaneId::FileTree));
}

#[test]
fn test_char_appended_to_query_input() {
    let mut s = AppState::new();
    s.query_input = "fn".to_string();
    key(&mut s, Key::Char(' '));
    assert_eq!(s.query_input, "fn ".to_string());
}

#[test]
fn test_backspace_removes_last_char() {
    let mut s = AppState::new();
    s.query_input = "fn ".to_string();
    key(&mut s, Key::Backspace);
    assert_eq!(s.query_input, "fn".to_string());
}

#[test]
fn test_backspace_on_empty_query_does_not_panic() {
    let mut s = AppState::new();
    s.query_input = "".to_string();
    key(&mut s, Key::Backspace);
    assert_eq!(s.query_input, "".to_string());
}

#[test]
fn test_char_keystroke_clears_error_message() {
    let mut s = AppState::new();
    s.error_message = Some("previous error".to_string());
    key(&mut s, Key::Char('x'));
    assert!(s.error_message.is_none());
}

#[test]
fn test_ast_ready_populates_ast_nodes() {
    let mut s = AppState::new();
    let mut n = node(0, None, false);
    n.kind = "source_file".to_string();
    s.handle_event(AppEvent::AstReady(vec![n]), 0);
    assert_eq!(s.ast_nodes.len(), 1);
    assert_eq!(s.ast_selected_index, 0);
    assert!(s.collapsed_node_ids.is_empty());
}

#[test]
fn test_enter_in_ast_pane_toggles_collapse() {
    let mut s = AppState::new();
    s.active_pane = PaneId::AstView;
    s.ast_nodes.push(node(0, None, true));
    s.ast_selected_index = 0;
    key(&mut s, Key::Enter);
    assert!(s.collapsed_node_ids.contains(&0));
    key(&mut s, Key::Enter);
    assert!(!s.collapsed_node_ids.contains(&0));
}

#[test]
fn test_debounce_deadline_set_on_char_in_filetree_pane() {
    let mut s = AppState::new();
    s.active_pane = PaneId::FileTree;
    s.debounce_deadline = None;
    key(&mut s, Key::Char('f'));
    assert!(s.debounce_deadline.is_some());
}

#[test]
fn test_pane_resize_grow_shrinks_neighbor() {
    let mut s = AppState::new();
    s.file_tree_pct = 25;
    s.code_view_pct = 50;
    s.ast_view_pct = 25;
    s.active_pane = PaneId::FileTree;
    s.adjust_pane_size(5);
    assert_eq!(s.file_tree_pct, 30);
    assert_eq!(s.file_tree_pct + s.code_view_pct + s.ast_view_pct, 100);
}

#[test]
fn test_pane_resize_respects_minimum() {
    let mut s = AppState::new();
    s.file_tree_pct = 10;
    s.active_pane = PaneId::FileTree;
    s.adjust_pane_size(-5);
    assert_eq!(s.file_tree_pct, 10);
}

#[test]
fn test_minimum_terminal_guard_condition() {
    assert!(is_terminal_too_small(39, 10));
    assert!(!is_terminal_too_small(40, 10));
}

#[test]
fn debounce_sends_a_new_query_once() {
    let mut s = AppState::new();
    key(&mut s, Key::Char('f'));
    key(&mut s, Key::Char('n'));
    assert_eq!(s.on_debounce_elapsed(), Some(SearchCommand::Run("fn".to_string())));
    assert_eq!(s.submitted_query, Some("fn".to_string()));
    assert_eq!(s.on_debounce_elapsed(), None);
}

#[test]
fn collapsed_node_hides_its_descendants() {
    let mut s = AppState::new();
    s.ast_nodes = vec![node(0, None, true), node(1, Some(0), true), node(2, Some(1), false), node(3, Some(0), false)];
    assert_eq!(s.visible_ast_nodes(), vec![0, 1, 2, 3]);
    s.toggle_collapsed(1);
    assert_eq!(s.visible_ast_nodes(), vec![0, 1, 3]);
    s.toggle_collapsed(0);
    assert_eq!(s.visible_ast_nodes(), vec![0]);
}

#[test]
fn ast_pane_navigation_keys() {
    let mut s = AppState::new();
    s.active_pane = PaneId::AstView;
    s.ast_nodes = (0..40).map(|i| node(i, if i == 0 { None } else { Some(0) }, i == 0)).collect();
    key(&mut s, Key::Char('G'));
    assert_eq!(s.ast_selected_index, 39);
    assert_eq!(s.ast_scroll_offset, 38);
    key(&mut s, Key::Char('g'));
    assert_eq!(s.ast_selected_index, 0);
    assert_eq!(s.ast_scroll_offset, 0);
    for _ in 0..29 {
        key(&mut s, Key::Down);
    }
    assert_eq!(s.ast_selected_index, 29);
    assert_eq!(s.ast_scroll_offset, 2);
}

#[test]
fn pane_resize_keys() {
    let mut s = AppState::new();
    key(&mut s, Key::Char('>'));
    assert_eq!((s.file_tree_pct, s.code_view_pct, s.ast_view_pct), (30, 45, 25));
    s.active_pane = PaneId::AstView;
    key(&mut s, Key::Char('<'));
    assert_eq!((s.file_tree_pct, s.code_view_pct, s.ast_view_pct), (35, 45, 20));
    assert!(s.query_input.is_empty());
}

#[test]
fn page_keys_scroll_by_ten() {
    let mut s = AppState::new();
    key(&mut s, Key::PageDown);
    assert_eq!(s.scroll_offset, 10);
    key(&mut s, Key::PageUp);
    key(&mut s, Key::PageUp);
    assert_eq!(s.scroll_offset, 0);
}

#[test]
fn blank_query_is_not_sent() {
    let mut s = AppState::new();
    s.query_input = " \t".to_string();
    assert_eq!(key(&mut s, Key::Enter), None);
    assert!(s.submitted_query.is_none());
}

#[test]
fn after_event_asks_for_the_selected_files_tree_once() {
    let mut s = AppState::new();
    s.append_results(vec![mr("src/a.rs", 40, "c", "x")]);
    let job = s.after_event();
    assert_eq!(job, Some(("src/a.rs".to_string(), Language::Rust)));
    assert_eq!(s.scroll_offset, 24);
    assert_eq!(s.after_event(), None);
}

#[test]
fn node_capture_marker() {
    let mut n = node(0, None, false);
    n.start_line = 4;
    n.start_col = 2;
    let mut r = mr("a", 4, "c", "x");
    r.start_col = 2;
    assert!(node_matches_capture(&n, &[r.clone()]));
    r.start_col = 3;
    assert!(!node_matches_capture(&n, &[r]));
}

#[test]
fn test_nodes_acyclic_accepts_parents_first() {
    let nodes = vec![node(0, None, true), node(1, Some(0), true), node(2, Some(1), false), node(3, Some(0), false)];
    assert!(nodes_acyclic(&nodes));
    assert!(nodes_acyclic(&[]));
}

#[test]
fn test_nodes_acyclic_rejects_forward_parent() {
    let nodes = vec![node(0, None, true), node(1, Some(2), false), node(2, Some(0), false)];
    assert!(!nodes_acyclic(&nodes));
    let self_parent = vec![node(0, Some(0), false)];
    assert!(!nodes_acyclic(&self_parent));
}
