//! The state of the interactive browser and how it answers events.
//!
//! The terminal, the key stream, the timers, the background searches and
//! the reading of source files run outside the library. They hand each event
//! to `handle_event`, carry out the command it returns, and ask
//! `on_debounce_elapsed` and `after_event` what to do next.

use crate::order::{insert_sorted, key_lt, lemma_text_lt_transitive, strictly_sorted, path_lt, ResultView};
use crate::parser::{detect_language, spec_detect_language};
use crate::query::{result_view, results_view};
use crate::text::{push_char, push_str, str_eq};
use vstd::slice::slice_subrange;
use crate::types::{Language, MatchResult};
use vstd::prelude::*;

verus! {

/// How many lines the code and syntax panes are assumed to show.
pub const ASSUMED_PANE_HEIGHT: usize = 30;

/// Milliseconds between the last keystroke and an automatic search.
pub const DEBOUNCE_MILLIS: u64 = 300;

/// The three panes of the browser.
#[derive(Debug, Clone, Copy, PartialEq, Eq, Structural)]
pub enum PaneId {
    /// The list of files with matches.
    FileTree,
    /// The source of the selected file.
    CodeView,
    /// The syntax tree of the selected file.
    AstView,
}

/// One node of the syntax tree shown for the selected file.
#[derive(Debug, Clone)]
pub struct AstNode {
    /// Position of the node in the pre-order listing.
    pub id: usize,
    /// Depth below the root.
    pub depth: usize,
    /// Node kind.
    pub kind: String,
    /// Whether the node is named.
    pub is_named: bool,
    /// Whether the node is an error node.
    pub is_error: bool,
    /// Field name under which the node hangs from its parent.
    pub field_name: Option<String>,
    /// 1-based start line.
    pub start_line: usize,
    /// Start column.
    pub start_col: usize,
    /// 1-based end line.
    pub end_line: usize,
    /// End column.
    pub end_col: usize,
    /// Text of a leaf node, shortened.
    pub text_preview: Option<String>,
    /// Whether the node has children.
    pub has_children: bool,
    /// Id of the parent node.
    pub parent_id: Option<usize>,
}

/// A file with matches and how many it has.
#[derive(Debug, Clone)]
pub struct FileTreeEntry {
    /// Path of the file.
    pub path: String,
    /// Number of matches in the file.
    pub match_count: usize,
}

/// A key the browser reacts to.
#[derive(Debug, Clone, Copy, PartialEq, Eq, Structural)]
pub enum Key {
    /// A character key.
    Char(char),
    /// Tab.
    Tab,
    /// Arrow down.
    Down,
    /// Arrow up.
    Up,
    /// Page down.
    PageDown,
    /// Page up.
    PageUp,
    /// Enter.
    Enter,
    /// Backspace.
    Backspace,
    /// Escape.
    Esc,
    /// Any other key.
    Other,
}

/// An event of the browser's loop.
#[derive(Debug, Clone)]
pub enum AppEvent {
    /// A key was pressed.
    Keystroke(Key),
    /// The periodic tick.
    Tick,
    /// The terminal was resized to this width and height.
    Resize(u16, u16),
    /// A search began.
    SearchStarted,
    /// A search found these results.
    SearchResult(Vec<MatchResult>),
    /// The syntax tree of the selected file is ready.
    AstReady(Vec<AstNode>),
    /// A search finished.
    SearchComplete,
    /// A search reported an error.
    SearchError(String),
}

/// A command for the background searcher.
#[derive(Debug, Clone, PartialEq, Eq)]
pub enum SearchCommand {
    /// Run a search for this query.
    Run(String),
    /// Cancel the running search.
    Cancel,
}

/// The browser's state.
pub struct AppState {
    /// The query being typed.
    pub query_input: String,
    /// The last query sent to the searcher.
    pub submitted_query: Option<String>,
    /// The results so far, in increasing order, each once.
    pub results: Vec<MatchResult>,
    /// Index of the selected result.
    pub selected_index: usize,
    /// The files with results, by path.
    pub file_tree: Vec<FileTreeEntry>,
    /// Index of the selected file.
    pub selected_file_index: usize,
    /// First line shown in the code pane.
    pub scroll_offset: usize,
    /// First node shown in the syntax pane.
    pub ast_scroll_offset: usize,
    /// When an automatic search is due, in milliseconds of the loop's clock.
    pub debounce_deadline: Option<u64>,
    /// Whether a search is running.
    pub search_running: bool,
    /// The last error reported by a search.
    pub error_message: Option<String>,
    /// Whether the browser should close.
    pub should_quit: bool,
    /// Number of frames drawn.
    pub frame_count: u64,
    /// The file the code pane was last scrolled for.
    pub auto_scrolled_for: Option<String>,
    /// The pane that has the focus.
    pub active_pane: PaneId,
    /// The syntax tree of the selected file, in pre-order.
    pub ast_nodes: Vec<AstNode>,
    /// Index of the selected node among the visible ones.
    pub ast_selected_index: usize,
    /// Ids of the collapsed nodes.
    pub collapsed_node_ids: Vec<usize>,
    /// The file whose syntax tree is shown or being parsed.
    pub ast_parsing_for: Option<String>,
    /// Terminal width.
    pub terminal_width: u16,
    /// Terminal height.
    pub terminal_height: u16,
    /// Whether the next frame clears the terminal first.
    pub force_redraw: bool,
    /// Width of the file pane, in percent.
    pub file_tree_pct: u16,
    /// Width of the code pane, in percent.
    pub code_view_pct: u16,
    /// Width of the syntax pane, in percent.
    pub ast_view_pct: u16,
}

/// Whether every node's parent comes before it.
pub open spec fn ast_acyclic(nodes: Seq<AstNode>) -> bool {
    forall|k: int| 0 <= k < nodes.len() ==> match (#[trigger] nodes[k]).parent_id {
        Some(p) => p < k,
        None => true,
    }
}

/// The files of a sorted list of results: each path once, in order, with the
/// number of results that have it.
pub open spec fn path_runs(v: Seq<ResultView>) -> Seq<(Seq<char>, int)>
    decreases v.len(),
{
    if v.len() == 0 {
        Seq::empty()
    } else {
        let g = path_runs(v.drop_last());
        let p = v.last().0;
        if g.len() > 0 && g.last().0 == p {
            g.update(g.len() - 1, (p, g.last().1 + 1))
        } else {
            g.push((p, 1))
        }
    }
}

/// The entries of a file tree as plain values.
pub open spec fn tree_view(t: Seq<FileTreeEntry>) -> Seq<(Seq<char>, int)> {
    Seq::new(t.len(), |i: int| (t[i].path@, t[i].match_count as int))
}

/// The position of the first result in `path`.
pub open spec fn first_in_path(v: Seq<ResultView>, path: Seq<char>) -> Option<int>
    decreases v.len(),
{
    if v.len() == 0 {
        None
    } else {
        match first_in_path(v.drop_last(), path) {
            Some(k) => Some(k),
            None => if v.last().0 == path {
                Some(v.len() - 1)
            } else {
                None
            },
        }
    }
}

/// The position of the last result in `path`.
pub open spec fn last_in_path(v: Seq<ResultView>, path: Seq<char>) -> Option<int>
    decreases v.len(),
{
    if v.len() == 0 {
        None
    } else if v.last().0 == path {
        Some(v.len() - 1)
    } else {
        last_in_path(v.drop_last(), path)
    }
}

/// Whether node `q`, or a node above it, is collapsed (following parents
/// that come before their children).
pub open spec fn collapsed_above(nodes: Seq<AstNode>, collapsed: Set<usize>, q: int) -> bool
    decreases q,
{
    if q < 0 {
        false
    } else if collapsed.contains(q as usize) {
        true
    } else if q < nodes.len() {
        match nodes[q].parent_id {
            Some(r) => if (r as int) < q {
                collapsed_above(nodes, collapsed, r as int)
            } else {
                false
            },
            None => false,
        }
    } else {
        false
    }
}

/// Whether node `k` is shown: no node above it is collapsed.
pub open spec fn node_visible(nodes: Seq<AstNode>, collapsed: Set<usize>, k: int) -> bool {
    match nodes[k].parent_id {
        None => true,
        Some(p) => !collapsed_above(nodes, collapsed, p as int),
    }
}

/// The positions of the shown nodes, in order.
pub open spec fn visible_positions(nodes: Seq<AstNode>, collapsed: Set<usize>, n: int) -> Seq<usize>
    decreases n,
{
    if n <= 0 {
        Seq::empty()
    } else {
        let prev = visible_positions(nodes, collapsed, n - 1);
        if node_visible(nodes, collapsed, n - 1) {
            prev.push((n - 1) as usize)
        } else {
            prev
        }
    }
}

/// The file selected after moving down from `i` among `n` files.
pub open spec fn next_file_index(i: int, n: int) -> int {
    (i + 1) % n
}

/// The file selected after moving up from `i` among `n` files.
pub open spec fn prev_file_index(i: int, n: int) -> int {
    if i == 0 {
        n - 1
    } else {
        i - 1
    }
}

/// The widths of the three panes, in percent.
pub open spec fn pane_pcts(st: AppState) -> Seq<int> {
    seq![st.file_tree_pct as int, st.code_view_pct as int, st.ast_view_pct as int]
}

/// The position of a pane among the three.
pub open spec fn pane_position(p: PaneId) -> int {
    match p {
        PaneId::FileTree => 0,
        PaneId::CodeView => 1,
        PaneId::AstView => 2,
    }
}

/// The pane widths after growing pane `active` by `delta` percent at the
/// expense of the pane after it (the first one after the last); unchanged
/// when either would leave 10..=80 percent.
pub open spec fn adjusted_pcts(pcts: Seq<int>, active: PaneId, delta: int) -> Seq<int> {
    let a = pane_position(active);
    let r = (a + 1) % 3;
    let na = pcts[a] + delta;
    let nr = pcts[r] - delta;
    if delta == 0 || na < 10 || na > 80 || nr < 10 || nr > 80 {
        pcts
    } else {
        pcts.update(a, na).update(r, nr)
    }
}

/// Moving down and then up through the file list comes back to the same
/// file.
pub proof fn law_next_then_prev(i: int, n: int)
    requires
        0 <= i < n,
    ensures
        prev_file_index(next_file_index(i, n), n) == i,
        next_file_index(prev_file_index(i, n), n) == i,
{
    if i + 1 < n {
        assert((i + 1) % n == i + 1) by (nonlinear_arith)
            requires
                0 <= i + 1 < n,
        ;
    } else {
        assert((i + 1) % n == 0) by (nonlinear_arith)
            requires
                i + 1 == n,
                n > 0,
        ;
    }
    if i == 0 {
        assert(n % n == 0) by (nonlinear_arith)
            requires
                n > 0,
        ;
    } else {
        assert(i % n == i) by (nonlinear_arith)
            requires
                0 <= i < n,
        ;
    }
}

/// Pressing Tab three times comes back to the same pane.
pub proof fn law_tab_cycles(p: PaneId)
    ensures
        next_pane(next_pane(next_pane(p))) == p,
{
}

/// Resizing a pane never changes the total width of the panes.
pub proof fn law_resize_keeps_total(pcts: Seq<int>, active: PaneId, delta: int)
    requires
        pcts.len() == 3,
    ensures
        adjusted_pcts(pcts, active, delta).len() == 3,
        adjusted_pcts(pcts, active, delta)[0] + adjusted_pcts(pcts, active, delta)[1] + adjusted_pcts(pcts, active, delta)[2]
            == pcts[0] + pcts[1] + pcts[2],
{
}

/// In sorted results, the file list names each file once, in increasing
/// order of path.
pub proof fn law_file_tree_paths_increase(v: Seq<ResultView>)
    requires
        strictly_sorted(v),
    ensures
        forall|a: int, b: int| 0 <= a < b < path_runs(v).len() ==> path_lt(path_runs(v)[a].0, path_runs(v)[b].0),
        path_runs(v).len() > 0 ==> path_runs(v).last().0 == v.last().0,
        forall|k: int| 0 <= k < path_runs(v).len() ==> exists|j: int| 0 <= j < v.len() && v[j].0 == #[trigger] path_runs(v)[k].0,
    decreases v.len(),
{
    if v.len() > 0 {
        let init = v.drop_last();
        assert(strictly_sorted(init)) by {
            assert forall|i: int, j: int| 0 <= i < j < init.len() implies key_lt(init[i], init[j]) by {
                assert(init[i] == v[i] && init[j] == v[j]);
            }
        }
        law_file_tree_paths_increase(init);
        let g = path_runs(init);
        let p = v.last().0;
        if g.len() > 0 {
            let q = g.last().0;
            assert(q == init.last().0);
            assert(key_lt(v[v.len() - 2], v[v.len() - 1]));
            if q != p {
                assert(path_lt(q, p));
                assert forall|a: int| 0 <= a < g.len() implies path_lt(#[trigger] g[a].0, p) by {
                    if a < g.len() - 1 {
                        assert(path_lt(g[a].0, g[g.len() - 1].0));
                        lemma_text_lt_transitive(g[a].0, q, p, true);
                    }
                }
            }
        }
        let r = path_runs(v);
        assert forall|k: int| 0 <= k < r.len() implies exists|j: int| 0 <= j < v.len() && v[j].0 == #[trigger] r[k].0 by {
            if k < g.len() && !(g.len() > 0 && g.last().0 == p && k == g.len() - 1) {
                assert(r[k] == g[k]);
                let j = choose|j: int| 0 <= j < init.len() && init[j].0 == g[k].0;
                assert(v[j] == init[j]);
            } else {
                assert(r[k].0 == p);
                assert(v[v.len() - 1].0 == p);
            }
        }
    }
}

/// Whether every node's parent comes before it, as the syntax pane needs of
/// a tree it is handed.
pub fn nodes_acyclic(nodes: &[AstNode]) -> (r: bool)
    ensures
        r == ast_acyclic(nodes@),
{
    let mut k: usize = 0;
    while k < nodes.len()
        invariant
            k <= nodes@.len(),
            forall|j: int| 0 <= j < k ==> match (#[trigger] nodes@[j]).parent_id {
                Some(p) => p < j,
                None => true,
            },
        decreases nodes@.len() - k,
    {
        match nodes[k].parent_id {
            Some(p) => {
                if p >= k {
                    assert(!ast_acyclic(nodes@)) by {
                        assert(match nodes@[k as int].parent_id {
                            Some(p) => p >= k,
                            None => false,
                        });
                    }
                    return false;
                }
            },
            None => {},
        }
        k = k + 1;
    }
    true
}

/// Whether the terminal is too small to draw the browser.
pub fn is_terminal_too_small(width: u16, height: u16) -> (r: bool)
    ensures
        r == (width < 40 || height < 10),
{
    width < 40 || height < 10
}

/// Whether one of the results starts where the node starts.
pub fn node_matches_capture(node: &AstNode, results: &[MatchResult]) -> (r: bool)
    ensures
        r == exists|i: int| 0 <= i < results@.len() && (#[trigger] results@[i]).start_line == node.start_line
            && results@[i].start_col == node.start_col,
{
    let mut k: usize = 0;
    while k < results.len()
        invariant
            k <= results@.len(),
            forall|i: int| 0 <= i < k ==> !((#[trigger] results@[i]).start_line == node.start_line
                && results@[i].start_col == node.start_col),
        decreases results@.len() - k,
    {
        if results[k].start_line == node.start_line && results[k].start_col == node.start_col {
            return true;
        }
        k = k + 1;
    }
    false
}

/// The scroll offset that puts `min_line` (1-based) near the middle of a pane
/// of `ASSUMED_PANE_HEIGHT` lines, or 0 when it is near the top.
pub open spec fn centered_offset(min_line: int) -> int {
    if min_line > 1 && min_line - 1 > 15 {
        min_line - 1 - 15
    } else {
        0
    }
}

/// The smallest start line among the results from `a` to `b` (inclusive).
pub open spec fn min_start_line(v: Seq<ResultView>, a: int, b: int) -> int
    decreases b - a,
{
    if b <= a {
        v[a].3
    } else {
        let m = min_start_line(v, a, b - 1);
        if v[b].3 < m {
            v[b].3
        } else {
            m
        }
    }
}

/// Characters that `char::is_whitespace` accepts (the Unicode White_Space
/// property).
pub open spec fn is_unicode_ws(c: char) -> bool {
    ('\u{9}' <= c && c <= '\u{d}') || c == ' ' || c == '\u{85}' || c == '\u{a0}' || c == '\u{1680}'
        || ('\u{2000}' <= c && c <= '\u{200a}') || c == '\u{2028}' || c == '\u{2029}' || c
        == '\u{202f}' || c == '\u{205f}' || c == '\u{3000}'
}

/// Whether the text is empty after trimming whitespace.
pub open spec fn blank(s: Seq<char>) -> bool {
    forall|i: int| 0 <= i < s.len() ==> is_unicode_ws(#[trigger] s[i])
}

/// Whether the text holds nothing but whitespace.
pub fn is_blank_text(s: &str) -> (r: bool)
    ensures
        r == blank(s@),
{
    let cs = crate::text::chars_of(s);
    let mut k: usize = 0;
    while k < cs.len()
        invariant
            k <= cs@.len(),
            cs@ == s@,
            forall|i: int| 0 <= i < k ==> is_unicode_ws(#[trigger] cs@[i]),
        decreases cs@.len() - k,
    {
        let c = cs[k];
        let ws = ('\u{9}' <= c && c <= '\u{d}') || c == ' ' || c == '\u{85}' || c == '\u{a0}' || c
            == '\u{1680}' || ('\u{2000}' <= c && c <= '\u{200a}') || c == '\u{2028}' || c
            == '\u{2029}' || c == '\u{202f}' || c == '\u{205f}' || c == '\u{3000}';
        if !ws {
            return false;
        }
        k = k + 1;
    }
    true
}

fn copy_string(s: &String) -> (r: String)
    ensures
        r@ == s@,
{
    let mut out = String::new();
    push_str(&mut out, s.as_str());
    assert(out@ =~= s@);
    out
}

/// Two states that differ at most in their file list.
pub open spec fn same_but_file_tree(a: AppState, b: AppState) -> bool {
    &&& a.query_input == b.query_input
    &&& a.submitted_query == b.submitted_query
    &&& a.results == b.results
    &&& a.selected_index == b.selected_index
    &&& a.selected_file_index == b.selected_file_index
    &&& a.scroll_offset == b.scroll_offset
    &&& a.ast_scroll_offset == b.ast_scroll_offset
    &&& a.debounce_deadline == b.debounce_deadline
    &&& a.search_running == b.search_running
    &&& a.error_message == b.error_message
    &&& a.should_quit == b.should_quit
    &&& a.frame_count == b.frame_count
    &&& a.auto_scrolled_for == b.auto_scrolled_for
    &&& a.active_pane == b.active_pane
    &&& a.ast_nodes == b.ast_nodes
    &&& a.ast_selected_index == b.ast_selected_index
    &&& a.collapsed_node_ids == b.collapsed_node_ids
    &&& a.ast_parsing_for == b.ast_parsing_for
    &&& a.terminal_width == b.terminal_width
    &&& a.terminal_height == b.terminal_height
    &&& a.force_redraw == b.force_redraw
    &&& a.file_tree_pct == b.file_tree_pct
    &&& a.code_view_pct == b.code_view_pct
    &&& a.ast_view_pct == b.ast_view_pct
}

impl AppState {
    /// The structure's invariant: results in strictly increasing order and
    /// parents before children in the syntax tree.
    pub open spec fn wf(&self) -> bool {
        &&& strictly_sorted(results_view(self.results@))
        &&& ast_acyclic(self.ast_nodes@)
        &&& self.file_tree_pct <= 100
        &&& self.code_view_pct <= 100
        &&& self.ast_view_pct <= 100
    }

    /// The initial state: nothing typed, no results, the file pane focused,
    /// panes at 25/50/25 percent.
    pub fn new() -> (s: Self)
        ensures
            s.wf(),
            s.query_input@.len() == 0,
            s.submitted_query is None,
            s.results@.len() == 0,
            s.selected_index == 0,
            s.file_tree@.len() == 0,
            s.selected_file_index == 0,
            s.scroll_offset == 0,
            s.ast_scroll_offset == 0,
            s.debounce_deadline is None,
            !s.search_running,
            s.error_message is None,
            !s.should_quit,
            s.frame_count == 0,
            s.auto_scrolled_for is None,
            s.active_pane == PaneId::FileTree,
            s.ast_nodes@.len() == 0,
            s.ast_selected_index == 0,
            s.collapsed_node_ids@.len() == 0,
            s.ast_parsing_for is None,
            s.terminal_width == 0,
            s.terminal_height == 0,
            !s.force_redraw,
            s.file_tree_pct == 25,
            s.code_view_pct == 50,
            s.ast_view_pct == 25,
    {
        AppState {
            query_input: String::new(),
            submitted_query: None,
            results: Vec::new(),
            selected_index: 0,
            file_tree: Vec::new(),
            selected_file_index: 0,
            scroll_offset: 0,
            ast_scroll_offset: 0,
            debounce_deadline: None,
            search_running: false,
            error_message: None,
            should_quit: false,
            frame_count: 0,
            auto_scrolled_for: None,
            active_pane: PaneId::FileTree,
            ast_nodes: Vec::new(),
            ast_selected_index: 0,
            collapsed_node_ids: Vec::new(),
            ast_parsing_for: None,
            terminal_width: 0,
            terminal_height: 0,
            force_redraw: false,
            file_tree_pct: 25,
            code_view_pct: 50,
            ast_view_pct: 25,
        }
    }

    /// Widens the focused pane by `delta` percent at the expense of the pane
    /// to its right (the first pane for the last one); nothing changes when
    /// either would leave 10..=80 percent.
    pub fn adjust_pane_size(&mut self, delta: i16)
        requires
            old(self).file_tree_pct <= 100,
            old(self).code_view_pct <= 100,
            old(self).ast_view_pct <= 100,
        ensures
            ({
                let after = adjusted_pcts(pane_pcts(*old(self)), old(self).active_pane, delta as int);
                &&& final(self).file_tree_pct as int == after[0]
                &&& final(self).code_view_pct as int == after[1]
                &&& final(self).ast_view_pct as int == after[2]
            }),
            pane_pcts(*final(self)) == adjusted_pcts(pane_pcts(*old(self)), old(self).active_pane, delta as int),
            same_but_pcts(*old(self), *final(self)),
    {
        proof {
            let after = adjusted_pcts(pane_pcts(*old(self)), old(self).active_pane, delta as int);
            assert(after.len() == 3);
        }
        if delta == 0 {
            return;
        }
        let active: usize = match self.active_pane {
            PaneId::FileTree => 0,
            PaneId::CodeView => 1,
            PaneId::AstView => 2,
        };
        let right = (active + 1) % 3;
        let mut pcts: [i32; 3] = [self.file_tree_pct as i32, self.code_view_pct as i32, self.ast_view_pct as i32];
        let new_active = pcts[active] + delta as i32;
        let new_right = pcts[right] - delta as i32;
        if new_active < 10 || new_active > 80 || new_right < 10 || new_right > 80 {
            return;
        }
        pcts.set(active, new_active);
        pcts.set(right, new_right);
        self.file_tree_pct = pcts[0] as u16;
        self.code_view_pct = pcts[1] as u16;
        self.ast_view_pct = pcts[2] as u16;
        assert(pane_pcts(*self) =~= adjusted_pcts(pane_pcts(*old(self)), old(self).active_pane, delta as int));
    }

    /// Rebuilds the file list from the results: each path once, in order of
    /// the results, with its number of results.
    pub fn rebuild_file_tree(&mut self)
        ensures
            tree_view(final(self).file_tree@) == path_runs(results_view(final(self).results@)),
            same_but_file_tree(*old(self), *final(self)),
    {
        let ghost v = results_view(self.results@);
        let mut out: Vec<FileTreeEntry> = Vec::new();
        let n = self.results.len();
        let mut k: usize = 0;
        while k < n
            invariant
                n == self.results@.len(),
                v == results_view(self.results@),
                k <= n,
                tree_view(out@) == path_runs(v.take(k as int)),
                forall|i: int| 0 <= i < out@.len() ==> (#[trigger] out@[i]).match_count <= k,
            decreases n - k,
        {
            let r = &self.results[k];
            let ghost prev = out@;
            assert(v.take(k as int + 1).drop_last() =~= v.take(k as int));
            assert(v.take(k as int + 1).last() == v[k as int]);
            let m = out.len();
            if m > 0 && str_eq(out[m - 1].path.as_str(), r.file_path.as_str()) {
                let count = out[m - 1].match_count;
                let path = copy_string(&out[m - 1].path);
                out.set(m - 1, FileTreeEntry { path, match_count: count + 1 });
                assert(tree_view(out@) =~= tree_view(prev).update(m - 1, (r.file_path@, count + 1)));
            } else {
                out.push(FileTreeEntry { path: copy_string(&r.file_path), match_count: 1 });
                assert(tree_view(out@) =~= tree_view(prev).push((r.file_path@, 1)));
            }
            k = k + 1;
        }
        assert(v.take(n as int) =~= v);
        self.file_tree = out;
    }

    /// Adds results: afterwards the results are the old and the new ones,
    /// in increasing order, each once; the file list is rebuilt and the
    /// selections are kept within range.
    pub fn append_results(&mut self, new_results: Vec<MatchResult>)
        requires
            old(self).wf(),
        ensures
            final(self).wf(),
            appended(*old(self), *final(self), new_results@),
    {
        let ghost all_new = results_view(new_results@);
        let ghost base = results_view(self.results@).to_set();
        for r in it: new_results.into_iter()
            invariant
                it.seq() == new_results@,
                all_new == results_view(new_results@),
                strictly_sorted(results_view(self.results@)),
                ast_acyclic(self.ast_nodes@),
                results_view(self.results@).to_set() == base + all_new.take(it.index() as int).to_set(),
                *self == (AppState { results: self.results, ..*old(self) }),
        {
            let ghost k = it.index() as int;
            let ghost before = results_view(self.results@).to_set();
            assert(new_results@[k] == r);
            insert_sorted(&mut self.results, r);
            proof {
                assert(all_new.take(k + 1) =~= all_new.take(k).push(result_view(r)));
                all_new.take(k).lemma_push_to_set_commute(result_view(r));
                assert(results_view(self.results@).to_set() =~= base + all_new.take(k + 1).to_set());
            }
        }
        assert(all_new.take(all_new.len() as int) =~= all_new);
        self.rebuild_file_tree();
        if self.results.len() > 0 {
            if self.selected_index >= self.results.len() {
                self.selected_index = self.results.len() - 1;
            }
        } else {
            self.selected_index = 0;
            self.selected_file_index = 0;
        }
        if self.selected_file_index >= self.file_tree.len() && self.file_tree.len() > 0 {
            self.selected_file_index = self.file_tree.len() - 1;
        }
    }

    /// Forgets the results and everything derived from them.
    pub fn clear_results(&mut self)
        requires
            old(self).wf(),
        ensures
            final(self).wf(),
            cleared(*old(self), *final(self)),
            final(self).search_running == old(self).search_running,
    {
        self.results = Vec::new();
        self.file_tree = Vec::new();
        self.selected_index = 0;
        self.selected_file_index = 0;
        self.auto_scrolled_for = None;
        self.ast_nodes = Vec::new();
        self.ast_selected_index = 0;
        self.collapsed_node_ids = Vec::new();
        self.ast_scroll_offset = 0;
        self.ast_parsing_for = None;
    }

    /// The path of the selected file, if the selection is in range.
    pub fn selected_file_path(&self) -> (r: Option<String>)
        ensures
            r is Some <==> self.selected_file_index < self.file_tree@.len(),
            r matches Some(p) ==> p@ == self.file_tree@[self.selected_file_index as int].path@,
    {
        if self.selected_file_index < self.file_tree.len() {
            Some(copy_string(&self.file_tree[self.selected_file_index].path))
        } else {
            None
        }
    }

    /// Scrolls the code pane down one line (saturating).
    pub fn scroll_down(&mut self)
        ensures
            final(self).scroll_offset == (if old(self).scroll_offset == usize::MAX {
                usize::MAX
            } else {
                (old(self).scroll_offset + 1) as usize
            }),
            *final(self) == (AppState { scroll_offset: final(self).scroll_offset, ..*old(self) }),
    {
        self.scroll_offset = self.scroll_offset.saturating_add(1);
    }

    /// Scrolls the code pane up one line (not below the top).
    pub fn scroll_up(&mut self)
        ensures
            final(self).scroll_offset == (if old(self).scroll_offset == 0 {
                0
            } else {
                (old(self).scroll_offset - 1) as usize
            }),
            *final(self) == (AppState { scroll_offset: final(self).scroll_offset, ..*old(self) }),
    {
        self.scroll_offset = self.scroll_offset.saturating_sub(1);
    }

    /// The results in the selected file: from the first to the last result
    /// with its path (results are sorted, so these are all of them); empty
    /// when nothing is selected or the file has no results.
    pub fn results_for_selected_file(&self) -> (r: &[MatchResult])
        ensures
            r@ == (if self.selected_file_index < self.file_tree@.len() {
                let p = self.file_tree@[self.selected_file_index as int].path@;
                match (first_in_path(results_view(self.results@), p), last_in_path(results_view(self.results@), p)) {
                    (Some(a), Some(b)) => self.results@.subrange(a, b + 1),
                    _ => Seq::empty(),
                }
            } else {
                Seq::<MatchResult>::empty()
            }),
    {
        if self.selected_file_index >= self.file_tree.len() {
            return slice_subrange(self.results.as_slice(), 0, 0);
        }
        let path = self.file_tree[self.selected_file_index].path.as_str();
        let ghost v = results_view(self.results@);
        let n = self.results.len();
        let mut a: usize = 0;
        while a < n && !str_eq(self.results[a].file_path.as_str(), path)
            invariant
                n == self.results@.len(),
                v == results_view(self.results@),
                a <= n,
                first_in_path(v.take(a as int), path@) is None,
            decreases n - a,
        {
            assert(v.take(a as int + 1).drop_last() =~= v.take(a as int));
            a = a + 1;
        }
        if a == n {
            assert(v.take(n as int) =~= v);
            proof {
                lemma_last_none_if_first_none(v, path@);
            }
            return slice_subrange(self.results.as_slice(), 0, 0);
        }
        proof {
            assert(v.take(a as int + 1).drop_last() =~= v.take(a as int));
            lemma_first_in_path_prefix(v, path@, a as int + 1);
        }
        let mut b: usize = n;
        assert(v.take(n as int) =~= v);
        while !str_eq(self.results[b - 1].file_path.as_str(), path)
            invariant
                n == self.results@.len(),
                v == results_view(self.results@),
                a < b <= n,
                v[a as int].0 == path@,
                last_in_path(v, path@) == last_in_path(v.take(b as int), path@),
                a < n,
            decreases b,
        {
            assert(v.take(b as int - 1) =~= v.take(b as int).drop_last());
            assert(v[b - 1].0 != path@);
            b = b - 1;
        }
        proof {
            assert(v.take(b as int).last() == v[b - 1]);
        }
        slice_subrange(self.results.as_slice(), a, b)
    }

    /// Scrolls the code pane to the first result of the selected file, once
    /// per file: the smallest start line goes near the middle of the pane.
    pub fn auto_scroll_to_first_match(&mut self)
        ensures
            final(self).scroll_offset == (if auto_scroll_applies(*old(self)) {
                auto_scroll_offset(*old(self))
            } else {
                old(self).scroll_offset as int
            }),
            auto_scroll_marks(*old(self)) ==> (final(self).auto_scrolled_for matches Some(p) && p@
                == old(self).file_tree@[old(self).selected_file_index as int].path@),
            !auto_scroll_marks(*old(self)) ==> final(self).auto_scrolled_for == old(self).auto_scrolled_for,
            same_but_scroll(*old(self), *final(self)),
    {
        if self.file_tree.len() == 0 || self.selected_file_index >= self.file_tree.len() {
            return;
        }
        let current = copy_string(&self.file_tree[self.selected_file_index].path);
        match &self.auto_scrolled_for {
            Some(p) => {
                if str_eq(p.as_str(), current.as_str()) {
                    return;
                }
            },
            None => {},
        }
        let matches = self.results_for_selected_file();
        proof {
            lemma_first_last(results_view(self.results@), current@);
        }
        if matches.len() == 0 {
            self.auto_scrolled_for = Some(current);
            return;
        }
        let mut min_line = matches[0].start_line;
        let mut k: usize = 1;
        let ghost v = results_view(self.results@);
        let ghost p = current@;
        let ghost a = first_in_path(v, p)->0;
        proof {
            assert(matches@ == self.results@.subrange(a, last_in_path(v, p)->0 + 1));
            assert(matches@[0] == self.results@[a]);
            assert(v[a].3 == self.results@[a].start_line);
            assert(min_line == min_start_line(v, a, a));
        }
        while k < matches.len()
            invariant
                1 <= k <= matches@.len(),
                matches@ == self.results@.subrange(a, a + matches@.len()),
                0 <= a,
                a + matches@.len() <= self.results@.len(),
                v == results_view(self.results@),
                min_line == min_start_line(v, a, a + k - 1),
            decreases matches@.len() - k,
        {
            assert(v[a + k].3 == matches@[k as int].start_line);
            if matches[k].start_line < min_line {
                min_line = matches[k].start_line;
            }
            k = k + 1;
        }
        self.scroll_offset = if min_line > 1 && min_line - 1 > ASSUMED_PANE_HEIGHT / 2 {
            min_line - 1 - ASSUMED_PANE_HEIGHT / 2
        } else {
            0
        };
        self.auto_scrolled_for = Some(current);
    }

    /// Moves the file selection down, wrapping to the first file, and
    /// scrolls the code pane for the newly selected file.
    pub fn select_next(&mut self)
        requires
            old(self).selected_file_index < usize::MAX,
        ensures
            selected_next(*old(self), *final(self)),
    {
        if self.file_tree.len() == 0 {
            return;
        }
        self.selected_file_index = (self.selected_file_index + 1) % self.file_tree.len();
        self.scroll_offset = 0;
        self.auto_scrolled_for = None;
        self.auto_scroll_to_first_match();
    }

    /// Moves the file selection up, wrapping to the last file, and scrolls
    /// the code pane for the newly selected file.
    pub fn select_prev(&mut self)
        ensures
            selected_prev(*old(self), *final(self)),
    {
        if self.file_tree.len() == 0 {
            return;
        }
        if self.selected_file_index == 0 {
            self.selected_file_index = self.file_tree.len() - 1;
        } else {
            self.selected_file_index = self.selected_file_index - 1;
        }
        self.scroll_offset = 0;
        self.auto_scrolled_for = None;
        self.auto_scroll_to_first_match();
    }
}

/// Two states that differ at most in the code pane's scroll position and
/// the file it was scrolled for.
pub open spec fn same_but_scroll(a: AppState, b: AppState) -> bool {
    &&& a.query_input == b.query_input
    &&& a.submitted_query == b.submitted_query
    &&& a.results == b.results
    &&& a.selected_index == b.selected_index
    &&& a.file_tree == b.file_tree
    &&& a.selected_file_index == b.selected_file_index
    &&& a.ast_scroll_offset == b.ast_scroll_offset
    &&& a.debounce_deadline == b.debounce_deadline
    &&& a.search_running == b.search_running
    &&& a.error_message == b.error_message
    &&& a.should_quit == b.should_quit
    &&& a.frame_count == b.frame_count
    &&& a.active_pane == b.active_pane
    &&& a.ast_nodes == b.ast_nodes
    &&& a.ast_selected_index == b.ast_selected_index
    &&& a.collapsed_node_ids == b.collapsed_node_ids
    &&& a.ast_parsing_for == b.ast_parsing_for
    &&& a.terminal_width == b.terminal_width
    &&& a.terminal_height == b.terminal_height
    &&& a.force_redraw == b.force_redraw
    &&& a.file_tree_pct == b.file_tree_pct
    &&& a.code_view_pct == b.code_view_pct
    &&& a.ast_view_pct == b.ast_view_pct
}

/// Two states that differ at most in the file selection and the code pane's
/// scrolling.
pub open spec fn same_but_selection(a: AppState, b: AppState) -> bool {
    &&& a.query_input == b.query_input
    &&& a.submitted_query == b.submitted_query
    &&& a.results == b.results
    &&& a.selected_index == b.selected_index
    &&& a.file_tree == b.file_tree
    &&& a.ast_scroll_offset == b.ast_scroll_offset
    &&& a.debounce_deadline == b.debounce_deadline
    &&& a.search_running == b.search_running
    &&& a.error_message == b.error_message
    &&& a.should_quit == b.should_quit
    &&& a.frame_count == b.frame_count
    &&& a.active_pane == b.active_pane
    &&& a.ast_nodes == b.ast_nodes
    &&& a.ast_selected_index == b.ast_selected_index
    &&& a.collapsed_node_ids == b.collapsed_node_ids
    &&& a.ast_parsing_for == b.ast_parsing_for
    &&& a.terminal_width == b.terminal_width
    &&& a.terminal_height == b.terminal_height
    &&& a.force_redraw == b.force_redraw
    &&& a.file_tree_pct == b.file_tree_pct
    &&& a.code_view_pct == b.code_view_pct
    &&& a.ast_view_pct == b.ast_view_pct
}

/// Whether scrolling for file `idx` changes anything: the file exists and
/// the pane was not already scrolled for it (`scrolled_for`).
pub open spec fn auto_scroll_marks_at(st: AppState, idx: int, scrolled_for: Option<String>) -> bool {
    &&& 0 <= idx < st.file_tree@.len()
    &&& !(scrolled_for matches Some(p) && p@ == st.file_tree@[idx].path@)
}

/// Whether scrolling for file `idx` moves the pane: it marks and the file
/// has results.
pub open spec fn auto_scroll_applies_at(st: AppState, idx: int, scrolled_for: Option<String>) -> bool {
    &&& auto_scroll_marks_at(st, idx, scrolled_for)
    &&& first_in_path(results_view(st.results@), st.file_tree@[idx].path@) is Some
}

/// Where scrolling for file `idx` puts the pane.
pub open spec fn auto_scroll_offset_at(st: AppState, idx: int) -> int {
    let v = results_view(st.results@);
    let p = st.file_tree@[idx].path@;
    centered_offset(min_start_line(v, first_in_path(v, p)->0, last_in_path(v, p)->0))
}

/// `auto_scroll_marks_at` for the selected file.
pub open spec fn auto_scroll_marks(st: AppState) -> bool {
    auto_scroll_marks_at(st, st.selected_file_index as int, st.auto_scrolled_for)
}

/// `auto_scroll_applies_at` for the selected file.
pub open spec fn auto_scroll_applies(st: AppState) -> bool {
    auto_scroll_applies_at(st, st.selected_file_index as int, st.auto_scrolled_for)
}

/// `auto_scroll_offset_at` for the selected file.
pub open spec fn auto_scroll_offset(st: AppState) -> int {
    auto_scroll_offset_at(st, st.selected_file_index as int)
}

/// The first and last positions of a path exist together, hold the path,
/// and the first is not after the last.
pub proof fn lemma_first_last(v: Seq<ResultView>, p: Seq<char>)
    ensures
        first_in_path(v, p) is Some <==> last_in_path(v, p) is Some,
        first_in_path(v, p) matches Some(a) ==> 0 <= a < v.len() && v[a].0 == p && a <= last_in_path(v, p)->0 && last_in_path(v, p)->0 < v.len()
            && v[last_in_path(v, p)->0].0 == p,
    decreases v.len(),
{
    if v.len() > 0 {
        lemma_first_last(v.drop_last(), p);
    }
}

/// A path's last result exists exactly when its first does.
pub proof fn lemma_last_none_if_first_none(v: Seq<ResultView>, p: Seq<char>)
    requires
        first_in_path(v, p) is None,
    ensures
        last_in_path(v, p) is None,
    decreases v.len(),
{
    if v.len() > 0 {
        lemma_last_none_if_first_none(v.drop_last(), p);
    }
}

/// A first position found in a prefix is the first position overall.
pub proof fn lemma_first_in_path_prefix(v: Seq<ResultView>, p: Seq<char>, n: int)
    requires
        0 <= n <= v.len(),
        first_in_path(v.take(n), p) is Some,
    ensures
        first_in_path(v, p) == first_in_path(v.take(n), p),
    decreases v.len() - n,
{
    if n < v.len() {
        assert(v.take(n + 1).drop_last() =~= v.take(n));
        lemma_first_in_path_prefix(v, p, n + 1);
    } else {
        assert(v.take(n) =~= v);
    }
}

fn contains_id(ids: &Vec<usize>, id: usize) -> (r: bool)
    ensures
        r == ids@.contains(id),
{
    let mut k: usize = 0;
    while k < ids.len()
        invariant
            k <= ids@.len(),
            forall|j: int| 0 <= j < k ==> ids@[j] != id,
        decreases ids@.len() - k,
    {
        if ids[k] == id {
            assert(ids@[k as int] == id);
            return true;
        }
        k = k + 1;
    }
    false
}

/// The number of nodes shown in the syntax pane.
pub open spec fn visible_count(st: AppState) -> int {
    visible_positions(st.ast_nodes@, st.collapsed_node_ids@.to_set(), st.ast_nodes@.len() as int).len() as int
}

/// Two states that differ at most in the syntax pane's selection, scrolling
/// and collapsed nodes.
pub open spec fn same_but_ast_view(a: AppState, b: AppState) -> bool {
    &&& a.query_input == b.query_input
    &&& a.submitted_query == b.submitted_query
    &&& a.results == b.results
    &&& a.selected_index == b.selected_index
    &&& a.file_tree == b.file_tree
    &&& a.selected_file_index == b.selected_file_index
    &&& a.scroll_offset == b.scroll_offset
    &&& a.debounce_deadline == b.debounce_deadline
    &&& a.search_running == b.search_running
    &&& a.error_message == b.error_message
    &&& a.should_quit == b.should_quit
    &&& a.frame_count == b.frame_count
    &&& a.auto_scrolled_for == b.auto_scrolled_for
    &&& a.active_pane == b.active_pane
    &&& a.ast_nodes == b.ast_nodes
    &&& a.ast_parsing_for == b.ast_parsing_for
    &&& a.terminal_width == b.terminal_width
    &&& a.terminal_height == b.terminal_height
    &&& a.force_redraw == b.force_redraw
    &&& a.file_tree_pct == b.file_tree_pct
    &&& a.code_view_pct == b.code_view_pct
    &&& a.ast_view_pct == b.ast_view_pct
}

/// Two states that differ at most in the query being typed, the error shown
/// and the pending automatic search.
pub open spec fn same_but_input(a: AppState, b: AppState) -> bool {
    &&& a.submitted_query == b.submitted_query
    &&& a.results == b.results
    &&& a.selected_index == b.selected_index
    &&& a.file_tree == b.file_tree
    &&& a.selected_file_index == b.selected_file_index
    &&& a.scroll_offset == b.scroll_offset
    &&& a.ast_scroll_offset == b.ast_scroll_offset
    &&& a.search_running == b.search_running
    &&& a.should_quit == b.should_quit
    &&& a.frame_count == b.frame_count
    &&& a.auto_scrolled_for == b.auto_scrolled_for
    &&& a.active_pane == b.active_pane
    &&& a.ast_nodes == b.ast_nodes
    &&& a.ast_selected_index == b.ast_selected_index
    &&& a.collapsed_node_ids == b.collapsed_node_ids
    &&& a.ast_parsing_for == b.ast_parsing_for
    &&& a.terminal_width == b.terminal_width
    &&& a.terminal_height == b.terminal_height
    &&& a.force_redraw == b.force_redraw
    &&& a.file_tree_pct == b.file_tree_pct
    &&& a.code_view_pct == b.code_view_pct
    &&& a.ast_view_pct == b.ast_view_pct
}

impl AppState {
    /// Whether node `k` of the syntax tree is hidden under a collapsed node.
    fn node_hidden(&self, k: usize) -> (r: bool)
        requires
            ast_acyclic(self.ast_nodes@),
            k < self.ast_nodes@.len(),
        ensures
            r == !node_visible(self.ast_nodes@, self.collapsed_node_ids@.to_set(), k as int),
    {
        let ghost nodes = self.ast_nodes@;
        let ghost set = self.collapsed_node_ids@.to_set();
        let mut current = self.ast_nodes[k].parent_id;
        let ghost target = !node_visible(nodes, set, k as int);
        proof {
            let p = nodes[k as int].parent_id;
            assert(match p { Some(q) => q < k, None => true });
        }
        while current.is_some()
            invariant
                nodes == self.ast_nodes@,
                set == self.collapsed_node_ids@.to_set(),
                ast_acyclic(nodes),
                target == !node_visible(self.ast_nodes@, self.collapsed_node_ids@.to_set(), k as int),
                target == (match current {
                    None => false,
                    Some(q) => collapsed_above(nodes, set, q as int),
                }),
            decreases match current {
                Some(q) => q as int + 1,
                None => 0,
            },
        {
            let pid = current.unwrap();
            if contains_id(&self.collapsed_node_ids, pid) {
                assert(set.contains(pid));
                assert(collapsed_above(nodes, set, pid as int));
                return true;
            }
            if pid < self.ast_nodes.len() {
                let next = self.ast_nodes[pid].parent_id;
                assert(match next { Some(r) => (r as int) < pid, None => true }) by {
                    assert(nodes[pid as int] == self.ast_nodes@[pid as int]);
                }
                current = next;
            } else {
                current = None;
            }
        }
        false
    }

    /// The positions of the nodes shown in the syntax pane, in order: those
    /// with no collapsed node above them.
    pub fn visible_ast_nodes(&self) -> (r: Vec<usize>)
        requires
            ast_acyclic(self.ast_nodes@),
        ensures
            r@ == visible_positions(self.ast_nodes@, self.collapsed_node_ids@.to_set(), self.ast_nodes@.len() as int),
    {
        let mut out: Vec<usize> = Vec::new();
        let n = self.ast_nodes.len();
        let mut k: usize = 0;
        while k < n
            invariant
                n == self.ast_nodes@.len(),
                k <= n,
                ast_acyclic(self.ast_nodes@),
                out@ == visible_positions(self.ast_nodes@, self.collapsed_node_ids@.to_set(), k as int),
            decreases n - k,
        {
            if !self.node_hidden(k) {
                out.push(k);
            }
            k = k + 1;
        }
        out
    }

    /// Collapses node `id`, or expands it when it is collapsed.
    pub fn toggle_collapsed(&mut self, id: usize)
        ensures
            final(self).collapsed_node_ids@.to_set() == (if old(self).collapsed_node_ids@.to_set().contains(id) {
                old(self).collapsed_node_ids@.to_set().remove(id)
            } else {
                old(self).collapsed_node_ids@.to_set().insert(id)
            }),
            same_but_ast_view(*old(self), *final(self)),
            final(self).ast_selected_index == old(self).ast_selected_index,
            final(self).ast_scroll_offset == old(self).ast_scroll_offset,
    {
        let ghost before = self.collapsed_node_ids@;
        if contains_id(&self.collapsed_node_ids, id) {
            let mut kept: Vec<usize> = Vec::new();
            let mut k: usize = 0;
            while k < self.collapsed_node_ids.len()
                invariant
                    k <= self.collapsed_node_ids@.len(),
                    self.collapsed_node_ids@ == before,
                    forall|x: usize| kept@.contains(x) <==> (before.take(k as int).contains(x) && x != id),
                decreases self.collapsed_node_ids@.len() - k,
            {
                let x = self.collapsed_node_ids[k];
                let ghost old_kept = kept@;
                if x != id {
                    kept.push(x);
                }
                proof {
                    assert(before.take(k as int + 1) =~= before.take(k as int).push(x));
                    broadcast use vstd::seq_lib::lemma_seq_contains_after_push;
                }
                k = k + 1;
            }
            assert(before.take(before.len() as int) =~= before);
            self.collapsed_node_ids = kept;
            proof {
                assert(self.collapsed_node_ids@.to_set() =~= before.to_set().remove(id));
            }
        } else {
            self.collapsed_node_ids.push(id);
            proof {
                before.lemma_push_to_set_commute(id);
            }
        }
    }

    /// What a pending automatic search does when its time comes: the pending
    /// mark is cleared, and a query that is not empty and differs from the
    /// last one sent is sent (and remembered as sent).
    pub fn on_debounce_elapsed(&mut self) -> (r: Option<SearchCommand>)
        ensures
            old(self).debounce_deadline is None ==> *final(self) == *old(self) && r is None,
            old(self).debounce_deadline is Some ==> final(self).debounce_deadline is None,
            ({
                let due = old(self).debounce_deadline is Some && old(self).query_input@.len() > 0
                    && !(old(self).submitted_query matches Some(q) && q@ == old(self).query_input@);
                &&& due ==> ((r matches Some(SearchCommand::Run(q)) && q@ == old(self).query_input@)
                    && (final(self).submitted_query matches Some(s) && s@ == old(self).query_input@))
                &&& !due ==> r is None && final(self).submitted_query == old(self).submitted_query
            }),
            *final(self) == (AppState {
                debounce_deadline: final(self).debounce_deadline,
                submitted_query: final(self).submitted_query,
                ..*old(self)
            }),
    {
        if self.debounce_deadline.is_none() {
            return None;
        }
        self.debounce_deadline = None;
        if self.query_input.as_str().unicode_len() == 0 {
            return None;
        }
        let already = match &self.submitted_query {
            Some(q) => str_eq(q.as_str(), self.query_input.as_str()),
            None => false,
        };
        if already {
            return None;
        }
        self.submitted_query = Some(copy_string(&self.query_input));
        Some(SearchCommand::Run(copy_string(&self.query_input)))
    }

    /// What follows every event while the browser stays open: the code pane
    /// is scrolled for the selected file, and when the selected file changed
    /// the syntax pane is reset for it. Returns the file whose syntax tree has
    /// to be built, with its language, when one is detected.
    pub fn after_event(&mut self) -> (r: Option<(String, Language)>)
        requires
            old(self).wf(),
        ensures
            final(self).wf(),
            final(self).results == old(self).results,
            final(self).file_tree == old(self).file_tree,
            final(self).selected_file_index == old(self).selected_file_index,
            final(self).scroll_offset == (if auto_scroll_applies(*old(self)) {
                auto_scroll_offset(*old(self))
            } else {
                old(self).scroll_offset as int
            }),
            auto_scroll_marks(*old(self)) ==> (final(self).auto_scrolled_for matches Some(p) && p@
                == old(self).file_tree@[old(self).selected_file_index as int].path@),
            !auto_scroll_marks(*old(self)) ==> final(self).auto_scrolled_for == old(self).auto_scrolled_for,
            *final(self) == (AppState {
                scroll_offset: final(self).scroll_offset,
                auto_scrolled_for: final(self).auto_scrolled_for,
                ast_nodes: final(self).ast_nodes,
                ast_selected_index: final(self).ast_selected_index,
                collapsed_node_ids: final(self).collapsed_node_ids,
                ast_scroll_offset: final(self).ast_scroll_offset,
                ast_parsing_for: final(self).ast_parsing_for,
                ..*old(self)
            }),
            old(self).selected_file_index >= old(self).file_tree@.len() ==> final(self).ast_parsing_for is None
                && ast_view_reset(*final(self)) && r is None,
            old(self).selected_file_index < old(self).file_tree@.len() ==> ({
                let p = old(self).file_tree@[old(self).selected_file_index as int].path@;
                let same = old(self).ast_parsing_for matches Some(q) && q@ == p;
                &&& same ==> final(self).ast_nodes == old(self).ast_nodes && final(self).ast_parsing_for == old(self).ast_parsing_for
                    && final(self).ast_selected_index == old(self).ast_selected_index
                    && final(self).collapsed_node_ids == old(self).collapsed_node_ids
                    && final(self).ast_scroll_offset == old(self).ast_scroll_offset && r is None
                &&& !same ==> (ast_view_reset(*final(self)) && (final(self).ast_parsing_for matches Some(q) && q@ == p)
                    && (match spec_detect_language(p) {
                        Some(lang) => (r matches Some((rp, rl)) && rp@ == p && rl == lang),
                        None => r is None,
                    }))
            }),
    {
        self.auto_scroll_to_first_match();
        match self.selected_file_path() {
            Some(path) => {
                let same = match &self.ast_parsing_for {
                    Some(q) => str_eq(q.as_str(), path.as_str()),
                    None => false,
                };
                if !same {
                    self.ast_nodes = Vec::new();
                    self.ast_selected_index = 0;
                    self.collapsed_node_ids = Vec::new();
                    self.ast_scroll_offset = 0;
                    self.ast_parsing_for = Some(copy_string(&path));
                    match detect_language(path.as_str()) {
                        Some(lang) => {
                            return Some((path, lang));
                        },
                        None => {},
                    }
                }
                None
            },
            None => {
                self.ast_nodes = Vec::new();
                self.ast_selected_index = 0;
                self.collapsed_node_ids = Vec::new();
                self.ast_scroll_offset = 0;
                self.ast_parsing_for = None;
                None
            },
        }
    }
}

/// Whether the syntax pane is empty, with its selection and scrolling at the
/// top and nothing collapsed.
pub open spec fn ast_view_reset(st: AppState) -> bool {
    &&& st.ast_nodes@.len() == 0
    &&& st.ast_selected_index == 0
    &&& st.collapsed_node_ids@.len() == 0
    &&& st.ast_scroll_offset == 0
}

/// The pane that follows `p` when Tab is pressed.
pub open spec fn next_pane(p: PaneId) -> PaneId {
    match p {
        PaneId::FileTree => PaneId::CodeView,
        PaneId::CodeView => PaneId::AstView,
        PaneId::AstView => PaneId::FileTree,
    }
}

/// `b` is `a` with file `moved` selected and the code pane scrolled for it
/// (to the top when it has no results or the position is out of range).
pub open spec fn moved_selection(a: AppState, b: AppState, moved: int) -> bool {
    &&& b.selected_file_index == moved
    &&& moved < a.file_tree@.len() ==> b.scroll_offset == (if auto_scroll_applies_at(a, moved, None) {
        auto_scroll_offset_at(a, moved)
    } else {
        0
    }) && (b.auto_scrolled_for matches Some(p) && p@ == a.file_tree@[moved].path@)
    &&& moved >= a.file_tree@.len() ==> b.scroll_offset == 0 && b.auto_scrolled_for is None
    &&& same_but_selection(a, b)
}

/// `b` is `a` after moving the file selection down (wrapping); nothing
/// changes without files.
pub open spec fn selected_next(a: AppState, b: AppState) -> bool {
    if a.file_tree@.len() == 0 {
        b == a
    } else {
        moved_selection(a, b, next_file_index(a.selected_file_index as int, a.file_tree@.len() as int))
    }
}

/// `b` is `a` after moving the file selection up (wrapping); nothing
/// changes without files.
pub open spec fn selected_prev(a: AppState, b: AppState) -> bool {
    if a.file_tree@.len() == 0 {
        b == a
    } else {
        moved_selection(a, b, prev_file_index(a.selected_file_index as int, a.file_tree@.len() as int))
    }
}

/// Two states that differ at most in the widths of the panes.
pub open spec fn same_but_pcts(a: AppState, b: AppState) -> bool {
    b == (AppState { file_tree_pct: b.file_tree_pct, code_view_pct: b.code_view_pct, ast_view_pct: b.ast_view_pct, ..a })
}

/// `b` is `a` with the results and everything derived from them forgotten
/// (the running flag aside).
pub open spec fn cleared(a: AppState, b: AppState) -> bool {
    &&& b == (AppState {
        results: b.results,
        file_tree: b.file_tree,
        selected_index: 0,
        selected_file_index: 0,
        auto_scrolled_for: None,
        ast_nodes: b.ast_nodes,
        ast_selected_index: 0,
        collapsed_node_ids: b.collapsed_node_ids,
        ast_scroll_offset: 0,
        ast_parsing_for: None,
        search_running: b.search_running,
        ..a
    })
    &&& b.results@.len() == 0
    &&& b.file_tree@.len() == 0
    &&& b.ast_nodes@.len() == 0
    &&& b.collapsed_node_ids@.len() == 0
}

/// `b` is `a` with the results `rs` added: the results are the old and new
/// ones, sorted, each once; the file list is rebuilt from them; the
/// selections are brought back within range; nothing else changes.
pub open spec fn appended(a: AppState, b: AppState, rs: Seq<MatchResult>) -> bool {
    &&& results_view(b.results@).to_set() == results_view(a.results@).to_set() + results_view(rs).to_set()
    &&& tree_view(b.file_tree@) == path_runs(results_view(b.results@))
    &&& b.selected_index == (if b.results@.len() == 0 {
        0
    } else if a.selected_index >= b.results@.len() {
        (b.results@.len() - 1) as usize
    } else {
        a.selected_index
    })
    &&& ({
        let f = if b.results@.len() == 0 { 0 } else { a.selected_file_index };
        b.selected_file_index == (if f >= b.file_tree@.len() && b.file_tree@.len() > 0 {
            (b.file_tree@.len() - 1) as usize
        } else {
            f
        })
    })
    &&& b == (AppState {
        results: b.results,
        file_tree: b.file_tree,
        selected_index: b.selected_index,
        selected_file_index: b.selected_file_index,
        ..a
    })
}

/// What a key does to the state (`now` is the loop's clock in milliseconds)
/// and which command it sends.
pub open spec fn key_effect(a: AppState, b: AppState, key: Key, now: u64, r: Option<SearchCommand>) -> bool {
    let vis = visible_count(a);
    match key {
        Key::Char('q') | Key::Esc => b == (AppState { should_quit: true, ..a }) && r is None,
        Key::Tab => b == (AppState { active_pane: next_pane(a.active_pane), ..a }) && r is None,
        Key::Down | Key::Char('j') => r is None && match a.active_pane {
            PaneId::FileTree => selected_next(a, b),
            PaneId::CodeView => b == (AppState { scroll_offset: b.scroll_offset, ..a }) && b.scroll_offset == (if a.scroll_offset
                == usize::MAX {
                usize::MAX as int
            } else {
                a.scroll_offset + 1
            }),
            PaneId::AstView => b == (AppState { ast_selected_index: b.ast_selected_index, ast_scroll_offset: b.ast_scroll_offset, ..a }) && (vis == 0 ==> b == a) && (vis > 0 ==> ({
                let sel = if a.ast_selected_index + 1 < vis { a.ast_selected_index + 1 } else { a.ast_selected_index as int };
                &&& b.ast_selected_index == sel
                &&& b.ast_scroll_offset == (if sel >= a.ast_scroll_offset + 28 { sel - 27 } else { a.ast_scroll_offset as int })
            })),
        },
        Key::Up | Key::Char('k') => r is None && match a.active_pane {
            PaneId::FileTree => selected_prev(a, b),
            PaneId::CodeView => b == (AppState { scroll_offset: b.scroll_offset, ..a }) && b.scroll_offset == (if a.scroll_offset
                == 0 {
                0
            } else {
                a.scroll_offset - 1
            }),
            PaneId::AstView => b == (AppState { ast_selected_index: b.ast_selected_index, ast_scroll_offset: b.ast_scroll_offset, ..a }) && (vis == 0 ==> b == a) && (vis > 0 ==> ({
                let sel = if a.ast_selected_index > 0 { a.ast_selected_index - 1 } else { 0 };
                &&& b.ast_selected_index == sel
                &&& b.ast_scroll_offset == (if sel < a.ast_scroll_offset + 2 { if sel > 0 { sel - 1 } else { 0 } } else { a.ast_scroll_offset as int })
            })),
        },
        Key::PageDown => r is None && b == (AppState { scroll_offset: b.scroll_offset, ..a }) && b.scroll_offset == (if a.scroll_offset + 10 > usize::MAX {
            usize::MAX as int
        } else {
            a.scroll_offset + 10
        }),
        Key::PageUp => r is None && b == (AppState { scroll_offset: b.scroll_offset, ..a }) && b.scroll_offset == (if a.scroll_offset < 10 {
            0
        } else {
            a.scroll_offset - 10
        }),
        Key::Char('g') if a.active_pane == PaneId::AstView => r is None && b == (AppState { ast_selected_index: 0, ast_scroll_offset: 0, ..a }),
        Key::Char('G') if a.active_pane == PaneId::AstView => r is None && b == (AppState {
            ast_selected_index: b.ast_selected_index,
            ast_scroll_offset: b.ast_scroll_offset,
            ..a
        }) && (vis > 0 ==> b.ast_selected_index == vis - 1 && (vis - 1 > 0 ==> b.ast_scroll_offset == vis - 2))
            && (vis == 0 ==> b == a),
        Key::Enter if a.active_pane == PaneId::AstView => r is None && b == (AppState { collapsed_node_ids: b.collapsed_node_ids, ..a }) && ({
            let pos = visible_positions(a.ast_nodes@, a.collapsed_node_ids@.to_set(), a.ast_nodes@.len() as int);
            if a.ast_selected_index < pos.len() && a.ast_nodes@[pos[a.ast_selected_index as int] as int].has_children {
                let id = a.ast_nodes@[pos[a.ast_selected_index as int] as int].id;
                b.collapsed_node_ids@.to_set() == (if a.collapsed_node_ids@.to_set().contains(id) {
                    a.collapsed_node_ids@.to_set().remove(id)
                } else {
                    a.collapsed_node_ids@.to_set().insert(id)
                })
            } else {
                b.collapsed_node_ids == a.collapsed_node_ids
            }
        }),
        Key::Char('<') => r is None && pane_pcts(b) == adjusted_pcts(pane_pcts(a), a.active_pane, -5) && same_but_pcts(a, b),
        Key::Char('>') => r is None && pane_pcts(b) == adjusted_pcts(pane_pcts(a), a.active_pane, 5) && same_but_pcts(a, b),
        Key::Char(c) => r is None && b.query_input@ == a.query_input@.push(c) && b.error_message is None
            && b.debounce_deadline == Some((now + DEBOUNCE_MILLIS) as u64) && same_but_input(a, b),
        Key::Backspace => r is None && b.query_input@ == (if a.query_input@.len() == 0 { a.query_input@ } else { a.query_input@.drop_last() })
            && b.debounce_deadline == Some((now + DEBOUNCE_MILLIS) as u64) && b.error_message == a.error_message && same_but_input(a, b),
        Key::Enter => b == (AppState { debounce_deadline: None, submitted_query: b.submitted_query, ..a }) && if blank(a.query_input@) {
            r is None && b.submitted_query == a.submitted_query
        } else {
            (r matches Some(SearchCommand::Run(q)) && q@ == a.query_input@)
                && (b.submitted_query matches Some(s) && s@ == a.query_input@)
        },
        Key::Other => b == a && r is None,
    }
}

/// What an event does to the state and which command it sends.
pub open spec fn event_effect(a: AppState, b: AppState, event: AppEvent, now: u64, r: Option<SearchCommand>) -> bool {
    match event {
        AppEvent::Keystroke(key) => key_effect(a, b, key, now, r),
        AppEvent::Tick => b == a && r is None,
        AppEvent::Resize(w, h) => r is None && b == (AppState { terminal_width: w, terminal_height: h, force_redraw: true, ..a }),
        AppEvent::SearchStarted => r is None && cleared(a, b) && b.search_running,
        AppEvent::SearchResult(rs) => r is None && appended(a, b, rs@),
        AppEvent::AstReady(nodes) => r is None && b == (AppState {
            ast_nodes: nodes,
            ast_selected_index: 0,
            collapsed_node_ids: b.collapsed_node_ids,
            ast_scroll_offset: 0,
            ..a
        }) && b.collapsed_node_ids@.len() == 0,
        AppEvent::SearchComplete => r is None && b == (AppState { search_running: false, ..a }),
        AppEvent::SearchError(m) => r is None && b == (AppState { error_message: Some(m), search_running: false, ..a }),
    }
}

impl AppState {
    /// Answers one event of the loop: updates the state and returns the
    /// command for the searcher, if any. `now_ms` is the loop's clock, used
    /// to schedule the automatic search after typing.
    pub fn handle_event(&mut self, event: AppEvent, now_ms: u64) -> (r: Option<SearchCommand>)
        requires
            old(self).wf(),
            old(self).selected_file_index < usize::MAX,
            now_ms <= u64::MAX - DEBOUNCE_MILLIS,
            event matches AppEvent::AstReady(nodes) ==> ast_acyclic(nodes@),
        ensures
            final(self).wf(),
            event_effect(*old(self), *final(self), event, now_ms, r),
    {
        match event {
            AppEvent::Keystroke(key) => self.handle_key(key, now_ms),
            AppEvent::Tick => None,
            AppEvent::Resize(w, h) => {
                self.terminal_width = w;
                self.terminal_height = h;
                self.force_redraw = true;
                None
            },
            AppEvent::AstReady(nodes) => {
                self.ast_nodes = nodes;
                self.ast_selected_index = 0;
                self.collapsed_node_ids = Vec::new();
                self.ast_scroll_offset = 0;
                None
            },
            AppEvent::SearchResult(results) => {
                self.append_results(results);
                None
            },
            AppEvent::SearchComplete => {
                self.search_running = false;
                None
            },
            AppEvent::SearchError(message) => {
                self.error_message = Some(message);
                self.search_running = false;
                None
            },
            AppEvent::SearchStarted => {
                self.clear_results();
                self.search_running = true;
                None
            },
        }
    }

    fn handle_key(&mut self, key: Key, now_ms: u64) -> (r: Option<SearchCommand>)
        requires
            old(self).wf(),
            old(self).selected_file_index < usize::MAX,
            now_ms <= u64::MAX - DEBOUNCE_MILLIS,
        ensures
            final(self).wf(),
            key_effect(*old(self), *final(self), key, now_ms, r),
    {
        let is_ast = self.active_pane == PaneId::AstView;
        match key {
            Key::Char('q') | Key::Esc => {
                self.should_quit = true;
                None
            },
            Key::Tab => {
                self.active_pane = match self.active_pane {
                    PaneId::FileTree => PaneId::CodeView,
                    PaneId::CodeView => PaneId::AstView,
                    PaneId::AstView => PaneId::FileTree,
                };
                None
            },
            Key::Down | Key::Char('j') => {
                match self.active_pane {
                    PaneId::FileTree => self.select_next(),
                    PaneId::CodeView => self.scroll_down(),
                    PaneId::AstView => {
                        let visible_len = self.visible_ast_nodes().len();
                        if visible_len > 0 {
                            if self.ast_selected_index < visible_len - 1 {
                                self.ast_selected_index = self.ast_selected_index + 1;
                            }
                            let sel = self.ast_selected_index;
                            if sel >= 28 && sel - 28 >= self.ast_scroll_offset {
                                self.ast_scroll_offset = sel - 27;
                            }
                        }
                    },
                }
                None
            },
            Key::Up | Key::Char('k') => {
                match self.active_pane {
                    PaneId::FileTree => self.select_prev(),
                    PaneId::CodeView => self.scroll_up(),
                    PaneId::AstView => {
                        let visible_len = self.visible_ast_nodes().len();
                        if visible_len > 0 {
                            if self.ast_selected_index > 0 {
                                self.ast_selected_index = self.ast_selected_index - 1;
                            }
                            let sel = self.ast_selected_index;
                            if sel < self.ast_scroll_offset || sel - self.ast_scroll_offset < 2 {
                                self.ast_scroll_offset = if sel > 0 { sel - 1 } else { 0 };
                            }
                        }
                    },
                }
                None
            },
            Key::PageDown => {
                self.scroll_offset = self.scroll_offset.saturating_add(10);
                None
            },
            Key::PageUp => {
                self.scroll_offset = self.scroll_offset.saturating_sub(10);
                None
            },
            Key::Char('g') if is_ast => {
                self.ast_selected_index = 0;
                self.ast_scroll_offset = 0;
                None
            },
            Key::Char('G') if is_ast => {
                let visible_len = self.visible_ast_nodes().len();
                if visible_len > 0 {
                    self.ast_selected_index = visible_len - 1;
                    if self.ast_selected_index > 0 {
                        self.ast_scroll_offset = self.ast_selected_index - 1;
                    }
                }
                None
            },
            Key::Enter if is_ast => {
                let visible = self.visible_ast_nodes();
                let node_count = self.ast_nodes.len();
                if self.ast_selected_index < visible.len() {
                    let pos = visible[self.ast_selected_index];
                    proof {
                        assert(visible@[self.ast_selected_index as int] == pos);
                        lemma_visible_positions_bounds(self.ast_nodes@, self.collapsed_node_ids@.to_set(), self.ast_nodes@.len() as int);
                    }
                    if self.ast_nodes[pos].has_children {
                        let id = self.ast_nodes[pos].id;
                        self.toggle_collapsed(id);
                    }
                }
                None
            },
            Key::Char(c) => {
                if c == '<' {
                    self.adjust_pane_size(-5);
                } else if c == '>' {
                    self.adjust_pane_size(5);
                } else {
                    push_char(&mut self.query_input, c);
                    self.error_message = None;
                    self.debounce_deadline = Some(now_ms + DEBOUNCE_MILLIS);
                }
                None
            },
            Key::Backspace => {
                pop_char(&mut self.query_input);
                self.debounce_deadline = Some(now_ms + DEBOUNCE_MILLIS);
                None
            },
            Key::Enter => {
                self.debounce_deadline = None;
                if !is_blank_text(self.query_input.as_str()) {
                    self.submitted_query = Some(copy_string(&self.query_input));
                    Some(SearchCommand::Run(copy_string(&self.query_input)))
                } else {
                    None
                }
            },
            Key::Other => None,
        }
    }
}

/// Visible positions are positions of nodes.
pub proof fn lemma_visible_positions_bounds(nodes: Seq<AstNode>, collapsed: Set<usize>, n: int)
    requires
        n <= nodes.len(),
        n <= usize::MAX,
    ensures
        forall|i: int| 0 <= i < visible_positions(nodes, collapsed, n).len() ==> (#[trigger] visible_positions(nodes, collapsed, n)[i]) < n,
    decreases n,
{
    if n > 0 {
        lemma_visible_positions_bounds(nodes, collapsed, n - 1);
        let prev = visible_positions(nodes, collapsed, n - 1);
        assert forall|i: int| 0 <= i < visible_positions(nodes, collapsed, n).len() implies (#[trigger] visible_positions(nodes, collapsed, n)[i]) < n by {
            if i < prev.len() {
                assert(visible_positions(nodes, collapsed, n)[i] == prev[i]);
            }
        }
    }
}

/// Removes the last character of `s`, if any.
fn pop_char(s: &mut String)
    ensures
        final(s)@ == (if old(s)@.len() == 0 { old(s)@ } else { old(s)@.drop_last() }),
{
    let cs = crate::text::chars_of(s.as_str());
    if cs.len() == 0 {
        return;
    }
    let t = crate::paths::slice_chars(cs.as_slice(), 0, cs.len() - 1);
    assert(t@ =~= old(s)@.drop_last());
    *s = t;
}

} // verus!
