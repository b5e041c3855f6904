//! What the browser's panes show, computed from the state: the rows of a
//! pane that fit, titles and list lines, the highlighted parts of a line of
//! code and the parts of a line of the syntax tree. Drawing them is left to
//! the terminal front end.

use crate::paths::{file_name, path_file_name};
use crate::text::{decimal, push_char, push_decimal, push_str};
use crate::tui::{AppState, AstNode, PaneId};
use crate::types::MatchResult;
use vstd::prelude::*;
use vstd::string::StringSliceAdditionalSpecFns;
use vstd::utf8::{encode_utf8, is_char_boundary};

verus! {

/// `n` spaces.
pub open spec fn spaces(n: nat) -> Seq<char> {
    Seq::new(n, |i: int| ' ')
}

/// Appends `n` spaces to `s`.
pub fn push_spaces(s: &mut String, n: usize)
    ensures
        final(s)@ == old(s)@ + spaces(n as nat),
{
    let mut k: usize = 0;
    while k < n
        invariant
            k <= n,
            s@ == old(s)@ + spaces(k as nat),
        decreases n - k,
    {
        push_char(s, ' ');
        k = k + 1;
        assert(s@ =~= old(s)@ + spaces(k as nat));
    }
}

/// The length in bytes of the UTF-8 encoding of `s`, as `str::len` gives it.
pub open spec fn byte_count(s: Seq<char>) -> nat {
    (encode_utf8(s).len() as usize) as nat
}

/// The first row shown when a pane of `height` rows is scrolled to
/// `offset` over `total` rows: the offset, but never past the point where
/// the last rows fill the pane.
pub open spec fn clamped_offset(offset: nat, total: nat, height: nat) -> nat {
    let last_start: nat = if total > height { (total - height) as nat } else { 0 };
    if offset < last_start { offset } else { last_start }
}

/// The rows shown in a pane of `height` rows scrolled to `offset` over
/// `total` rows: from the clamped offset up to (excluding) the returned end.
pub fn visible_rows(offset: usize, total: usize, height: usize) -> (r: (usize, usize))
    ensures
        r.0 == clamped_offset(offset as nat, total as nat, height as nat),
        r.1 == (if r.0 + height < total { r.0 + height } else { total as int }),
        r.0 <= r.1 <= total || total == 0 && r.0 == 0 && r.1 == 0,
{
    let last_start = total.saturating_sub(height);
    let start = if offset < last_start { offset } else { last_start };
    let end = if start + height < total { start + height } else { total };
    (start, end)
}

/// The selected row, kept on the last of `len` rows (on the first when there
/// are none).
pub fn clamp_selection(selected: usize, len: usize) -> (r: usize)
    ensures
        r == (if len == 0 { 0 } else if selected < len { selected as int } else { len - 1 }),
{
    let last = len.saturating_sub(1);
    if selected < last { selected } else { last }
}

/// The title of the file pane for the file at `path` in a pane of
/// `pane_width` columns: the path, or, when its byte length exceeds the
/// width less four, an ellipsis and its last `pane_width - 5` characters.
pub open spec fn spec_pane_title(path: Seq<char>, byte_len: nat, pane_width: nat) -> Seq<char> {
    let limit: int = if pane_width >= 4 { pane_width - 4 } else { 0 };
    if byte_len > limit {
        let keep: int = if pane_width >= 5 { pane_width - 5 } else { 0 };
        let start: int = if path.len() >= keep { path.len() - keep } else { 0 };
        seq!['…'] + path.subrange(start, path.len() as int)
    } else {
        path
    }
}

/// The title of the file pane: the selected file's path, shortened to fit,
/// or ` Files ` when no file is selected.
pub fn file_pane_title(state: &AppState, pane_width: usize) -> (r: String)
    ensures
        state.selected_file_index < state.file_tree@.len() ==> r@ == spec_pane_title(
            state.file_tree@[state.selected_file_index as int].path@,
            byte_count(state.file_tree@[state.selected_file_index as int].path@),
            pane_width as nat,
        ),
        state.selected_file_index >= state.file_tree@.len() ==> r@ == " Files "@,
{
    if state.selected_file_index >= state.file_tree.len() {
        let mut t = String::new();
        push_str(&mut t, " Files ");
        return t;
    }
    let path = state.file_tree[state.selected_file_index].path.as_str();
    let limit = pane_width.saturating_sub(4);
    let mut t = String::new();
    let byte_len = path.len();
    assert(byte_len == byte_count(path@));
    if byte_len > limit {
        let keep = pane_width.saturating_sub(5);
        let cs = crate::text::chars_of(path);
        let start = cs.len().saturating_sub(keep);
        push_char(&mut t, '…');
        let tail = crate::paths::slice_chars(cs.as_slice(), start, cs.len());
        push_str(&mut t, tail.as_str());
        assert(t@ =~= spec_pane_title(path@, byte_count(path@), pane_width as nat));
    } else {
        push_str(&mut t, path);
        assert(t@ =~= spec_pane_title(path@, byte_count(path@), pane_width as nat));
    }
    t
}

/// The name shown for a file in the file list: its final component, or
/// nothing when it has none.
pub open spec fn shown_name(path: Seq<char>) -> Seq<char> {
    match file_name(path) {
        Some(n) => n,
        None => Seq::empty(),
    }
}

/// A line of the file list in a pane of `pane_width` columns: a space, the
/// file name, padding and the number of matches, the padding filling the
/// pane less two columns (counted in bytes), or nothing when it is full.
pub open spec fn spec_file_line(path: Seq<char>, count: nat, pane_width: nat) -> Seq<char> {
    let name = shown_name(path);
    let used: nat = byte_count(name) + byte_count(decimal(count)) + 2;
    let pad: nat = if pane_width > used { (pane_width - used) as nat } else { 0 };
    " "@ + name + spaces(pad) + decimal(count)
}

/// The line shown for the file at `path`, which has `count` matches.
pub fn file_tree_line(path: &str, count: usize, pane_width: usize) -> (r: String)
    ensures
        r@ == spec_file_line(path@, count as nat, pane_width as nat),
{
    let name = match path_file_name(path) {
        Some(n) => n,
        None => String::new(),
    };
    let count_text = crate::text::decimal_string(count as u128);
    let name_len = name.as_str().len();
    let count_len = count_text.as_str().len();
    let used = name_len.saturating_add(count_len).saturating_add(2);
    let pad = pane_width.saturating_sub(used);
    proof {
        assert(name@ == shown_name(path@));
        assert(name_len == byte_count(name@));
        assert(count_len == byte_count(decimal(count as nat)));
    }
    let mut line = String::new();
    push_str(&mut line, " ");
    push_str(&mut line, name.as_str());
    push_spaces(&mut line, pad);
    push_str(&mut line, count_text.as_str());
    assert(line@ =~= spec_file_line(path@, count as nat, pane_width as nat));
    line
}

/// What the file pane says when it lists nothing: that a search is
/// running, that no query was sent yet, or that nothing matched.
pub fn file_pane_hint(search_running: bool, query_sent: bool) -> (r: &'static str)
    ensures
        r@ == (if search_running {
            "Searching..."@
        } else if !query_sent {
            "Type a query to search"@
        } else {
            "No matches"@
        }),
{
    if search_running {
        "Searching..."
    } else if !query_sent {
        "Type a query to search"
    } else {
        "No matches"
    }
}

/// The key hints of the status bar for the focused pane.
pub fn status_hint(pane: PaneId) -> (r: &'static str)
    ensures
        r@ == match pane {
            PaneId::FileTree => "  [↑↓/jk] select file   [Tab] focus code view  "@,
            PaneId::CodeView => "  [↑↓/jk] scroll code   [Tab] focus file tree  "@,
            PaneId::AstView => "  [↑↓/jk] navigate   [Enter] expand/collapse   [g/G] top/bottom  "@,
        },
{
    match pane {
        PaneId::FileTree => "  [↑↓/jk] select file   [Tab] focus code view  ",
        PaneId::CodeView => "  [↑↓/jk] scroll code   [Tab] focus file tree  ",
        PaneId::AstView => "  [↑↓/jk] navigate   [Enter] expand/collapse   [g/G] top/bottom  ",
    }
}

/// The frames of the spinner shown while a search runs.
pub open spec fn spinner_frames() -> Seq<char> {
    seq!['⠋', '⠙', '⠹', '⠸', '⠼', '⠴', '⠦', '⠧', '⠇', '⠏']
}

/// The spinner frame for frame number `frame_count`.
pub fn spinner_char(frame_count: u64) -> (r: char)
    ensures
        r == spinner_frames()[(frame_count % 10) as int],
{
    let k = frame_count % 10;
    if k == 0 {
        '⠋'
    } else if k == 1 {
        '⠙'
    } else if k == 2 {
        '⠹'
    } else if k == 3 {
        '⠸'
    } else if k == 4 {
        '⠼'
    } else if k == 5 {
        '⠴'
    } else if k == 6 {
        '⠦'
    } else if k == 7 {
        '⠧'
    } else if k == 8 {
        '⠇'
    } else {
        '⠏'
    }
}

/// The status bar: the key hints of the focused pane, then, while a search
/// runs, a spinner.
pub open spec fn spec_status_line(hint: Seq<char>, search_running: bool, frame_count: u64) -> Seq<char> {
    if search_running {
        hint + "  [searching "@ + seq![spinner_frames()[(frame_count % 10) as int]] + "]"@
    } else {
        hint
    }
}

/// The status bar of `state`.
pub fn status_line(state: &AppState) -> (r: String)
    ensures
        r@ == spec_status_line(
            match state.active_pane {
                PaneId::FileTree => "  [↑↓/jk] select file   [Tab] focus code view  "@,
                PaneId::CodeView => "  [↑↓/jk] scroll code   [Tab] focus file tree  "@,
                PaneId::AstView => "  [↑↓/jk] navigate   [Enter] expand/collapse   [g/G] top/bottom  "@,
            },
            state.search_running,
            state.frame_count,
        ),
{
    let mut line = String::new();
    let hint = status_hint(state.active_pane);
    push_str(&mut line, hint);
    if state.search_running {
        push_str(&mut line, "  [searching ");
        push_char(&mut line, spinner_char(state.frame_count));
        push_str(&mut line, "]");
    }
    assert(line@ =~= spec_status_line(hint@, state.search_running, state.frame_count));
    line
}

/// The query bar's first line: the query being typed and a cursor that
/// blinks every four frames.
pub fn query_line(state: &AppState) -> (r: String)
    ensures
        r@ == state.query_input@ + (if state.frame_count % 8 < 4 { "|"@ } else { " "@ }),
{
    let mut line = String::new();
    push_str(&mut line, state.query_input.as_str());
    if state.frame_count % 8 < 4 {
        push_str(&mut line, "|");
    } else {
        push_str(&mut line, " ");
    }
    line
}

/// Whether line `n` (1-based) of the code pane is marked: a match starts on
/// it or spans it.
pub open spec fn line_marked(ms: Seq<MatchResult>, n: int) -> bool {
    exists|i: int| 0 <= i < ms.len() && (#[trigger] ms[i].start_line == n || (ms[i].start_line <= n <= ms[i].end_line))
}

/// Whether line `line_num` gets the match marker.
pub fn is_match_line(matches: &[MatchResult], line_num: usize) -> (r: bool)
    ensures
        r == line_marked(matches@, line_num as int),
{
    let mut k: usize = 0;
    while k < matches.len()
        invariant
            k <= matches@.len(),
            forall|i: int| 0 <= i < k ==> !(#[trigger] matches@[i].start_line == line_num as int || (
                matches@[i].start_line <= line_num <= matches@[i].end_line)),
        decreases matches@.len() - k,
    {
        let m = &matches[k];
        if m.start_line == line_num || (m.start_line <= line_num && line_num <= m.end_line) {
            return true;
        }
        k = k + 1;
    }
    false
}

/// A piece of a line of code: bytes `start..end`, highlighted or not.
#[derive(Debug, Clone, Copy, PartialEq, Eq, Structural)]
pub struct Segment {
    /// Byte offset where the piece starts.
    pub start: usize,
    /// Byte offset where the piece ends.
    pub end: usize,
    /// Whether the piece is part of a match.
    pub highlighted: bool,
}

/// Whether match `m` reaches line `n`.
pub open spec fn reaches(m: MatchResult, n: int) -> bool {
    m.start_line <= n <= m.end_line
}

/// Where the highlight of `m` starts on line `n`: its start column on its
/// first line, the line start after.
pub open spec fn hl_start(m: MatchResult, n: int) -> int {
    if n == m.start_line { m.start_col as int } else { 0 }
}

/// Where the highlight of `m` ends on line `n` of `len` bytes: its end
/// column on its last line, the line end before.
pub open spec fn hl_end(m: MatchResult, n: int, len: int) -> int {
    if n == m.end_line { m.end_col as int } else { len }
}

/// Whether bytes `a..b` of `line` make a string slice.
pub open spec fn slice_ok(line: Seq<u8>, a: int, b: int) -> bool {
    0 <= a <= b <= line.len() && is_char_boundary(line, a) && is_char_boundary(line, b)
}

/// Where the cutting of a line stands after some matches: the position
/// reached, the pieces so far, and whether it stopped.
pub type CutState = (int, Seq<Segment>, bool);

/// The cutting after match `m`: the text before the highlight, when the
/// highlight starts further on, then the highlight; when the highlight is
/// not a slice of the line, the rest of the line from its start, plain, and
/// the cutting stops.
pub open spec fn cut_step(line: Seq<u8>, n: int, st: CutState, m: MatchResult) -> CutState {
    let (pos, segs, stopped) = st;
    if stopped || !reaches(m, n) {
        st
    } else {
        let a = hl_start(m, n);
        let b = hl_end(m, n, line.len() as int);
        let before = if a > pos {
            segs.push(Segment { start: pos as usize, end: a as usize, highlighted: false })
        } else {
            segs
        };
        if slice_ok(line, a, b) {
            (b, before.push(Segment { start: a as usize, end: b as usize, highlighted: true }), false)
        } else {
            (line.len() as int, before.push(Segment { start: a as usize, end: line.len() as usize, highlighted: false }), true)
        }
    }
}

/// Whether cutting at match `m` slices the line where it is cut.
pub open spec fn cut_step_ok(line: Seq<u8>, n: int, st: CutState, m: MatchResult) -> bool {
    let (pos, segs, stopped) = st;
    stopped || !reaches(m, n) || ({
        let a = hl_start(m, n);
        let b = hl_end(m, n, line.len() as int);
        &&& (a > pos ==> slice_ok(line, pos, a))
        &&& (!slice_ok(line, a, b) ==> slice_ok(line, a, line.len() as int))
    })
}

/// The cutting of line `n` (bytes `line`) after the matches `ms`, in order.
pub open spec fn cut_all(line: Seq<u8>, n: int, ms: Seq<MatchResult>) -> CutState
    decreases ms.len(),
{
    if ms.len() == 0 {
        (0, Seq::empty(), false)
    } else {
        cut_step(line, n, cut_all(line, n, ms.drop_last()), ms.last())
    }
}

/// Whether every cut of line `n` by the matches `ms` slices the line.
pub open spec fn cuts_ok(line: Seq<u8>, n: int, ms: Seq<MatchResult>) -> bool
    decreases ms.len(),
{
    ms.len() == 0 || (cuts_ok(line, n, ms.drop_last()) && cut_step_ok(line, n, cut_all(line, n, ms.drop_last()), ms.last()))
}

/// The pieces of line `n`: the cutting by every match, then the rest of the
/// line, plain.
pub open spec fn line_pieces(line: Seq<u8>, n: int, ms: Seq<MatchResult>) -> Seq<Segment> {
    let (pos, segs, stopped) = cut_all(line, n, ms);
    if pos < line.len() {
        segs.push(Segment { start: pos as usize, end: line.len() as usize, highlighted: false })
    } else {
        segs
    }
}

/// A prefix of matches that cut a line well cuts it well.
pub proof fn lemma_cuts_ok_prefix(line: Seq<u8>, n: int, ms: Seq<MatchResult>, k: int)
    requires
        0 <= k <= ms.len(),
        cuts_ok(line, n, ms),
    ensures
        cuts_ok(line, n, ms.take(k)),
    decreases ms.len(),
{
    if k == ms.len() {
        assert(ms.take(k) =~= ms);
    } else {
        assert(ms.drop_last().take(k) =~= ms.take(k));
        lemma_cuts_ok_prefix(line, n, ms.drop_last(), k);
    }
}

/// Cuts line `n` by the matches in order; the flag says whether every cut
/// sliced the line.
fn cut_line(line: &str, line_num: usize, matches: &[MatchResult]) -> (r: (bool, Vec<Segment>))
    ensures
        r.0 == cuts_ok(line.spec_bytes(), line_num as int, matches@),
        r.0 ==> r.1@ == line_pieces(line.spec_bytes(), line_num as int, matches@),
{
    let ghost bytes = line.spec_bytes();
    let ghost ms = matches@;
    let len = line.as_bytes().len();
    proof {
        vstd::utf8::encode_utf8_valid_utf8(line@);
        vstd::utf8::is_char_boundary_start_end_of_seq(bytes);
    }
    let ghost n = line_num as int;
    let mut pos: usize = 0;
    let mut out: Vec<Segment> = Vec::new();
    let mut stopped = false;
    let mut k: usize = 0;
    assert(ms.take(0) =~= Seq::<MatchResult>::empty());
    while k < matches.len()
        invariant
            k <= ms.len(),
            ms == matches@,
            bytes == line.spec_bytes(),
            len == bytes.len(),
            n == line_num as int,
            cuts_ok(bytes, n, ms.take(k as int)),
            cut_all(bytes, n, ms.take(k as int)) == (pos as int, out@, stopped),
            pos <= len,
            !stopped ==> is_char_boundary(bytes, pos as int),
            vstd::utf8::valid_utf8(bytes),
            is_char_boundary(bytes, len as int),
        decreases ms.len() - k,
    {
        assert(ms.take(k as int + 1).drop_last() =~= ms.take(k as int));
        assert(ms.take(k as int + 1).last() == ms[k as int]);
        let m = &matches[k];
        if !stopped && m.start_line <= line_num && line_num <= m.end_line {
            let a = if line_num == m.start_line { m.start_col } else { 0 };
            let b = if line_num == m.end_line { m.end_col } else { len };
            if a > pos {
                if !(a <= len && line.is_char_boundary(a)) {
                    proof {
                        if cuts_ok(bytes, n, ms) {
                            lemma_cuts_ok_prefix(bytes, n, ms, k as int + 1);
                        }
                    }
                    return (false, out);
                }
                out.push(Segment { start: pos, end: a, highlighted: false });
            }
            if a <= b && b <= len && line.is_char_boundary(a) && line.is_char_boundary(b) {
                out.push(Segment { start: a, end: b, highlighted: true });
                pos = b;
            } else {
                if !(a <= len && line.is_char_boundary(a)) {
                    proof {
                        if cuts_ok(bytes, n, ms) {
                            lemma_cuts_ok_prefix(bytes, n, ms, k as int + 1);
                        }
                    }
                    return (false, out);
                }
                out.push(Segment { start: a, end: len, highlighted: false });
                pos = len;
                stopped = true;
            }
        }
        k = k + 1;
    }
    assert(ms.take(ms.len() as int) =~= ms);
    if pos < len {
        out.push(Segment { start: pos, end: len, highlighted: false });
    }
    (true, out)
}

/// Whether the matches cut line `line_num` only where it can be sliced.
pub fn line_cuts_ok(line: &str, line_num: usize, matches: &[MatchResult]) -> (r: bool)
    ensures
        r == cuts_ok(line.spec_bytes(), line_num as int, matches@),
{
    cut_line(line, line_num, matches).0
}

/// The pieces of line `line_num` of the code pane, in order: plain text,
/// then each match that reaches the line highlighted (from its start column
/// on its first line, to its end column on its last), the text between
/// plain, and the rest of the line plain.
pub fn line_segments(line: &str, line_num: usize, matches: &[MatchResult]) -> (r: Vec<Segment>)
    requires
        cuts_ok(line.spec_bytes(), line_num as int, matches@),
    ensures
        r@ == line_pieces(line.spec_bytes(), line_num as int, matches@),
{
    cut_line(line, line_num, matches).1
}

/// How a part of a line of the syntax pane is shown.
#[derive(Debug, Clone, Copy, PartialEq, Eq, Structural)]
pub enum PartKind {
    /// The indentation by depth.
    Indent,
    /// The expand/collapse mark of a node with children.
    Branch,
    /// The blank mark of a leaf.
    Leaf,
    /// The field name.
    Field,
    /// The kind of an error node.
    ErrorKind,
    /// The kind of a named node.
    NamedKind,
    /// The kind of an anonymous node.
    AnonymousKind,
    /// The mark of a node where a match starts.
    MatchMark,
    /// The text of a leaf.
    Preview,
    /// The padding before the position.
    Padding,
    /// The position of the node.
    Position,
}

/// A part of a line of the syntax pane.
#[derive(Debug, Clone)]
pub struct LinePart {
    /// The text shown.
    pub text: String,
    /// How it is shown.
    pub kind: PartKind,
}

/// The parts as texts and kinds.
pub open spec fn parts_view(v: Seq<LinePart>) -> Seq<(Seq<char>, PartKind)> {
    Seq::new(v.len(), |i: int| (v[i].text@, v[i].kind))
}

/// The number of characters of the parts.
pub open spec fn text_width(ps: Seq<(Seq<char>, PartKind)>) -> nat
    decreases ps.len(),
{
    if ps.len() == 0 {
        0
    } else {
        text_width(ps.drop_last()) + ps.last().0.len()
    }
}

/// The expand/collapse mark of a node.
pub open spec fn indicator(node: AstNode, collapsed: bool) -> Seq<char> {
    if node.has_children {
        if collapsed {
            "▶ "@
        } else {
            "▼ "@
        }
    } else {
        "  "@
    }
}

/// How the kind of a node is shown.
pub open spec fn kind_part(node: AstNode) -> PartKind {
    if node.is_error {
        PartKind::ErrorKind
    } else if node.is_named {
        PartKind::NamedKind
    } else {
        PartKind::AnonymousKind
    }
}

/// The body of a node's line: indentation, mark, field name, kind, match
/// mark and quoted text, each where it applies.
pub open spec fn node_body(node: AstNode, matched: bool, collapsed: bool) -> Seq<(Seq<char>, PartKind)> {
    let mark_kind = if node.has_children { PartKind::Branch } else { PartKind::Leaf };
    let base = seq![(spaces(2 * node.depth as nat), PartKind::Indent), (indicator(node, collapsed), mark_kind)];
    let with_field = match node.field_name {
        Some(f) => base.push((f@ + ": "@, PartKind::Field)),
        None => base,
    };
    let with_kind = with_field.push((node.kind@, kind_part(node)));
    let with_mark = if matched { with_kind.push((" ●"@, PartKind::MatchMark)) } else { with_kind };
    match node.text_preview {
        Some(p) => with_mark.push((" \""@ + p@ + "\""@, PartKind::Preview)),
        None => with_mark,
    }
}

/// The position of a node as shown: `[line:column]`.
pub open spec fn position_text(node: AstNode) -> Seq<char> {
    "["@ + decimal(node.start_line as nat) + ":"@ + decimal(node.start_col as nat) + "]"@
}

/// A node's line in a pane `width` columns wide: the body, then, when it
/// fits, padding and the position flush right.
pub open spec fn node_line_parts(node: AstNode, matched: bool, collapsed: bool, width: nat) -> Seq<(Seq<char>, PartKind)> {
    let body = node_body(node, matched, collapsed);
    let used = text_width(body) + position_text(node).len();
    if used < width {
        body + seq![(spaces((width - used) as nat), PartKind::Padding), (position_text(node), PartKind::Position)]
    } else {
        body
    }
}

/// Appends a part, keeping the saturated width of the parts.
fn push_part(out: &mut Vec<LinePart>, width: &mut usize, text: String, kind: PartKind)
    requires
        *old(width) == sat_width(parts_view(old(out)@)),
    ensures
        parts_view(final(out)@) == parts_view(old(out)@).push((text@, kind)),
        *final(width) == sat_width(parts_view(final(out)@)),
{
    let n = text.as_str().unicode_len();
    let ghost t = text@;
    *width = width.saturating_add(n);
    out.push(LinePart { text, kind });
    proof {
        assert(parts_view(out@) =~= parts_view(old(out)@).push((t, kind)));
        assert(parts_view(out@).drop_last() =~= parts_view(old(out)@));
    }
}

/// The saturated width of parts.
pub open spec fn sat_width(ps: Seq<(Seq<char>, PartKind)>) -> int {
    if text_width(ps) < usize::MAX {
        text_width(ps) as int
    } else {
        usize::MAX as int
    }
}

/// The body parts of a node's line, with their saturated width.
fn node_body_parts(node: &AstNode, matched: bool, collapsed: bool) -> (r: (Vec<LinePart>, usize))
    ensures
        parts_view(r.0@) == node_body(*node, matched, collapsed),
        r.1 == sat_width(node_body(*node, matched, collapsed)),
{
    let mut out: Vec<LinePart> = Vec::new();
    let mut used: usize = 0;
    assert(parts_view(out@) =~= Seq::<(Seq<char>, PartKind)>::empty());
    let mut indent = String::new();
    let mut k: usize = 0;
    while k < node.depth
        invariant
            k <= node.depth,
            indent@ == spaces(2 * k as nat),
        decreases node.depth - k,
    {
        proof {
            reveal_strlit("  ");
        }
        push_str(&mut indent, "  ");
        k = k + 1;
        assert(indent@ =~= spaces(2 * k as nat));
    }
    push_part(&mut out, &mut used, indent, PartKind::Indent);
    let mut mark = String::new();
    if node.has_children {
        if collapsed {
            push_str(&mut mark, "▶ ");
        } else {
            push_str(&mut mark, "▼ ");
        }
        push_part(&mut out, &mut used, mark, PartKind::Branch);
    } else {
        push_str(&mut mark, "  ");
        push_part(&mut out, &mut used, mark, PartKind::Leaf);
    }
    match &node.field_name {
        Some(f) => {
            let mut t = String::new();
            push_str(&mut t, f.as_str());
            push_str(&mut t, ": ");
            push_part(&mut out, &mut used, t, PartKind::Field);
        },
        None => {},
    }
    let mut kind_text = String::new();
    push_str(&mut kind_text, node.kind.as_str());
    let kind = if node.is_error {
        PartKind::ErrorKind
    } else if node.is_named {
        PartKind::NamedKind
    } else {
        PartKind::AnonymousKind
    };
    push_part(&mut out, &mut used, kind_text, kind);
    if matched {
        let mut t = String::new();
        push_str(&mut t, " ●");
        push_part(&mut out, &mut used, t, PartKind::MatchMark);
    }
    match &node.text_preview {
        Some(p) => {
            let mut t = String::new();
            push_str(&mut t, " \"");
            push_str(&mut t, p.as_str());
            push_str(&mut t, "\"");
            push_part(&mut out, &mut used, t, PartKind::Preview);
        },
        None => {},
    }
    assert(parts_view(out@) =~= node_body(*node, matched, collapsed));
    (out, used)
}

/// The parts of the syntax pane's line for `node` in a pane `width`
/// columns wide; `matched` says whether a match starts at the node and
/// `collapsed` whether it is collapsed.
pub fn ast_node_line(node: &AstNode, matched: bool, collapsed: bool, width: usize) -> (r: Vec<LinePart>)
    ensures
        parts_view(r@) == node_line_parts(*node, matched, collapsed, width as nat),
{
    let (mut out, mut used) = node_body_parts(node, matched, collapsed);
    let mut position = String::new();
    push_str(&mut position, "[");
    push_decimal(&mut position, node.start_line as u128);
    push_str(&mut position, ":");
    push_decimal(&mut position, node.start_col as u128);
    push_str(&mut position, "]");
    assert(position@ =~= position_text(*node));
    let position_width = position.as_str().unicode_len();
    let total = used.saturating_add(position_width);
    if total < width {
        let mut pad = String::new();
        push_spaces(&mut pad, width - total);
        push_part(&mut out, &mut used, pad, PartKind::Padding);
        push_part(&mut out, &mut used, position, PartKind::Position);
        assert(parts_view(out@) =~= node_line_parts(*node, matched, collapsed, width as nat));
    }
    out
}

/// The pieces of a line with one highlighted range: the text before it,
/// the range and the text after it when the range is a non-empty slice of
/// the line; the whole line, plain, otherwise.
pub open spec fn spec_highlighted(line: Seq<u8>, range: Option<(usize, usize)>) -> Seq<Segment> {
    let whole = seq![Segment { start: 0, end: line.len() as usize, highlighted: false }];
    match range {
        None => whole,
        Some((a, b)) => if a < b && slice_ok(line, a as int, b as int) {
            seq![
                Segment { start: 0, end: a, highlighted: false },
                Segment { start: a, end: b, highlighted: true },
                Segment { start: b, end: line.len() as usize, highlighted: false },
            ]
        } else {
            whole
        },
    }
}

/// Cuts `line` around one highlighted byte range.
pub fn highlighted_line(line: &str, range: Option<(usize, usize)>) -> (r: Vec<Segment>)
    ensures
        r@ == spec_highlighted(line.spec_bytes(), range),
{
    let len = line.as_bytes().len();
    proof {
        vstd::utf8::encode_utf8_valid_utf8(line@);
        vstd::utf8::is_char_boundary_start_end_of_seq(line.spec_bytes());
    }
    let mut out: Vec<Segment> = Vec::new();
    match range {
        Some((a, b)) => {
            if a < b && b <= len && line.is_char_boundary(a) && line.is_char_boundary(b) {
                out.push(Segment { start: 0, end: a, highlighted: false });
                out.push(Segment { start: a, end: b, highlighted: true });
                out.push(Segment { start: b, end: len, highlighted: false });
                assert(out@ =~= spec_highlighted(line.spec_bytes(), range));
                return out;
            }
        },
        None => {},
    }
    out.push(Segment { start: 0, end: len, highlighted: false });
    assert(out@ =~= spec_highlighted(line.spec_bytes(), range));
    out
}

/// Most characters of a leaf's text shown in the syntax pane.
pub const PREVIEW_CHARS: usize = 40;

/// The preview of a leaf's text: its first `PREVIEW_CHARS` characters,
/// followed by an ellipsis when the text is longer.
pub open spec fn spec_leaf_preview(text: Seq<char>) -> Seq<char> {
    if text.len() > PREVIEW_CHARS {
        text.take(PREVIEW_CHARS as int).push('…')
    } else {
        text
    }
}

/// The preview shown for a leaf whose text is `text`.
pub fn leaf_preview(text: &str) -> (r: String)
    ensures
        r@ == spec_leaf_preview(text@),
{
    let cs = crate::text::chars_of(text);
    if cs.len() > PREVIEW_CHARS {
        let mut out = crate::paths::slice_chars(cs.as_slice(), 0, PREVIEW_CHARS);
        push_char(&mut out, '…');
        assert(out@ =~= spec_leaf_preview(text@));
        out
    } else {
        crate::text::string_of(cs.as_slice())
    }
}

} // verus!
