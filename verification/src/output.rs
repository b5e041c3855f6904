//! Text of the search output: match lines, lookup lines and the summary,
//! with optional ANSI colors.
//!
//! The `print_*` functions append their text to a byte buffer; writing that
//! buffer to a terminal or a pipe happens outside the library.

use crate::memory::{kind_name, FileRow, SymbolRow};
use crate::text::{append_str_bytes, decimal, push_decimal, push_str};
use crate::types::MatchResult;
use vstd::prelude::*;
use vstd::utf8::encode_utf8;

verus! {

/// ANSI reset sequence.
pub const RESET: &'static str = "\x1b[0m";

/// ANSI cyan, used for file paths.
pub const CYAN: &'static str = "\x1b[36m";

/// ANSI yellow, used for capture names and kinds.
pub const YELLOW: &'static str = "\x1b[33m";

/// ANSI green, used for matched text.
pub const GREEN: &'static str = "\x1b[32m";

/// Whether ANSI color escape sequences are emitted.
#[derive(Debug, Clone, Copy, PartialEq, Eq, Structural)]
pub enum ColorMode {
    /// Emit ANSI color escape sequences.
    On,
    /// Plain text output.
    Off,
}

/// The color mode for a run: off when the `--no-color` flag is given, off
/// when the `NO_COLOR` variable is set to a non-empty value, on otherwise.
pub open spec fn spec_color_mode(no_color_flag: bool, no_color_env: Option<Seq<char>>) -> ColorMode {
    if no_color_flag {
        ColorMode::Off
    } else if no_color_env matches Some(v) && v.len() > 0 {
        ColorMode::Off
    } else {
        ColorMode::On
    }
}

/// Decides the color mode from the `--no-color` flag and the value of the
/// `NO_COLOR` environment variable (`None` when it is not set).
pub fn color_mode_for(no_color_flag: bool, no_color_env: Option<&str>) -> (r: ColorMode)
    ensures
        r == spec_color_mode(
            no_color_flag,
            match no_color_env {
                Some(v) => Some(v@),
                None => None,
            },
        ),
{
    if no_color_flag {
        return ColorMode::Off;
    }
    if let Some(v) = no_color_env {
        if !v.is_empty() {
            return ColorMode::Off;
        }
    }
    ColorMode::On
}

/// `text` wrapped in `code` and the reset sequence when color is on.
pub open spec fn colored(text: Seq<char>, code: Seq<char>, color: ColorMode) -> Seq<char> {
    match color {
        ColorMode::On => code + text + RESET@,
        ColorMode::Off => text,
    }
}

/// `text` wrapped in `code` and the reset sequence when color is on,
/// unchanged when it is off.
pub fn colorize(text: &str, code: &str, color: &ColorMode) -> (r: String)
    ensures
        r@ == colored(text@, code@, *color),
{
    match color {
        ColorMode::On => {
            let mut s = String::new();
            push_str(&mut s, code);
            push_str(&mut s, text);
            push_str(&mut s, RESET);
            s
        },
        ColorMode::Off => text.to_string(),
    }
}

/// "match" when `n == 1`, otherwise "matches".
pub fn plural_match(n: usize) -> (r: &'static str)
    ensures
        r@ == (if n == 1 {
            "match"@
        } else {
            "matches"@
        }),
{
    if n == 1 {
        "match"
    } else {
        "matches"
    }
}

/// "file" when `n == 1`, otherwise "files".
pub fn plural_file(n: usize) -> (r: &'static str)
    ensures
        r@ == (if n == 1 {
            "file"@
        } else {
            "files"@
        }),
{
    if n == 1 {
        "file"
    } else {
        "files"
    }
}

/// The text of one match line (without the newline).
pub open spec fn match_line(r: MatchResult, color: ColorMode) -> Seq<char> {
    colored(r.file_path@, CYAN@, color) + ":"@ + decimal(r.start_line as nat) + ":"@ + decimal(
        r.start_col as nat,
    ) + "  [@"@ + colored(r.capture_name@, YELLOW@, color) + "]  \""@ + colored(
        r.matched_text@,
        GREEN@,
        color,
    ) + "\""@
}

/// The match line: path, 1-based line and column, capture name and matched
/// text; the path, name and text are colorized as `color` says.
pub fn format_match(result: &MatchResult, color: &ColorMode) -> (r: String)
    ensures
        r@ == match_line(*result, *color),
{
    let colored_path = colorize(result.file_path.as_str(), CYAN, color);
    let colored_name = colorize(result.capture_name.as_str(), YELLOW, color);
    let colored_text = colorize(result.matched_text.as_str(), GREEN, color);
    let mut s = String::new();
    push_str(&mut s, colored_path.as_str());
    push_str(&mut s, ":");
    push_decimal(&mut s, result.start_line as u128);
    push_str(&mut s, ":");
    push_decimal(&mut s, result.start_col as u128);
    push_str(&mut s, "  [@");
    push_str(&mut s, colored_name.as_str());
    push_str(&mut s, "]  \"");
    push_str(&mut s, colored_text.as_str());
    push_str(&mut s, "\"");
    assert(s@ =~= match_line(*result, *color));
    s
}

/// Appends the match line and a newline to `writer`.
pub fn print_match(result: &MatchResult, color: &ColorMode, writer: &mut Vec<u8>)
    ensures
        final(writer)@ == old(writer)@ + encode_utf8(match_line(*result, *color) + "\n"@),
{
    let mut line = format_match(result, color);
    push_str(&mut line, "\n");
    append_str_bytes(writer, line.as_str());
}

/// The lines printed for one symbol lookup result.
pub open spec fn lookup_lines(symbol: SymbolRow, file: FileRow, color: ColorMode) -> Seq<char> {
    colored(file.path@, CYAN@, color) + ":"@ + decimal(symbol.start_line as nat) + ":"@ + decimal(
        symbol.start_col as nat,
    ) + "  [@"@ + colored(kind_name(symbol.kind), YELLOW@, color) + "]  \""@ + colored(
        symbol.name@,
        GREEN@,
        color,
    ) + "\"\n"@ + match (color, symbol.signature) {
        (ColorMode::On, Some(sig)) => "  signature: "@ + sig@ + "\n"@,
        _ => Seq::empty(),
    }
}

/// The bytes printed for a list of lookup results, in order.
pub open spec fn lookup_bytes(results: Seq<(SymbolRow, FileRow)>, color: ColorMode) -> Seq<u8>
    decreases results.len(),
{
    if results.len() == 0 {
        Seq::empty()
    } else {
        lookup_bytes(results.drop_last(), color) + encode_utf8(
            lookup_lines(results.last().0, results.last().1, color),
        )
    }
}

/// Appends, for each symbol and its file, a match-like line, followed when
/// color is on by the symbol's signature line if it has one.
pub fn print_lookup_results(results: &[(SymbolRow, FileRow)], color: &ColorMode, writer: &mut Vec<u8>)
    ensures
        final(writer)@ == old(writer)@ + lookup_bytes(results@, *color),
{
    let n = results.len();
    let mut k: usize = 0;
    while k < n
        invariant
            n == results@.len(),
            k <= n,
            writer@ == old(writer)@ + lookup_bytes(results@.take(k as int), *color),
        decreases n - k,
    {
        let symbol = &results[k].0;
        let file = &results[k].1;
        let filepath = colorize(file.path.as_str(), CYAN, color);
        let kind_text = symbol.kind.name();
        let kind = colorize(kind_text.as_str(), YELLOW, color);
        let name = colorize(symbol.name.as_str(), GREEN, color);
        let mut line = String::new();
        push_str(&mut line, filepath.as_str());
        push_str(&mut line, ":");
        push_decimal(&mut line, symbol.start_line as u128);
        push_str(&mut line, ":");
        push_decimal(&mut line, symbol.start_col as u128);
        push_str(&mut line, "  [@");
        push_str(&mut line, kind.as_str());
        push_str(&mut line, "]  \"");
        push_str(&mut line, name.as_str());
        push_str(&mut line, "\"\n");
        match color {
            ColorMode::On => {
                if let Some(signature) = &symbol.signature {
                    push_str(&mut line, "  signature: ");
                    push_str(&mut line, signature.as_str());
                    push_str(&mut line, "\n");
                }
            },
            ColorMode::Off => {},
        }
        assert(line@ =~= lookup_lines(results@[k as int].0, results@[k as int].1, *color));
        let ghost before = writer@;
        append_str_bytes(writer, line.as_str());
        assert(results@.take(k as int + 1).drop_last() =~= results@.take(k as int));
        assert(writer@ =~= old(writer)@ + lookup_bytes(results@.take(k as int + 1), *color));
        k = k + 1;
    }
    assert(results@.take(n as int) =~= results@);
}

/// The summary line; it never carries color.
pub open spec fn summary_line(matches: nat, files: nat, elapsed_ms: nat) -> Seq<char> {
    let files_word = if files == 1 {
        "file"@
    } else {
        "files"@
    };
    if matches == 0 {
        "No matches found across "@ + decimal(files) + " "@ + files_word + " in "@ + decimal(
            elapsed_ms,
        ) + "ms"@
    } else {
        "Found "@ + decimal(matches) + " "@ + (if matches == 1 {
            "match"@
        } else {
            "matches"@
        }) + " across "@ + decimal(files) + " "@ + files_word + " in "@ + decimal(elapsed_ms)
            + "ms"@
    }
}

/// The summary line for `matches` matches over `files` files in
/// `elapsed_ms` whole milliseconds; `color` has no effect on it.
pub fn format_summary(matches: usize, files: usize, elapsed_ms: u128, color: &ColorMode) -> (r:
    String)
    ensures
        r@ == summary_line(matches as nat, files as nat, elapsed_ms as nat),
{
    let mut s = String::new();
    if matches == 0 {
        push_str(&mut s, "No matches found across ");
        push_decimal(&mut s, files as u128);
        push_str(&mut s, " ");
        push_str(&mut s, plural_file(files));
        push_str(&mut s, " in ");
        push_decimal(&mut s, elapsed_ms);
        push_str(&mut s, "ms");
    } else {
        push_str(&mut s, "Found ");
        push_decimal(&mut s, matches as u128);
        push_str(&mut s, " ");
        push_str(&mut s, plural_match(matches));
        push_str(&mut s, " across ");
        push_decimal(&mut s, files as u128);
        push_str(&mut s, " ");
        push_str(&mut s, plural_file(files));
        push_str(&mut s, " in ");
        push_decimal(&mut s, elapsed_ms);
        push_str(&mut s, "ms");
    }
    assert(s@ =~= summary_line(matches as nat, files as nat, elapsed_ms as nat));
    s
}

/// Appends the summary line and a newline to `writer`.
pub fn print_summary(
    matches: usize,
    files: usize,
    elapsed_ms: u128,
    color: &ColorMode,
    writer: &mut Vec<u8>,
)
    ensures
        final(writer)@ == old(writer)@ + encode_utf8(
            summary_line(matches as nat, files as nat, elapsed_ms as nat) + "\n"@,
        ),
{
    let mut line = format_summary(matches, files, elapsed_ms, color);
    push_str(&mut line, "\n");
    append_str_bytes(writer, line.as_str());
}

} // verus!
