//! Rows of the symbol store and the conversions between them and the values
//! that the database holds.
//!
//! The SQLite store itself is opened and queried outside the library; it
//! hands rows to these functions as plain values.

use crate::paths::{join_path, join_relative};
use crate::text::{chars_of, decimal, push_char, push_decimal, push_str, str_eq};
use crate::types::AppError;
use vstd::prelude::*;

verus! {

/// Filename used for the optional on-disk memory DB in a repository root.
pub const MEMORY_DB_FILENAME: &'static str = ".doora-memory.db";

/// The path of the memory DB file for `root`.
pub fn memory_db_path(root: &str) -> (r: String)
    ensures
        r@ == join_path(root@, MEMORY_DB_FILENAME@),
{
    join_relative(root, MEMORY_DB_FILENAME)
}

/// Kinds of symbols recorded in the symbol store.
#[derive(Debug, Clone, Copy, PartialEq, Eq, Structural)]
pub enum SymbolKind {
    /// Free-standing function.
    Function,
    /// Method defined on an impl or class.
    Method,
    /// Struct type.
    Struct,
    /// Enum type.
    Enum,
    /// Trait declaration.
    Trait,
    /// Interface.
    Interface,
    /// Type alias.
    TypeAlias,
    /// Constant value.
    Constant,
    /// Local or global variable.
    Variable,
    /// Class.
    Class,
    /// Module or package.
    Module,
    /// Import or use statement.
    Import,
    /// Unknown or unclassified symbol kind.
    Unknown,
}

/// The stored name of a symbol kind.
pub open spec fn kind_name(k: SymbolKind) -> Seq<char> {
    match k {
        SymbolKind::Function => "function"@,
        SymbolKind::Method => "method"@,
        SymbolKind::Struct => "struct"@,
        SymbolKind::Enum => "enum"@,
        SymbolKind::Trait => "trait"@,
        SymbolKind::Interface => "interface"@,
        SymbolKind::TypeAlias => "type_alias"@,
        SymbolKind::Constant => "constant"@,
        SymbolKind::Variable => "variable"@,
        SymbolKind::Class => "class"@,
        SymbolKind::Module => "module"@,
        SymbolKind::Import => "import"@,
        SymbolKind::Unknown => "unknown"@,
    }
}

/// The kind that a stored name denotes; any other text is `Unknown`.
pub open spec fn kind_of_name(v: Seq<char>) -> SymbolKind {
    if v == "function"@ {
        SymbolKind::Function
    } else if v == "method"@ {
        SymbolKind::Method
    } else if v == "struct"@ {
        SymbolKind::Struct
    } else if v == "enum"@ {
        SymbolKind::Enum
    } else if v == "trait"@ {
        SymbolKind::Trait
    } else if v == "interface"@ {
        SymbolKind::Interface
    } else if v == "type_alias"@ {
        SymbolKind::TypeAlias
    } else if v == "constant"@ {
        SymbolKind::Constant
    } else if v == "variable"@ {
        SymbolKind::Variable
    } else if v == "class"@ {
        SymbolKind::Class
    } else if v == "module"@ {
        SymbolKind::Module
    } else if v == "import"@ {
        SymbolKind::Import
    } else {
        SymbolKind::Unknown
    }
}

impl SymbolKind {
    /// The stored name of this kind (its display form).
    pub fn name(&self) -> (r: String)
        ensures
            r@ == kind_name(*self),
    {
        let s = match self {
            SymbolKind::Function => "function",
            SymbolKind::Method => "method",
            SymbolKind::Struct => "struct",
            SymbolKind::Enum => "enum",
            SymbolKind::Trait => "trait",
            SymbolKind::Interface => "interface",
            SymbolKind::TypeAlias => "type_alias",
            SymbolKind::Constant => "constant",
            SymbolKind::Variable => "variable",
            SymbolKind::Class => "class",
            SymbolKind::Module => "module",
            SymbolKind::Import => "import",
            SymbolKind::Unknown => "unknown",
        };
        s.to_string()
    }

    /// The kind that `value` names; any unrecognised text gives `Unknown`.
    pub fn from_name(value: &str) -> (k: SymbolKind)
        ensures
            k == kind_of_name(value@),
    {
        if str_eq(value, "function") {
            SymbolKind::Function
        } else if str_eq(value, "method") {
            SymbolKind::Method
        } else if str_eq(value, "struct") {
            SymbolKind::Struct
        } else if str_eq(value, "enum") {
            SymbolKind::Enum
        } else if str_eq(value, "trait") {
            SymbolKind::Trait
        } else if str_eq(value, "interface") {
            SymbolKind::Interface
        } else if str_eq(value, "type_alias") {
            SymbolKind::TypeAlias
        } else if str_eq(value, "constant") {
            SymbolKind::Constant
        } else if str_eq(value, "variable") {
            SymbolKind::Variable
        } else if str_eq(value, "class") {
            SymbolKind::Class
        } else if str_eq(value, "module") {
            SymbolKind::Module
        } else if str_eq(value, "import") {
            SymbolKind::Import
        } else {
            SymbolKind::Unknown
        }
    }
}

impl std::str::FromStr for SymbolKind {
    type Err = std::convert::Infallible;

    fn from_str(value: &str) -> (r: Result<Self, Self::Err>)
        ensures
            r == Ok::<SymbolKind, std::convert::Infallible>(kind_of_name(value@)),
    {
        Ok(SymbolKind::from_name(value))
    }
}

/// Reading back the stored name of any kind gives the same kind.
pub proof fn law_kind_name_roundtrip(k: SymbolKind)
    ensures
        kind_of_name(kind_name(k)) == k,
{
    reveal_strlit("function");
    reveal_strlit("method");
    reveal_strlit("struct");
    reveal_strlit("enum");
    reveal_strlit("trait");
    reveal_strlit("interface");
    reveal_strlit("type_alias");
    reveal_strlit("constant");
    reveal_strlit("variable");
    reveal_strlit("class");
    reveal_strlit("module");
    reveal_strlit("import");
    reveal_strlit("unknown");
    match k {
        SymbolKind::Function => {
        },
        SymbolKind::Method => {
            assert("method"@.len() != "function"@.len());
        },
        SymbolKind::Struct => {
            assert("struct"@.len() != "function"@.len());
            assert("struct"@[0] != "method"@[0]);
        },
        SymbolKind::Enum => {
            assert("enum"@.len() != "function"@.len());
            assert("enum"@.len() != "method"@.len());
            assert("enum"@.len() != "struct"@.len());
        },
        SymbolKind::Trait => {
            assert("trait"@.len() != "function"@.len());
            assert("trait"@.len() != "method"@.len());
            assert("trait"@.len() != "struct"@.len());
            assert("trait"@.len() != "enum"@.len());
        },
        SymbolKind::Interface => {
            assert("interface"@.len() != "function"@.len());
            assert("interface"@.len() != "method"@.len());
            assert("interface"@.len() != "struct"@.len());
            assert("interface"@.len() != "enum"@.len());
            assert("interface"@.len() != "trait"@.len());
        },
        SymbolKind::TypeAlias => {
            assert("type_alias"@.len() != "function"@.len());
            assert("type_alias"@.len() != "method"@.len());
            assert("type_alias"@.len() != "struct"@.len());
            assert("type_alias"@.len() != "enum"@.len());
            assert("type_alias"@.len() != "trait"@.len());
            assert("type_alias"@[0] != "interface"@[0]);
        },
        SymbolKind::Constant => {
            assert("constant"@[0] != "function"@[0]);
            assert("constant"@.len() != "method"@.len());
            assert("constant"@.len() != "struct"@.len());
            assert("constant"@.len() != "enum"@.len());
            assert("constant"@.len() != "trait"@.len());
            assert("constant"@.len() != "interface"@.len());
            assert("constant"@.len() != "type_alias"@.len());
        },
        SymbolKind::Variable => {
            assert("variable"@[0] != "function"@[0]);
            assert("variable"@.len() != "method"@.len());
            assert("variable"@.len() != "struct"@.len());
            assert("variable"@.len() != "enum"@.len());
            assert("variable"@.len() != "trait"@.len());
            assert("variable"@.len() != "interface"@.len());
            assert("variable"@.len() != "type_alias"@.len());
            assert("variable"@[0] != "constant"@[0]);
        },
        SymbolKind::Class => {
            assert("class"@.len() != "function"@.len());
            assert("class"@.len() != "method"@.len());
            assert("class"@.len() != "struct"@.len());
            assert("class"@.len() != "enum"@.len());
            assert("class"@[0] != "trait"@[0]);
            assert("class"@.len() != "interface"@.len());
            assert("class"@.len() != "type_alias"@.len());
            assert("class"@.len() != "constant"@.len());
            assert("class"@.len() != "variable"@.len());
        },
        SymbolKind::Module => {
            assert("module"@.len() != "function"@.len());
            assert("module"@[1] != "method"@[1]);
            assert("module"@[0] != "struct"@[0]);
            assert("module"@.len() != "enum"@.len());
            assert("module"@.len() != "trait"@.len());
            assert("module"@.len() != "interface"@.len());
            assert("module"@.len() != "type_alias"@.len());
            assert("module"@.len() != "constant"@.len());
            assert("module"@.len() != "variable"@.len());
            assert("module"@.len() != "class"@.len());
        },
        SymbolKind::Import => {
            assert("import"@.len() != "function"@.len());
            assert("import"@[0] != "method"@[0]);
            assert("import"@[0] != "struct"@[0]);
            assert("import"@.len() != "enum"@.len());
            assert("import"@.len() != "trait"@.len());
            assert("import"@.len() != "interface"@.len());
            assert("import"@.len() != "type_alias"@.len());
            assert("import"@.len() != "constant"@.len());
            assert("import"@.len() != "variable"@.len());
            assert("import"@.len() != "class"@.len());
            assert("import"@[0] != "module"@[0]);
        },
        SymbolKind::Unknown => {
            assert("unknown"@.len() != "function"@.len());
            assert("unknown"@.len() != "method"@.len());
            assert("unknown"@.len() != "struct"@.len());
            assert("unknown"@.len() != "enum"@.len());
            assert("unknown"@.len() != "trait"@.len());
            assert("unknown"@.len() != "interface"@.len());
            assert("unknown"@.len() != "type_alias"@.len());
            assert("unknown"@.len() != "constant"@.len());
            assert("unknown"@.len() != "variable"@.len());
            assert("unknown"@.len() != "class"@.len());
            assert("unknown"@.len() != "module"@.len());
            assert("unknown"@.len() != "import"@.len());
        },
    }
}

/// A file row of the store.
#[derive(Debug, Clone, PartialEq)]
pub struct FileRow {
    /// Row id in the `files` table.
    pub id: i64,
    /// File path as stored.
    pub path: String,
    /// Last-modified timestamp recorded when indexed.
    pub mtime: i64,
    /// Language identifier recorded for the file.
    pub language: String,
    /// Indexing timestamp.
    pub indexed_at: i64,
}

/// A symbol row of the store.
#[derive(Debug, Clone, PartialEq)]
pub struct SymbolRow {
    /// Row id in the `symbols` table.
    pub id: i64,
    /// Associated file row id.
    pub file_id: i64,
    /// Symbol kind.
    pub kind: SymbolKind,
    /// Symbol name.
    pub name: String,
    /// Start line.
    pub start_line: usize,
    /// Start column.
    pub start_col: usize,
    /// End line.
    pub end_line: usize,
    /// End column.
    pub end_col: usize,
    /// Optional signature for display.
    pub signature: Option<String>,
}

/// Values used to insert or update a file row.
#[derive(Debug, Clone, PartialEq)]
pub struct NewFileRow {
    pub path: String,
    pub mtime: i64,
    pub language: String,
}

/// Values used to insert a new symbol.
#[derive(Debug, Clone, PartialEq)]
pub struct NewSymbolRow {
    pub file_id: i64,
    pub kind: SymbolKind,
    pub name: String,
    pub start_line: usize,
    pub start_col: usize,
    pub end_line: usize,
    pub end_col: usize,
    pub signature: Option<String>,
}

/// The decimal writing of an integer that may be negative.
pub open spec fn signed_decimal(v: int) -> Seq<char> {
    if v < 0 {
        seq!['-'] + decimal((-v) as nat)
    } else {
        decimal(v as nat)
    }
}

/// `value` as an `i64`, or a database error when it does not fit.
pub fn usize_to_i64(value: usize) -> (r: Result<i64, AppError>)
    ensures
        value <= i64::MAX ==> r == Ok::<i64, AppError>(value as i64),
        value > i64::MAX ==> (r matches Err(AppError::DbError(m)) && m@
            == "value out of range for i64: "@ + decimal(value as nat)),
{
    if value as u128 <= i64::MAX as u128 {
        Ok(value as i64)
    } else {
        let mut m = String::new();
        push_str(&mut m, "value out of range for i64: ");
        push_decimal(&mut m, value as u128);
        Err(AppError::DbError(m))
    }
}

/// `value` as a `usize`, or a database error when it is negative or too large.
pub fn i64_to_usize(value: i64) -> (r: Result<usize, AppError>)
    ensures
        0 <= value <= usize::MAX ==> r == Ok::<usize, AppError>(value as usize),
        !(0 <= value <= usize::MAX) ==> (r matches Err(AppError::DbError(m)) && m@
            == "value out of range for usize: "@ + signed_decimal(value as int)),
{
    if value >= 0 && value as u128 <= usize::MAX as u128 {
        Ok(value as usize)
    } else {
        let mut m = String::new();
        push_str(&mut m, "value out of range for usize: ");
        if value < 0 {
            push_char(&mut m, '-');
            let magnitude: u128 = (0i128 - value as i128) as u128;
            push_decimal(&mut m, magnitude);
            assert(m@ =~= "value out of range for usize: "@ + signed_decimal(value as int));
        } else {
            push_decimal(&mut m, value as u128);
        }
        Err(AppError::DbError(m))
    }
}

/// A symbol row from the columns that the store returns: the kind is read
/// from its stored name and each position must fit in a `usize`.
pub fn symbol_row_from_columns(
    id: i64,
    file_id: i64,
    kind: &str,
    name: String,
    start_line: i64,
    start_col: i64,
    end_line: i64,
    end_col: i64,
    signature: Option<String>,
) -> (r: Result<SymbolRow, AppError>)
    ensures
        match r {
            Ok(row) => {
                &&& 0 <= start_line <= usize::MAX && 0 <= start_col <= usize::MAX
                &&& 0 <= end_line <= usize::MAX && 0 <= end_col <= usize::MAX
                &&& row.id == id && row.file_id == file_id
                &&& row.kind == kind_of_name(kind@)
                &&& row.name == name
                &&& row.start_line == start_line && row.start_col == start_col
                &&& row.end_line == end_line && row.end_col == end_col
                &&& row.signature == signature
            },
            Err(e) => {
                &&& e is DbError
                &&& !(0 <= start_line <= usize::MAX && 0 <= start_col <= usize::MAX && 0 <= end_line
                    <= usize::MAX && 0 <= end_col <= usize::MAX)
            },
        },
{
    let start_line = i64_to_usize(start_line)?;
    let start_col = i64_to_usize(start_col)?;
    let end_line = i64_to_usize(end_line)?;
    let end_col = i64_to_usize(end_col)?;
    Ok(
        SymbolRow {
            id,
            file_id,
            kind: SymbolKind::from_name(kind),
            name,
            start_line,
            start_col,
            end_line,
            end_col,
            signature,
        },
    )
}

/// The positions of a new symbol as `i64` column values, in the order start
/// line, start column, end line, end column; a database error when one does
/// not fit.
pub fn symbol_position_columns(row: &NewSymbolRow) -> (r: Result<(i64, i64, i64, i64), AppError>)
    ensures
        match r {
            Ok(cols) => {
                &&& cols.0 == row.start_line && cols.1 == row.start_col
                &&& cols.2 == row.end_line && cols.3 == row.end_col
            },
            Err(e) => {
                &&& e is DbError
                &&& !(row.start_line <= i64::MAX && row.start_col <= i64::MAX && row.end_line
                    <= i64::MAX && row.end_col <= i64::MAX)
            },
        },
{
    let a = usize_to_i64(row.start_line)?;
    let b = usize_to_i64(row.start_col)?;
    let c = usize_to_i64(row.end_line)?;
    let d = usize_to_i64(row.end_col)?;
    Ok((a, b, c, d))
}

/// `text` escaped for a `LIKE` pattern with `\` as escape character: each
/// `%`, `_` and `\` is preceded by `\`, so that it stands for itself.
pub open spec fn like_escaped(text: Seq<char>) -> Seq<char>
    decreases text.len(),
{
    if text.len() == 0 {
        Seq::empty()
    } else {
        let c = text.last();
        like_escaped(text.drop_last()) + if c == '%' || c == '_' || c == '\\' {
            seq!['\\', c]
        } else {
            seq![c]
        }
    }
}

/// Appends `text`, escaped for a `LIKE` pattern, to `out`.
fn push_like_escaped(out: &mut String, text: &str)
    ensures
        final(out)@ == old(out)@ + like_escaped(text@),
{
    let cs = chars_of(text);
    let mut k: usize = 0;
    while k < cs.len()
        invariant
            k <= cs@.len(),
            cs@ == text@,
            out@ == old(out)@ + like_escaped(text@.take(k as int)),
        decreases cs@.len() - k,
    {
        let c = cs[k];
        assert(text@.take(k as int + 1).drop_last() =~= text@.take(k as int));
        assert(text@.take(k as int + 1).last() == c);
        if c == '%' || c == '_' || c == '\\' {
            push_char(out, '\\');
        }
        push_char(out, c);
        k = k + 1;
    }
    assert(text@.take(cs@.len() as int) =~= text@);
}

/// The `LIKE` pattern (with `\` as escape character) that finds names
/// starting with `prefix`.
pub fn name_prefix_pattern(prefix: &str) -> (r: String)
    ensures
        r@ == like_escaped(prefix@) + "%"@,
{
    let mut out = String::new();
    push_like_escaped(&mut out, prefix);
    push_str(&mut out, "%");
    out
}

/// The `LIKE` pattern (with `\` as escape character) that finds names
/// containing `needle`.
pub fn name_contains_pattern(needle: &str) -> (r: String)
    ensures
        r@ == "%"@ + like_escaped(needle@) + "%"@,
{
    let mut out = String::new();
    push_str(&mut out, "%");
    push_like_escaped(&mut out, needle);
    push_str(&mut out, "%");
    out
}

} // verus!
