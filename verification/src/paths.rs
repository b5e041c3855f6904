//! Unix path helpers over strings: joining a relative name onto a directory
//! and reading a path's final extension, with `std::path`'s rules.

use crate::text::{chars_of, push_char, push_str, string_of};
use vstd::prelude::*;

verus! {

/// `dir` joined with the relative `name`: a separator is added unless `dir`
/// is empty or already ends with one.
pub open spec fn join_path(dir: Seq<char>, name: Seq<char>) -> Seq<char> {
    if dir.len() == 0 {
        name
    } else if dir.last() == '/' {
        dir + name
    } else {
        dir.push('/') + name
    }
}

/// Joins the relative `name` onto `dir` (the rule of `Path::join` for a
/// relative name on Unix).
pub fn join_relative(dir: &str, name: &str) -> (r: String)
    ensures
        r@ == join_path(dir@, name@),
{
    let cs = chars_of(dir);
    let mut s = string_of(cs.as_slice());
    if cs.len() > 0 && cs[cs.len() - 1] != '/' {
        push_char(&mut s, '/');
    }
    push_str(&mut s, name);
    s
}

/// The index where the piece of `path` that ends at `end` starts: just after
/// the previous `/`, or 0.
pub open spec fn piece_start(path: Seq<char>, end: int) -> int
    decreases end,
{
    if end <= 0 {
        0
    } else if path[end - 1] == '/' {
        end
    } else {
        piece_start(path, end - 1)
    }
}

/// The span of the last piece of `path[..end]` that is neither empty nor `.`.
pub open spec fn last_piece(path: Seq<char>, end: int) -> Option<(int, int)>
    decreases end,
{
    if end <= 0 {
        None
    } else if path[end - 1] == '/' {
        last_piece(path, end - 1)
    } else {
        let s = piece_start(path, end);
        if end - s == 1 && path[s] == '.' {
            last_piece(path, s)
        } else {
            Some((s, end))
        }
    }
}

/// The final component of `path`, unless it is `..` or there is none
/// (`Path::file_name`).
pub open spec fn file_name(path: Seq<char>) -> Option<Seq<char>> {
    match last_piece(path, path.len() as int) {
        None => None,
        Some(span) => {
            let piece = path.subrange(span.0, span.1);
            if piece == seq!['.', '.'] {
                None
            } else {
                Some(piece)
            }
        },
    }
}

/// The text after the last `.` of a file name, unless the name has no `.`
/// or its only `.` is its first character (`Path::extension`).
pub open spec fn name_extension(name: Seq<char>) -> Option<Seq<char>> {
    match last_dot(name, name.len() as int) {
        None => None,
        Some(d) => if d == 0 {
            None
        } else {
            Some(name.subrange(d + 1, name.len() as int))
        },
    }
}

/// The index of the last `.` among the first `n` characters of `name`.
pub open spec fn last_dot(name: Seq<char>, n: int) -> Option<int>
    decreases n,
{
    if n <= 0 {
        None
    } else if name[n - 1] == '.' {
        Some(n - 1)
    } else {
        last_dot(name, n - 1)
    }
}

/// The extension of a path's file name (`Path::extension`).
pub open spec fn path_extension(path: Seq<char>) -> Option<Seq<char>> {
    match file_name(path) {
        None => None,
        Some(name) => name_extension(name),
    }
}

proof fn lemma_piece_start_bounds(path: Seq<char>, end: int)
    requires
        0 <= end <= path.len(),
    ensures
        0 <= piece_start(path, end) <= end,
        forall|k: int| piece_start(path, end) <= k < end ==> path[k] != '/',
        piece_start(path, end) > 0 ==> path[piece_start(path, end) - 1] == '/',
    decreases end,
{
    if end > 0 && path[end - 1] != '/' {
        lemma_piece_start_bounds(path, end - 1);
    }
}

proof fn lemma_last_piece_bounds(path: Seq<char>, end: int)
    requires
        0 <= end <= path.len(),
    ensures
        last_piece(path, end) matches Some(sp) ==> 0 <= sp.0 < sp.1 <= end,
    decreases end,
{
    if end > 0 {
        if path[end - 1] == '/' {
            lemma_last_piece_bounds(path, end - 1);
        } else {
            lemma_piece_start_bounds(path, end);
            let s = piece_start(path, end);
            if end - s == 1 && path[s] == '.' {
                lemma_last_piece_bounds(path, s);
            }
        }
    }
}

fn find_piece_start(cs: &[char], end: usize) -> (s: usize)
    requires
        end <= cs@.len(),
    ensures
        s == piece_start(cs@, end as int),
{
    let mut s = end;
    while s > 0 && cs[s - 1] != '/'
        invariant
            s <= end <= cs@.len(),
            piece_start(cs@, s as int) == piece_start(cs@, end as int),
        decreases s,
    {
        s = s - 1;
    }
    s
}

fn find_last_piece(cs: &[char]) -> (r: Option<(usize, usize)>)
    ensures
        r matches Some(sp) ==> last_piece(cs@, cs@.len() as int) == Some((sp.0 as int, sp.1 as int)),
        r is None <==> last_piece(cs@, cs@.len() as int) is None,
{
    let mut end = cs.len();
    while end > 0
        invariant
            end <= cs@.len(),
            last_piece(cs@, end as int) == last_piece(cs@, cs@.len() as int),
        decreases end,
    {
        if cs[end - 1] == '/' {
            end = end - 1;
        } else {
            let s = find_piece_start(cs, end);
            proof {
                lemma_piece_start_bounds(cs@, end as int);
            }
            if end - s == 1 && cs[s] == '.' {
                end = s;
            } else {
                return Some((s, end));
            }
        }
    }
    None
}

/// The final component of `path` (`Path::file_name`).
pub fn path_file_name(path: &str) -> (r: Option<String>)
    ensures
        r matches Some(s) ==> file_name(path@) == Some(s@),
        r is None <==> file_name(path@) is None,
{
    let cs = chars_of(path);
    proof {
        lemma_last_piece_bounds(cs@, cs@.len() as int);
    }
    match find_last_piece(cs.as_slice()) {
        None => None,
        Some((a, b)) => {
            if b - a == 2 && cs[a] == '.' && cs[a + 1] == '.' {
                assert(cs@.subrange(a as int, b as int) =~= seq!['.', '.']);
                None
            } else {
                let piece = slice_chars(cs.as_slice(), a, b);
                assert(piece@ != seq!['.', '.']);
                Some(piece)
            }
        },
    }
}

/// The string of the characters `cs[a..b]`.
pub fn slice_chars(cs: &[char], a: usize, b: usize) -> (r: String)
    requires
        a <= b <= cs@.len(),
    ensures
        r@ == cs@.subrange(a as int, b as int),
{
    let mut s = String::new();
    let mut k = a;
    while k < b
        invariant
            a <= k <= b <= cs@.len(),
            s@ == cs@.subrange(a as int, k as int),
        decreases b - k,
    {
        push_char(&mut s, cs[k]);
        assert(cs@.subrange(a as int, k as int + 1) =~= cs@.subrange(a as int, k as int).push(
            cs@[k as int],
        ));
        k = k + 1;
    }
    s
}

/// The extension of the file name of `path` (`Path::extension`).
pub fn path_extension_of(path: &str) -> (r: Option<String>)
    ensures
        r matches Some(s) ==> path_extension(path@) == Some(s@),
        r is None <==> path_extension(path@) is None,
{
    match path_file_name(path) {
        None => None,
        Some(name) => {
            let cs = chars_of(name.as_str());
            let n = cs.len();
            let mut k = n;
            while k > 0 && cs[k - 1] != '.'
                invariant
                    k <= n == cs@.len(),
                    last_dot(cs@, k as int) == last_dot(cs@, n as int),
                decreases k,
            {
                k = k - 1;
            }
            if k <= 1 {
                None
            } else {
                Some(slice_chars(cs.as_slice(), k, n))
            }
        },
    }
}


/// In `a + "." + e` with no `.` in `e`, the last `.` among the first `n`
/// characters, for `n` past the `.`, is the one after `a`.
proof fn lemma_last_dot_after(name: Seq<char>, a: Seq<char>, e: Seq<char>, n: int)
    requires
        name == a + seq!['.'] + e,
        !e.contains('.'),
        a.len() < n <= name.len(),
    ensures
        last_dot(name, n) == Some(a.len() as int),
    decreases n,
{
    if n - 1 > a.len() {
        assert(name[n - 1] == e[n - 1 - a.len() - 1]);
        assert(e[n - 2 - a.len()] != '.');
        lemma_last_dot_after(name, a, e, n - 1);
    } else {
        assert(name[n - 1] == '.');
    }
}

/// The extension of a file name is the text after its last `.`: for a name
/// `a + "." + e` whose stem `a` is not empty and whose `e` has no `.`, the
/// extension is `e` (so `x.test.ts` has the extension `ts`).
pub proof fn law_extension_is_text_after_last_dot(a: Seq<char>, e: Seq<char>)
    requires
        a.len() > 0,
        !e.contains('.'),
    ensures
        name_extension(a + seq!['.'] + e) == Some(e),
{
    let name = a + seq!['.'] + e;
    lemma_last_dot_after(name, a, e, name.len() as int);
    assert(name.subrange(a.len() as int + 1, name.len() as int) =~= e);
}

/// The piece of `d + f` that ends at any point within `f` starts where `f`
/// starts, when `f` has no `/` and `d` is empty or ends with `/`.
proof fn lemma_piece_start_in(path: Seq<char>, d: Seq<char>, f: Seq<char>, end: int)
    requires
        path == d + f,
        !f.contains('/'),
        d.len() == 0 || d.last() == '/',
        d.len() <= end <= path.len(),
    ensures
        piece_start(path, end) == d.len(),
    decreases end,
{
    if end > d.len() {
        assert(path[end - 1] == f[end - 1 - d.len()]);
        lemma_piece_start_in(path, d, f, end - 1);
    } else if end > 0 {
        assert(path[end - 1] == d.last());
    }
}

/// The file name of `d + f`, with `d` empty or ending with `/`, is `f` when
/// `f` has no `/` and is neither empty, `.` nor `..`.
pub proof fn law_file_name_is_last_component(d: Seq<char>, f: Seq<char>)
    requires
        d.len() == 0 || d.last() == '/',
        f.len() > 0,
        !f.contains('/'),
        f != seq!['.'],
        f != seq!['.', '.'],
    ensures
        file_name(d + f) == Some(f),
{
    let path = d + f;
    lemma_piece_start_in(path, d, f, path.len() as int);
    assert(path[path.len() - 1] == f[f.len() - 1]);
    assert(f.contains(f[f.len() - 1]));
    if path.len() - d.len() == 1 && path[d.len() as int] == '.' {
        assert(f =~= seq!['.']);
    }
    assert(path.subrange(d.len() as int, path.len() as int) =~= f);
}

/// The extension of a path is the text after the last `.` of its file name:
/// for `d + a + "." + e`, with `d` empty or ending with `/`, a non-empty stem
/// `a`, a non-empty `e`, neither with a `/`, and no `.` in `e`, it is `e`.
pub proof fn law_path_extension_after_last_dot(d: Seq<char>, a: Seq<char>, e: Seq<char>)
    requires
        d.len() == 0 || d.last() == '/',
        a.len() > 0,
        e.len() > 0,
        !a.contains('/'),
        !e.contains('/'),
        !e.contains('.'),
    ensures
        path_extension(d + a + seq!['.'] + e) == Some(e),
{
    let f = a + seq!['.'] + e;
    assert(d + a + seq!['.'] + e =~= d + f);
    assert(!f.contains('/')) by {
        if f.contains('/') {
            let k = choose|k: int| 0 <= k < f.len() && f[k] == '/';
            if k < a.len() {
                assert(a[k] == '/');
            } else if k > a.len() {
                assert(e[k - a.len() - 1] == '/');
            }
        }
    }
    assert(f.len() >= 3);
    law_file_name_is_last_component(d, f);
    law_extension_is_text_after_last_dot(a, e);
}

} // verus!
