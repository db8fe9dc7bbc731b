//! Go sources: comment stripping and body extraction.
//!
//! The scanners read the text character by character; every delimiter they
//! look for is ASCII, so this is the byte scanner's reading of UTF-8 text,
//! and text outside comments comes out unchanged. Positions are character
//! positions.
use vstd::prelude::*;
use crate::stable_hash::{spec_body_hash, stable_hash_body};
use crate::text::{append, append_str, chars_of, count_lines, decimal, decimal_vec, ends_with, lines, slice_vec, trim_end};

verus! {

/// Lexer state of the Go scanners.
#[derive(PartialEq, Eq, Structural, Clone, Copy)]
pub enum GoLex {
    /// Ordinary code.
    Code,
    /// Inside a `//` comment.
    Line,
    /// Inside a `/* */` comment.
    Block,
    /// Inside a `"..."` string (backslash escapes, ends at a line break).
    Quoted,
    /// Inside a `` `...` `` raw string.
    Raw,
    /// Inside a `'...'` rune literal (backslash escapes).
    Rune,
}

// ───────────────────────── comment stripping ─────────────────────────

/// Output of `strip_go_comments` from position `i` in state `st`.
pub open spec fn go_strip_from(b: Seq<char>, i: int, st: GoLex) -> Seq<char>
    decreases b.len() - i,
{
    if i < 0 || i >= b.len() {
        seq![]
    } else {
        let c = b[i];
        let nx = i + 1 < b.len();
        match st {
            GoLex::Line => {
                if c == '\n' {
                    seq!['\n'] + go_strip_from(b, i + 1, GoLex::Code)
                } else {
                    go_strip_from(b, i + 1, GoLex::Line)
                }
            },
            GoLex::Block => {
                if c == '*' && nx && b[i + 1] == '/' {
                    go_strip_from(b, i + 2, GoLex::Code)
                } else {
                    go_strip_from(b, i + 1, GoLex::Block)
                }
            },
            GoLex::Quoted => {
                if c == '\\' && nx {
                    seq![c, b[i + 1]] + go_strip_from(b, i + 2, GoLex::Quoted)
                } else if c == '"' || c == '\n' {
                    seq![c] + go_strip_from(b, i + 1, GoLex::Code)
                } else {
                    seq![c] + go_strip_from(b, i + 1, GoLex::Quoted)
                }
            },
            GoLex::Raw => {
                if c == '`' {
                    seq![c] + go_strip_from(b, i + 1, GoLex::Code)
                } else {
                    seq![c] + go_strip_from(b, i + 1, GoLex::Raw)
                }
            },
            GoLex::Rune => {
                if c == '\\' && nx {
                    seq![c, b[i + 1]] + go_strip_from(b, i + 2, GoLex::Rune)
                } else if c == '\'' {
                    seq![c] + go_strip_from(b, i + 1, GoLex::Code)
                } else {
                    seq![c] + go_strip_from(b, i + 1, GoLex::Rune)
                }
            },
            GoLex::Code => {
                if c == '/' && nx && b[i + 1] == '/' {
                    go_strip_from(b, i + 2, GoLex::Line)
                } else if c == '/' && nx && b[i + 1] == '*' {
                    go_strip_from(b, i + 2, GoLex::Block)
                } else if c == '"' {
                    seq![c] + go_strip_from(b, i + 1, GoLex::Quoted)
                } else if c == '`' {
                    seq![c] + go_strip_from(b, i + 1, GoLex::Raw)
                } else if c == '\'' {
                    seq![c] + go_strip_from(b, i + 1, GoLex::Rune)
                } else {
                    seq![c] + go_strip_from(b, i + 1, GoLex::Code)
                }
            },
        }
    }
}

/// Strips `//` and `/* */` comments from Go code while respecting strings
/// and runes.
pub fn strip_go_comments(code: &str) -> (res: String)
    ensures
        res@ == go_strip_from(code@, 0, GoLex::Code),
{
    let bytes = chars_of(code);
    let ghost b = code@;
    let n = bytes.len();
    let mut out = String::new();
    let mut st = GoLex::Code;
    let mut i: usize = 0;
    while i < n
        invariant
            bytes@ == b,
            n == b.len(),
            i <= n,
            out@ + go_strip_from(b, i as int, st) == go_strip_from(b, 0, GoLex::Code),
        decreases n - i,
    {
        let c = bytes[i];
        let nx = i + 1 < n;
        let ghost old_out = out@;
        let ghost old_i = i as int;
        let ghost old_st = st;
        match st {
            GoLex::Line => {
                if c == '\n' {
                    out.push('\n');
                    st = GoLex::Code;
                }
                i += 1;
            },
            GoLex::Block => {
                if c == '*' && nx && bytes[i + 1] == '/' {
                    st = GoLex::Code;
                    i += 2;
                } else {
                    i += 1;
                }
            },
            GoLex::Quoted => {
                out.push(c);
                if c == '\\' && nx {
                    out.push(bytes[i + 1]);
                    i += 2;
                } else {
                    if c == '"' || c == '\n' {
                        st = GoLex::Code;
                    }
                    i += 1;
                }
            },
            GoLex::Raw => {
                out.push(c);
                if c == '`' {
                    st = GoLex::Code;
                }
                i += 1;
            },
            GoLex::Rune => {
                out.push(c);
                if c == '\\' && nx {
                    out.push(bytes[i + 1]);
                    i += 2;
                } else {
                    if c == '\'' {
                        st = GoLex::Code;
                    }
                    i += 1;
                }
            },
            GoLex::Code => {
                if c == '/' && nx && bytes[i + 1] == '/' {
                    st = GoLex::Line;
                    i += 2;
                } else if c == '/' && nx && bytes[i + 1] == '*' {
                    st = GoLex::Block;
                    i += 2;
                } else {
                    out.push(c);
                    if c == '"' {
                        st = GoLex::Quoted;
                    } else if c == '`' {
                        st = GoLex::Raw;
                    } else if c == '\'' {
                        st = GoLex::Rune;
                    }
                    i += 1;
                }
            },
        }
        proof {
            assert(old_out + go_strip_from(b, old_i, old_st) =~= out@ + go_strip_from(
                b,
                i as int,
                st,
            ));
        }
    }
    proof {
        assert(out@ + go_strip_from(b, i as int, st) =~= out@);
    }
    out
}

// ───────────────────────── brace matching ─────────────────────────

/// Position of the `}` closing a block whose body is scanned from position `j`
/// with nesting `depth`, skipping comments, strings and runes.
pub open spec fn matching_brace_from(b: Seq<char>, j: int, st: GoLex, depth: int) -> Option<int>
    decreases b.len() + 1 - j,
{
    if j < 0 || j >= b.len() || depth <= 0 {
        None
    } else {
        let c = b[j];
        let nx = j + 1 < b.len();
        match st {
            GoLex::Line => {
                if c == '\n' {
                    matching_brace_from(b, j + 1, GoLex::Code, depth)
                } else {
                    matching_brace_from(b, j + 1, GoLex::Line, depth)
                }
            },
            GoLex::Block => {
                if c == '*' && nx && b[j + 1] == '/' {
                    matching_brace_from(b, j + 2, GoLex::Code, depth)
                } else {
                    matching_brace_from(b, j + 1, GoLex::Block, depth)
                }
            },
            GoLex::Quoted => {
                if c == '\\' {
                    matching_brace_from(b, j + 2, GoLex::Quoted, depth)
                } else if c == '"' || c == '\n' {
                    matching_brace_from(b, j + 1, GoLex::Code, depth)
                } else {
                    matching_brace_from(b, j + 1, GoLex::Quoted, depth)
                }
            },
            GoLex::Raw => {
                if c == '`' {
                    matching_brace_from(b, j + 1, GoLex::Code, depth)
                } else {
                    matching_brace_from(b, j + 1, GoLex::Raw, depth)
                }
            },
            GoLex::Rune => {
                if c == '\\' {
                    matching_brace_from(b, j + 2, GoLex::Rune, depth)
                } else if c == '\'' {
                    matching_brace_from(b, j + 1, GoLex::Code, depth)
                } else {
                    matching_brace_from(b, j + 1, GoLex::Rune, depth)
                }
            },
            GoLex::Code => {
                if c == '/' && nx && b[j + 1] == '/' {
                    matching_brace_from(b, j + 2, GoLex::Line, depth)
                } else if c == '/' && nx && b[j + 1] == '*' {
                    matching_brace_from(b, j + 2, GoLex::Block, depth)
                } else if c == '"' {
                    matching_brace_from(b, j + 1, GoLex::Quoted, depth)
                } else if c == '`' {
                    matching_brace_from(b, j + 1, GoLex::Raw, depth)
                } else if c == '\'' {
                    matching_brace_from(b, j + 1, GoLex::Rune, depth)
                } else if c == '{' {
                    matching_brace_from(b, j + 1, GoLex::Code, depth + 1)
                } else if c == '}' {
                    if depth - 1 == 0 {
                        Some(j)
                    } else {
                        matching_brace_from(b, j + 1, GoLex::Code, depth - 1)
                    }
                } else {
                    matching_brace_from(b, j + 1, GoLex::Code, depth)
                }
            },
        }
    }
}

/// The block opened at position `open`: `(open, close)` when a matching `}` exists.
pub open spec fn spec_matching_brace(b: Seq<char>, open: int) -> Option<(int, int)> {
    match matching_brace_from(b, open + 1, GoLex::Code, 1) {
        Some(j) => Some((open, j)),
        None => None,
    }
}

pub proof fn lemma_matching_brace_from(b: Seq<char>, j: int, st: GoLex, depth: int)
    requires
        0 <= j,
    ensures
        matching_brace_from(b, j, st, depth) matches Some(k) ==> j <= k < b.len() && b[k]
            == '}',
    decreases b.len() + 1 - j,
{
    if j < b.len() && depth > 0 {
        let c = b[j];
        lemma_matching_brace_from(b, j + 1, GoLex::Code, depth);
        lemma_matching_brace_from(b, j + 1, GoLex::Line, depth);
        lemma_matching_brace_from(b, j + 1, GoLex::Block, depth);
        lemma_matching_brace_from(b, j + 1, GoLex::Quoted, depth);
        lemma_matching_brace_from(b, j + 1, GoLex::Raw, depth);
        lemma_matching_brace_from(b, j + 1, GoLex::Rune, depth);
        lemma_matching_brace_from(b, j + 2, GoLex::Code, depth);
        lemma_matching_brace_from(b, j + 2, GoLex::Line, depth);
        lemma_matching_brace_from(b, j + 2, GoLex::Block, depth);
        lemma_matching_brace_from(b, j + 2, GoLex::Quoted, depth);
        lemma_matching_brace_from(b, j + 2, GoLex::Rune, depth);
        lemma_matching_brace_from(b, j + 1, GoLex::Code, depth + 1);
        lemma_matching_brace_from(b, j + 1, GoLex::Code, depth - 1);
    }
}

/// Find the `}` matching the `{` at position `open`.
pub fn find_matching_brace(source: &str, open: usize) -> (res: Option<(usize, usize)>)
    ensures
        res matches Some(r) ==> spec_matching_brace(source@, open as int) == Some(
            (r.0 as int, r.1 as int),
        ),
        res is None ==> spec_matching_brace(source@, open as int) is None,
{
    let v = chars_of(source);
    matching_brace_in(&v, open)
}

fn matching_brace_in(bytes: &Vec<char>, open: usize) -> (res: Option<(usize, usize)>)
    ensures
        res matches Some(r) ==> spec_matching_brace(bytes@, open as int) == Some(
            (r.0 as int, r.1 as int),
        ),
        res is None ==> spec_matching_brace(bytes@, open as int) is None,
{
    let ghost b = bytes@;
    let n = bytes.len();
    if open >= n {
        return None;
    }
    let mut j = open + 1;
    let mut depth: i128 = 1;
    let mut st = GoLex::Code;
    while j < n && depth > 0
        invariant
            bytes@ == b,
            n == b.len(),
            open < n,
            open + 1 <= j <= n,
            1 <= depth <= j - open,
            matching_brace_from(b, j as int, st, depth as int) == matching_brace_from(
                b,
                open + 1,
                GoLex::Code,
                1,
            ),
        decreases n + 1 - j,
    {
        let c = bytes[j];
        let nx = j + 1 < n;
        match st {
            GoLex::Line => {
                if c == '\n' {
                    st = GoLex::Code;
                }
                j += 1;
            },
            GoLex::Block => {
                if c == '*' && nx && bytes[j + 1] == '/' {
                    st = GoLex::Code;
                    j += 2;
                } else {
                    j += 1;
                }
            },
            GoLex::Quoted => {
                if c == '\\' {
                    if nx {
                        j += 2;
                    } else {
                        assert(matching_brace_from(b, j + 2, st, depth as int) is None);
                        j += 1;
                    }
                } else {
                    if c == '"' || c == '\n' {
                        st = GoLex::Code;
                    }
                    j += 1;
                }
            },
            GoLex::Raw => {
                if c == '`' {
                    st = GoLex::Code;
                }
                j += 1;
            },
            GoLex::Rune => {
                if c == '\\' {
                    if nx {
                        j += 2;
                    } else {
                        assert(matching_brace_from(b, j + 2, st, depth as int) is None);
                        j += 1;
                    }
                } else {
                    if c == '\'' {
                        st = GoLex::Code;
                    }
                    j += 1;
                }
            },
            GoLex::Code => {
                if c == '/' && nx && bytes[j + 1] == '/' {
                    st = GoLex::Line;
                    j += 2;
                } else if c == '/' && nx && bytes[j + 1] == '*' {
                    st = GoLex::Block;
                    j += 2;
                } else if c == '"' {
                    st = GoLex::Quoted;
                    j += 1;
                } else if c == '`' {
                    st = GoLex::Raw;
                    j += 1;
                } else if c == '\'' {
                    st = GoLex::Rune;
                    j += 1;
                } else if c == '{' {
                    depth += 1;
                    j += 1;
                } else if c == '}' {
                    if depth == 1 {
                        return Some((open, j));
                    }
                    depth -= 1;
                    j += 1;
                } else {
                    j += 1;
                }
            },
        }
    }
    None
}

/// A character that can be part of a Go identifier (ASCII letters, digits,
/// `_`).
pub open spec fn ident_char(c: char) -> bool {
    ('a' <= c && c <= 'z') || ('A' <= c && c <= 'Z') || ('0' <= c && c <= '9') || c == '_'
}

/// `t` ends with the word `w`: not as the tail of a longer identifier.
pub open spec fn ends_with_word(t: Seq<char>, w: Seq<char>) -> bool {
    ends_with(t, w) && (t.len() == w.len() || !ident_char(t[t.len() - w.len() - 1]))
}

/// The `{` at `i` opens a type literal, `interface{...}` or `struct{...}`:
/// the text before it ends with one of those keywords.
pub open spec fn type_brace(b: Seq<char>, i: int) -> bool {
    let t = trim_end(b.take(i));
    ends_with_word(t, "interface"@) || ends_with_word(t, "struct"@)
}

/// Body of the function whose signature is scanned from position `i`: the
/// first `{` outside parentheses, comments, strings and runes that does not
/// open an `interface{...}` or `struct{...}` type (those are skipped whole),
/// with its match.
pub open spec fn func_body_from(b: Seq<char>, i: int, st: GoLex, paren: int) -> Option<(int, int)>
    decreases b.len() + 1 - i,
{
    if i < 0 || i >= b.len() {
        None
    } else {
        let c = b[i];
        let nx = i + 1 < b.len();
        match st {
            GoLex::Line => {
                if c == '\n' {
                    func_body_from(b, i + 1, GoLex::Code, paren)
                } else {
                    func_body_from(b, i + 1, GoLex::Line, paren)
                }
            },
            GoLex::Block => {
                if c == '*' && nx && b[i + 1] == '/' {
                    func_body_from(b, i + 2, GoLex::Code, paren)
                } else {
                    func_body_from(b, i + 1, GoLex::Block, paren)
                }
            },
            GoLex::Quoted => {
                if c == '\\' {
                    func_body_from(b, i + 2, GoLex::Quoted, paren)
                } else if c == '"' || c == '\n' {
                    func_body_from(b, i + 1, GoLex::Code, paren)
                } else {
                    func_body_from(b, i + 1, GoLex::Quoted, paren)
                }
            },
            GoLex::Raw => {
                if c == '`' {
                    func_body_from(b, i + 1, GoLex::Code, paren)
                } else {
                    func_body_from(b, i + 1, GoLex::Raw, paren)
                }
            },
            GoLex::Rune => {
                if c == '\\' {
                    func_body_from(b, i + 2, GoLex::Rune, paren)
                } else if c == '\'' {
                    func_body_from(b, i + 1, GoLex::Code, paren)
                } else {
                    func_body_from(b, i + 1, GoLex::Rune, paren)
                }
            },
            GoLex::Code => {
                if c == '/' && nx && b[i + 1] == '/' {
                    func_body_from(b, i + 2, GoLex::Line, paren)
                } else if c == '/' && nx && b[i + 1] == '*' {
                    func_body_from(b, i + 2, GoLex::Block, paren)
                } else if c == '"' {
                    func_body_from(b, i + 1, GoLex::Quoted, paren)
                } else if c == '`' {
                    func_body_from(b, i + 1, GoLex::Raw, paren)
                } else if c == '\'' {
                    func_body_from(b, i + 1, GoLex::Rune, paren)
                } else if c == '(' {
                    func_body_from(b, i + 1, GoLex::Code, paren + 1)
                } else if c == ')' {
                    func_body_from(b, i + 1, GoLex::Code, paren - 1)
                } else if c == '{' && paren == 0 && type_brace(b, i) {
                    match matching_brace_from(b, i + 1, GoLex::Code, 1) {
                        Some(cl) => {
                            proof {
                                lemma_matching_brace_from(b, i + 1, GoLex::Code, 1);
                            }
                            func_body_from(b, cl + 1, GoLex::Code, paren)
                        },
                        None => None,
                    }
                } else if c == '{' && paren == 0 {
                    spec_matching_brace(b, i)
                } else {
                    func_body_from(b, i + 1, GoLex::Code, paren)
                }
            },
        }
    }
}

pub proof fn lemma_func_body_from(b: Seq<char>, i: int, st: GoLex, paren: int)
    requires
        0 <= i,
    ensures
        func_body_from(b, i, st, paren) matches Some(r) ==> i <= r.0 < r.1 < b.len() && b[r.0]
            == '{' && b[r.1] == '}',
    decreases b.len() + 1 - i,
{
    if i < b.len() {
        lemma_func_body_from(b, i + 1, GoLex::Code, paren);
        lemma_func_body_from(b, i + 1, GoLex::Line, paren);
        lemma_func_body_from(b, i + 1, GoLex::Block, paren);
        lemma_func_body_from(b, i + 1, GoLex::Quoted, paren);
        lemma_func_body_from(b, i + 1, GoLex::Raw, paren);
        lemma_func_body_from(b, i + 1, GoLex::Rune, paren);
        lemma_func_body_from(b, i + 2, GoLex::Code, paren);
        lemma_func_body_from(b, i + 2, GoLex::Line, paren);
        lemma_func_body_from(b, i + 2, GoLex::Block, paren);
        lemma_func_body_from(b, i + 2, GoLex::Quoted, paren);
        lemma_func_body_from(b, i + 2, GoLex::Rune, paren);
        lemma_func_body_from(b, i + 1, GoLex::Code, paren + 1);
        lemma_func_body_from(b, i + 1, GoLex::Code, paren - 1);
        lemma_matching_brace_from(b, i + 1, GoLex::Code, 1);
        if let Some(cl) = matching_brace_from(b, i + 1, GoLex::Code, 1) {
            lemma_func_body_from(b, cl + 1, GoLex::Code, paren);
        }
    }
}

fn ident_char_exec(c: char) -> (res: bool)
    ensures
        res == ident_char(c),
{
    ('a' <= c && c <= 'z') || ('A' <= c && c <= 'Z') || ('0' <= c && c <= '9') || c == '_'
}

fn ends_with_word_exec(t: &Vec<char>, w: &str) -> (res: bool)
    ensures
        res == ends_with_word(t@, w@),
{
    let wv = chars_of(w);
    if !crate::text::vec_ends_with(t, &wv) {
        return false;
    }
    t.len() == wv.len() || !ident_char_exec(t[t.len() - wv.len() - 1])
}

fn type_brace_exec(bytes: &Vec<char>, i: usize) -> (res: bool)
    requires
        i <= bytes@.len(),
    ensures
        res == type_brace(bytes@, i as int),
{
    let pre = slice_vec(bytes, 0, i);
    assert(pre@ =~= bytes@.take(i as int));
    let t = crate::text::trim_end_vec(&pre);
    proof {
        reveal_strlit("interface");
        reveal_strlit("struct");
    }
    ends_with_word_exec(&t, "interface") || ends_with_word_exec(&t, "struct")
}

/// Find the body of the function whose signature starts at position `start`.
pub fn find_go_func_body(source: &str, start: usize) -> (res: Option<(usize, usize)>)
    ensures
        res matches Some(r) ==> func_body_from(source@, start as int, GoLex::Code, 0)
            == Some((r.0 as int, r.1 as int)),
        res is None ==> func_body_from(source@, start as int, GoLex::Code, 0) is None,
{
    let v = chars_of(source);
    func_body_in(&v, start)
}

fn func_body_in(bytes: &Vec<char>, start: usize) -> (res: Option<(usize, usize)>)
    ensures
        res matches Some(r) ==> func_body_from(bytes@, start as int, GoLex::Code, 0)
            == Some((r.0 as int, r.1 as int)),
        res is None ==> func_body_from(bytes@, start as int, GoLex::Code, 0) is None,
{
    let ghost b = bytes@;
    let n = bytes.len();
    let mut i = start;
    let mut paren: i128 = 0;
    let mut st = GoLex::Code;
    if i >= n {
        return None;
    }
    while i < n
        invariant
            bytes@ == b,
            n == b.len(),
            start <= i <= n,
            -(i - start) <= paren <= i - start,
            func_body_from(b, i as int, st, paren as int) == func_body_from(
                b,
                start as int,
                GoLex::Code,
                0,
            ),
        decreases n + 1 - i,
    {
        let c = bytes[i];
        let nx = i + 1 < n;
        match st {
            GoLex::Line => {
                if c == '\n' {
                    st = GoLex::Code;
                }
                i += 1;
            },
            GoLex::Block => {
                if c == '*' && nx && bytes[i + 1] == '/' {
                    st = GoLex::Code;
                    i += 2;
                } else {
                    i += 1;
                }
            },
            GoLex::Quoted => {
                if c == '\\' {
                    if nx {
                        i += 2;
                    } else {
                        assert(func_body_from(b, i + 2, st, paren as int) is None);
                        i += 1;
                    }
                } else {
                    if c == '"' || c == '\n' {
                        st = GoLex::Code;
                    }
                    i += 1;
                }
            },
            GoLex::Raw => {
                if c == '`' {
                    st = GoLex::Code;
                }
                i += 1;
            },
            GoLex::Rune => {
                if c == '\\' {
                    if nx {
                        i += 2;
                    } else {
                        assert(func_body_from(b, i + 2, st, paren as int) is None);
                        i += 1;
                    }
                } else {
                    if c == '\'' {
                        st = GoLex::Code;
                    }
                    i += 1;
                }
            },
            GoLex::Code => {
                if c == '/' && nx && bytes[i + 1] == '/' {
                    st = GoLex::Line;
                    i += 2;
                } else if c == '/' && nx && bytes[i + 1] == '*' {
                    st = GoLex::Block;
                    i += 2;
                } else if c == '"' {
                    st = GoLex::Quoted;
                    i += 1;
                } else if c == '`' {
                    st = GoLex::Raw;
                    i += 1;
                } else if c == '\'' {
                    st = GoLex::Rune;
                    i += 1;
                } else if c == '(' {
                    paren += 1;
                    i += 1;
                } else if c == ')' {
                    paren -= 1;
                    i += 1;
                } else if c == '{' && paren == 0 && type_brace_exec(bytes, i) {
                    match matching_brace_in(bytes, i) {
                        Some((_, cl)) => {
                            proof {
                                lemma_matching_brace_from(b, i + 1, GoLex::Code, 1);
                            }
                            i = cl + 1;
                        },
                        None => {
                            return None;
                        },
                    }
                } else if c == '{' && paren == 0 {
                    return matching_brace_in(bytes, i);
                } else {
                    i += 1;
                }
            },
        }
    }
    None
}


// ───────────────────────── compression ─────────────────────────

/// An extracted body as seen by the contracts: (hash, file path, body text,
/// line count).
pub type BodyView = (Seq<char>, Seq<char>, Seq<char>, int);

/// The views of extracted body records.
pub open spec fn body_views(v: Seq<(String, String, String, usize)>) -> Seq<BodyView> {
    v.map_values(|r: (String, String, String, usize)| (r.0@, r.1@, r.2@, r.3 as int))
}

/// A scan result: the skeleton text and the extracted bodies.
pub type GoOut = (Seq<char>, Seq<BodyView>);

/// Prefix `skel` and `bodies` to a partial result.
pub open spec fn go_prepend(skel: Seq<char>, bodies: Seq<BodyView>, rest: GoOut) -> GoOut {
    (skel + rest.0, bodies + rest.1)
}

/// The characters of `"func"`.
pub open spec fn func_bytes() -> Seq<char> {
    seq!['f', 'u', 'n', 'c']
}

/// The text of the range `from..to`.
pub open spec fn text_of(b: Seq<char>, from: int, to: int) -> Seq<char> {
    b.subrange(from, to)
}

/// The stub that replaces a function body in the skeleton.
pub open spec fn go_stub(hash: Seq<char>, loc: int) -> Seq<char> {
    " /* HASH:"@ + hash + " ["@ + decimal(loc as nat) + " LOC] */ "@ + "}"@
}

/// Result of `compress_go_code` from position `i`: the skeleton text and the
/// extracted bodies.
///
/// Comments, strings and runes are copied as they are. At the first
/// non-blank character of a line, at brace and parenthesis depth zero, a
/// `func` keyword followed by a space, tab, `(` or line break whose body is
/// found is replaced by the text up to its `{`, a stub naming the body's
/// hash and line count, and `}`.
pub open spec fn go_skel_from(
    b: Seq<char>,
    path: Seq<char>,
    i: int,
    st: GoLex,
    als: bool,
    bd: int,
    pd: int,
) -> GoOut
    decreases b.len() + 1 - i,
{
    if i < 0 || i >= b.len() {
        (seq![], seq![])
    } else {
        let c = b[i];
        let nx = i + 1 < b.len();
        let e: Seq<BodyView> = seq![];
        match st {
            GoLex::Line => {
                if c == '\n' {
                    go_prepend(seq![c], e, go_skel_from(b, path, i + 1, GoLex::Code, true, bd, pd))
                } else {
                    go_prepend(seq![c], e, go_skel_from(b, path, i + 1, GoLex::Line, als, bd, pd))
                }
            },
            GoLex::Block => {
                if c == '*' && nx && b[i + 1] == '/' {
                    go_prepend(seq![c, '/'], e, go_skel_from(b, path, i + 2, GoLex::Code, als, bd, pd))
                } else if c == '\n' {
                    go_prepend(seq![c], e, go_skel_from(b, path, i + 1, GoLex::Block, true, bd, pd))
                } else {
                    go_prepend(seq![c], e, go_skel_from(b, path, i + 1, GoLex::Block, als, bd, pd))
                }
            },
            GoLex::Quoted => {
                if c == '\\' && nx {
                    go_prepend(seq![c, b[i + 1]], e, go_skel_from(b, path, i + 2, GoLex::Quoted, als, bd, pd))
                } else if c == '"' {
                    go_prepend(seq![c], e, go_skel_from(b, path, i + 1, GoLex::Code, als, bd, pd))
                } else if c == '\n' {
                    go_prepend(seq![c], e, go_skel_from(b, path, i + 1, GoLex::Code, true, bd, pd))
                } else {
                    go_prepend(seq![c], e, go_skel_from(b, path, i + 1, GoLex::Quoted, als, bd, pd))
                }
            },
            GoLex::Raw => {
                if c == '`' {
                    go_prepend(seq![c], e, go_skel_from(b, path, i + 1, GoLex::Code, als, bd, pd))
                } else {
                    go_prepend(seq![c], e, go_skel_from(b, path, i + 1, GoLex::Raw, als, bd, pd))
                }
            },
            GoLex::Rune => {
                if c == '\\' && nx {
                    go_prepend(seq![c, b[i + 1]], e, go_skel_from(b, path, i + 2, GoLex::Rune, als, bd, pd))
                } else if c == '\'' {
                    go_prepend(seq![c], e, go_skel_from(b, path, i + 1, GoLex::Code, als, bd, pd))
                } else {
                    go_prepend(seq![c], e, go_skel_from(b, path, i + 1, GoLex::Rune, als, bd, pd))
                }
            },
            GoLex::Code => {
                if c == '/' && nx && b[i + 1] == '/' {
                    go_prepend(seq!['/', '/'], e, go_skel_from(b, path, i + 2, GoLex::Line, als, bd, pd))
                } else if c == '/' && nx && b[i + 1] == '*' {
                    go_prepend(seq!['/', '*'], e, go_skel_from(b, path, i + 2, GoLex::Block, als, bd, pd))
                } else if c == '"' {
                    go_prepend(seq![c], e, go_skel_from(b, path, i + 1, GoLex::Quoted, false, bd, pd))
                } else if c == '`' {
                    go_prepend(seq![c], e, go_skel_from(b, path, i + 1, GoLex::Raw, false, bd, pd))
                } else if c == '\'' {
                    go_prepend(seq![c], e, go_skel_from(b, path, i + 1, GoLex::Rune, false, bd, pd))
                } else if c == '\n' {
                    go_prepend(seq![c], e, go_skel_from(b, path, i + 1, GoLex::Code, true, bd, pd))
                } else if als && (c == ' ' || c == '\t' || c == '\r') {
                    go_prepend(seq![c], e, go_skel_from(b, path, i + 1, GoLex::Code, true, bd, pd))
                } else {
                    let probe = als && bd == 0 && pd == 0 && c == 'f' && i + 4 <= b.len();
                    {
                        let after = if i + 4 < b.len() { b[i + 4] } else { ' ' };
                        let found = func_body_from(b, i + 4, GoLex::Code, 0);
                        if probe && b.subrange(i, i + 4) == func_bytes() && (after == ' '
                            || after == '\t' || after == '(' || after == '\n') && found is Some {
                            let r = found->0;
                            let o = r.0;
                            let cl = r.1;
                            let body = text_of(b, o, cl + 1);
                            let loc = lines(body).len() as int;
                            let h = spec_body_hash(body, path);
                            proof {
                                lemma_func_body_from(b, i + 4, GoLex::Code, 0);
                            }
                            go_prepend(
                                text_of(b, i, o + 1) + go_stub(h, loc),
                                seq![(h, path, body, loc)],
                                go_skel_from(b, path, cl + 1, GoLex::Code, false, bd, pd),
                            )
                        } else {
                            let bd2 = if c == '{' { bd + 1 } else if c == '}' { bd - 1 } else { bd };
                            let pd2 = if c == '(' { pd + 1 } else if c == ')' { pd - 1 } else { pd };
                            go_prepend(seq![c], e, go_skel_from(b, path, i + 1, GoLex::Code, false, bd2, pd2))
                        }
                    }
                }
            },
        }
    }
}

/// The whole compression result for a file.
pub open spec fn spec_go_compress(b: Seq<char>, path: Seq<char>) -> GoOut {
    go_skel_from(b, path, 0, GoLex::Code, true, 0, 0)
}

pub proof fn lemma_go_prepend(
    s1: Seq<char>,
    h1: Seq<BodyView>,
    s2: Seq<char>,
    h2: Seq<BodyView>,
    r: GoOut,
)
    ensures
        go_prepend(s1, h1, go_prepend(s2, h2, r)) == go_prepend(s1 + s2, h1 + h2, r),
{
    assert(s1 + (s2 + r.0) =~= (s1 + s2) + r.0);
    assert(h1 + (h2 + r.1) =~= (h1 + h2) + r.1);
}

/// The record view of an optional extracted body.
pub open spec fn added_view(r: Option<(String, String, String, usize)>) -> Seq<BodyView> {
    match r {
        Some(x) => seq![(x.0@, x.1@, x.2@, x.3 as int)],
        None => seq![],
    }
}

/// One step of the scan in a state other than `Code`.
fn go_step_lex(bytes: &Vec<char>, i: usize, st: GoLex, als: bool) -> (res: (Vec<char>, usize, GoLex, bool))
    requires
        i < bytes@.len(),
        st != GoLex::Code,
    ensures
        i < res.1 <= bytes@.len(),
        forall|path: Seq<char>, bd: int, pd: int|
            go_skel_from(bytes@, path, i as int, st, als, bd, pd) == go_prepend(
                res.0@,
                seq![],
                go_skel_from(bytes@, path, res.1 as int, res.2, res.3, bd, pd),
            ),
{
    let n = bytes.len();
    let c = bytes[i];
    let nx = i + 1 < n;
    let mut out: Vec<char> = Vec::new();
    out.push(c);
    let r = match st {
        GoLex::Line => {
            if c == '\n' {
                (i + 1, GoLex::Code, true)
            } else {
                (i + 1, GoLex::Line, als)
            }
        },
        GoLex::Block => {
            if c == '*' && nx && bytes[i + 1] == '/' {
                out.push('/');
                (i + 2, GoLex::Code, als)
            } else if c == '\n' {
                (i + 1, GoLex::Block, true)
            } else {
                (i + 1, GoLex::Block, als)
            }
        },
        GoLex::Quoted => {
            if c == '\\' && nx {
                out.push(bytes[i + 1]);
                (i + 2, GoLex::Quoted, als)
            } else if c == '"' {
                (i + 1, GoLex::Code, als)
            } else if c == '\n' {
                (i + 1, GoLex::Code, true)
            } else {
                (i + 1, GoLex::Quoted, als)
            }
        },
        GoLex::Raw => {
            if c == '`' {
                (i + 1, GoLex::Code, als)
            } else {
                (i + 1, GoLex::Raw, als)
            }
        },
        _ => {
            if c == '\\' && nx {
                out.push(bytes[i + 1]);
                (i + 2, GoLex::Rune, als)
            } else if c == '\'' {
                (i + 1, GoLex::Code, als)
            } else {
                (i + 1, GoLex::Rune, als)
            }
        },
    };
    proof {
        assert forall|path: Seq<char>, bd: int, pd: int|
            go_skel_from(bytes@, path, i as int, st, als, bd, pd) == go_prepend(
                out@,
                seq![],
                go_skel_from(bytes@, path, r.0 as int, r.1, r.2, bd, pd),
            ) by {
            if st == GoLex::Block && c == '*' && nx && bytes@[i + 1] == '/' {
                assert(out@ =~= seq![c, '/']);
            } else if (st == GoLex::Quoted || st == GoLex::Rune) && c == '\\' && nx {
                assert(out@ =~= seq![c, bytes@[i + 1]]);
            } else {
                assert(out@ =~= seq![c]);
            }
        }
    }
    (out, r.0, r.1, r.2)
}

/// Try to extract the function whose `func` keyword starts at position `i`.
fn go_try_func(bytes: &Vec<char>, file_path: &str, i: usize) -> (res: Option<(Vec<char>, (String, String, String, usize), usize)>)
    requires
        i + 4 <= bytes@.len(),
        bytes@[i as int] == 'f',
    ensures
        ({
            let b = bytes@;
            let after = if i + 4 < b.len() { b[i + 4] } else { ' ' };
            let found = func_body_from(b, i + 4, GoLex::Code, 0);
            let applies = b.subrange(i as int, i + 4) == func_bytes() && (after == ' '
                || after == '\t' || after == '(' || after == '\n') && found is Some;
            match res {
                Some(r) => {
                    let fr = found->0;
                    let rec = r.1;
                    &&& applies
                    &&& r.2 == fr.1 + 1
                    &&& {
                        let body = text_of(b, fr.0, fr.1 + 1);
                        let loc = lines(body).len() as int;
                        let h = spec_body_hash(body, file_path@);
                        &&& r.0@ == text_of(b, i as int, fr.0 + 1) + go_stub(h, loc)
                        &&& (rec.0@, rec.1@, rec.2@, rec.3 as int) == (h, file_path@, body, loc)
                    }
                    &&& i < r.2 <= b.len()
                },
                None => !applies,
            }
        }),
{
    let ghost b = bytes@;
    let n = bytes.len();
    if !(bytes[i + 1] == 'u' && bytes[i + 2] == 'n' && bytes[i + 3] == 'c') {
        return None;
    }
    assert(b.subrange(i as int, i + 4) =~= func_bytes());
    let after = if i + 4 < n { bytes[i + 4] } else { ' ' };
    if !(after == ' ' || after == '\t' || after == '(' || after == '\n') {
        return None;
    }
    match func_body_in(bytes, i + 4) {
        None => None,
        Some((open, close)) => {
            proof {
                lemma_func_body_from(b, i + 4, GoLex::Code, 0);
            }
            let body_chars = slice_vec(bytes, open, close + 1);
            let body = crate::text::string_of(&body_chars);
            let loc = count_lines(&body_chars);
            let hash = stable_hash_body(body.as_str(), file_path);
            let mut out = slice_vec(bytes, i, open + 1);
            let ghost head = out@;
            append_str(&mut out, " /* HASH:");
            append(&mut out, &chars_of(hash.as_str()));
            append_str(&mut out, " [");
            append(&mut out, &decimal_vec(loc as u128));
            append_str(&mut out, " LOC] */ ");
            append_str(&mut out, "}");
            proof {
                assert(out@ =~= head + go_stub(hash@, loc as int));
            }
            let rec = (hash, crate::text::string_of(&chars_of(file_path)), body, loc);
            Some((out, rec, close + 1))
        },
    }
}

/// One step of the scan in the `Code` state.
#[verifier::rlimit(40)]
fn go_step_code(
    bytes: &Vec<char>,
    file_path: &str,
    i: usize,
    als: bool,
    bd: i128,
    pd: i128,
) -> (res: (Vec<char>, Option<(String, String, String, usize)>, usize, GoLex, bool, i128, i128))
    requires
        i < bytes@.len(),
        -(i as int) <= bd <= i,
        -(i as int) <= pd <= i,
    ensures
        i < res.2 <= bytes@.len(),
        -(res.2 as int) <= res.5 <= res.2,
        -(res.2 as int) <= res.6 <= res.2,
        go_skel_from(bytes@, file_path@, i as int, GoLex::Code, als, bd as int, pd as int)
            == go_prepend(
            res.0@,
            added_view(res.1),
            go_skel_from(bytes@, file_path@, res.2 as int, res.3, res.4, res.5 as int, res.6 as int),
        ),
{
    let ghost b = bytes@;
    let ghost path = file_path@;
    let n = bytes.len();
    let c = bytes[i];
    let nx = i + 1 < n;
    let mut out: Vec<char> = Vec::new();
    if c == '/' && nx && bytes[i + 1] == '/' {
        out.push('/');
        out.push('/');
        assert(out@ =~= seq!['/', '/']);
        return (out, None, i + 2, GoLex::Line, als, bd, pd);
    }
    if c == '/' && nx && bytes[i + 1] == '*' {
        out.push('/');
        out.push('*');
        assert(out@ =~= seq!['/', '*']);
        return (out, None, i + 2, GoLex::Block, als, bd, pd);
    }
    out.push(c);
    assert(out@ =~= seq![c]);
    if c == '"' {
        return (out, None, i + 1, GoLex::Quoted, false, bd, pd);
    }
    if c == '`' {
        return (out, None, i + 1, GoLex::Raw, false, bd, pd);
    }
    if c == '\'' {
        return (out, None, i + 1, GoLex::Rune, false, bd, pd);
    }
    if c == '\n' {
        return (out, None, i + 1, GoLex::Code, true, bd, pd);
    }
    if als && (c == ' ' || c == '\t' || c == '\r') {
        return (out, None, i + 1, GoLex::Code, true, bd, pd);
    }
    let probe = als && bd == 0 && pd == 0 && c == 'f' && n - i >= 4;
    if probe {
        match go_try_func(bytes, file_path, i) {
            Some((text, rec, next)) => {
                return (text, Some(rec), next, GoLex::Code, false, bd, pd);
            },
            None => {},
        }
    }
    let mut bd2 = bd;
    let mut pd2 = pd;
    if c == '{' {
        bd2 = bd + 1;
    } else if c == '}' {
        bd2 = bd - 1;
    } else if c == '(' {
        pd2 = pd + 1;
    } else if c == ')' {
        pd2 = pd - 1;
    }
    (out, None, i + 1, GoLex::Code, false, bd2, pd2)
}

/// Compress a Go source file: extract function bodies into hashes and
/// produce a skeleton with stubs.
pub fn compress_go_code(source_code: &str, file_path: &str) -> (res: (
    Vec<(String, String, String, usize)>,
    String,
))
    ensures
        spec_go_compress(source_code@, file_path@) == (res.1@, body_views(res.0@)),
{
    let bytes = chars_of(source_code);
    let ghost b = source_code@;
    let ghost path = file_path@;
    let n = bytes.len();
    let mut hashes: Vec<(String, String, String, usize)> = Vec::new();
    let mut skel: Vec<char> = Vec::new();
    let mut i: usize = 0;
    let mut st = GoLex::Code;
    let mut als = true;
    let mut bd: i128 = 0;
    let mut pd: i128 = 0;
    assert(skel@ + Seq::<char>::empty() =~= skel@);
    assert(body_views(hashes@) =~= Seq::<BodyView>::empty());
    proof {
        let s = spec_go_compress(b, path);
        assert(Seq::<char>::empty() + s.0 =~= s.0);
        assert(Seq::<BodyView>::empty() + s.1 =~= s.1);
    }
    while i < n
        invariant
            bytes@ == b,
            b == source_code@,
            path == file_path@,
            n == b.len(),
            i <= n,
            -(i as int) <= bd <= i,
            -(i as int) <= pd <= i,
            go_prepend(skel@, body_views(hashes@), go_skel_from(b, path, i as int, st, als, bd as int, pd as int))
                == spec_go_compress(b, path),
        decreases n + 1 - i,
    {
        let ghost old_skel = skel@;
        let ghost old_h = body_views(hashes@);
        let ghost old_rest = go_skel_from(b, path, i as int, st, als, bd as int, pd as int);
        let (emitted, rec, ni, nst, nals, nbd, npd) = if st == GoLex::Code {
            go_step_code(&bytes, file_path, i, als, bd, pd)
        } else {
            let (e, ni, nst, nals) = go_step_lex(&bytes, i, st, als);
            (e, None, ni, nst, nals, bd, pd)
        };
        append(&mut skel, &emitted);
        match rec {
            Some(r) => {
                hashes.push(r);
            },
            None => {},
        }
        proof {
            assert(body_views(hashes@) =~= old_h + added_view(rec));
            lemma_go_prepend(old_skel, old_h, emitted@, added_view(rec), go_skel_from(b, path, ni as int, nst, nals, nbd as int, npd as int));
        }
        i = ni;
        st = nst;
        als = nals;
        bd = nbd;
        pd = npd;
    }
    proof {
        assert(go_skel_from(b, path, i as int, st, als, bd as int, pd as int) == (Seq::<char>::empty(), Seq::<BodyView>::empty()));
        assert(skel@ + Seq::<char>::empty() =~= skel@);
        assert(body_views(hashes@) + Seq::<BodyView>::empty() =~= body_views(hashes@));
    }
    (hashes, crate::text::string_of(&skel))
}


// ───────────────────────── what compression records ─────────────────────────

/// The note that names a body in the skeleton.
pub open spec fn go_note(hash: Seq<char>, loc: int) -> Seq<char> {
    " /* HASH:"@ + hash + " ["@ + decimal(loc as nat) + " LOC] */ "@
}

/// A record of the file `b` at `path`: kept under the path, hashed with its
/// body, counted by its lines, braced, and cut from the source.
pub open spec fn go_record_ok(b: Seq<char>, path: Seq<char>, r: BodyView) -> bool {
    &&& r.1 == path
    &&& r.0 == spec_body_hash(r.2, path)
    &&& r.3 == lines(r.2).len()
    &&& r.2.len() >= 2
    &&& r.2[0] == '{'
    &&& r.2.last() == '}'
    &&& crate::text::contains(b, r.2)
}

/// Every record of a result is sound and named in its skeleton.
pub open spec fn go_result_ok(b: Seq<char>, path: Seq<char>, res: GoOut) -> bool {
    forall|k: int| 0 <= k < res.1.len() ==> go_record_ok(b, path, #[trigger] res.1[k])
        && crate::text::contains(res.0, go_note(res.1[k].0, res.1[k].3))
}

proof fn lemma_contains_after(s: Seq<char>, t: Seq<char>, p: Seq<char>)
    requires
        crate::text::contains(t, p),
    ensures
        crate::text::contains(s + t, p),
{
    let i = choose|i: int| crate::text::occurs_at(t, p, i);
    assert((s + t).subrange(s.len() + i, s.len() + i + p.len()) =~= t.subrange(i, i + p.len()));
    assert(crate::text::occurs_at(s + t, p, s.len() + i));
}

proof fn lemma_prepend_plain_ok(b: Seq<char>, path: Seq<char>)
    ensures
        forall|s1: Seq<char>, rest: GoOut|
            go_result_ok(b, path, rest) ==> #[trigger] go_result_ok(b, path, go_prepend(s1, Seq::<BodyView>::empty(), rest)),
{
    assert forall|s1: Seq<char>, rest: GoOut|
        go_result_ok(b, path, rest) implies #[trigger] go_result_ok(b, path, go_prepend(s1, Seq::<BodyView>::empty(), rest)) by {
        let x = rest;
        let y = go_prepend(s1, Seq::<BodyView>::empty(), rest);
        assert(y.1 =~= x.1);
        assert forall|k: int| 0 <= k < y.1.len() implies go_record_ok(b, path, #[trigger] y.1[k])
            && crate::text::contains(y.0, go_note(y.1[k].0, y.1[k].3)) by {
            lemma_contains_after(s1, x.0, go_note(x.1[k].0, x.1[k].3));
        }
    }
}

proof fn lemma_go_result_ok(b: Seq<char>, path: Seq<char>, i: int, st: GoLex, als: bool, bd: int, pd: int)
    ensures
        go_result_ok(b, path, go_skel_from(b, path, i, st, als, bd, pd)),
    decreases b.len() + 1 - i,
{
    lemma_prepend_plain_ok(b, path);
    if 0 <= i < b.len() {
        let c = b[i];
        lemma_go_result_ok(b, path, i + 1, GoLex::Code, als, bd, pd);
        lemma_go_result_ok(b, path, i + 1, GoLex::Code, true, bd, pd);
        lemma_go_result_ok(b, path, i + 1, GoLex::Code, false, bd, pd);
        lemma_go_result_ok(b, path, i + 1, GoLex::Line, als, bd, pd);
        lemma_go_result_ok(b, path, i + 1, GoLex::Line, true, bd, pd);
        lemma_go_result_ok(b, path, i + 1, GoLex::Line, false, bd, pd);
        lemma_go_result_ok(b, path, i + 1, GoLex::Block, als, bd, pd);
        lemma_go_result_ok(b, path, i + 1, GoLex::Block, true, bd, pd);
        lemma_go_result_ok(b, path, i + 1, GoLex::Block, false, bd, pd);
        lemma_go_result_ok(b, path, i + 1, GoLex::Quoted, als, bd, pd);
        lemma_go_result_ok(b, path, i + 1, GoLex::Quoted, true, bd, pd);
        lemma_go_result_ok(b, path, i + 1, GoLex::Quoted, false, bd, pd);
        lemma_go_result_ok(b, path, i + 1, GoLex::Raw, als, bd, pd);
        lemma_go_result_ok(b, path, i + 1, GoLex::Raw, true, bd, pd);
        lemma_go_result_ok(b, path, i + 1, GoLex::Raw, false, bd, pd);
        lemma_go_result_ok(b, path, i + 1, GoLex::Rune, als, bd, pd);
        lemma_go_result_ok(b, path, i + 1, GoLex::Rune, true, bd, pd);
        lemma_go_result_ok(b, path, i + 1, GoLex::Rune, false, bd, pd);
        lemma_go_result_ok(b, path, i + 2, GoLex::Code, als, bd, pd);
        lemma_go_result_ok(b, path, i + 2, GoLex::Code, true, bd, pd);
        lemma_go_result_ok(b, path, i + 2, GoLex::Code, false, bd, pd);
        lemma_go_result_ok(b, path, i + 2, GoLex::Line, als, bd, pd);
        lemma_go_result_ok(b, path, i + 2, GoLex::Line, true, bd, pd);
        lemma_go_result_ok(b, path, i + 2, GoLex::Line, false, bd, pd);
        lemma_go_result_ok(b, path, i + 2, GoLex::Block, als, bd, pd);
        lemma_go_result_ok(b, path, i + 2, GoLex::Block, true, bd, pd);
        lemma_go_result_ok(b, path, i + 2, GoLex::Block, false, bd, pd);
        lemma_go_result_ok(b, path, i + 2, GoLex::Quoted, als, bd, pd);
        lemma_go_result_ok(b, path, i + 2, GoLex::Quoted, true, bd, pd);
        lemma_go_result_ok(b, path, i + 2, GoLex::Quoted, false, bd, pd);
        lemma_go_result_ok(b, path, i + 2, GoLex::Raw, als, bd, pd);
        lemma_go_result_ok(b, path, i + 2, GoLex::Raw, true, bd, pd);
        lemma_go_result_ok(b, path, i + 2, GoLex::Raw, false, bd, pd);
        lemma_go_result_ok(b, path, i + 2, GoLex::Rune, als, bd, pd);
        lemma_go_result_ok(b, path, i + 2, GoLex::Rune, true, bd, pd);
        lemma_go_result_ok(b, path, i + 2, GoLex::Rune, false, bd, pd);
        let bd2 = if c == '{' { bd + 1 } else if c == '}' { bd - 1 } else { bd };
        let pd2 = if c == '(' { pd + 1 } else if c == ')' { pd - 1 } else { pd };
        lemma_go_result_ok(b, path, i + 1, GoLex::Code, false, bd2, pd2);
        if let Some(r) = func_body_from(b, i + 4, GoLex::Code, 0) {
            lemma_func_body_from(b, i + 4, GoLex::Code, 0);
            let o = r.0;
            let cl = r.1;
            lemma_go_result_ok(b, path, cl + 1, GoLex::Code, false, bd, pd);
            let body = text_of(b, o, cl + 1);
            let loc = lines(body).len() as int;
            let h = spec_body_hash(body, path);
            let pre = text_of(b, i, o + 1);
            let rec: BodyView = (h, path, body, loc);
            let rest = go_skel_from(b, path, cl + 1, GoLex::Code, false, bd, pd);
            let x = rest;
            assert(crate::text::occurs_at(b, body, o));
            assert(go_record_ok(b, path, rec));
            let y = go_prepend(pre + go_stub(h, loc), seq![rec], rest);
            assert(y.0 == (pre + go_stub(h, loc)) + x.0);
            assert(y.1 == seq![rec] + x.1);
            assert(crate::text::occurs_at(y.0, go_note(h, loc), pre.len() as int)) by {
                assert(y.0.subrange(pre.len() as int, pre.len() + go_note(h, loc).len() as int) =~= go_note(h, loc));
            }
            assert forall|k: int| 0 <= k < y.1.len() implies go_record_ok(b, path, #[trigger] y.1[k])
                && crate::text::contains(y.0, go_note(y.1[k].0, y.1[k].3)) by {
                if k > 0 {
                    assert(y.1[k] == x.1[k - 1]);
                    lemma_contains_after(pre + go_stub(h, loc), x.0, go_note(x.1[k - 1].0, x.1[k - 1].3));
                }
            }
            assert(go_result_ok(b, path, go_prepend(pre + go_stub(h, loc), seq![rec], rest)));
        }
    }
}

/// What `compress_go_code` records: every body is kept under the file's
/// path, hashed with its path, counted by its lines, starts with `{` and
/// ends with `}`, is a piece of the source, and is named by its hash and
/// line count in the skeleton.
pub proof fn lemma_go_compress_records(b: Seq<char>, path: Seq<char>)
    ensures
        go_result_ok(b, path, spec_go_compress(b, path)),
{
    lemma_go_result_ok(b, path, 0, GoLex::Code, true, 0, 0);
}

// ───────────────────────── laws of the scanners ─────────────────────────

/// `strip_go_comments` on views.
pub open spec fn go_stripped(b: Seq<char>) -> Seq<char> {
    go_strip_from(b, 0, GoLex::Code)
}

/// A character that neither starts a comment nor opens a literal.
pub open spec fn go_plain_char(c: char) -> bool {
    c != '/' && c != '"' && c != '`' && c != '\''
}

/// The scan of a text that starts at a suffix does not look back.
proof fn lemma_go_strip_shift(p: Seq<char>, y: Seq<char>, i: int, st: GoLex)
    requires
        0 <= i,
    ensures
        go_strip_from(p + y, p.len() + i, st) == go_strip_from(y, i, st),
    decreases y.len() + 1 - i,
{
    let b = p + y;
    if i < y.len() {
        assert(b[p.len() + i] == y[i]);
        if i + 1 < y.len() {
            assert(b[p.len() + i + 1] == y[i + 1]);
        }
        lemma_go_strip_shift(p, y, i + 1, GoLex::Code);
        lemma_go_strip_shift(p, y, i + 1, GoLex::Line);
        lemma_go_strip_shift(p, y, i + 1, GoLex::Block);
        lemma_go_strip_shift(p, y, i + 1, GoLex::Quoted);
        lemma_go_strip_shift(p, y, i + 1, GoLex::Raw);
        lemma_go_strip_shift(p, y, i + 1, GoLex::Rune);
        lemma_go_strip_shift(p, y, i + 2, GoLex::Code);
        lemma_go_strip_shift(p, y, i + 2, GoLex::Line);
        lemma_go_strip_shift(p, y, i + 2, GoLex::Block);
        lemma_go_strip_shift(p, y, i + 2, GoLex::Quoted);
        lemma_go_strip_shift(p, y, i + 2, GoLex::Rune);
    }
}

/// Plain code is copied as it is.
proof fn lemma_go_strip_plain(b: Seq<char>, i: int, k: int)
    requires
        0 <= i <= k <= b.len(),
        forall|j: int| i <= j < k ==> go_plain_char(#[trigger] b[j]),
    ensures
        go_strip_from(b, i, GoLex::Code) == b.subrange(i, k) + go_strip_from(b, k, GoLex::Code),
    decreases k - i,
{
    if i < k {
        assert(go_plain_char(b[i]));
        lemma_go_strip_plain(b, i + 1, k);
        assert(b.subrange(i, k) =~= seq![b[i]] + b.subrange(i + 1, k));
    } else {
        assert(b.subrange(i, k) =~= Seq::<char>::empty());
    }
}

/// The inside of a raw string is copied up to and with its closing backtick.
proof fn lemma_go_strip_raw(b: Seq<char>, i: int, k: int)
    requires
        0 <= i <= k < b.len(),
        b[k] == '`',
        forall|j: int| i <= j < k ==> #[trigger] b[j] != '`',
    ensures
        go_strip_from(b, i, GoLex::Raw) == b.subrange(i, k + 1) + go_strip_from(b, k + 1, GoLex::Code),
    decreases k - i,
{
    if i < k {
        assert(b[i] != '`');
        lemma_go_strip_raw(b, i + 1, k);
    }
    assert(b.subrange(i, k + 1) =~= seq![b[i]] + b.subrange(i + 1, k + 1));
}

/// A backtick raw string is copied verbatim, whatever it holds (`//` and
/// `/*` included): after plain code `a`, the raw string `` `r` `` comes out
/// as it is and the rest `c` is stripped on its own.
pub proof fn lemma_go_raw_string_verbatim(a: Seq<char>, r: Seq<char>, c: Seq<char>)
    requires
        forall|j: int| 0 <= j < a.len() ==> go_plain_char(#[trigger] a[j]),
        forall|j: int| 0 <= j < r.len() ==> #[trigger] r[j] != '`',
    ensures
        go_stripped(a + seq!['`'] + r + seq!['`'] + c) == a + seq!['`'] + r + seq!['`'] + go_stripped(c),
{
    let p = a + seq!['`'] + r + seq!['`'];
    let b = p + c;
    let na = a.len() as int;
    let k = na + 1 + r.len();
    assert forall|j: int| 0 <= j < na implies go_plain_char(#[trigger] b[j]) by {
        assert(b[j] == a[j]);
    }
    lemma_go_strip_plain(b, 0, na);
    assert(b.subrange(0, na) =~= a);
    assert(b[na] == '`');
    assert(go_strip_from(b, na, GoLex::Code) == seq!['`'] + go_strip_from(b, na + 1, GoLex::Raw));
    assert(b[k] == '`');
    assert forall|j: int| na + 1 <= j < k implies #[trigger] b[j] != '`' by {
        assert(b[j] == r[j - na - 1]);
    }
    lemma_go_strip_raw(b, na + 1, k);
    assert(b.subrange(na + 1, k + 1) =~= r + seq!['`']);
    lemma_go_strip_shift(p, c, 0, GoLex::Code);
    assert(p.len() == k + 1);
    assert(go_stripped(b) =~= a + (seq!['`'] + (r + seq!['`'] + go_stripped(c))));
    assert(a + (seq!['`'] + (r + seq!['`'] + go_stripped(c))) =~= p + go_stripped(c));
}

/// Code without comments or literals has nothing to strip: with plain `a`
/// and `c` around a raw string, the text comes back unchanged.
pub proof fn lemma_go_raw_only_unchanged(a: Seq<char>, r: Seq<char>, c: Seq<char>)
    requires
        forall|j: int| 0 <= j < a.len() ==> go_plain_char(#[trigger] a[j]),
        forall|j: int| 0 <= j < r.len() ==> #[trigger] r[j] != '`',
        forall|j: int| 0 <= j < c.len() ==> go_plain_char(#[trigger] c[j]),
    ensures
        go_stripped(a + seq!['`'] + r + seq!['`'] + c) == a + seq!['`'] + r + seq!['`'] + c,
{
    lemma_go_raw_string_verbatim(a, r, c);
    lemma_go_strip_plain(c, 0, c.len() as int);
    assert(c.subrange(0, c.len() as int) =~= c);
    assert(go_strip_from(c, c.len() as int, GoLex::Code) =~= Seq::<char>::empty());
    assert(go_stripped(c) =~= c);
}

/// The nesting of braces in a text: `{` counts one up, `}` one down.
pub open spec fn brace_depth(s: Seq<char>) -> int
    decreases s.len(),
{
    if s.len() == 0 {
        0
    } else {
        brace_depth(s.drop_last()) + if s.last() == '{' {
            1int
        } else if s.last() == '}' {
            -1int
        } else {
            0int
        }
    }
}

/// The scan for a closing brace over plain code, from `j` at nesting `d`.
proof fn lemma_matching_brace_plain(b: Seq<char>, open: int, j: int, d: int)
    requires
        0 <= open < j <= b.len(),
        forall|k: int| 0 <= k < b.len() ==> go_plain_char(#[trigger] b[k]),
        d == brace_depth(b.subrange(open, j)),
        forall|k: int| open < k <= j ==> brace_depth(#[trigger] b.subrange(open, k)) > 0,
    ensures
        match matching_brace_from(b, j, GoLex::Code, d) {
            Some(cl) => j <= cl < b.len() && b[cl] == '}' && brace_depth(b.subrange(open, cl + 1)) == 0
                && forall|k: int| open < k <= cl ==> brace_depth(#[trigger] b.subrange(open, k)) > 0,
            None => forall|k: int| open < k <= b.len() ==> brace_depth(#[trigger] b.subrange(open, k)) > 0,
        },
    decreases b.len() - j,
{
    if j < b.len() {
        let c = b[j];
        assert(go_plain_char(c));
        assert(b.subrange(open, j + 1).drop_last() =~= b.subrange(open, j));
        assert(b.subrange(open, j + 1).last() == c);
        let d2 = brace_depth(b.subrange(open, j + 1));
        if c == '}' && d - 1 == 0 {
        } else {
            assert(d2 > 0);
            assert forall|k: int| open < k <= j + 1 implies brace_depth(#[trigger] b.subrange(open, k)) > 0 by {
                if k == j + 1 {
                    assert(d2 > 0);
                }
            }
            lemma_matching_brace_plain(b, open, j + 1, d2);
        }
    }
}

/// The `}` matched to a `{` balances it: in code without comments or
/// literals, the nesting stays above zero strictly inside the block and is
/// zero again right after the matched `}`; where no `}` is matched the
/// nesting never gets back to zero.
pub proof fn lemma_matching_brace_balanced(b: Seq<char>, open: int)
    requires
        0 <= open < b.len(),
        b[open] == '{',
        forall|k: int| 0 <= k < b.len() ==> go_plain_char(#[trigger] b[k]),
    ensures
        match spec_matching_brace(b, open) {
            Some(r) => r.0 == open && open < r.1 < b.len() && b[r.1] == '}'
                && brace_depth(b.subrange(open, r.1 + 1)) == 0
                && forall|k: int| open < k <= r.1 ==> brace_depth(#[trigger] b.subrange(open, k)) > 0,
            None => forall|k: int| open < k <= b.len() ==> brace_depth(#[trigger] b.subrange(open, k)) > 0,
        },
{
    assert(b.subrange(open, open + 1).drop_last() =~= Seq::<char>::empty());
    assert(brace_depth(b.subrange(open, open + 1).drop_last()) == 0);
    assert(b.subrange(open, open + 1).last() == '{');
    assert(brace_depth(b.subrange(open, open + 1)) == 1);
    lemma_matching_brace_plain(b, open, open + 1, 1);
}

/// The inside of a `"..."` string without escapes is copied up to and with
/// its closing quote.
proof fn lemma_go_strip_quoted(b: Seq<char>, i: int, k: int)
    requires
        0 <= i <= k < b.len(),
        b[k] == '"',
        forall|j: int| i <= j < k ==> #[trigger] b[j] != '"' && b[j] != '\\' && b[j] != '\n',
    ensures
        go_strip_from(b, i, GoLex::Quoted) == b.subrange(i, k + 1) + go_strip_from(b, k + 1, GoLex::Code),
    decreases k - i,
{
    if i < k {
        assert(b[i] != '"' && b[i] != '\\' && b[i] != '\n');
        lemma_go_strip_quoted(b, i + 1, k);
    }
    assert(b.subrange(i, k + 1) =~= seq![b[i]] + b.subrange(i + 1, k + 1));
}

/// A `"..."` string is copied verbatim, `//` and `/*` inside it included.
pub proof fn lemma_go_quoted_string_verbatim(a: Seq<char>, s: Seq<char>, c: Seq<char>)
    requires
        forall|j: int| 0 <= j < a.len() ==> go_plain_char(#[trigger] a[j]),
        forall|j: int| 0 <= j < s.len() ==> #[trigger] s[j] != '"' && s[j] != '\\' && s[j] != '\n',
    ensures
        go_stripped(a + seq!['"'] + s + seq!['"'] + c) == a + seq!['"'] + s + seq!['"'] + go_stripped(c),
{
    let p = a + seq!['"'] + s + seq!['"'];
    let b = p + c;
    let na = a.len() as int;
    let k = na + 1 + s.len();
    assert forall|j: int| 0 <= j < na implies go_plain_char(#[trigger] b[j]) by {
        assert(b[j] == a[j]);
    }
    lemma_go_strip_plain(b, 0, na);
    assert(b.subrange(0, na) =~= a);
    assert(b[na] == '"');
    assert(b[k] == '"');
    assert forall|j: int| na + 1 <= j < k implies #[trigger] b[j] != '"' && b[j] != '\\' && b[j] != '\n' by {
        assert(b[j] == s[j - na - 1]);
    }
    lemma_go_strip_quoted(b, na + 1, k);
    assert(b.subrange(na + 1, k + 1) =~= s + seq!['"']);
    lemma_go_strip_shift(p, c, 0, GoLex::Code);
    assert(p.len() == k + 1);
    assert(go_stripped(b) =~= a + (seq!['"'] + (s + seq!['"'] + go_stripped(c))));
    assert(a + (seq!['"'] + (s + seq!['"'] + go_stripped(c))) =~= p + go_stripped(c));
}

/// A `//` comment runs to the end of its line: it goes, the line break
/// stays, and the rest is stripped on its own.
pub proof fn lemma_go_line_comment_removed(a: Seq<char>, comment: Seq<char>, rest: Seq<char>)
    requires
        forall|j: int| 0 <= j < a.len() ==> go_plain_char(#[trigger] a[j]),
        forall|j: int| 0 <= j < comment.len() ==> #[trigger] comment[j] != '\n',
    ensures
        go_stripped(a + seq!['/', '/'] + comment + seq!['\n'] + rest) == a + seq!['\n'] + go_stripped(rest),
{
    let p = a + seq!['/', '/'] + comment + seq!['\n'];
    let b = p + rest;
    let na = a.len() as int;
    assert forall|j: int| 0 <= j < na implies go_plain_char(#[trigger] b[j]) by {
        assert(b[j] == a[j]);
    }
    lemma_go_strip_plain(b, 0, na);
    assert(b.subrange(0, na) =~= a);
    assert(b[na] == '/' && b[na + 1] == '/');
    lemma_go_line_skip(b, na + 2, na + 2 + comment.len());
    lemma_go_strip_shift(p, rest, 0, GoLex::Code);
    assert(p.len() == na + 2 + comment.len() + 1);
    assert(go_stripped(b) =~= a + (seq!['\n'] + go_stripped(rest)));
}

proof fn lemma_go_line_skip(b: Seq<char>, i: int, k: int)
    requires
        0 <= i <= k < b.len(),
        b[k] == '\n',
        forall|j: int| i <= j < k ==> #[trigger] b[j] != '\n',
    ensures
        go_strip_from(b, i, GoLex::Line) == seq!['\n'] + go_strip_from(b, k + 1, GoLex::Code),
    decreases k - i,
{
    if i < k {
        assert(b[i] != '\n');
        lemma_go_line_skip(b, i + 1, k);
    }
}

proof fn lemma_go_block_skip(b: Seq<char>, i: int, k: int)
    requires
        0 <= i <= k,
        k + 1 < b.len(),
        b[k] == '*',
        b[k + 1] == '/',
        forall|j: int| i <= j < k ==> #[trigger] b[j] != '*',
    ensures
        go_strip_from(b, i, GoLex::Block) == go_strip_from(b, k + 2, GoLex::Code),
    decreases k - i,
{
    if i < k {
        assert(b[i] != '*');
        lemma_go_block_skip(b, i + 1, k);
    }
}

/// A `/* */` comment goes whole, line breaks included, and the rest is
/// stripped on its own.
pub proof fn lemma_go_block_comment_removed(a: Seq<char>, comment: Seq<char>, rest: Seq<char>)
    requires
        forall|j: int| 0 <= j < a.len() ==> go_plain_char(#[trigger] a[j]),
        forall|j: int| 0 <= j < comment.len() ==> #[trigger] comment[j] != '*',
    ensures
        go_stripped(a + seq!['/', '*'] + comment + seq!['*', '/'] + rest) == a + go_stripped(rest),
{
    let p = a + seq!['/', '*'] + comment + seq!['*', '/'];
    let b = p + rest;
    let na = a.len() as int;
    let k = na + 2 + comment.len();
    assert forall|j: int| 0 <= j < na implies go_plain_char(#[trigger] b[j]) by {
        assert(b[j] == a[j]);
    }
    lemma_go_strip_plain(b, 0, na);
    assert(b.subrange(0, na) =~= a);
    assert(b[na] == '/' && b[na + 1] == '*');
    assert(b[k] == '*' && b[k + 1] == '/');
    assert forall|j: int| na + 2 <= j < k implies #[trigger] b[j] != '*' by {
        assert(b[j] == comment[j - na - 2]);
    }
    lemma_go_block_skip(b, na + 2, k);
    lemma_go_strip_shift(p, rest, 0, GoLex::Code);
    assert(p.len() == k + 2);
}

/// Braces inside a `"..."` string, a raw string, a `//` comment or a
/// `/* */` comment do not count: the search for the closing brace goes on
/// after the literal or comment at the same nesting.
pub proof fn lemma_matching_brace_skips_literals(b: Seq<char>, j: int, k: int, d: int)
    requires
        0 <= j < k < b.len(),
    ensures
        b[j] == '"' && b[k] == '"' && (forall|i: int| j < i < k ==> #[trigger] b[i] != '"' && b[i] != '\\' && b[i] != '\n')
            ==> matching_brace_from(b, j, GoLex::Code, d) == matching_brace_from(b, k + 1, GoLex::Code, d),
        b[j] == '`' && b[k] == '`' && (forall|i: int| j < i < k ==> #[trigger] b[i] != '`')
            ==> matching_brace_from(b, j, GoLex::Code, d) == matching_brace_from(b, k + 1, GoLex::Code, d),
        j + 1 < k && b[j] == '/' && b[j + 1] == '/' && b[k] == '\n' && (forall|i: int| j + 1 < i < k ==> #[trigger] b[i] != '\n')
            ==> matching_brace_from(b, j, GoLex::Code, d) == matching_brace_from(b, k + 1, GoLex::Code, d),
        j + 1 < k && k + 1 < b.len() && b[j] == '/' && b[j + 1] == '*' && b[k] == '*' && b[k + 1] == '/'
            && (forall|i: int| j + 1 < i < k ==> #[trigger] b[i] != '*')
            ==> matching_brace_from(b, j, GoLex::Code, d) == matching_brace_from(b, k + 2, GoLex::Code, d),
{
    if d > 0 {
        if b[j] == '"' && b[k] == '"' && (forall|i: int| j < i < k ==> #[trigger] b[i] != '"' && b[i] != '\\' && b[i] != '\n') {
            lemma_brace_run(b, j + 1, k, d, GoLex::Quoted);
        }
        if b[j] == '`' && b[k] == '`' && (forall|i: int| j < i < k ==> #[trigger] b[i] != '`') {
            lemma_brace_run(b, j + 1, k, d, GoLex::Raw);
        }
        if j + 1 < k && b[j] == '/' && b[j + 1] == '/' && b[k] == '\n' && (forall|i: int| j + 1 < i < k ==> #[trigger] b[i] != '\n') {
            lemma_brace_run(b, j + 2, k, d, GoLex::Line);
        }
        if j + 1 < k && k + 1 < b.len() && b[j] == '/' && b[j + 1] == '*' && b[k] == '*' && b[k + 1] == '/'
            && (forall|i: int| j + 1 < i < k ==> #[trigger] b[i] != '*') {
            lemma_brace_run(b, j + 2, k, d, GoLex::Block);
        }
    }
}

/// The brace search inside a literal or comment runs to its end.
proof fn lemma_brace_run(b: Seq<char>, i: int, k: int, d: int, st: GoLex)
    requires
        0 <= i <= k < b.len(),
        d > 0,
        st == GoLex::Quoted ==> b[k] == '"' && forall|j: int| i <= j < k ==> #[trigger] b[j] != '"' && b[j] != '\\' && b[j] != '\n',
        st == GoLex::Raw ==> b[k] == '`' && forall|j: int| i <= j < k ==> #[trigger] b[j] != '`',
        st == GoLex::Line ==> b[k] == '\n' && forall|j: int| i <= j < k ==> #[trigger] b[j] != '\n',
        st == GoLex::Block ==> k + 1 < b.len() && b[k] == '*' && b[k + 1] == '/' && forall|j: int| i <= j < k ==> #[trigger] b[j] != '*',
        st == GoLex::Quoted || st == GoLex::Raw || st == GoLex::Line || st == GoLex::Block,
    ensures
        matching_brace_from(b, i, st, d) == matching_brace_from(
            b,
            if st == GoLex::Block { k + 2 } else { k + 1 },
            GoLex::Code,
            d,
        ),
    decreases k - i,
{
    if i < k {
        lemma_brace_run(b, i + 1, k, d, st);
    }
}

/// The body a function scan finds is a matched block: its `}` is the one
/// matched to its `{`.
proof fn lemma_func_body_matched(b: Seq<char>, i: int, st: GoLex, paren: int)
    requires
        0 <= i,
    ensures
        func_body_from(b, i, st, paren) matches Some(r) ==> spec_matching_brace(b, r.0) == Some(r),
    decreases b.len() + 1 - i,
{
    if i < b.len() {
        lemma_func_body_matched(b, i + 1, GoLex::Code, paren);
        lemma_func_body_matched(b, i + 1, GoLex::Line, paren);
        lemma_func_body_matched(b, i + 1, GoLex::Block, paren);
        lemma_func_body_matched(b, i + 1, GoLex::Quoted, paren);
        lemma_func_body_matched(b, i + 1, GoLex::Raw, paren);
        lemma_func_body_matched(b, i + 1, GoLex::Rune, paren);
        lemma_func_body_matched(b, i + 2, GoLex::Code, paren);
        lemma_func_body_matched(b, i + 2, GoLex::Line, paren);
        lemma_func_body_matched(b, i + 2, GoLex::Block, paren);
        lemma_func_body_matched(b, i + 2, GoLex::Quoted, paren);
        lemma_func_body_matched(b, i + 2, GoLex::Rune, paren);
        lemma_func_body_matched(b, i + 1, GoLex::Code, paren + 1);
        lemma_func_body_matched(b, i + 1, GoLex::Code, paren - 1);
        lemma_matching_brace_from(b, i + 1, GoLex::Code, 1);
        if let Some(cl) = matching_brace_from(b, i + 1, GoLex::Code, 1) {
            lemma_func_body_matched(b, cl + 1, GoLex::Code, paren);
        }
    }
}

/// A function body that compression extracts is brace-balanced: in code
/// without comments or literals, the nesting from its `{` stays above zero
/// inside it and is zero right after its closing `}`.
pub proof fn lemma_go_body_balanced(b: Seq<char>, start: int)
    requires
        0 <= start,
        forall|k: int| 0 <= k < b.len() ==> go_plain_char(#[trigger] b[k]),
    ensures
        func_body_from(b, start, GoLex::Code, 0) matches Some(r) ==> {
            &&& brace_depth(b.subrange(r.0, r.1 + 1)) == 0
            &&& forall|k: int| r.0 < k <= r.1 ==> brace_depth(#[trigger] b.subrange(r.0, k)) > 0
        },
{
    lemma_func_body_from(b, start, GoLex::Code, 0);
    lemma_func_body_matched(b, start, GoLex::Code, 0);
    if let Some(r) = func_body_from(b, start, GoLex::Code, 0) {
        lemma_matching_brace_balanced(b, r.0);
    }
}

} // verus!
