//! Cleaning of Rust sources: comments, test modules and empty lines.
use vstd::prelude::*;
use crate::text::{
    all_ws, chars_of, has_char, index_of, is_blank, join, lemma_index_of_bounds, lines,
    slice_vec, split_lines, starts_with, starts_with_str, string_of, trim, trim_vec,
    vec_has_char, views, join_with, nonblank, drop_blank_lines, ends_with, ends_with_str,
};

verus! {

/// Lexer state while removing `//` and `/* */` comments.
#[derive(PartialEq, Eq, Structural, Clone, Copy)]
pub enum CommentState {
    /// Ordinary code.
    Code,
    /// Inside a `//` comment.
    Line,
    /// Inside a `/* */` comment.
    Block,
    /// Inside a `"..."` string literal.
    Str,
    /// Inside a `'...'` character literal.
    Char,
}

/// Does the `'` at `i` open a character literal: an escape follows, or the
/// quote two places on closes it?
pub open spec fn opens_char_literal(s: Seq<char>, i: int) -> bool {
    &&& s[i] == '\''
    &&& i + 1 < s.len()
    &&& (s[i + 1] == '\\' || (i + 2 < s.len() && s[i + 2] == '\''))
}

/// Output of the C-family comment remover (used for Rust and protobuf) from
/// position `i` on, in state `st`.
///
/// `//` drops everything up to the next line break (which is kept); `/* */`
/// drops its contents except line breaks and does not nest; text between
/// double quotes is copied verbatim, a backslash escaping the next character.
/// Where `lits` holds (Rust), a character literal (`'x'`, or `'\` and an
/// escape) is copied verbatim up to its closing quote (or the end of its
/// line); a `'` that opens no character literal, as in a lifetime, and every
/// `'` where `lits` does not hold (protobuf), is ordinary code.
pub open spec fn c_comments_from(s: Seq<char>, i: int, st: CommentState, lits: bool) -> Seq<char>
    decreases s.len() - i,
{
    if i < 0 || i >= s.len() {
        seq![]
    } else {
        let c = s[i];
        let has_next = i + 1 < s.len();
        match st {
            CommentState::Code => {
                if c == '/' && has_next && s[i + 1] == '/' {
                    c_comments_from(s, i + 2, CommentState::Line, lits)
                } else if c == '/' && has_next && s[i + 1] == '*' {
                    c_comments_from(s, i + 2, CommentState::Block, lits)
                } else if c == '"' {
                    seq![c] + c_comments_from(s, i + 1, CommentState::Str, lits)
                } else if lits && opens_char_literal(s, i) {
                    seq![c] + c_comments_from(s, i + 1, CommentState::Char, lits)
                } else {
                    seq![c] + c_comments_from(s, i + 1, CommentState::Code, lits)
                }
            },
            CommentState::Char => {
                if c == '\\' && has_next {
                    seq![c, s[i + 1]] + c_comments_from(s, i + 2, CommentState::Char, lits)
                } else if c == '\'' || c == '\n' {
                    seq![c] + c_comments_from(s, i + 1, CommentState::Code, lits)
                } else {
                    seq![c] + c_comments_from(s, i + 1, CommentState::Char, lits)
                }
            },
            CommentState::Line => {
                if c == '\n' {
                    seq![c] + c_comments_from(s, i + 1, CommentState::Code, lits)
                } else {
                    c_comments_from(s, i + 1, CommentState::Line, lits)
                }
            },
            CommentState::Block => {
                if c == '*' && has_next && s[i + 1] == '/' {
                    c_comments_from(s, i + 2, CommentState::Code, lits)
                } else if c == '\n' {
                    seq![c] + c_comments_from(s, i + 1, CommentState::Block, lits)
                } else {
                    c_comments_from(s, i + 1, CommentState::Block, lits)
                }
            },
            CommentState::Str => {
                if c == '\\' && has_next {
                    seq![c, s[i + 1]] + c_comments_from(s, i + 2, CommentState::Str, lits)
                } else if c == '\\' {
                    seq![c]
                } else if c == '"' {
                    seq![c] + c_comments_from(s, i + 1, CommentState::Code, lits)
                } else {
                    seq![c] + c_comments_from(s, i + 1, CommentState::Str, lits)
                }
            },
        }
    }
}

/// Removing comments never lengthens a text.
pub proof fn lemma_c_comments_len(s: Seq<char>, i: int, st: CommentState, lits: bool)
    requires
        0 <= i,
    ensures
        c_comments_from(s, i, st, lits).len() <= if i <= s.len() { s.len() - i } else { 0 },
    decreases s.len() - i,
{
    if i < s.len() {
        let has_next = i + 1 < s.len();
        lemma_c_comments_len(s, i + 1, CommentState::Code, lits);
        lemma_c_comments_len(s, i + 1, CommentState::Line, lits);
        lemma_c_comments_len(s, i + 1, CommentState::Block, lits);
        lemma_c_comments_len(s, i + 1, CommentState::Str, lits);
        lemma_c_comments_len(s, i + 1, CommentState::Char, lits);
        if has_next {
            lemma_c_comments_len(s, i + 2, CommentState::Char, lits);
            lemma_c_comments_len(s, i + 2, CommentState::Code, lits);
            lemma_c_comments_len(s, i + 2, CommentState::Line, lits);
            lemma_c_comments_len(s, i + 2, CommentState::Block, lits);
            lemma_c_comments_len(s, i + 2, CommentState::Str, lits);
        }
    }
}

/// The text with Rust comments removed (character literals are read).
pub open spec fn without_c_comments(s: Seq<char>) -> Seq<char> {
    c_comments_from(s, 0, CommentState::Code, true)
}

/// The text with protobuf comments removed: the same rules, but a `'` is
/// always ordinary text, as protobuf has no character literals.
pub open spec fn without_proto_comments(s: Seq<char>) -> Seq<char> {
    c_comments_from(s, 0, CommentState::Code, false)
}

/// Remove `//` and `/* */` comments from a character buffer; `lits` says
/// whether `'` opens character literals.
pub fn strip_c_comments_vec(s: &Vec<char>, lits: bool) -> (res: Vec<char>)
    ensures
        res@ == c_comments_from(s@, 0, CommentState::Code, lits),
{
    let mut out: Vec<char> = Vec::new();
    let mut st = CommentState::Code;
    let mut i: usize = 0;
    let n = s.len();
    while i < n
        invariant
            n == s.len(),
            i <= n,
            out@ + c_comments_from(s@, i as int, st, lits) == c_comments_from(s@, 0, CommentState::Code, lits),
        decreases n - i,
    {
        let c = s[i];
        let has_next = i + 1 < n;
        let ghost old_out = out@;
        let ghost old_i = i as int;
        let ghost old_st = st;
        match st {
            CommentState::Code => {
                if c == '/' && has_next && s[i + 1] == '/' {
                    st = CommentState::Line;
                    i += 2;
                } else if c == '/' && has_next && s[i + 1] == '*' {
                    st = CommentState::Block;
                    i += 2;
                } else if c == '"' {
                    out.push(c);
                    st = CommentState::Str;
                    i += 1;
                } else if lits && c == '\'' && has_next && (s[i + 1] == '\\' || (i + 2 < n && s[i + 2] == '\'')) {
                    out.push(c);
                    st = CommentState::Char;
                    i += 1;
                } else {
                    out.push(c);
                    i += 1;
                }
            },
            CommentState::Char => {
                out.push(c);
                if c == '\\' && has_next {
                    out.push(s[i + 1]);
                    i += 2;
                } else {
                    if c == '\'' || c == '\n' {
                        st = CommentState::Code;
                    }
                    i += 1;
                }
            },
            CommentState::Line => {
                if c == '\n' {
                    out.push(c);
                    st = CommentState::Code;
                }
                i += 1;
            },
            CommentState::Block => {
                if c == '*' && has_next && s[i + 1] == '/' {
                    st = CommentState::Code;
                    i += 2;
                } else {
                    if c == '\n' {
                        out.push(c);
                    }
                    i += 1;
                }
            },
            CommentState::Str => {
                if c == '\\' {
                    out.push(c);
                    if has_next {
                        out.push(s[i + 1]);
                        i += 2;
                    } else {
                        i = n;
                    }
                } else {
                    out.push(c);
                    if c == '"' {
                        st = CommentState::Code;
                    }
                    i += 1;
                }
            },
        }
        proof {
            let rest = c_comments_from(s@, i as int, st, lits);
            let prev = c_comments_from(s@, old_i, old_st, lits);
            assert(old_out + prev == c_comments_from(s@, 0, CommentState::Code, lits));
            assert(out@ + rest =~= old_out + prev);
        }
    }
    out
}

/// Remove Rust comments (`//` and `/* */`), preserving string literals.
pub fn remove_rust_comments(code: &str) -> (res: String)
    ensures
        res@ == without_c_comments(code@),
{
    let s = chars_of(code);
    let out = strip_c_comments_vec(&s, true);
    string_of(&out)
}

// ───────────────────────── test modules ─────────────────────────

/// Number of `{` minus number of `}` in a line.
pub open spec fn brace_balance(l: Seq<char>) -> int
    decreases l.len(),
{
    if l.len() == 0 {
        0
    } else {
        brace_balance(l.drop_last()) + if l.last() == '{' {
            1int
        } else if l.last() == '}' {
            -1int
        } else {
            0int
        }
    }
}

/// First line at or after `j` that is not blank (or `ls.len()`).
pub open spec fn next_nonblank(ls: Seq<Seq<char>>, j: int) -> int
    decreases ls.len() - j,
{
    if j < 0 || j >= ls.len() {
        ls.len() as int
    } else if !all_ws(ls[j]) {
        j
    } else {
        next_nonblank(ls, j + 1)
    }
}

/// First line at or after `j` that contains `{` (or `ls.len()`).
pub open spec fn next_brace_line(ls: Seq<Seq<char>>, j: int) -> int
    decreases ls.len() - j,
{
    if j < 0 || j >= ls.len() {
        ls.len() as int
    } else if has_char(ls[j], '{') {
        j
    } else {
        next_brace_line(ls, j + 1)
    }
}

/// Does line `i` open a test module?
///
/// Either it starts (after trimming) with `mod test`/`mod revert` and the
/// line itself, or the next non-blank one, holds a `{`; or it starts with
/// `#[cfg(test)]` and the next non-blank line starts with `mod `.
pub open spec fn opens_test_module(ls: Seq<Seq<char>>, i: int) -> bool {
    let st = trim(ls[i]);
    if starts_with(st, "mod test"@) || starts_with(st, "mod revert"@) {
        has_char(ls[i], '{') || {
            let j = next_nonblank(ls, i + 1);
            j < ls.len() && has_char(ls[j], '{')
        }
    } else if starts_with(st, "#[cfg(test)]"@) {
        let j = next_nonblank(ls, i + 1);
        j < ls.len() && starts_with(trim(ls[j]), "mod "@)
    } else {
        false
    }
}

/// Line of the opening brace of the module that line `i` opens.
pub open spec fn module_brace_line(ls: Seq<Seq<char>>, i: int) -> int {
    if has_char(ls[i], '{') {
        i
    } else {
        let k = next_brace_line(ls, i);
        if k < ls.len() {
            k
        } else {
            i
        }
    }
}

/// Line after the one where the running brace balance, counted from line
/// `j` with balance `count` so far, first returns to zero (or `ls.len()`).
pub open spec fn module_end_from(ls: Seq<Seq<char>>, j: int, count: int) -> int
    decreases ls.len() - j,
{
    if j < 0 || j >= ls.len() {
        ls.len() as int
    } else {
        let c = count + brace_balance(ls[j]);
        if c == 0 {
            j + 1
        } else {
            module_end_from(ls, j + 1, c)
        }
    }
}

/// The line holding the `mod` of the test module opened at line `i`.
pub open spec fn decl_line(ls: Seq<Seq<char>>, i: int) -> int {
    if starts_with(trim(ls[i]), "#[cfg(test)]"@) {
        next_nonblank(ls, i + 1)
    } else {
        i
    }
}

/// The module opened at line `i` is a body-less `mod name;` declaration.
pub open spec fn bodyless_decl(ls: Seq<Seq<char>>, i: int) -> bool {
    let d = decl_line(ls, i);
    &&& 0 <= d < ls.len()
    &&& ends_with(trim(ls[d]), ";"@)
    &&& !has_char(ls[d], '{')
}

/// Line after the test module opened at line `i`: after its declaration
/// line when it has no body, else after the line where its braces balance.
pub open spec fn module_end(ls: Seq<Seq<char>>, i: int) -> int {
    if bodyless_decl(ls, i) {
        decl_line(ls, i) + 1
    } else {
        module_end_from(ls, module_brace_line(ls, i), 0)
    }
}

proof fn lemma_next_nonblank(ls: Seq<Seq<char>>, j: int)
    requires
        0 <= j,
    ensures
        j <= next_nonblank(ls, j) <= ls.len() || (j > ls.len() && next_nonblank(ls, j) == ls.len()),
    decreases ls.len() - j,
{
    if j < ls.len() && all_ws(ls[j]) {
        lemma_next_nonblank(ls, j + 1);
    }
}

pub proof fn lemma_module_end_from(ls: Seq<Seq<char>>, j: int, count: int)
    requires
        0 <= j,
    ensures
        j < module_end_from(ls, j, count) <= ls.len() || (j >= ls.len() && module_end_from(
            ls,
            j,
            count,
        ) == ls.len()),
    decreases ls.len() - j,
{
    if j < ls.len() {
        let c = count + brace_balance(ls[j]);
        if c != 0 {
            lemma_module_end_from(ls, j + 1, c);
        }
    }
}

pub proof fn lemma_next_brace_line(ls: Seq<Seq<char>>, j: int)
    requires
        0 <= j,
    ensures
        j <= next_brace_line(ls, j) <= ls.len() || (j > ls.len() && next_brace_line(ls, j)
            == ls.len()),
    decreases ls.len() - j,
{
    if j < ls.len() && !has_char(ls[j], '{') {
        lemma_next_brace_line(ls, j + 1);
    }
}

pub proof fn lemma_module_end(ls: Seq<Seq<char>>, i: int)
    requires
        0 <= i < ls.len(),
    ensures
        i < module_end(ls, i) <= ls.len(),
{
    lemma_next_brace_line(ls, i);
    lemma_next_nonblank(ls, i + 1);
    lemma_module_end_from(ls, module_brace_line(ls, i), 0);
}

/// Lines kept from line `i` on when test modules are removed.
pub open spec fn kept_from(ls: Seq<Seq<char>>, i: int) -> Seq<Seq<char>>
    decreases ls.len() - i,
{
    if i < 0 || i >= ls.len() {
        seq![]
    } else if opens_test_module(ls, i) {
        let j = module_end(ls, i);
        proof {
            lemma_module_end(ls, i);
        }
        kept_from(ls, j)
    } else {
        seq![ls[i]] + kept_from(ls, i + 1)
    }
}

pub proof fn lemma_lines_len(s: Seq<char>)
    ensures
        lines(s).len() <= s.len(),
        forall|k: int| 0 <= k < lines(s).len() ==> (#[trigger] lines(s)[k]).len() <= s.len(),
    decreases s.len(),
{
    if s.len() > 0 {
        lemma_index_of_bounds(s, '\n');
        let k = index_of(s, '\n');
        if k < s.len() {
            lemma_lines_len(s.skip(k + 1));
            let rest = lines(s.skip(k + 1));
            assert forall|m: int| 0 <= m < lines(s).len() implies (#[trigger] lines(s)[m]).len()
                <= s.len() by {
                if m > 0 {
                    assert(lines(s)[m] == rest[m - 1]);
                }
            }
        }
    }
}

/// The text without its test modules.
pub open spec fn without_test_modules(s: Seq<char>) -> Seq<char> {
    join(kept_from(lines(s), 0), seq!['\n'])
}

fn brace_balance_exec(l: &Vec<char>) -> (res: i64)
    requires
        l@.len() <= i32::MAX,
    ensures
        res == brace_balance(l@),
        -l@.len() <= res <= l@.len(),
{
    let mut b: i64 = 0;
    let mut k: usize = 0;
    while k < l.len()
        invariant
            k <= l.len() <= i32::MAX,
            b == brace_balance(l@.take(k as int)),
            -k <= b <= k,
        decreases l.len() - k,
    {
        proof {
            assert(l@.take(k + 1).drop_last() =~= l@.take(k as int));
        }
        if l[k] == '{' {
            b += 1;
        } else if l[k] == '}' {
            b -= 1;
        }
        k += 1;
    }
    assert(l@.take(l.len() as int) =~= l@);
    b
}

fn find_next_nonblank(ls: &Vec<Vec<char>>, j: usize) -> (res: usize)
    requires
        j <= ls.len(),
    ensures
        res == next_nonblank(views(ls@), j as int),
    decreases ls.len() - j,
{
    if j >= ls.len() {
        ls.len()
    } else if !is_blank(&ls[j]) {
        j
    } else {
        find_next_nonblank(ls, j + 1)
    }
}

fn find_next_brace_line(ls: &Vec<Vec<char>>, j: usize) -> (res: usize)
    requires
        j <= ls.len(),
    ensures
        res == next_brace_line(views(ls@), j as int),
    decreases ls.len() - j,
{
    if j >= ls.len() {
        ls.len()
    } else if vec_has_char(&ls[j], '{') {
        j
    } else {
        find_next_brace_line(ls, j + 1)
    }
}

fn is_test_module_start(ls: &Vec<Vec<char>>, i: usize) -> (res: bool)
    requires
        i < ls.len(),
    ensures
        res == opens_test_module(views(ls@), i as int),
{
    let st = trim_vec(&ls[i]);
    if starts_with_str(&st, "mod test") || starts_with_str(&st, "mod revert") {
        if vec_has_char(&ls[i], '{') {
            true
        } else {
            let j = find_next_nonblank(ls, i + 1);
            j < ls.len() && vec_has_char(&ls[j], '{')
        }
    } else if starts_with_str(&st, "#[cfg(test)]") {
        let j = find_next_nonblank(ls, i + 1);
        if j < ls.len() {
            let tj = trim_vec(&ls[j]);
            starts_with_str(&tj, "mod ")
        } else {
            false
        }
    } else {
        false
    }
}

/// Remove `#[cfg(test)]` and `mod tests { ... }` blocks.
pub fn remove_test_modules(code: &str) -> (res: String)
    requires
        code@.len() <= i32::MAX,
    ensures
        res@ == without_test_modules(code@),
{
    let s = chars_of(code);
    let ls = split_lines(&s);
    let ghost vls = views(ls@);
    proof {
        lemma_lines_len(s@);
    }
    let n = ls.len();
    let mut kept: Vec<Vec<char>> = Vec::new();
    let mut i: usize = 0;
    while i < n
        invariant
            n == ls.len(),
            vls == views(ls@),
            vls == lines(s@),
            forall|k: int| 0 <= k < n ==> (#[trigger] vls[k]).len() <= i32::MAX,
            n <= i32::MAX,
            i <= n,
            kept_from(vls, 0) == views(kept@) + kept_from(vls, i as int),
        decreases n - i,
    {
        let st = trim_vec(&ls[i]);
        let d = if starts_with_str(&st, "#[cfg(test)]") {
            find_next_nonblank(&ls, i + 1)
        } else {
            i
        };
        let bodyless = d < n && ends_with_str(&trim_vec(&ls[d]), ";") && !vec_has_char(&ls[d], '{');
        assert(d == decl_line(vls, i as int));
        assert(bodyless == bodyless_decl(vls, i as int));
        if is_test_module_start(&ls, i) && bodyless {
            proof {
                lemma_module_end(vls, i as int);
                assert(d + 1 == module_end(vls, i as int));
                assert(kept_from(vls, i as int) == kept_from(vls, d + 1));
            }
            i = d + 1;
        } else if is_test_module_start(&ls, i) {
            let mut b = i;
            if !vec_has_char(&ls[b], '{') {
                let k = find_next_brace_line(&ls, i);
                if k < n {
                    b = k;
                }
            }
            proof {
                lemma_next_brace_line(vls, i as int);
                assert(b == module_brace_line(vls, i as int));
            }
            let mut count: i64 = 0;
            let mut j = b;
            let mut done = false;
            while j < n && !done
                invariant
                    n == ls.len(),
                    vls == views(ls@),
                    forall|k: int| 0 <= k < n ==> (#[trigger] vls[k]).len() <= i32::MAX,
                    b <= j <= n,
                    -(i32::MAX as int) * (j - b) <= count <= (i32::MAX as int) * (j - b),
                    n <= i32::MAX,
                    !done ==> module_end_from(vls, j as int, count as int) == module_end_from(
                        vls,
                        b as int,
                        0,
                    ),
                    done ==> j == module_end_from(vls, b as int, 0),
                decreases n - j,
            {
                let bal = brace_balance_exec(&ls[j]);
                proof {
                    assert(vls[j as int] == ls[j as int]@);
                    assert(-(i32::MAX as int) * (j - b) - (i32::MAX as int) == -(i32::MAX as int) * (j + 1 - b)) by (nonlinear_arith);
                    assert((i32::MAX as int) * (j - b) + (i32::MAX as int) == (i32::MAX as int) * (j + 1 - b)) by (nonlinear_arith);
                    assert((i32::MAX as int) * (j + 1 - b) <= (i32::MAX as int) * (i32::MAX as int)) by (nonlinear_arith)
                        requires j + 1 - b <= i32::MAX, j + 1 - b >= 0;
                }
                count = count + bal;
                j += 1;
                if count == 0 {
                    done = true;
                }
            }
            proof {
                lemma_module_end(vls, i as int);
                assert(j == module_end(vls, i as int));
                assert(kept_from(vls, i as int) == kept_from(vls, j as int));
            }
            i = j;
        } else {
            let ghost old_kept = views(kept@);
            kept.push(slice_vec(&ls[i], 0, ls[i].len()));
            proof {
                assert(ls[i as int]@.subrange(0, ls[i as int]@.len() as int) =~= ls[i as int]@);
                assert(views(kept@) =~= old_kept.push(vls[i as int]));
            }
            i += 1;
        }
    }
    proof {
        assert(views(kept@) + kept_from(vls, n as int) =~= views(kept@));
    }
    let nl = vec!['\n'];
    assert(nl@ =~= seq!['\n']);
    let out = join_with(&kept, &nl);
    string_of(&out)
}


/// The lines of the text that are not blank, joined by `'\n'`.
pub open spec fn without_empty_lines(s: Seq<char>) -> Seq<char> {
    join(nonblank(lines(s)), seq!['\n'])
}

/// Remove empty (whitespace-only) lines.
pub fn remove_empty_lines(text: &str) -> (res: String)
    ensures
        res@ == without_empty_lines(text@),
{
    let s = chars_of(text);
    let out = drop_blank_lines(&s);
    string_of(&out)
}

/// The lines kept by `remove_empty_lines` are exactly the non-blank ones, in
/// order: none of them is blank, and a line that is not blank is kept.
pub proof fn lemma_nonblank_law(ls: Seq<Seq<char>>)
    ensures
        forall|j: int| 0 <= j < nonblank(ls).len() ==> !all_ws(#[trigger] nonblank(ls)[j]),
        forall|l: Seq<char>| #[trigger] nonblank(ls).contains(l) <==> (ls.contains(l) && !all_ws(l)),
    decreases ls.len(),
{
    broadcast use vstd::seq_lib::group_seq_properties;
    if ls.len() > 0 {
        let d = ls.drop_last();
        lemma_nonblank_law(d);
        assert(ls =~= d.push(ls.last()));
        if !all_ws(ls.last()) {
            assert forall|j: int| 0 <= j < nonblank(ls).len() implies !all_ws(#[trigger] nonblank(ls)[j]) by {
                if j < nonblank(d).len() {
                    assert(nonblank(ls)[j] == nonblank(d)[j]);
                }
            }
        }
    }
}


// ───────────────────────── what stripping keeps ─────────────────────────

/// `a` is a subsequence of `b` (greedy matching decides it).
pub open spec fn subseq<A>(a: Seq<A>, b: Seq<A>) -> bool
    decreases b.len(),
{
    if a.len() == 0 {
        true
    } else if b.len() == 0 {
        false
    } else if a[0] == b[0] {
        subseq(a.drop_first(), b.drop_first())
    } else {
        subseq(a, b.drop_first())
    }
}

proof fn lemma_subseq_drop_head<A>(a: Seq<A>, b: Seq<A>)
    requires
        a.len() > 0,
        subseq(a, b),
    ensures
        subseq(a.drop_first(), b),
    decreases b.len(), 0int,
{
    if b.len() > 0 {
        if a[0] == b[0] {
            lemma_subseq_prepend(a.drop_first(), b.drop_first(), b[0]);
            assert(seq![b[0]] + b.drop_first() =~= b);
        } else {
            lemma_subseq_drop_head(a, b.drop_first());
            lemma_subseq_prepend(a.drop_first(), b.drop_first(), b[0]);
            assert(seq![b[0]] + b.drop_first() =~= b);
        }
    }
}

/// Putting an element in front of the longer sequence keeps a subsequence.
pub proof fn lemma_subseq_prepend<A>(a: Seq<A>, b: Seq<A>, x: A)
    requires
        subseq(a, b),
    ensures
        subseq(a, seq![x] + b),
    decreases b.len(), 1int,
{
    let bx = seq![x] + b;
    assert(bx.drop_first() =~= b);
    if a.len() > 0 && a[0] == x {
        lemma_subseq_drop_head(a, b);
    }
}

/// Putting the same element in front of both keeps a subsequence.
pub proof fn lemma_subseq_cons<A>(a: Seq<A>, b: Seq<A>, x: A)
    requires
        subseq(a, b),
    ensures
        subseq(seq![x] + a, seq![x] + b),
{
    assert((seq![x] + a).drop_first() =~= a);
    assert((seq![x] + b).drop_first() =~= b);
}

/// The number of line breaks in a text.
pub open spec fn count_nl(s: Seq<char>) -> nat
    decreases s.len(),
{
    if s.len() == 0 {
        0
    } else {
        (if s[0] == '\n' { 1nat } else { 0nat }) + count_nl(s.drop_first())
    }
}

proof fn lemma_count_nl_cons(c: char, t: Seq<char>)
    ensures
        count_nl(seq![c] + t) == (if c == '\n' { 1nat } else { 0nat }) + count_nl(t),
{
    assert((seq![c] + t).drop_first() =~= t);
}

proof fn lemma_skip_cons(s: Seq<char>, i: int)
    requires
        0 <= i < s.len(),
    ensures
        s.skip(i) == seq![s[i]] + s.skip(i + 1),
{
    assert(s.skip(i) =~= seq![s[i]] + s.skip(i + 1));
}

proof fn lemma_c_comments_keep(s: Seq<char>, i: int, st: CommentState, lits: bool)
    requires
        0 <= i,
    ensures
        subseq(c_comments_from(s, i, st, lits), if i <= s.len() { s.skip(i) } else { seq![] }),
        count_nl(c_comments_from(s, i, st, lits)) == count_nl(if i <= s.len() { s.skip(i) } else { seq![] }),
        (st == CommentState::Code || st == CommentState::Str || st == CommentState::Char) && i <= s.len()
            && (forall|k: int| i <= k < s.len() ==> s[k] != '/') ==> c_comments_from(s, i, st, lits) == s.skip(i),
    decreases s.len() - i,
{
    if i >= s.len() {
        if i == s.len() {
            assert(s.skip(i) =~= Seq::<char>::empty());
        }
        assert(c_comments_from(s, i, st, lits) =~= Seq::<char>::empty());
    } else {
        let c = s[i];
        let has_next = i + 1 < s.len();
        lemma_skip_cons(s, i);
        lemma_count_nl_cons(c, s.skip(i + 1));
        if has_next {
            lemma_skip_cons(s, i + 1);
            lemma_count_nl_cons(s[i + 1], s.skip(i + 2));
        }
        lemma_c_comments_keep(s, i + 1, CommentState::Code, lits);
        lemma_c_comments_keep(s, i + 1, CommentState::Line, lits);
        lemma_c_comments_keep(s, i + 1, CommentState::Block, lits);
        lemma_c_comments_keep(s, i + 1, CommentState::Str, lits);
        lemma_c_comments_keep(s, i + 1, CommentState::Char, lits);
        if has_next {
            lemma_c_comments_keep(s, i + 2, CommentState::Code, lits);
            lemma_c_comments_keep(s, i + 2, CommentState::Line, lits);
            lemma_c_comments_keep(s, i + 2, CommentState::Block, lits);
            lemma_c_comments_keep(s, i + 2, CommentState::Str, lits);
            lemma_c_comments_keep(s, i + 2, CommentState::Char, lits);
        }
        let out = c_comments_from(s, i, st, lits);
        // Which next state and how many characters the step takes.
        match st {
            CommentState::Code => {
                if c == '/' && has_next && s[i + 1] == '/' {
                    lemma_subseq_prepend(c_comments_from(s, i + 2, CommentState::Line, lits), s.skip(i + 2), s[i + 1]);
                    lemma_subseq_prepend(c_comments_from(s, i + 2, CommentState::Line, lits), s.skip(i + 1), c);
                } else if c == '/' && has_next && s[i + 1] == '*' {
                    lemma_subseq_prepend(c_comments_from(s, i + 2, CommentState::Block, lits), s.skip(i + 2), s[i + 1]);
                    lemma_subseq_prepend(c_comments_from(s, i + 2, CommentState::Block, lits), s.skip(i + 1), c);
                } else if c == '"' {
                    lemma_subseq_cons(c_comments_from(s, i + 1, CommentState::Str, lits), s.skip(i + 1), c);
                    lemma_count_nl_cons(c, c_comments_from(s, i + 1, CommentState::Str, lits));
                } else if lits && opens_char_literal(s, i) {
                    lemma_subseq_cons(c_comments_from(s, i + 1, CommentState::Char, lits), s.skip(i + 1), c);
                    lemma_count_nl_cons(c, c_comments_from(s, i + 1, CommentState::Char, lits));
                } else {
                    lemma_subseq_cons(c_comments_from(s, i + 1, CommentState::Code, lits), s.skip(i + 1), c);
                    lemma_count_nl_cons(c, c_comments_from(s, i + 1, CommentState::Code, lits));
                }
            },
            CommentState::Line => {
                if c == '\n' {
                    lemma_subseq_cons(c_comments_from(s, i + 1, CommentState::Code, lits), s.skip(i + 1), c);
                    lemma_count_nl_cons(c, c_comments_from(s, i + 1, CommentState::Code, lits));
                } else {
                    lemma_subseq_prepend(c_comments_from(s, i + 1, CommentState::Line, lits), s.skip(i + 1), c);
                }
            },
            CommentState::Block => {
                if c == '*' && has_next && s[i + 1] == '/' {
                    lemma_subseq_prepend(c_comments_from(s, i + 2, CommentState::Code, lits), s.skip(i + 2), s[i + 1]);
                    lemma_subseq_prepend(c_comments_from(s, i + 2, CommentState::Code, lits), s.skip(i + 1), c);
                } else if c == '\n' {
                    lemma_subseq_cons(c_comments_from(s, i + 1, CommentState::Block, lits), s.skip(i + 1), c);
                    lemma_count_nl_cons(c, c_comments_from(s, i + 1, CommentState::Block, lits));
                } else {
                    lemma_subseq_prepend(c_comments_from(s, i + 1, CommentState::Block, lits), s.skip(i + 1), c);
                }
            },
            CommentState::Str => {
                if c == '\\' && has_next {
                    let r = c_comments_from(s, i + 2, CommentState::Str, lits);
                    lemma_subseq_cons(r, s.skip(i + 2), s[i + 1]);
                    lemma_subseq_cons(seq![s[i + 1]] + r, s.skip(i + 1), c);
                    assert(seq![c, s[i + 1]] + r =~= seq![c] + (seq![s[i + 1]] + r));
                    lemma_count_nl_cons(s[i + 1], r);
                    lemma_count_nl_cons(c, seq![s[i + 1]] + r);
                } else if c == '\\' {
                    assert(s.skip(i + 1) =~= Seq::<char>::empty());
                    lemma_subseq_cons(Seq::<char>::empty(), Seq::<char>::empty(), c);
                    assert(seq![c] + Seq::<char>::empty() =~= seq![c]);
                    lemma_count_nl_cons(c, Seq::<char>::empty());
                } else if c == '"' {
                    lemma_subseq_cons(c_comments_from(s, i + 1, CommentState::Code, lits), s.skip(i + 1), c);
                    lemma_count_nl_cons(c, c_comments_from(s, i + 1, CommentState::Code, lits));
                } else {
                    lemma_subseq_cons(c_comments_from(s, i + 1, CommentState::Str, lits), s.skip(i + 1), c);
                    lemma_count_nl_cons(c, c_comments_from(s, i + 1, CommentState::Str, lits));
                }
            },
            CommentState::Char => {
                if c == '\\' && has_next {
                    let r = c_comments_from(s, i + 2, CommentState::Char, lits);
                    lemma_subseq_cons(r, s.skip(i + 2), s[i + 1]);
                    lemma_subseq_cons(seq![s[i + 1]] + r, s.skip(i + 1), c);
                    assert(seq![c, s[i + 1]] + r =~= seq![c] + (seq![s[i + 1]] + r));
                    lemma_count_nl_cons(s[i + 1], r);
                    lemma_count_nl_cons(c, seq![s[i + 1]] + r);
                } else if c == '\'' || c == '\n' {
                    lemma_subseq_cons(c_comments_from(s, i + 1, CommentState::Code, lits), s.skip(i + 1), c);
                    lemma_count_nl_cons(c, c_comments_from(s, i + 1, CommentState::Code, lits));
                } else {
                    lemma_subseq_cons(c_comments_from(s, i + 1, CommentState::Char, lits), s.skip(i + 1), c);
                    lemma_count_nl_cons(c, c_comments_from(s, i + 1, CommentState::Char, lits));
                }
            },
        }
    }
}

/// Removing comments keeps the rest of the text in order (the result is a
/// subsequence of the text), keeps every line break, so the line count, and
/// changes nothing in a text without `/`.
pub proof fn lemma_rust_comments_keep(s: Seq<char>)
    ensures
        subseq(without_c_comments(s), s),
        count_nl(without_c_comments(s)) == count_nl(s),
        (forall|k: int| 0 <= k < s.len() ==> s[k] != '/') ==> without_c_comments(s) == s,
{
    lemma_c_comments_keep(s, 0, CommentState::Code, true);
    assert(s.skip(0) =~= s);
}


proof fn lemma_subseq_skip_more<A>(a: Seq<A>, b: Seq<A>, i: int, j: int)
    requires
        0 <= i <= j <= b.len(),
        subseq(a, b.skip(j)),
    ensures
        subseq(a, b.skip(i)),
    decreases j - i,
{
    if i < j {
        lemma_subseq_skip_more(a, b, i + 1, j);
        lemma_subseq_prepend(a, b.skip(i + 1), b[i]);
        assert(b.skip(i) =~= seq![b[i]] + b.skip(i + 1));
    }
}

proof fn lemma_kept_from_keep(ls: Seq<Seq<char>>, i: int)
    requires
        0 <= i <= ls.len(),
    ensures
        subseq(kept_from(ls, i), ls.skip(i)),
        (forall|k: int| i <= k < ls.len() ==> !#[trigger] opens_test_module(ls, k)) ==> kept_from(ls, i) == ls.skip(i),
    decreases ls.len() - i,
{
    if i == ls.len() {
        assert(ls.skip(i) =~= Seq::<Seq<char>>::empty());
    } else {
        assert(ls.skip(i) =~= seq![ls[i]] + ls.skip(i + 1));
        if opens_test_module(ls, i) {
            lemma_module_end(ls, i);
            let j = module_end(ls, i);
            lemma_kept_from_keep(ls, j);
            lemma_subseq_skip_more(kept_from(ls, j), ls, i, j);
        } else {
            lemma_kept_from_keep(ls, i + 1);
            lemma_subseq_cons(kept_from(ls, i + 1), ls.skip(i + 1), ls[i]);
        }
    }
}

/// Removing test modules keeps the other lines in order (the result's
/// lines are a subsequence of the text's lines), and where no line opens a
/// test module it keeps every line: the text comes back joined by line
/// breaks, which for a text without `\r` and without a final line break is
/// the text itself.
pub proof fn lemma_test_modules_keep(s: Seq<char>)
    ensures
        subseq(kept_from(lines(s), 0), lines(s)),
        without_test_modules(s) == join(kept_from(lines(s), 0), seq!['\n']),
        (forall|k: int| 0 <= k < lines(s).len() ==> !#[trigger] opens_test_module(lines(s), k)) ==> {
            &&& kept_from(lines(s), 0) == lines(s)
            &&& (!has_char(s, '\r') && (s.len() == 0 || s.last() != '\n') ==> without_test_modules(s) == s)
        },
{
    lemma_kept_from_keep(lines(s), 0);
    assert(lines(s).skip(0) =~= lines(s));
    if !has_char(s, '\r') && (s.len() == 0 || s.last() != '\n') {
        crate::mod_roundtrip::lemma_join_lines(s);
    }
}

// ───────────────────────── string literals survive ─────────────────────────

/// A character that neither starts a comment nor opens a literal.
pub open spec fn c_plain_char(c: char) -> bool {
    c != '/' && c != '"' && c != '\''
}

/// The scan of a text that starts at a suffix does not look back.
proof fn lemma_c_comments_shift(p: Seq<char>, y: Seq<char>, i: int, st: CommentState, lits: bool)
    requires
        0 <= i,
    ensures
        c_comments_from(p + y, p.len() + i, st, lits) == c_comments_from(y, i, st, lits),
    decreases y.len() + 1 - i,
{
    let b = p + y;
    if i < y.len() {
        assert(b[p.len() + i] == y[i]);
        if i + 1 < y.len() {
            assert(b[p.len() + i + 1] == y[i + 1]);
        }
        if i + 2 < y.len() {
            assert(b[p.len() + i + 2] == y[i + 2]);
        }
        assert(opens_char_literal(b, p.len() + i) == opens_char_literal(y, i));
        lemma_c_comments_shift(p, y, i + 1, CommentState::Code, lits);
        lemma_c_comments_shift(p, y, i + 1, CommentState::Line, lits);
        lemma_c_comments_shift(p, y, i + 1, CommentState::Block, lits);
        lemma_c_comments_shift(p, y, i + 1, CommentState::Str, lits);
        lemma_c_comments_shift(p, y, i + 1, CommentState::Char, lits);
        lemma_c_comments_shift(p, y, i + 2, CommentState::Code, lits);
        lemma_c_comments_shift(p, y, i + 2, CommentState::Line, lits);
        lemma_c_comments_shift(p, y, i + 2, CommentState::Block, lits);
        lemma_c_comments_shift(p, y, i + 2, CommentState::Str, lits);
        lemma_c_comments_shift(p, y, i + 2, CommentState::Char, lits);
    }
}

/// Plain code is copied as it is.
proof fn lemma_c_comments_plain(b: Seq<char>, i: int, k: int, lits: bool)
    requires
        0 <= i <= k <= b.len(),
        forall|j: int| i <= j < k ==> c_plain_char(#[trigger] b[j]),
    ensures
        c_comments_from(b, i, CommentState::Code, lits) == b.subrange(i, k) + c_comments_from(
            b,
            k,
            CommentState::Code,
            lits,
        ),
    decreases k - i,
{
    if i < k {
        assert(c_plain_char(b[i]));
        lemma_c_comments_plain(b, i + 1, k, lits);
        assert(b.subrange(i, k) =~= seq![b[i]] + b.subrange(i + 1, k));
    } else {
        assert(b.subrange(i, k) =~= Seq::<char>::empty());
    }
}

/// The inside of a string literal without escapes is copied up to and with
/// its closing quote, line breaks included.
proof fn lemma_c_comments_str(b: Seq<char>, i: int, k: int, lits: bool)
    requires
        0 <= i <= k < b.len(),
        b[k] == '"',
        forall|j: int| i <= j < k ==> #[trigger] b[j] != '"' && b[j] != '\\',
    ensures
        c_comments_from(b, i, CommentState::Str, lits) == b.subrange(i, k + 1) + c_comments_from(
            b,
            k + 1,
            CommentState::Code,
            lits,
        ),
    decreases k - i,
{
    if i < k {
        assert(b[i] != '"' && b[i] != '\\');
        lemma_c_comments_str(b, i + 1, k, lits);
    }
    assert(b.subrange(i, k + 1) =~= seq![b[i]] + b.subrange(i + 1, k + 1));
}

proof fn lemma_string_literal_kept(a: Seq<char>, s: Seq<char>, rest: Seq<char>, lits: bool)
    requires
        forall|j: int| 0 <= j < a.len() ==> c_plain_char(#[trigger] a[j]),
        forall|j: int| 0 <= j < s.len() ==> #[trigger] s[j] != '"' && s[j] != '\\',
    ensures
        c_comments_from(a + seq!['"'] + s + seq!['"'] + rest, 0, CommentState::Code, lits)
            == a + seq!['"'] + s + seq!['"'] + c_comments_from(rest, 0, CommentState::Code, lits),
{
    let p = a + seq!['"'] + s + seq!['"'];
    let b = p + rest;
    let na = a.len() as int;
    let k = na + 1 + s.len();
    assert forall|j: int| 0 <= j < na implies c_plain_char(#[trigger] b[j]) by {
        assert(b[j] == a[j]);
    }
    lemma_c_comments_plain(b, 0, na, lits);
    assert(b.subrange(0, na) =~= a);
    assert(b[na] == '"');
    assert(c_comments_from(b, na, CommentState::Code, lits) == seq!['"'] + c_comments_from(
        b,
        na + 1,
        CommentState::Str,
        lits,
    ));
    assert(b[k] == '"');
    assert forall|j: int| na + 1 <= j < k implies #[trigger] b[j] != '"' && b[j] != '\\' by {
        assert(b[j] == s[j - na - 1]);
    }
    lemma_c_comments_str(b, na + 1, k, lits);
    assert(b.subrange(na + 1, k + 1) =~= s + seq!['"']);
    lemma_c_comments_shift(p, rest, 0, CommentState::Code, lits);
    assert(p.len() == k + 1);
    assert(a + (seq!['"'] + (s + seq!['"'] + c_comments_from(rest, 0, CommentState::Code, lits)))
        =~= p + c_comments_from(rest, 0, CommentState::Code, lits));
}

/// A double-quoted string literal runs to its closing quote, across line
/// breaks, and is copied verbatim (`//` and `/*` inside it included); what
/// follows it is cleaned on its own, so a comment after a multi-line string
/// is still removed. Holds for Rust and for protobuf.
pub proof fn lemma_string_literal_verbatim(a: Seq<char>, s: Seq<char>, rest: Seq<char>)
    requires
        forall|j: int| 0 <= j < a.len() ==> c_plain_char(#[trigger] a[j]),
        forall|j: int| 0 <= j < s.len() ==> #[trigger] s[j] != '"' && s[j] != '\\',
    ensures
        without_c_comments(a + seq!['"'] + s + seq!['"'] + rest) == a + seq!['"'] + s + seq!['"']
            + without_c_comments(rest),
        without_proto_comments(a + seq!['"'] + s + seq!['"'] + rest) == a + seq!['"'] + s + seq!['"']
            + without_proto_comments(rest),
{
    lemma_string_literal_kept(a, s, rest, true);
    lemma_string_literal_kept(a, s, rest, false);
}

/// A `//` comment runs to the end of its line and no further: it goes, the
/// line break stays, and the rest is cleaned on its own.
pub proof fn lemma_line_comment_removed(a: Seq<char>, comment: Seq<char>, rest: Seq<char>)
    requires
        forall|j: int| 0 <= j < a.len() ==> c_plain_char(#[trigger] a[j]),
        forall|j: int| 0 <= j < comment.len() ==> #[trigger] comment[j] != '\n',
    ensures
        without_c_comments(a + seq!['/', '/'] + comment + seq!['\n'] + rest) == a + seq!['\n']
            + without_c_comments(rest),
{
    let p = a + seq!['/', '/'] + comment + seq!['\n'];
    let b = p + rest;
    let na = a.len() as int;
    assert forall|j: int| 0 <= j < na implies c_plain_char(#[trigger] b[j]) by {
        assert(b[j] == a[j]);
    }
    lemma_c_comments_plain(b, 0, na, true);
    assert(b.subrange(0, na) =~= a);
    assert(b[na] == '/' && b[na + 1] == '/');
    lemma_line_comment_skip(b, na + 2, na + 2 + comment.len());
    lemma_c_comments_shift(p, rest, 0, CommentState::Code, true);
    assert(p.len() == na + 2 + comment.len() + 1);
    assert(without_c_comments(b) =~= a + (seq!['\n'] + without_c_comments(rest)));
}

proof fn lemma_line_comment_skip(b: Seq<char>, i: int, k: int)
    requires
        0 <= i <= k < b.len(),
        b[k] == '\n',
        forall|j: int| i <= j < k ==> #[trigger] b[j] != '\n',
    ensures
        c_comments_from(b, i, CommentState::Line, true) == seq!['\n'] + c_comments_from(
            b,
            k + 1,
            CommentState::Code,
            true,
        ),
    decreases k - i,
{
    if i < k {
        assert(b[i] != '\n');
        lemma_line_comment_skip(b, i + 1, k);
    }
}

proof fn lemma_c_block_skip(b: Seq<char>, i: int, k: int, lits: bool)
    requires
        0 <= i <= k,
        k + 1 < b.len(),
        b[k] == '*',
        b[k + 1] == '/',
        forall|j: int| i <= j < k ==> #[trigger] b[j] != '*' && b[j] != '\n',
    ensures
        c_comments_from(b, i, CommentState::Block, lits) == c_comments_from(b, k + 2, CommentState::Code, lits),
    decreases k - i,
{
    if i < k {
        assert(b[i] != '*' && b[i] != '\n');
        lemma_c_block_skip(b, i + 1, k, lits);
    }
}

/// A `/* */` comment on one line goes whole, and the rest is cleaned on
/// its own (for Rust and for protobuf).
pub proof fn lemma_block_comment_removed(a: Seq<char>, comment: Seq<char>, rest: Seq<char>)
    requires
        forall|j: int| 0 <= j < a.len() ==> c_plain_char(#[trigger] a[j]),
        forall|j: int| 0 <= j < comment.len() ==> #[trigger] comment[j] != '*' && comment[j] != '\n',
    ensures
        without_c_comments(a + seq!['/', '*'] + comment + seq!['*', '/'] + rest) == a + without_c_comments(rest),
        without_proto_comments(a + seq!['/', '*'] + comment + seq!['*', '/'] + rest) == a
            + without_proto_comments(rest),
{
    lemma_block_comment_removed_in(a, comment, rest, true);
    lemma_block_comment_removed_in(a, comment, rest, false);
}

proof fn lemma_block_comment_removed_in(a: Seq<char>, comment: Seq<char>, rest: Seq<char>, lits: bool)
    requires
        forall|j: int| 0 <= j < a.len() ==> c_plain_char(#[trigger] a[j]),
        forall|j: int| 0 <= j < comment.len() ==> #[trigger] comment[j] != '*' && comment[j] != '\n',
    ensures
        c_comments_from(a + seq!['/', '*'] + comment + seq!['*', '/'] + rest, 0, CommentState::Code, lits)
            == a + c_comments_from(rest, 0, CommentState::Code, lits),
{
    let p = a + seq!['/', '*'] + comment + seq!['*', '/'];
    let b = p + rest;
    let na = a.len() as int;
    let k = na + 2 + comment.len();
    assert forall|j: int| 0 <= j < na implies c_plain_char(#[trigger] b[j]) by {
        assert(b[j] == a[j]);
    }
    lemma_c_comments_plain(b, 0, na, lits);
    assert(b.subrange(0, na) =~= a);
    assert(b[na] == '/' && b[na + 1] == '*');
    assert(b[k] == '*' && b[k + 1] == '/');
    assert forall|j: int| na + 2 <= j < k implies #[trigger] b[j] != '*' && b[j] != '\n' by {
        assert(b[j] == comment[j - na - 2]);
    }
    lemma_c_block_skip(b, na + 2, k, lits);
    lemma_c_comments_shift(p, rest, 0, CommentState::Code, lits);
    assert(p.len() == k + 2);
}

/// A Rust character literal `'x'` is copied verbatim, even where `x` is a
/// quote or a slash, and what follows is cleaned on its own.
pub proof fn lemma_char_literal_verbatim(a: Seq<char>, x: char, rest: Seq<char>)
    requires
        forall|j: int| 0 <= j < a.len() ==> c_plain_char(#[trigger] a[j]),
        x != '\\' && x != '\'' && x != '\n',
    ensures
        without_c_comments(a + seq!['\'', x, '\''] + rest) == a + seq!['\'', x, '\''] + without_c_comments(rest),
{
    let p = a + seq!['\'', x, '\''];
    let b = p + rest;
    let na = a.len() as int;
    assert forall|j: int| 0 <= j < na implies c_plain_char(#[trigger] b[j]) by {
        assert(b[j] == a[j]);
    }
    lemma_c_comments_plain(b, 0, na, true);
    assert(b.subrange(0, na) =~= a);
    assert(b[na] == '\'' && b[na + 1] == x && b[na + 2] == '\'');
    assert(opens_char_literal(b, na));
    assert(c_comments_from(b, na, CommentState::Code, true) == seq!['\''] + c_comments_from(b, na + 1, CommentState::Char, true));
    assert(c_comments_from(b, na + 1, CommentState::Char, true) == seq![x] + c_comments_from(b, na + 2, CommentState::Char, true));
    assert(c_comments_from(b, na + 2, CommentState::Char, true) == seq!['\''] + c_comments_from(b, na + 3, CommentState::Code, true));
    lemma_c_comments_shift(p, rest, 0, CommentState::Code, true);
    assert(p.len() == na + 3);
    assert(without_c_comments(b) =~= a + (seq!['\''] + (seq![x] + (seq!['\''] + without_c_comments(rest)))));
    assert(a + (seq!['\''] + (seq![x] + (seq!['\''] + without_c_comments(rest)))) =~= p + without_c_comments(rest));
}

} // verus!
