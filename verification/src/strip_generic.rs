//! Comment stripping and whitespace collapsing for non-Rust files.
use vstd::prelude::*;
use crate::strip::{CommentState, strip_c_comments_vec, without_proto_comments};
use crate::text::{
    all_ws, chars_of, drop_blank_lines, is_blank, join, join_with, lines, nonblank, split_lines,
    string_of, trim_end, trim_end_vec, views, is_ws,
};

verus! {

/// Which comment syntax a file extension uses.
pub enum CommentStyle {
    /// `#` to end of line, outside quotes.
    Hash,
    /// `--` and `/* */`, outside single quotes.
    Sql,
    /// `//` and `/* */`, outside double quotes.
    CStyle,
    /// No comments at all.
    NoComments,
}

/// The comment syntax used for a file extension.
pub open spec fn comment_style(ext: Seq<char>) -> CommentStyle {
    if ext == "sql"@ {
        CommentStyle::Sql
    } else if ext == "proto"@ {
        CommentStyle::CStyle
    } else if ext == "json"@ {
        CommentStyle::NoComments
    } else {
        CommentStyle::Hash
    }
}

/// The text with the comments of `ext`'s syntax removed.
pub open spec fn stripped_for(code: Seq<char>, ext: Seq<char>) -> Seq<char> {
    match comment_style(ext) {
        CommentStyle::Hash => without_hash_comments(code),
        CommentStyle::Sql => join(nonblank(lines(without_sql_comments(code))), seq!['\n']),
        CommentStyle::CStyle => join(nonblank(lines(without_proto_comments(code))), seq!['\n']),
        CommentStyle::NoComments => code,
    }
}

/// Does the string slice equal the literal?
pub fn str_equals(a: &str, b: &str) -> (res: bool)
    ensures
        res == (a@ == b@),
{
    let av = chars_of(a);
    let bv = chars_of(b);
    if av.len() != bv.len() {
        return false;
    }
    let mut i: usize = 0;
    while i < av.len()
        invariant
            av@ == a@,
            bv@ == b@,
            av.len() == bv.len(),
            i <= av.len(),
            forall|j: int| 0 <= j < i ==> av@[j] == bv@[j],
        decreases av.len() - i,
    {
        if av[i] != bv[i] {
            assert(av@[i as int] != bv@[i as int]);
            return false;
        }
        i += 1;
    }
    assert(av@ =~= bv@);
    true
}

/// Strip comments for various languages, chosen by file extension.
pub fn strip_comments(code: &str, extension: &str) -> (res: String)
    ensures
        res@ == stripped_for(code@, extension@),
{
    if str_equals(extension, "sql") {
        strip_sql_comments(code)
    } else if str_equals(extension, "proto") {
        strip_c_style_comments(code)
    } else if str_equals(extension, "json") {
        let v = chars_of(code);
        string_of(&v)
    } else {
        strip_hash_comments(code)
    }
}

// ───────────────────────── whitespace ─────────────────────────

/// Lines kept by `collapse_whitespace` from line `i` on: a blank line that
/// follows a blank line is dropped; every kept line loses trailing
/// whitespace.
pub open spec fn collapsed_from(ls: Seq<Seq<char>>, i: int, prev_blank: bool) -> Seq<Seq<char>>
    decreases ls.len() - i,
{
    if i < 0 || i >= ls.len() {
        seq![]
    } else if all_ws(ls[i]) && prev_blank {
        collapsed_from(ls, i + 1, prev_blank)
    } else {
        seq![trim_end(ls[i])] + collapsed_from(ls, i + 1, all_ws(ls[i]))
    }
}

/// The text with runs of blank lines collapsed to one.
pub open spec fn collapsed(s: Seq<char>) -> Seq<char> {
    join(collapsed_from(lines(s), 0, false), seq!['\n'])
}

/// Collapse consecutive blank lines into one, trim trailing whitespace.
pub fn collapse_whitespace(code: &str) -> (res: String)
    ensures
        res@ == collapsed(code@),
{
    let s = chars_of(code);
    let ls = split_lines(&s);
    let ghost vls = views(ls@);
    let mut prev_blank = false;
    let mut out: Vec<Vec<char>> = Vec::new();
    let mut i: usize = 0;
    while i < ls.len()
        invariant
            vls == views(ls@),
            i <= ls.len(),
            collapsed_from(vls, 0, false) == views(out@) + collapsed_from(
                vls,
                i as int,
                prev_blank,
            ),
        decreases ls.len() - i,
    {
        let blank = is_blank(&ls[i]);
        if blank && prev_blank {
            i += 1;
        } else {
            let t = trim_end_vec(&ls[i]);
            let ghost old_out = views(out@);
            out.push(t);
            proof {
                assert(views(out@) =~= old_out.push(trim_end(vls[i as int])));
                assert(old_out + collapsed_from(vls, i as int, prev_blank) =~= views(out@)
                    + collapsed_from(vls, i + 1, blank));
            }
            prev_blank = blank;
            i += 1;
        }
    }
    assert(views(out@) + collapsed_from(vls, i as int, prev_blank) =~= views(out@));
    let nl = vec!['\n'];
    assert(nl@ =~= seq!['\n']);
    let r = join_with(&out, &nl);
    string_of(&r)
}

// ───────────────────────── `#` comments ─────────────────────────

/// One line with its `#` comment removed, from position `i` on: a `#`
/// outside single and double quotes ends the line; inside double quotes a
/// backslash escapes the next character.
pub open spec fn hash_line_from(l: Seq<char>, i: int, sq: bool, dq: bool) -> Seq<char>
    decreases l.len() - i,
{
    if i < 0 || i >= l.len() {
        seq![]
    } else {
        let c = l[i];
        if c == '#' && !sq && !dq {
            seq![]
        } else {
            let dq2 = if c == '"' && !sq {
                !dq
            } else {
                dq
            };
            let sq2 = if c == '\'' && !dq2 {
                !sq
            } else {
                sq
            };
            if c == '\\' && dq2 {
                if i + 1 < l.len() {
                    seq![c, l[i + 1]] + hash_line_from(l, i + 2, sq2, dq2)
                } else {
                    seq![c]
                }
            } else {
                seq![c] + hash_line_from(l, i + 1, sq2, dq2)
            }
        }
    }
}

/// One line cleaned of its `#` comment and trailing whitespace.
pub open spec fn hash_clean_line(l: Seq<char>) -> Seq<char> {
    trim_end(hash_line_from(l, 0, false, false))
}

/// Every line cleaned of its `#` comment and trailing whitespace.
pub open spec fn hash_clean_lines(ls: Seq<Seq<char>>) -> Seq<Seq<char>>
    decreases ls.len(),
{
    if ls.len() == 0 {
        seq![]
    } else {
        hash_clean_lines(ls.drop_last()).push(hash_clean_line(ls.last()))
    }
}

/// The text with `#` comments removed line by line.
pub open spec fn without_hash_comments(s: Seq<char>) -> Seq<char> {
    join(hash_clean_lines(lines(s)), seq!['\n'])
}

fn hash_clean_line_exec(l: &Vec<char>) -> (res: Vec<char>)
    ensures
        res@ == hash_clean_line(l@),
{
    let mut out: Vec<char> = Vec::new();
    let mut sq = false;
    let mut dq = false;
    let mut i: usize = 0;
    let n = l.len();
    while i < n
        invariant
            n == l.len(),
            i <= n,
            out@ + hash_line_from(l@, i as int, sq, dq) == hash_line_from(l@, 0, false, false),
        decreases n - i,
    {
        let c = l[i];
        let ghost old_out = out@;
        let ghost old_i = i as int;
        let ghost old_sq = sq;
        let ghost old_dq = dq;
        if c == '#' && !sq && !dq {
            i = n;
        } else {
        if c == '"' && !sq {
            dq = !dq;
        }
        if c == '\'' && !dq {
            sq = !sq;
        }
        if c == '\\' && dq {
            out.push(c);
            if i + 1 < n {
                out.push(l[i + 1]);
                i += 2;
            } else {
                i = n;
            }
        } else {
            out.push(c);
            i += 1;
        }
        }
        proof {
            assert(old_out + hash_line_from(l@, old_i, old_sq, old_dq) =~= out@ + hash_line_from(
                l@,
                i as int,
                sq,
                dq,
            ));
        }
    }
    assert(out@ + hash_line_from(l@, i as int, sq, dq) =~= out@);
    trim_end_vec(&out)
}

/// Remove `#` comments (outside quotes) line by line, keeping indentation.
pub fn strip_hash_comments(code: &str) -> (res: String)
    ensures
        res@ == without_hash_comments(code@),
{
    let s = chars_of(code);
    let ls = split_lines(&s);
    let ghost vls = views(ls@);
    let mut out: Vec<Vec<char>> = Vec::new();
    let mut i: usize = 0;
    while i < ls.len()
        invariant
            vls == views(ls@),
            i <= ls.len(),
            views(out@) == hash_clean_lines(vls.take(i as int)),
        decreases ls.len() - i,
    {
        let cleaned = hash_clean_line_exec(&ls[i]);
        let ghost old_out = views(out@);
        out.push(cleaned);
        proof {
            assert(vls[i as int] == ls[i as int]@);
            assert(vls.take(i + 1).drop_last() =~= vls.take(i as int));
            assert(views(out@) =~= old_out.push(hash_clean_line(vls[i as int])));
        }
        i += 1;
    }
    assert(vls.take(ls.len() as int) =~= vls);
    let nl = vec!['\n'];
    assert(nl@ =~= seq!['\n']);
    let r = join_with(&out, &nl);
    string_of(&r)
}

// ───────────────────────── SQL comments ─────────────────────────

/// Output of the SQL comment remover from position `i` in state `st`
/// (`Str` stands for a single-quoted literal): `--` runs to the end of the
/// line (the line break is kept), `/* */` keeps only its line breaks, and
/// single-quoted text is copied verbatim.
pub open spec fn sql_comments_from(s: Seq<char>, i: int, st: CommentState) -> Seq<char>
    decreases s.len() - i,
{
    if i < 0 || i >= s.len() {
        seq![]
    } else {
        let c = s[i];
        let has_next = i + 1 < s.len();
        match st {
            CommentState::Code => {
                if c == '-' && has_next && s[i + 1] == '-' {
                    sql_comments_from(s, i + 2, CommentState::Line)
                } else if c == '/' && has_next && s[i + 1] == '*' {
                    sql_comments_from(s, i + 2, CommentState::Block)
                } else if c == '\'' {
                    seq![c] + sql_comments_from(s, i + 1, CommentState::Str)
                } else {
                    seq![c] + sql_comments_from(s, i + 1, CommentState::Code)
                }
            },
            CommentState::Line => {
                if c == '\n' {
                    seq![c] + sql_comments_from(s, i + 1, CommentState::Code)
                } else {
                    sql_comments_from(s, i + 1, CommentState::Line)
                }
            },
            CommentState::Block => {
                if c == '*' && has_next && s[i + 1] == '/' {
                    sql_comments_from(s, i + 2, CommentState::Code)
                } else if c == '\n' {
                    seq![c] + sql_comments_from(s, i + 1, CommentState::Block)
                } else {
                    sql_comments_from(s, i + 1, CommentState::Block)
                }
            },
            CommentState::Char => seq![c] + sql_comments_from(s, i + 1, CommentState::Char),
            CommentState::Str => {
                if c == '\'' {
                    seq![c] + sql_comments_from(s, i + 1, CommentState::Code)
                } else {
                    seq![c] + sql_comments_from(s, i + 1, CommentState::Str)
                }
            },
        }
    }
}

/// The text with SQL comments removed (blank lines still present).
pub open spec fn without_sql_comments(s: Seq<char>) -> Seq<char> {
    sql_comments_from(s, 0, CommentState::Code)
}

fn strip_sql_vec(s: &Vec<char>) -> (res: Vec<char>)
    ensures
        res@ == without_sql_comments(s@),
{
    let mut out: Vec<char> = Vec::new();
    let mut st = CommentState::Code;
    let mut i: usize = 0;
    let n = s.len();
    while i < n
        invariant
            n == s.len(),
            i <= n,
            out@ + sql_comments_from(s@, i as int, st) == without_sql_comments(s@),
        decreases n - i,
    {
        let c = s[i];
        let has_next = i + 1 < n;
        let ghost old_out = out@;
        let ghost old_i = i as int;
        let ghost old_st = st;
        match st {
            CommentState::Code => {
                if c == '-' && has_next && s[i + 1] == '-' {
                    st = CommentState::Line;
                    i += 2;
                } else if c == '/' && has_next && s[i + 1] == '*' {
                    st = CommentState::Block;
                    i += 2;
                } else {
                    out.push(c);
                    if c == '\'' {
                        st = CommentState::Str;
                    }
                    i += 1;
                }
            },
            CommentState::Line => {
                if c == '\n' {
                    out.push(c);
                    st = CommentState::Code;
                }
                i += 1;
            },
            CommentState::Block => {
                if c == '*' && has_next && s[i + 1] == '/' {
                    st = CommentState::Code;
                    i += 2;
                } else {
                    if c == '\n' {
                        out.push(c);
                    }
                    i += 1;
                }
            },
            CommentState::Char => {
                out.push(c);
                i += 1;
            },
            CommentState::Str => {
                out.push(c);
                if c == '\'' {
                    st = CommentState::Code;
                }
                i += 1;
            },
        }
        proof {
            assert(old_out + sql_comments_from(s@, old_i, old_st) =~= out@ + sql_comments_from(
                s@,
                i as int,
                st,
            ));
        }
    }
    out
}

/// Remove SQL comments, then drop blank lines.
pub fn strip_sql_comments(code: &str) -> (res: String)
    ensures
        res@ == join(nonblank(lines(without_sql_comments(code@))), seq!['\n']),
{
    let s = chars_of(code);
    let t = strip_sql_vec(&s);
    let r = drop_blank_lines(&t);
    string_of(&r)
}

/// Remove `//` and `/* */` comments (outside double quotes), then drop blank
/// lines.
pub fn strip_c_style_comments(code: &str) -> (res: String)
    ensures
        res@ == join(nonblank(lines(without_proto_comments(code@))), seq!['\n']),
{
    let s = chars_of(code);
    let t = strip_c_comments_vec(&s, false);
    let r = drop_blank_lines(&t);
    string_of(&r)
}

proof fn lemma_trim_end_blank(s: Seq<char>)
    ensures
        all_ws(trim_end(s)) == all_ws(s),
    decreases s.len(),
{
    if s.len() > 0 && is_ws(s.last()) {
        lemma_trim_end_blank(s.drop_last());
        assert(all_ws(s) == all_ws(s.drop_last())) by {
            if all_ws(s.drop_last()) {
                assert forall|i: int| 0 <= i < s.len() implies is_ws(#[trigger] s[i]) by {
                    if i < s.len() - 1 {
                        assert(s.drop_last()[i] == s[i]);
                    }
                }
            }
            if all_ws(s) {
                assert forall|i: int| 0 <= i < s.drop_last().len() implies is_ws(#[trigger] s.drop_last()[i]) by {
                    assert(s.drop_last()[i] == s[i]);
                }
            }
        }
    }
}

/// Collapsing never leaves two blank lines in a row, and after a blank line
/// the next kept line is not blank.
pub proof fn lemma_collapsed_no_double_blank(ls: Seq<Seq<char>>, i: int, prev_blank: bool)
    ensures
        forall|j: int| 0 <= j < collapsed_from(ls, i, prev_blank).len() - 1
            ==> !(all_ws(#[trigger] collapsed_from(ls, i, prev_blank)[j]) && all_ws(collapsed_from(ls, i, prev_blank)[j + 1])),
        prev_blank && collapsed_from(ls, i, prev_blank).len() > 0 ==> !all_ws(collapsed_from(ls, i, prev_blank)[0]),
    decreases ls.len() - i,
{
    if 0 <= i < ls.len() {
        if all_ws(ls[i]) && prev_blank {
            lemma_collapsed_no_double_blank(ls, i + 1, prev_blank);
        } else {
            let rest = collapsed_from(ls, i + 1, all_ws(ls[i]));
            lemma_collapsed_no_double_blank(ls, i + 1, all_ws(ls[i]));
            lemma_trim_end_blank(ls[i]);
            let out = collapsed_from(ls, i, prev_blank);
            assert(out == seq![trim_end(ls[i])] + rest);
            assert forall|j: int| 0 <= j < out.len() - 1 implies !(all_ws(#[trigger] out[j]) && all_ws(out[j + 1])) by {
                if j > 0 {
                    assert(out[j] == rest[j - 1]);
                    assert(out[j + 1] == rest[j]);
                } else {
                    assert(out[1] == rest[0]);
                }
            }
        }
    }
}

/// The text `collapse_whitespace` returns is made of lines without two blank
/// ones in a row.
pub proof fn lemma_collapse_whitespace_law(s: Seq<char>)
    ensures
        forall|j: int| 0 <= j < collapsed_from(lines(s), 0, false).len() - 1
            ==> !(all_ws(#[trigger] collapsed_from(lines(s), 0, false)[j]) && all_ws(collapsed_from(lines(s), 0, false)[j + 1])),
        collapsed(s) == join(collapsed_from(lines(s), 0, false), seq!['\n']),
{
    lemma_collapsed_no_double_blank(lines(s), 0, false);
}


// ───────────────────────── what collapsing gives ─────────────────────────

proof fn lemma_trim_end_shape(s: Seq<char>)
    ensures
        trim_end(s).len() <= s.len(),
        trim_end(s) == s.take(trim_end(s).len() as int),
        trim_end(s).len() > 0 ==> !is_ws(trim_end(s).last()),
        trim_end(trim_end(s)) == trim_end(s),
    decreases s.len(),
{
    if s.len() > 0 && is_ws(s.last()) {
        lemma_trim_end_shape(s.drop_last());
        assert(s.drop_last().take(trim_end(s).len() as int) =~= s.take(trim_end(s).len() as int));
    } else {
        assert(s.take(s.len() as int) =~= s);
    }
}

proof fn lemma_lines_no_break(s: Seq<char>)
    ensures
        forall|j: int| 0 <= j < lines(s).len() ==> !crate::text::has_char(#[trigger] lines(s)[j], '\n'),
    decreases s.len(),
{
    if s.len() > 0 {
        crate::text::lemma_index_of_bounds(s, '\n');
        let k = crate::text::index_of(s, '\n');
        if k < s.len() {
            lemma_lines_no_break(s.skip(k + 1));
            let first = crate::text::strip_cr(s.take(k));
            assert(!crate::text::has_char(first, '\n')) by {
                if crate::text::has_char(first, '\n') {
                    let t = choose|t: int| 0 <= t < first.len() && first[t] == '\n';
                    assert(s.take(k)[t] == s[t]);
                }
            }
            assert forall|j: int| 0 <= j < lines(s).len() implies !crate::text::has_char(#[trigger] lines(s)[j], '\n') by {
                if j > 0 {
                    assert(lines(s)[j] == lines(s.skip(k + 1))[j - 1]);
                }
            }
        } else {
            assert(!crate::text::has_char(s, '\n')) by {
                if crate::text::has_char(s, '\n') {
                    let t = choose|t: int| 0 <= t < s.len() && s[t] == '\n';
                }
            }
        }
    }
}

proof fn lemma_lines_of_join(ls: Seq<Seq<char>>)
    requires
        forall|k: int| 0 <= k < ls.len() ==> !crate::text::has_char(#[trigger] ls[k], '\n'),
        forall|k: int| 0 <= k < ls.len() ==> (#[trigger] ls[k]).len() == 0 || ls[k].last() != '\r',
        ls.len() == 0 || ls.last().len() > 0,
    ensures
        lines(join(ls, seq!['\n'])) == ls,
    decreases ls.len(),
{
    if ls.len() == 1 {
        let x = ls[0];
        assert(join(ls, seq!['\n']) == x);
        crate::text::lemma_index_of(x, '\n', x.len() as int);
        assert(lines(x) == seq![x]);
        assert(ls =~= seq![x]);
    } else if ls.len() >= 2 {
        let x = ls[0];
        let r = ls.drop_first();
        assert forall|k: int| 0 <= k < r.len() implies !crate::text::has_char(#[trigger] r[k], '\n') by {
            assert(r[k] == ls[k + 1]);
        }
        assert forall|k: int| 0 <= k < r.len() implies (#[trigger] r[k]).len() == 0 || r[k].last() != '\r' by {
            assert(r[k] == ls[k + 1]);
        }
        assert(r.last() == ls.last());
        lemma_lines_of_join(r);
        assert(ls =~= seq![x] + r);
        crate::mod_roundtrip::lemma_join_cons(x, r, seq!['\n']);
        let y = join(r, seq!['\n']);
        assert(y.len() > 0) by {
            if r.len() == 1 {
                assert(y == r[0]);
            } else {
                assert(y == join(r.drop_last(), seq!['\n']) + seq!['\n'] + r.last());
            }
        }
        let t = x + seq!['\n'] + y;
        crate::text::lemma_index_of(t, '\n', x.len() as int);
        assert(t.take(x.len() as int) =~= x);
        assert(t.skip(x.len() + 1int) =~= y);
        assert(crate::text::strip_cr(x) == x);
        assert(lines(t) == seq![x] + lines(y));
    }
}

proof fn lemma_collapsed_shift(x: Seq<char>, r: Seq<Seq<char>>, k: int, pb: bool)
    requires
        0 <= k,
    ensures
        collapsed_from(seq![x] + r, k + 1, pb) == collapsed_from(r, k, pb),
    decreases r.len() - k,
{
    let l = seq![x] + r;
    if k < r.len() {
        assert(l[k + 1] == r[k]);
        lemma_collapsed_shift(x, r, k + 1, pb);
        lemma_collapsed_shift(x, r, k + 1, all_ws(r[k]));
    }
}

/// Facts about the lines `collapsed_from` produces.
proof fn lemma_collapsed_shape(ls: Seq<Seq<char>>, i: int, pb: bool)
    requires
        0 <= i,
    ensures
        forall|j: int| 0 <= j < collapsed_from(ls, i, pb).len() ==> {
            let o = #[trigger] collapsed_from(ls, i, pb)[j];
            &&& o == trim_end(o)
            &&& (o.len() == 0 || !is_ws(o.last()))
            &&& exists|m: int| i <= m < ls.len() && o == trim_end(ls[m])
        },
        i < ls.len() && !all_ws(ls.last()) ==> collapsed_from(ls, i, pb).len() > 0
            && collapsed_from(ls, i, pb).last() == trim_end(ls.last()),
        collapsed_from(seq![], 0, pb) == Seq::<Seq<char>>::empty(),
        collapsed_from(collapsed_from(ls, i, pb), 0, pb) == collapsed_from(ls, i, pb),
    decreases ls.len() - i,
{
    if i < ls.len() {
        let rest_pb = all_ws(ls[i]);
        lemma_collapsed_shape(ls, i + 1, pb);
        lemma_collapsed_shape(ls, i + 1, rest_pb);
        lemma_trim_end_shape(ls[i]);
        lemma_trim_end_blank(ls[i]);
        let out = collapsed_from(ls, i, pb);
        if !(all_ws(ls[i]) && pb) {
            let t = trim_end(ls[i]);
            let rest = collapsed_from(ls, i + 1, rest_pb);
            assert(out == seq![t] + rest);
            assert forall|j: int| 0 <= j < out.len() implies {
                let o = #[trigger] out[j];
                &&& o == trim_end(o)
                &&& (o.len() == 0 || !is_ws(o.last()))
                &&& exists|m: int| i <= m < ls.len() && o == trim_end(ls[m])
            } by {
                if j > 0 {
                    assert(out[j] == rest[j - 1]);
                }
            }
            if !all_ws(ls.last()) {
                if i + 1 < ls.len() {
                    assert(out.last() == rest.last());
                } else {
                    assert(ls.last() == ls[i]);
                    assert(rest.len() == 0);
                }
            }
            // Collapsing again keeps every line.
            lemma_collapsed_shift(t, rest, 0, all_ws(t));
            assert((seq![t] + rest)[0] == t);
            assert(collapsed_from(out, 0, pb) == seq![trim_end(t)] + collapsed_from(out, 1, all_ws(t)));
        } else {
            if !all_ws(ls.last()) {
                assert(i + 1 < ls.len());
            }
        }
    }
}

/// The non-blank lines of a list, in order.
pub open spec fn nonblank_of(ls: Seq<Seq<char>>) -> Seq<Seq<char>>
    decreases ls.len(),
{
    if ls.len() == 0 {
        seq![]
    } else if all_ws(ls[0]) {
        nonblank_of(ls.drop_first())
    } else {
        seq![ls[0]] + nonblank_of(ls.drop_first())
    }
}

/// The non-blank lines from line `i` on, with trailing whitespace removed.
pub open spec fn nonblank_trimmed_from(ls: Seq<Seq<char>>, i: int) -> Seq<Seq<char>>
    decreases ls.len() - i,
{
    if i < 0 || i >= ls.len() {
        seq![]
    } else if all_ws(ls[i]) {
        nonblank_trimmed_from(ls, i + 1)
    } else {
        seq![trim_end(ls[i])] + nonblank_trimmed_from(ls, i + 1)
    }
}

proof fn lemma_collapsed_nonblank(ls: Seq<Seq<char>>, i: int, pb: bool)
    requires
        0 <= i,
    ensures
        nonblank_of(collapsed_from(ls, i, pb)) == nonblank_trimmed_from(ls, i),
    decreases ls.len() - i,
{
    if i < ls.len() {
        let rest_pb = all_ws(ls[i]);
        lemma_collapsed_nonblank(ls, i + 1, pb);
        lemma_collapsed_nonblank(ls, i + 1, rest_pb);
        lemma_trim_end_blank(ls[i]);
        if !(all_ws(ls[i]) && pb) {
            let out = seq![trim_end(ls[i])] + collapsed_from(ls, i + 1, rest_pb);
            assert(out.drop_first() =~= collapsed_from(ls, i + 1, rest_pb));
        }
    }
}

/// What `collapse_whitespace` gives: the text joins the collapsed lines;
/// every line has its trailing whitespace removed; no two blank lines
/// follow each other; the non-blank lines are exactly the text's non-blank
/// lines, trimmed at the end, in order; and where the text's last line is
/// not blank, collapsing the result again changes nothing.
pub proof fn lemma_collapse_whitespace_props(s: Seq<char>)
    ensures
        collapsed(s) == join(collapsed_from(lines(s), 0, false), seq!['\n']),
        forall|j: int| 0 <= j < collapsed_from(lines(s), 0, false).len()
            ==> #[trigger] collapsed_from(lines(s), 0, false)[j] == trim_end(collapsed_from(lines(s), 0, false)[j]),
        forall|j: int| 0 <= j < collapsed_from(lines(s), 0, false).len() - 1
            ==> !(all_ws(#[trigger] collapsed_from(lines(s), 0, false)[j]) && all_ws(collapsed_from(lines(s), 0, false)[j + 1])),
        nonblank_of(collapsed_from(lines(s), 0, false)) == nonblank_trimmed_from(lines(s), 0),
        lines(s).len() == 0 || !all_ws(lines(s).last()) ==> collapsed(collapsed(s)) == collapsed(s),
{
    let ls = lines(s);
    let out = collapsed_from(ls, 0, false);
    lemma_collapsed_no_double_blank(ls, 0, false);
    lemma_collapsed_nonblank(ls, 0, false);
    lemma_collapsed_shape(ls, 0, false);
    if ls.len() == 0 || !all_ws(ls.last()) {
        lemma_lines_no_break(s);
        assert forall|k: int| 0 <= k < out.len() implies !crate::text::has_char(#[trigger] out[k], '\n') by {
            let o = out[k];
            let m = choose|m: int| 0 <= m < ls.len() && o == trim_end(ls[m]);
            lemma_trim_end_shape(ls[m]);
            if crate::text::has_char(o, '\n') {
                let t = choose|t: int| 0 <= t < o.len() && o[t] == '\n';
                assert(ls[m].take(o.len() as int)[t] == ls[m][t]);
                assert(crate::text::has_char(ls[m], '\n'));
            }
        }
        assert forall|k: int| 0 <= k < out.len() implies (#[trigger] out[k]).len() == 0 || out[k].last() != '\r' by {
            assert(out[k].len() == 0 || !is_ws(out[k].last()));
        }
        if ls.len() > 0 {
            lemma_trim_end_blank(ls.last());
            assert(out.last().len() > 0) by {
                if out.last().len() == 0 {
                    assert(all_ws(out.last()));
                }
            }
        }
        lemma_lines_of_join(out);
    }
}

// ───────────────────────── which stripper runs ─────────────────────────

/// Plain text before a `#` is copied as it is.
proof fn lemma_hash_line_plain(l: Seq<char>, i: int, k: int)
    requires
        0 <= i <= k <= l.len(),
        forall|j: int| i <= j < k ==> #[trigger] l[j] != '#' && l[j] != '"' && l[j] != '\'',
    ensures
        hash_line_from(l, i, false, false) == l.subrange(i, k) + hash_line_from(l, k, false, false),
    decreases k - i,
{
    if i < k {
        assert(l[i] != '#' && l[i] != '"' && l[i] != '\'');
        lemma_hash_line_plain(l, i + 1, k);
        assert(l.subrange(i, k) =~= seq![l[i]] + l.subrange(i + 1, k));
    } else {
        assert(l.subrange(i, k) =~= Seq::<char>::empty());
    }
}

/// A `#` outside quotes ends the line: what follows it goes, and the text
/// before it is kept without its trailing whitespace.
pub proof fn lemma_hash_comment_cut(a: Seq<char>, comment: Seq<char>)
    requires
        forall|j: int| 0 <= j < a.len() ==> #[trigger] a[j] != '#' && a[j] != '"' && a[j] != '\'',
    ensures
        hash_clean_line(a + seq!['#'] + comment) == trim_end(a),
{
    let l = a + seq!['#'] + comment;
    assert forall|j: int| 0 <= j < a.len() implies #[trigger] l[j] != '#' && l[j] != '"' && l[j] != '\'' by {
        assert(l[j] == a[j]);
    }
    lemma_hash_line_plain(l, 0, a.len() as int);
    assert(l.subrange(0, a.len() as int) =~= a);
    assert(l[a.len() as int] == '#');
    assert(hash_line_from(l, a.len() as int, false, false) =~= Seq::<char>::empty());
    assert(hash_line_from(l, 0, false, false) =~= a);
}

/// Which stripper `strip_comments` runs: SQL and protobuf have their own,
/// JSON comes back unchanged, and every other extension (YAML, TOML, env
/// files, shell scripts and any unknown one) goes to the `#` stripper.
pub proof fn lemma_strip_comments_by_extension(code: Seq<char>, ext: Seq<char>)
    ensures
        ext == "json"@ ==> stripped_for(code, ext) == code,
        ext == "sql"@ ==> stripped_for(code, ext) == join(nonblank(lines(without_sql_comments(code))), seq!['\n']),
        ext == "proto"@ ==> stripped_for(code, ext) == join(nonblank(lines(without_proto_comments(code))), seq!['\n']),
        ext != "sql"@ && ext != "proto"@ && ext != "json"@ ==> stripped_for(code, ext) == without_hash_comments(code),
        ext == "yml"@ || ext == "yaml"@ || ext == "toml"@ || ext == "env"@ || ext == "sh"@
            ==> stripped_for(code, ext) == without_hash_comments(code),
{
    reveal_strlit("json");
    reveal_strlit("sql");
    reveal_strlit("proto");
    reveal_strlit("yml");
    reveal_strlit("yaml");
    reveal_strlit("toml");
    reveal_strlit("env");
    reveal_strlit("sh");
    assert("json"@.len() == 4 && "sql"@.len() == 3 && "proto"@.len() == 5 && "sh"@.len() == 2);
    assert("sql"@[0] == 's' && "proto"@[0] == 'p' && "json"@[0] == 'j');
    assert("yml"@[0] == 'y' && "yaml"@[0] == 'y' && "toml"@[0] == 't' && "env"@[0] == 'e');
}

} // verus!
