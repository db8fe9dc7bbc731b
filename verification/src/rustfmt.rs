//! Hiding `mod foo;` declarations from the formatter and restoring them.
//!
//! Running the formatter itself is a process call and lives with the
//! program around the library; what it needs from here is the textual
//! transformation before and after.
use vstd::prelude::*;
use crate::text::{
    append, append_str, chars_of, decimal, decimal_vec, ends_with, ends_with_str, has_char,
    index_of, join, join_with, lemma_index_of_bounds, lines, slice_vec, split_lines,
    starts_with, starts_with_str, string_of, trim, trim_vec, vec_has_char, views, is_ws,
    trim_end, trim_start, lemma_trim_end, lemma_trim_start,
};

verus! {

// ───────────────────────── recognising `mod foo;` ─────────────────────────

pub proof fn lemma_trim_len(s: Seq<char>)
    ensures
        trim(s).len() <= s.len(),
{
    lemma_trim_end_len(s);
    lemma_trim_start_len(trim_end(s));
}

proof fn lemma_trim_end_len(s: Seq<char>)
    ensures
        trim_end(s).len() <= s.len(),
    decreases s.len(),
{
    if s.len() > 0 && is_ws(s.last()) {
        lemma_trim_end_len(s.drop_last());
    }
}

proof fn lemma_trim_start_len(s: Seq<char>)
    ensures
        trim_start(s).len() <= s.len(),
    decreases s.len(),
{
    if s.len() > 0 && is_ws(s[0]) {
        lemma_trim_start_len(s.drop_first());
    }
}

/// Strip leading `#[...]` attributes (each followed by trimming).
pub open spec fn skip_attributes(s: Seq<char>) -> Seq<char>
    decreases s.len(),
{
    if s.len() > 0 && s[0] == '#' {
        let k = index_of(s, ']');
        if 0 <= k < s.len() {
            proof {
                lemma_trim_len(s.skip(k + 1));
            }
            skip_attributes(trim(s.skip(k + 1)))
        } else {
            s
        }
    } else {
        s
    }
}

/// Strip a leading `pub` or `pub(...)` visibility (with trimming).
pub open spec fn skip_visibility(s: Seq<char>) -> Seq<char> {
    if starts_with(s, "pub"@) {
        let r = trim(s.skip(3));
        if r.len() > 0 && r[0] == '(' {
            let k = index_of(r, ')');
            if k < r.len() {
                trim(r.skip(k + 1))
            } else {
                r
            }
        } else {
            r
        }
    } else {
        s
    }
}

/// A trimmed line declares an out-of-line module: it ends with `;`, has no
/// `{`, and after optional attributes and visibility starts with `mod `.
pub open spec fn spec_is_mod_decl(t: Seq<char>) -> bool {
    ends_with(t, ";"@) && !has_char(t, '{') && starts_with(
        skip_visibility(skip_attributes(t)),
        "mod "@,
    )
}

pub(crate) fn find_char(s: &Vec<char>, c: char) -> (res: usize)
    ensures
        res == index_of(s@, c),
{
    proof {
        lemma_index_of_bounds(s@, c);
    }
    let mut i: usize = 0;
    while i < s.len()
        invariant
            i <= s.len(),
            forall|j: int| 0 <= j < i ==> s@[j] != c,
        decreases s.len() - i,
    {
        if s[i] == c {
            proof {
                crate::text::lemma_index_of(s@, c, i as int);
            }
            return i;
        }
        i += 1;
    }
    proof {
        crate::text::lemma_index_of(s@, c, i as int);
    }
    i
}

fn skip_attributes_exec(s: Vec<char>) -> (res: Vec<char>)
    ensures
        res@ == skip_attributes(s@),
    decreases s@.len(),
{
    if s.len() > 0 && s[0] == '#' {
        let k = find_char(&s, ']');
        proof {
            lemma_index_of_bounds(s@, ']');
        }
        if k < s.len() {
            let rest = slice_vec(&s, k + 1, s.len());
            assert(rest@ =~= s@.skip(k + 1));
            let t = trim_vec(&rest);
            proof {
                lemma_trim_len(s@.skip(k + 1));
            }
            skip_attributes_exec(t)
        } else {
            s
        }
    } else {
        s
    }
}

fn skip_visibility_exec(s: Vec<char>) -> (res: Vec<char>)
    ensures
        res@ == skip_visibility(s@),
{
    if starts_with_str(&s, "pub") {
        proof {
            reveal_strlit("pub");
        }
        let rest = slice_vec(&s, 3, s.len());
        assert(rest@ =~= s@.skip(3));
        let r = trim_vec(&rest);
        if r.len() > 0 && r[0] == '(' {
            let k = find_char(&r, ')');
            if k < r.len() {
                let after = slice_vec(&r, k + 1, r.len());
                assert(after@ =~= r@.skip(k + 1));
                trim_vec(&after)
            } else {
                r
            }
        } else {
            r
        }
    } else {
        s
    }
}

fn is_mod_decl_vec(t: &Vec<char>) -> (res: bool)
    ensures
        res == spec_is_mod_decl(t@),
{
    if !ends_with_str(t, ";") || vec_has_char(t, '{') {
        return false;
    }
    let copy = slice_vec(t, 0, t.len());
    assert(copy@ =~= t@);
    let a = skip_attributes_exec(copy);
    let v = skip_visibility_exec(a);
    starts_with_str(&v, "mod ")
}

/// Is the (already trimmed) line a `mod foo;` declaration?
pub fn is_mod_decl(trimmed: &str) -> (res: bool)
    ensures
        res == spec_is_mod_decl(trimmed@),
{
    let t = chars_of(trimmed);
    is_mod_decl_vec(&t)
}

// ───────────────────────── sentinels ─────────────────────────

/// `format!("{:04}", n)`.
pub open spec fn pad4(n: nat) -> Seq<char> {
    let d = decimal(n);
    if d.len() < 4 {
        Seq::new((4 - d.len()) as nat, |i: int| '0') + d
    } else {
        d
    }
}

/// The sentinel comment standing for the `n`-th module declaration.
pub open spec fn sentinel(n: nat) -> Seq<char> {
    "// __MOD_"@ + pad4(n) + "__"@
}

fn sentinel_exec(n: usize) -> (res: Vec<char>)
    ensures
        res@ == sentinel(n as nat),
{
    let mut res = chars_of("// __MOD_");
    let d = decimal_vec(n as u128);
    let mut k = d.len();
    let ghost pre = res@;
    while k < 4
        invariant
            d.len() <= k <= 4 || (d.len() >= 4 && k == d.len()),
            res@ == pre + Seq::new((k - d.len()) as nat, |i: int| '0'),
        decreases 4 - k,
    {
        res.push('0');
        k += 1;
        assert(res@ =~= pre + Seq::new((k - d.len()) as nat, |i: int| '0'));
    }
    append(&mut res, &d);
    append_str(&mut res, "__");
    proof {
        if d@.len() < 4 {
            assert(res@ =~= "// __MOD_"@ + pad4(n as nat) + "__"@);
        } else {
            assert(Seq::new((k - d.len()) as nat, |i: int| '0') =~= Seq::<char>::empty());
            assert(res@ =~= "// __MOD_"@ + pad4(n as nat) + "__"@);
        }
    }
    res
}

/// Lines after replacing module declarations by sentinels, and the list of
/// (sentinel, original line) pairs, for the lines `ls`.
pub open spec fn mod_strip_lines(ls: Seq<Seq<char>>) -> (Seq<Seq<char>>, Seq<(Seq<char>, Seq<char>)>)
    decreases ls.len(),
{
    if ls.len() == 0 {
        (seq![], seq![])
    } else {
        let (out, ph) = mod_strip_lines(ls.drop_last());
        let l = ls.last();
        if spec_is_mod_decl(trim(l)) {
            let s = sentinel(ph.len());
            (out.push(s), ph.push((s, l)))
        } else {
            (out.push(l), ph)
        }
    }
}

/// Text and placeholders produced by `strip_mod_decls`.
pub open spec fn mod_stripped(code: Seq<char>) -> (Seq<char>, Seq<(Seq<char>, Seq<char>)>) {
    let (out, ph) = mod_strip_lines(lines(code));
    (join(out, seq!['\n']), ph)
}

/// The views of a list of string pairs.
pub open spec fn pair_views(v: Seq<(String, String)>) -> Seq<(Seq<char>, Seq<char>)> {
    v.map_values(|p: (String, String)| (p.0@, p.1@))
}

/// Replace every `mod foo;` line with a unique sentinel comment. Returns the
/// scrubbed source and the (sentinel, original line) pairs.
pub fn strip_mod_decls(code: &str) -> (res: (String, Vec<(String, String)>))
    ensures
        res.0@ == mod_stripped(code@).0,
        pair_views(res.1@) == mod_stripped(code@).1,
{
    let s = chars_of(code);
    let ls = split_lines(&s);
    let ghost vls = views(ls@);
    let mut out: Vec<Vec<char>> = Vec::new();
    let mut ph: Vec<(String, String)> = Vec::new();
    let mut i: usize = 0;
    while i < ls.len()
        invariant
            vls == views(ls@),
            vls == lines(s@),
            i <= ls.len(),
            (views(out@), pair_views(ph@)) == mod_strip_lines(vls.take(i as int)),
        decreases ls.len() - i,
    {
        proof {
            assert(vls.take(i + 1).drop_last() =~= vls.take(i as int));
            assert(vls.take(i + 1).last() == ls[i as int]@);
        }
        let t = trim_vec(&ls[i]);
        let line = slice_vec(&ls[i], 0, ls[i].len());
        assert(line@ =~= ls[i as int]@);
        let ghost old_out = views(out@);
        let ghost old_ph = pair_views(ph@);
        if is_mod_decl_vec(&t) {
            let sen = sentinel_exec(ph.len());
            let sen_s = string_of(&sen);
            let line_s = string_of(&line);
            ph.push((sen_s, line_s));
            out.push(sen);
            proof {
                assert(views(out@) =~= old_out.push(sentinel(old_ph.len())));
                assert(pair_views(ph@) =~= old_ph.push((sentinel(old_ph.len()), vls[i as int])));
            }
        } else {
            out.push(line);
            proof {
                assert(views(out@) =~= old_out.push(vls[i as int]));
                assert(pair_views(ph@) =~= old_ph);
            }
        }
        i += 1;
    }
    assert(vls.take(ls.len() as int) =~= vls);
    let nl = vec!['\n'];
    assert(nl@ =~= seq!['\n']);
    let joined = join_with(&out, &nl);
    (string_of(&joined), ph)
}

// ───────────────────────── restoring ─────────────────────────

/// `str::replace` with an empty pattern: `rep` at every character boundary.
pub open spec fn replace_empty(s: Seq<char>, rep: Seq<char>) -> Seq<char>
    decreases s.len(),
{
    if s.len() == 0 {
        rep
    } else {
        rep + seq![s[0]] + replace_empty(s.drop_first(), rep)
    }
}

/// `str::replace`: every leftmost, non-overlapping occurrence of `pat` is
/// replaced by `rep`.
pub open spec fn replace_all(s: Seq<char>, pat: Seq<char>, rep: Seq<char>) -> Seq<char>
    decreases s.len(),
{
    if pat.len() == 0 {
        replace_empty(s, rep)
    } else if s.len() < pat.len() {
        s
    } else if s.take(pat.len() as int) == pat {
        rep + replace_all(s.skip(pat.len() as int), pat, rep)
    } else {
        seq![s[0]] + replace_all(s.drop_first(), pat, rep)
    }
}

/// Apply the replacements of `ph` in order.
pub open spec fn restored(s: Seq<char>, ph: Seq<(Seq<char>, Seq<char>)>) -> Seq<char>
    decreases ph.len(),
{
    if ph.len() == 0 {
        s
    } else {
        restored(replace_all(s, ph[0].0, ph[0].1), ph.drop_first())
    }
}

pub(crate) fn replace_all_vec(s: &Vec<char>, pat: &Vec<char>, rep: &Vec<char>) -> (res: Vec<char>)
    ensures
        res@ == replace_all(s@, pat@, rep@),
{
    let mut out: Vec<char> = Vec::new();
    let mut i: usize = 0;
    let n = s.len();
    if pat.len() == 0 {
        assert(s@.skip(0) =~= s@);
        while i < n
            invariant
                n == s.len(),
                pat@.len() == 0,
                i <= n,
                out@ + replace_empty(s@.skip(i as int), rep@) == replace_all(s@, pat@, rep@),
            decreases n - i,
        {
            let ghost old_out = out@;
            append(&mut out, rep);
            out.push(s[i as usize]);
            proof {
                assert(s@.skip(i as int).drop_first() =~= s@.skip(i + 1));
                assert(old_out + replace_empty(s@.skip(i as int), rep@) =~= out@ + replace_empty(
                    s@.skip(i + 1),
                    rep@,
                ));
            }
            i += 1;
        }
        append(&mut out, rep);
        proof {
            assert(s@.skip(n as int) =~= Seq::<char>::empty());
        }
        return out;
    }
    assert(s@.skip(0) =~= s@);
    while i < n
        invariant
            n == s.len(),
            pat@.len() > 0,
            i <= n,
            out@ + replace_all(s@.skip(i as int), pat@, rep@) == replace_all(s@, pat@, rep@),
        decreases n - i,
    {
        let ghost t = s@.skip(i as int);
        let ghost old_out = out@;
        if pat.len() <= n - i && crate::text::vec_occurs_at(s, pat, i) {
            proof {
                assert(s@.subrange(i as int, i + pat@.len()) =~= t.take(pat@.len() as int));
                assert(t.skip(pat@.len() as int) =~= s@.skip(i + pat@.len()));
            }
            append(&mut out, rep);
            i += pat.len();
        } else {
            proof {
                if t.len() >= pat@.len() {
                    assert(s@.subrange(i as int, i + pat@.len()) =~= t.take(pat@.len() as int));
                    assert(t.drop_first() =~= s@.skip(i + 1));
                } else {
                    assert(replace_all(t, pat@, rep@) == t);
                    assert(t =~= seq![t[0]] + t.drop_first());
                    assert(t.drop_first() =~= s@.skip(i + 1));
                    lemma_replace_short(t.drop_first(), pat@, rep@);
                }
            }
            out.push(s[i]);
            i += 1;
        }
        proof {
            assert(old_out + replace_all(t, pat@, rep@) =~= out@ + replace_all(
                s@.skip(i as int),
                pat@,
                rep@,
            ));
        }
    }
    assert(replace_all(s@.skip(n as int), pat@, rep@) =~= Seq::<char>::empty());
    assert(out@ + Seq::<char>::empty() =~= out@);
    out
}

proof fn lemma_replace_short(s: Seq<char>, pat: Seq<char>, rep: Seq<char>)
    requires
        pat.len() > 0,
        s.len() < pat.len(),
    ensures
        replace_all(s, pat, rep) == s,
{
}

/// Put back the original lines in place of their sentinels.
pub fn restore_mod_decls(code: &str, placeholders: &Vec<(String, String)>) -> (res: String)
    ensures
        res@ == restored(code@, pair_views(placeholders@)),
{
    let mut cur = chars_of(code);
    let ghost ph = pair_views(placeholders@);
    let mut i: usize = 0;
    assert(ph.skip(0) =~= ph);
    while i < placeholders.len()
        invariant
            ph == pair_views(placeholders@),
            i <= placeholders.len(),
            restored(code@, ph) == restored(cur@, ph.skip(i as int)),
        decreases placeholders.len() - i,
    {
        let pat = chars_of(placeholders[i].0.as_str());
        let rep = chars_of(placeholders[i].1.as_str());
        let next = replace_all_vec(&cur, &pat, &rep);
        proof {
            assert(ph.skip(i as int)[0] == ph[i as int]);
            assert(ph.skip(i as int).drop_first() =~= ph.skip(i + 1));
        }
        cur = next;
        i += 1;
    }
    string_of(&cur)
}

} // verus!
