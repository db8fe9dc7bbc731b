//! Restoring module declarations undoes hiding them.
use vstd::prelude::*;
use crate::rustfmt::{mod_strip_lines, mod_stripped, pad4, replace_all, restored, sentinel, spec_is_mod_decl};
use crate::text::{
    contains, decimal, digit_char, has_char, index_of, join, lemma_index_of_bounds, lines, occurs_at,
    strip_cr, trim,
};

verus! {

// ───────────────────────── replacing in text ─────────────────────────

/// Where the pattern does not occur, replacing changes nothing.
pub proof fn lemma_replace_absent(s: Seq<char>, pat: Seq<char>, rep: Seq<char>)
    requires
        pat.len() > 0,
        !contains(s, pat),
    ensures
        replace_all(s, pat, rep) == s,
    decreases s.len(),
{
    if s.len() >= pat.len() {
        if s.take(pat.len() as int) == pat {
            assert(occurs_at(s, pat, 0)) by {
                assert(s.subrange(0, pat.len() as int) =~= s.take(pat.len() as int));
            }
        }
        let d = s.drop_first();
        assert(!contains(d, pat)) by {
            if contains(d, pat) {
                let i = choose|i: int| occurs_at(d, pat, i);
                assert(d.subrange(i, i + pat.len()) =~= s.subrange(i + 1, i + 1 + pat.len()));
                assert(occurs_at(s, pat, i + 1));
            }
        }
        lemma_replace_absent(d, pat, rep);
        assert(seq![s[0]] + d =~= s);
    }
}

/// Replacing the pattern in itself gives the replacement.
pub proof fn lemma_replace_whole(pat: Seq<char>, rep: Seq<char>)
    requires
        pat.len() > 0,
    ensures
        replace_all(pat, pat, rep) == rep,
{
    assert(pat.take(pat.len() as int) =~= pat);
    assert(pat.skip(pat.len() as int) =~= Seq::<char>::empty());
    assert(replace_all(Seq::<char>::empty(), pat, rep) == Seq::<char>::empty());
    assert(replace_all(pat, pat, rep) == rep + replace_all(pat.skip(pat.len() as int), pat, rep));
    assert(rep + Seq::<char>::empty() =~= rep);
}

/// A line break that the pattern does not contain splits the replacement.
pub proof fn lemma_replace_split(x: Seq<char>, y: Seq<char>, pat: Seq<char>, rep: Seq<char>)
    requires
        pat.len() > 0,
        !has_char(pat, '\n'),
    ensures
        replace_all(x + seq!['\n'] + y, pat, rep) == replace_all(x, pat, rep) + seq!['\n'] + replace_all(y, pat, rep),
    decreases x.len(),
{
    let s = x + seq!['\n'] + y;
    if x.len() == 0 {
        assert(s =~= seq!['\n'] + y);
        if s.len() >= pat.len() {
            assert(s.take(pat.len() as int)[0] == '\n');
            assert(s.take(pat.len() as int) != pat) by {
                if s.take(pat.len() as int) == pat {
                    assert(pat[0] == '\n');
                }
            }
            assert(s.drop_first() =~= y);
        } else {
            assert(y.len() < pat.len());
        }
        assert(replace_all(x, pat, rep) =~= Seq::<char>::empty());
    } else if x.len() < pat.len() {
        // No window starting in `x` fits before the line break.
        if s.len() >= pat.len() {
            assert(s.take(pat.len() as int) != pat) by {
                if s.take(pat.len() as int) == pat {
                    assert(s.take(pat.len() as int)[x.len() as int] == '\n');
                    assert(pat[x.len() as int] == '\n');
                }
            }
        }
        let d = x.drop_first();
        lemma_replace_split(d, y, pat, rep);
        assert(s.drop_first() =~= d + seq!['\n'] + y);
        assert(replace_all(x, pat, rep) == x);
        assert(replace_all(d, pat, rep) == d);
        assert(seq![x[0]] + d =~= x);
    } else {
        assert(s.take(pat.len() as int) =~= x.take(pat.len() as int));
        if x.take(pat.len() as int) == pat {
            let r = x.skip(pat.len() as int);
            assert(s.skip(pat.len() as int) =~= r + seq!['\n'] + y);
            lemma_replace_split(r, y, pat, rep);
        } else {
            let d = x.drop_first();
            assert(s.drop_first() =~= d + seq!['\n'] + y);
            lemma_replace_split(d, y, pat, rep);
        }
    }
}

/// Replacing in lines joined by line breaks replaces in each line.
pub proof fn lemma_replace_join(ls: Seq<Seq<char>>, pat: Seq<char>, rep: Seq<char>)
    requires
        pat.len() > 0,
        !has_char(pat, '\n'),
    ensures
        replace_all(join(ls, seq!['\n']), pat, rep) == join(
            ls.map_values(|l: Seq<char>| replace_all(l, pat, rep)),
            seq!['\n'],
        ),
    decreases ls.len(),
{
    let f = |l: Seq<char>| replace_all(l, pat, rep);
    if ls.len() == 0 {
        assert(replace_all(Seq::<char>::empty(), pat, rep) == Seq::<char>::empty());
    } else if ls.len() == 1 {
        assert(ls.map_values(f).len() == 1);
    } else {
        let d = ls.drop_last();
        lemma_replace_join(d, pat, rep);
        lemma_replace_split(join(d, seq!['\n']), ls.last(), pat, rep);
        assert(ls.map_values(f).drop_last() =~= d.map_values(f));
    }
}

// ───────────────────────── sentinels ─────────────────────────

spec fn is_digit(c: char) -> bool {
    '0' <= c && c <= '9'
}

spec fn digit_val(c: char) -> nat {
    ((c as u32) - ('0' as u32)) as nat
}

/// The number a string of decimal digits denotes.
spec fn num_val(s: Seq<char>) -> nat
    decreases s.len(),
{
    if s.len() == 0 {
        0
    } else {
        num_val(s.drop_last()) * 10 + digit_val(s.last())
    }
}

proof fn lemma_digit_char(d: nat)
    requires
        d < 10,
    ensures
        is_digit(digit_char(d)),
        digit_val(digit_char(d)) == d,
{
}

proof fn lemma_decimal(n: nat)
    ensures
        decimal(n).len() >= 1,
        forall|i: int| 0 <= i < decimal(n).len() ==> is_digit(#[trigger] decimal(n)[i]),
        num_val(decimal(n)) == n,
    decreases n,
{
    if n < 10 {
        lemma_digit_char(n);
        assert(decimal(n).drop_last() =~= Seq::<char>::empty());
        assert(num_val(decimal(n).drop_last()) == 0);
        assert(num_val(decimal(n)) == n);
    } else {
        lemma_decimal(n / 10);
        lemma_digit_char(n % 10);
        let d = decimal(n / 10);
        assert(decimal(n) == d.push(digit_char(n % 10)));
        assert(decimal(n).drop_last() =~= d);
        assert forall|i: int| 0 <= i < decimal(n).len() implies is_digit(#[trigger] decimal(n)[i]) by {
            if i < d.len() {
                assert(decimal(n)[i] == d[i]);
            }
        }
        assert(decimal(n).last() == digit_char(n % 10));
        assert(num_val(decimal(n)) == num_val(d) * 10 + digit_val(digit_char(n % 10)));
        assert((n / 10) * 10 + n % 10 == n) by (nonlinear_arith);
        assert(num_val(decimal(n)) == n);
    }
}

proof fn lemma_zeros_val(z: nat, d: Seq<char>)
    ensures
        num_val(Seq::new(z, |i: int| '0') + d) == num_val(d),
    decreases d.len(), z,
{
    let zs = Seq::new(z, |i: int| '0');
    if d.len() == 0 {
        assert(zs + d =~= zs);
        if z > 0 {
            lemma_zeros_val((z - 1) as nat, d);
            assert(zs.drop_last() =~= Seq::new((z - 1) as nat, |i: int| '0') + d);
        }
    } else {
        lemma_zeros_val(z, d.drop_last());
        assert((zs + d).drop_last() =~= zs + d.drop_last());
        assert((zs + d).last() == d.last());
    }
}

proof fn lemma_pad4(n: nat)
    ensures
        pad4(n).len() >= 4,
        forall|i: int| 0 <= i < pad4(n).len() ==> is_digit(#[trigger] pad4(n)[i]),
        num_val(pad4(n)) == n,
{
    lemma_decimal(n);
    let d = decimal(n);
    if d.len() < 4 {
        let zs = Seq::new((4 - d.len()) as nat, |i: int| '0');
        lemma_zeros_val((4 - d.len()) as nat, d);
        assert forall|i: int| 0 <= i < pad4(n).len() implies is_digit(#[trigger] pad4(n)[i]) by {
            if i >= zs.len() {
                assert(pad4(n)[i] == d[i - zs.len()]);
            }
        }
    }
}

/// The characters of a sentinel: `// __MOD_`, the padded number, `__`.
proof fn lemma_sentinel_shape(n: nat)
    ensures
        sentinel(n).len() == pad4(n).len() + 11,
        sentinel(n)[0] == '/',
        sentinel(n)[1] == '/',
        sentinel(n)[2] == ' ',
        forall|i: int| 2 <= i < sentinel(n).len() ==> #[trigger] sentinel(n)[i] != '/',
        forall|i: int| 0 <= i < sentinel(n).len() ==> #[trigger] sentinel(n)[i] != '\n',
        forall|i: int| 9 <= i < 9 + pad4(n).len() ==> #[trigger] sentinel(n)[i] == pad4(n)[i - 9],
        sentinel(n)[9int + pad4(n).len()] == '_',
        occurs_at(sentinel(n), "__MOD_"@, 3),
{
    reveal_strlit("// __MOD_");
    reveal_strlit("__");
    reveal_strlit("__MOD_");
    lemma_pad4(n);
    let s = sentinel(n);
    let p = pad4(n);
    assert(s =~= "// __MOD_"@ + p + "__"@);
    assert forall|i: int| 2 <= i < s.len() implies #[trigger] s[i] != '/' by {
        if 9 <= i < 9 + p.len() {
            assert(s[i] == p[i - 9]);
            assert(is_digit(p[i - 9]));
        }
    }
    assert forall|i: int| 0 <= i < s.len() implies #[trigger] s[i] != '\n' by {
        if 9 <= i < 9 + p.len() {
            assert(s[i] == p[i - 9]);
            assert(is_digit(p[i - 9]));
        }
    }
    assert(s.subrange(3, 9) =~= "__MOD_"@);
}

/// A sentinel does not occur in the sentinel of another number.
pub proof fn lemma_sentinel_distinct(m: nat, c: nat)
    requires
        m != c,
    ensures
        !contains(sentinel(c), sentinel(m)),
{
    lemma_sentinel_shape(m);
    lemma_sentinel_shape(c);
    lemma_pad4(m);
    lemma_pad4(c);
    let sm = sentinel(m);
    let sc = sentinel(c);
    let pm = pad4(m);
    let pc = pad4(c);
    if contains(sc, sm) {
        let i = choose|i: int| occurs_at(sc, sm, i);
        assert(sc.subrange(i, i + sm.len())[0] == sm[0]);
        assert(sc.subrange(i, i + sm.len())[1] == sm[1]);
        assert(sc[i] == '/');
        assert(sc[i + 1] == '/');
        if i >= 2 {
            assert(false);
        } else if i == 1 {
            assert(sc[2] == ' ');
            assert(false);
        } else {
            // The same start: the digits decide.
            assert(sm.len() <= sc.len());
            if pm.len() < pc.len() {
                let k: int = 9int + pm.len();
                assert(sc.subrange(0, sm.len() as int)[k] == sm[k]);
                assert(sm[k] == '_');
                assert(sc[k] == pc[k - 9]);
                assert(is_digit(pc[k - 9]));
                assert(false);
            } else {
                assert(pm.len() == pc.len());
                assert(pm =~= pc) by {
                    assert forall|j: int| 0 <= j < pm.len() implies pm[j] == pc[j] by {
                        assert(sc.subrange(0, sm.len() as int)[j + 9] == sm[j + 9]);
                        assert(sm[j + 9] == pm[j]);
                        assert(sc[j + 9] == pc[j]);
                    }
                }
                assert(false);
            }
        }
    }
}

/// Text without `__MOD_` holds no sentinel.
pub proof fn lemma_no_sentinel(t: Seq<char>, n: nat)
    requires
        !contains(t, "__MOD_"@),
    ensures
        !contains(t, sentinel(n)),
{
    lemma_sentinel_shape(n);
    if contains(t, sentinel(n)) {
        let i = choose|i: int| occurs_at(t, sentinel(n), i);
        let s = sentinel(n);
        assert(t.subrange(i + 3, i + 3 + 6) =~= s.subrange(3, 9)) by {
            assert forall|j: int| 0 <= j < 6 implies t.subrange(i + 3, i + 3 + 6)[j] == s.subrange(3, 9)[j] by {
                assert(t.subrange(i, i + s.len())[j + 3] == s[j + 3]);
            }
        }
        reveal_strlit("__MOD_");
        assert(occurs_at(t, "__MOD_"@, i + 3));
    }
}

// ───────────────────────── lines and joining ─────────────────────────

/// Joining a line in front of at least one more.
pub proof fn lemma_join_cons(a: Seq<char>, ls: Seq<Seq<char>>, sep: Seq<char>)
    requires
        ls.len() >= 1,
    ensures
        join(seq![a] + ls, sep) == a + sep + join(ls, sep),
    decreases ls.len(),
{
    let all = seq![a] + ls;
    assert(all.len() >= 2);
    assert(all.last() == ls.last());
    assert(join(all, sep) == join(all.drop_last(), sep) + sep + all.last());
    if ls.len() == 1 {
        assert(all.drop_last() =~= seq![a]);
        assert(join(seq![a], sep) == a);
        assert(join(ls, sep) == ls[0]);
    } else {
        lemma_join_cons(a, ls.drop_last(), sep);
        assert(all.drop_last() =~= seq![a] + ls.drop_last());
        assert(join(ls, sep) == join(ls.drop_last(), sep) + sep + ls.last());
        assert(a + sep + join(ls.drop_last(), sep) + sep + ls.last() =~= a + sep + (join(
            ls.drop_last(),
            sep,
        ) + sep + ls.last()));
    }
}

/// Every line lies inside the text it was cut from.
proof fn lemma_line_in_text(s: Seq<char>, p: Seq<char>, j: int)
    requires
        0 <= j < lines(s).len(),
        contains(lines(s)[j], p),
    ensures
        contains(s, p),
    decreases s.len(),
{
    lemma_index_of_bounds(s, '\n');
    let k = index_of(s, '\n');
    let l = lines(s)[j];
    let i = choose|i: int| occurs_at(l, p, i);
    if k >= s.len() {
        assert(l == s);
    } else if j == 0 {
        assert(l == strip_cr(s.take(k)));
        assert(l.len() <= k);
        assert forall|t: int| 0 <= t < l.len() implies l[t] == s[t] by {
            assert(s.take(k)[t] == s[t]);
        }
        assert(s.subrange(i, i + p.len()) =~= l.subrange(i, i + p.len()));
        assert(occurs_at(s, p, i));
    } else {
        let r = s.skip(k + 1);
        assert(lines(s)[j] == lines(r)[j - 1]);
        lemma_line_in_text(r, p, j - 1);
        let i2 = choose|i2: int| occurs_at(r, p, i2);
        assert(s.subrange(i2 + k + 1, i2 + k + 1 + p.len()) =~= r.subrange(i2, i2 + p.len()));
        assert(occurs_at(s, p, i2 + k + 1));
    }
}

/// Without carriage returns and without a final line break, joining the lines
/// with line breaks gives the text back.
pub proof fn lemma_join_lines(s: Seq<char>)
    requires
        !has_char(s, '\r'),
        s.len() == 0 || s.last() != '\n',
    ensures
        join(lines(s), seq!['\n']) == s,
    decreases s.len(),
{
    if s.len() > 0 {
        lemma_index_of_bounds(s, '\n');
        let k = index_of(s, '\n');
        if k < s.len() {
            let l = s.take(k);
            let r = s.skip(k + 1);
            assert(k + 1 < s.len());
            if l.len() > 0 {
                assert(l.last() == s[k - 1]);
                assert(l.last() != '\r');
            }
            assert(strip_cr(l) == l);
            assert(!has_char(r, '\r')) by {
                if has_char(r, '\r') {
                    let t = choose|t: int| 0 <= t < r.len() && r[t] == '\r';
                    assert(s[t + k + 1] == '\r');
                }
            }
            assert(r.last() == s.last());
            lemma_join_lines(r);
            assert(lines(r).len() >= 1);
            assert(lines(s) == seq![l] + lines(r));
            lemma_join_cons(l, lines(r), seq!['\n']);
            assert(l + seq!['\n'] + r =~= s);
        }
    }
}

// ───────────────────────── what hiding records ─────────────────────────

/// Hiding keeps one line per line; the `k`-th record holds `sentinel(k)`; and
/// each output line is its input line or the sentinel of a record that holds
/// that input line.
proof fn lemma_strip_records(ls: Seq<Seq<char>>)
    ensures
        mod_strip_lines(ls).0.len() == ls.len(),
        forall|k: int|
            0 <= k < mod_strip_lines(ls).1.len() ==> (#[trigger] mod_strip_lines(ls).1[k]).0
                == sentinel(k as nat),
        forall|j: int|
            0 <= j < ls.len() ==> (#[trigger] mod_strip_lines(ls).0[j] == ls[j] || exists|k: int|
                0 <= k < mod_strip_lines(ls).1.len() && mod_strip_lines(ls).0[j] == sentinel(
                    k as nat,
                ) && (#[trigger] mod_strip_lines(ls).1[k]).1 == ls[j]),
    decreases ls.len(),
{
    if ls.len() > 0 {
        let d = ls.drop_last();
        lemma_strip_records(d);
        let (out0, ph0) = mod_strip_lines(d);
        let (out, ph) = mod_strip_lines(ls);
        let l = ls.last();
        if spec_is_mod_decl(trim(l)) {
            assert(out == out0.push(sentinel(ph0.len())));
            assert(ph == ph0.push((sentinel(ph0.len()), l)));
        } else {
            assert(out == out0.push(l));
            assert(ph == ph0);
        }
        assert forall|k: int| 0 <= k < ph.len() implies (#[trigger] ph[k]).0 == sentinel(k as nat) by {
            if k < ph0.len() {
                assert(ph[k] == ph0[k]);
            }
        }
        assert forall|j: int| 0 <= j < ls.len() implies (#[trigger] out[j] == ls[j] || exists|k: int|
            0 <= k < ph.len() && out[j] == sentinel(k as nat) && (#[trigger] ph[k]).1 == ls[j]) by {
            if j < d.len() {
                assert(out[j] == out0[j]);
                assert(ls[j] == d[j]);
                if out0[j] != d[j] {
                    let k = choose|k: int|
                        0 <= k < ph0.len() && out0[j] == sentinel(k as nat) && (#[trigger] ph0[k]).1
                            == d[j];
                    assert(ph[k] == ph0[k]);
                }
            } else if spec_is_mod_decl(trim(l)) {
                let k = ph0.len() as int;
                assert(ph[k].1 == ls[j]);
            }
        }
    }
}

// ───────────────────────── restoring step by step ─────────────────────────

/// Output line `j` is the sentinel of a record numbered `m` or more.
spec fn still_hidden(out: Seq<Seq<char>>, j: int, m: int, n: int) -> bool {
    exists|k: int| m <= k < n && out[j] == #[trigger] sentinel(k as nat)
}

/// The lines once the records before `m` have been put back.
spec fn partly_restored(
    ls: Seq<Seq<char>>,
    out: Seq<Seq<char>>,
    m: int,
    n: int,
) -> Seq<Seq<char>> {
    Seq::new(ls.len(), |j: int| if still_hidden(out, j, m, n) { out[j] } else { ls[j] })
}

/// What `lemma_strip_records` gives, for lines without `__MOD_`.
spec fn records_fit(
    ls: Seq<Seq<char>>,
    out: Seq<Seq<char>>,
    ph: Seq<(Seq<char>, Seq<char>)>,
) -> bool {
    &&& out.len() == ls.len()
    &&& forall|k: int| 0 <= k < ph.len() ==> (#[trigger] ph[k]).0 == sentinel(k as nat)
    &&& forall|j: int|
        0 <= j < ls.len() ==> (#[trigger] out[j] == ls[j] || exists|k: int|
            0 <= k < ph.len() && out[j] == sentinel(k as nat) && (#[trigger] ph[k]).1 == ls[j])
    &&& forall|j: int| 0 <= j < ls.len() ==> !contains(#[trigger] ls[j], "__MOD_"@)
}

proof fn lemma_sentinel_injective(a: nat, b: nat)
    requires
        sentinel(a) == sentinel(b),
    ensures
        a == b,
{
    if a != b {
        lemma_sentinel_distinct(a, b);
        assert(occurs_at(sentinel(b), sentinel(a), 0)) by {
            assert(sentinel(b).subrange(0, sentinel(a).len() as int) =~= sentinel(b));
        }
    }
}

/// Putting back record `m` turns the lines restored before `m` into the lines
/// restored before `m + 1`.
proof fn lemma_restore_step(
    ls: Seq<Seq<char>>,
    out: Seq<Seq<char>>,
    ph: Seq<(Seq<char>, Seq<char>)>,
    m: int,
)
    requires
        records_fit(ls, out, ph),
        0 <= m < ph.len(),
    ensures
        partly_restored(ls, out, m, ph.len() as int).map_values(
            |l: Seq<char>| replace_all(l, ph[m].0, ph[m].1),
        ) == partly_restored(ls, out, m + 1, ph.len() as int),
{
    let n = ph.len() as int;
    let a = partly_restored(ls, out, m, n);
    let b = partly_restored(ls, out, m + 1, n);
    let pat = ph[m].0;
    let rep = ph[m].1;
    assert(pat == sentinel(m as nat));
    lemma_sentinel_shape(m as nat);
    assert forall|j: int| 0 <= j < ls.len() implies replace_all(a[j], pat, rep) == b[j] by {
        if still_hidden(out, j, m, n) {
            let k = choose|k: int| m <= k < n && out[j] == #[trigger] sentinel(k as nat);
            assert(a[j] == sentinel(k as nat));
            if k == m {
                lemma_replace_whole(pat, rep);
                assert(!still_hidden(out, j, m + 1, n)) by {
                    if still_hidden(out, j, m + 1, n) {
                        let k2 = choose|k2: int|
                            m + 1 <= k2 < n && out[j] == #[trigger] sentinel(k2 as nat);
                        lemma_sentinel_injective(k as nat, k2 as nat);
                    }
                }
                // The record holding this sentinel is record `m`.
                if out[j] != ls[j] {
                    let k3 = choose|k3: int|
                        0 <= k3 < ph.len() && out[j] == sentinel(k3 as nat) && (#[trigger] ph[k3]).1
                            == ls[j];
                    lemma_sentinel_injective(k as nat, k3 as nat);
                } else {
                    lemma_no_sentinel(ls[j], k as nat);
                    assert(contains(ls[j], sentinel(k as nat))) by {
                        assert(occurs_at(ls[j], sentinel(k as nat), 0)) by {
                            assert(ls[j].subrange(0, ls[j].len() as int) =~= ls[j]);
                        }
                    }
                }
                assert(b[j] == ls[j]);
            } else {
                lemma_sentinel_distinct(m as nat, k as nat);
                lemma_replace_absent(sentinel(k as nat), pat, rep);
                assert(still_hidden(out, j, m + 1, n));
            }
        } else {
            lemma_no_sentinel(ls[j], m as nat);
            lemma_replace_absent(ls[j], pat, rep);
            assert(!still_hidden(out, j, m + 1, n)) by {
                if still_hidden(out, j, m + 1, n) {
                    let k = choose|k: int| m + 1 <= k < n && out[j] == #[trigger] sentinel(k as nat);
                    assert(m <= k < n && out[j] == sentinel(k as nat));
                }
            }
        }
    }
    assert(a.map_values(|l: Seq<char>| replace_all(l, pat, rep)) =~= b);
}

/// Putting back the records from `m` on restores every line.
proof fn lemma_restore_from(
    ls: Seq<Seq<char>>,
    out: Seq<Seq<char>>,
    ph: Seq<(Seq<char>, Seq<char>)>,
    m: int,
)
    requires
        records_fit(ls, out, ph),
        0 <= m <= ph.len(),
    ensures
        restored(join(partly_restored(ls, out, m, ph.len() as int), seq!['\n']), ph.skip(m))
            == join(ls, seq!['\n']),
    decreases ph.len() - m,
{
    let n = ph.len() as int;
    if m == n {
        assert(partly_restored(ls, out, m, n) =~= ls) by {
            assert forall|j: int| 0 <= j < ls.len() implies !still_hidden(out, j, m, n) by {}
        }
        assert(ph.skip(m).len() == 0);
    } else {
        let pat = ph[m].0;
        let rep = ph[m].1;
        lemma_sentinel_shape(m as nat);
        assert(!has_char(pat, '\n'));
        lemma_replace_join(partly_restored(ls, out, m, n), pat, rep);
        lemma_restore_step(ls, out, ph, m);
        lemma_restore_from(ls, out, ph, m + 1);
        assert(ph.skip(m)[0] == ph[m]);
        assert(ph.skip(m).drop_first() =~= ph.skip(m + 1));
    }
}

/// Restoring module declarations undoes hiding them: for source text without
/// carriage returns, without a final line break and without `__MOD_`, putting
/// the recorded lines back in place of their sentinels gives the text back.
pub proof fn lemma_restore_undoes_strip(code: Seq<char>)
    requires
        !has_char(code, '\r'),
        code.len() == 0 || code.last() != '\n',
        !contains(code, "__MOD_"@),
    ensures
        restored(mod_stripped(code).0, mod_stripped(code).1) == code,
{
    let ls = lines(code);
    lemma_strip_records(ls);
    let (out, ph) = mod_strip_lines(ls);
    assert forall|j: int| 0 <= j < ls.len() implies !contains(#[trigger] ls[j], "__MOD_"@) by {
        if contains(ls[j], "__MOD_"@) {
            lemma_line_in_text(code, "__MOD_"@, j);
        }
    }
    assert(records_fit(ls, out, ph));
    assert(partly_restored(ls, out, 0, ph.len() as int) =~= out) by {
        assert forall|j: int| 0 <= j < ls.len() implies #[trigger] partly_restored(
            ls,
            out,
            0,
            ph.len() as int,
        )[j] == out[j] by {
            if out[j] != ls[j] {
                let k = choose|k: int|
                    0 <= k < ph.len() && out[j] == sentinel(k as nat) && (#[trigger] ph[k]).1
                        == ls[j];
                assert(still_hidden(out, j, 0, ph.len() as int));
            }
        }
    }
    lemma_restore_from(ls, out, ph, 0);
    assert(ph.skip(0) =~= ph);
    lemma_join_lines(code);
}

} // verus!
