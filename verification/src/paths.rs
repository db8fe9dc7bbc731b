//! Comparing file system paths by their components, as `Path` equality
//! does on Unix: repeated and trailing `/` and inner `.` components do not
//! count.
use vstd::prelude::*;
use crate::text::{index_of, lemma_index_of_bounds, slice_vec, starts_with, views};

verus! {

/// The pieces of a path between `/` separators, empty ones included.
pub open spec fn raw_segments(p: Seq<char>) -> Seq<Seq<char>>
    decreases p.len(),
{
    let k = index_of(p, '/');
    proof {
        lemma_index_of_bounds(p, '/');
    }
    if k >= p.len() {
        seq![p]
    } else {
        seq![p.take(k)] + raw_segments(p.skip(k + 1))
    }
}

/// The components kept from the pieces: empty pieces are dropped, and so is
/// `.` except as the very first component of a relative path.
pub open spec fn kept_parts(segs: Seq<Seq<char>>, lead: bool) -> Seq<Seq<char>>
    decreases segs.len(),
{
    if segs.len() == 0 {
        seq![]
    } else if segs[0].len() == 0 {
        kept_parts(segs.drop_first(), lead)
    } else if segs[0] == seq!['.'] && !lead {
        kept_parts(segs.drop_first(), false)
    } else {
        seq![segs[0]] + kept_parts(segs.drop_first(), false)
    }
}

/// A path as its components: whether it starts at the root, and the named
/// components in order.
pub open spec fn path_key(p: Seq<char>) -> (bool, Seq<Seq<char>>) {
    let abs = starts_with(p, seq!['/']);
    (abs, kept_parts(raw_segments(p), !abs))
}

fn raw_segments_exec(p: &Vec<char>) -> (res: Vec<Vec<char>>)
    ensures
        views(res@) == raw_segments(p@),
    decreases p.len(),
{
    let k = crate::rustfmt::find_char(p, '/');
    proof {
        lemma_index_of_bounds(p@, '/');
    }
    if k >= p.len() {
        let mut res: Vec<Vec<char>> = Vec::new();
        res.push(slice_vec(p, 0, p.len()));
        assert(p@.subrange(0, p@.len() as int) =~= p@);
        assert(views(res@) =~= seq![p@]);
        res
    } else {
        let head = slice_vec(p, 0, k);
        let tail = slice_vec(p, k + 1, p.len());
        assert(head@ =~= p@.take(k as int));
        assert(tail@ =~= p@.skip(k + 1));
        let rest = raw_segments_exec(&tail);
        let mut res: Vec<Vec<char>> = Vec::new();
        res.push(head);
        let mut i: usize = 0;
        while i < rest.len()
            invariant
                i <= rest@.len(),
                views(res@) == seq![p@.take(k as int)] + views(rest@).take(i as int),
            decreases rest.len() - i,
        {
            let ghost before = views(res@);
            res.push(slice_vec(&rest[i], 0, rest[i].len()));
            assert(rest@[i as int]@.subrange(0, rest@[i as int]@.len() as int) =~= rest@[i as int]@);
            assert(views(res@) =~= before.push(rest@[i as int]@));
            assert(views(rest@).take(i + 1) =~= views(rest@).take(i as int).push(views(rest@)[i as int]));
            i += 1;
        }
        assert(views(rest@).take(rest@.len() as int) =~= views(rest@));
        res
    }
}

fn is_dot(s: &Vec<char>) -> (res: bool)
    ensures
        res == (s@ == seq!['.']),
{
    let r = s.len() == 1 && s[0] == '.';
    proof {
        if r {
            assert(s@ =~= seq!['.']);
        }
    }
    r
}

fn seq_eq(a: &Vec<char>, b: &Vec<char>) -> (res: bool)
    ensures
        res == (a@ == b@),
{
    if a.len() != b.len() {
        return false;
    }
    let mut i: usize = 0;
    while i < a.len()
        invariant
            a.len() == b.len(),
            i <= a.len(),
            forall|j: int| 0 <= j < i ==> a@[j] == b@[j],
        decreases a.len() - i,
    {
        if a[i] != b[i] {
            return false;
        }
        i += 1;
    }
    assert(a@ =~= b@);
    true
}

/// The kept components of the pieces from position `i` on.
fn kept_from(segs: &Vec<Vec<char>>, i: usize, lead: bool) -> (res: Vec<Vec<char>>)
    requires
        i <= segs@.len(),
    ensures
        views(res@) == kept_parts(views(segs@).skip(i as int), lead),
    decreases segs.len() - i,
{
    let ghost vs = views(segs@).skip(i as int);
    if i == segs.len() {
        assert(vs =~= Seq::<Seq<char>>::empty());
        return Vec::new();
    }
    assert(vs[0] == segs@[i as int]@);
    assert(vs.drop_first() =~= views(segs@).skip(i + 1));
    if segs[i].len() == 0 {
        kept_from(segs, i + 1, lead)
    } else if is_dot(&segs[i]) && !lead {
        kept_from(segs, i + 1, false)
    } else {
        let rest = kept_from(segs, i + 1, false);
        let mut res: Vec<Vec<char>> = Vec::new();
        res.push(slice_vec(&segs[i], 0, segs[i].len()));
        assert(segs@[i as int]@.subrange(0, segs@[i as int]@.len() as int) =~= segs@[i as int]@);
        let mut j: usize = 0;
        while j < rest.len()
            invariant
                j <= rest@.len(),
                views(res@) == seq![segs@[i as int]@] + views(rest@).take(j as int),
            decreases rest.len() - j,
        {
            let ghost before = views(res@);
            res.push(slice_vec(&rest[j], 0, rest[j].len()));
            assert(rest@[j as int]@.subrange(0, rest@[j as int]@.len() as int) =~= rest@[j as int]@);
            assert(views(res@) =~= before.push(rest@[j as int]@));
            assert(views(rest@).take(j + 1) =~= views(rest@).take(j as int).push(views(rest@)[j as int]));
            j += 1;
        }
        assert(views(rest@).take(rest@.len() as int) =~= views(rest@));
        res
    }
}

/// Do two paths name the same components (`Path` equality on Unix)?
pub fn same_path(a: &str, b: &str) -> (res: bool)
    ensures
        res == (path_key(a@) == path_key(b@)),
{
    let av = crate::text::chars_of(a);
    let bv = crate::text::chars_of(b);
    let a_abs = av.len() > 0 && av[0] == '/';
    let b_abs = bv.len() > 0 && bv[0] == '/';
    proof {
        if av@.len() > 0 {
            if av@[0] == '/' {
                assert(av@.take(1) =~= seq!['/']);
            } else {
                assert(av@.take(1)[0] != seq!['/'][0]);
            }
        }
        if bv@.len() > 0 {
            if bv@[0] == '/' {
                assert(bv@.take(1) =~= seq!['/']);
            } else {
                assert(bv@.take(1)[0] != seq!['/'][0]);
            }
        }
    }
    if a_abs != b_abs {
        return false;
    }
    let sa = raw_segments_exec(&av);
    let sb = raw_segments_exec(&bv);
    assert(views(sa@).skip(0) =~= views(sa@));
    assert(views(sb@).skip(0) =~= views(sb@));
    let ka = kept_from(&sa, 0, !a_abs);
    let kb = kept_from(&sb, 0, !b_abs);
    if ka.len() != kb.len() {
        assert(views(ka@).len() != views(kb@).len());
        return false;
    }
    let mut i: usize = 0;
    while i < ka.len()
        invariant
            ka.len() == kb.len(),
            i <= ka.len(),
            views(ka@) == path_key(a@).1,
            views(kb@) == path_key(b@).1,
            path_key(a@).0 == path_key(b@).0,
            forall|j: int| 0 <= j < i ==> ka@[j]@ == kb@[j]@,
        decreases ka.len() - i,
    {
        if !seq_eq(&ka[i], &kb[i]) {
            assert(views(ka@)[i as int] != views(kb@)[i as int]);
            assert(views(ka@) != views(kb@));
            return false;
        }
        i += 1;
    }
    assert(views(ka@) =~= views(kb@));
    true
}

} // verus!
