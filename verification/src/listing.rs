//! How the command-line client lists things: registered repos with the
//! active one first, and the files a fetched batch of bodies comes from.
use vstd::prelude::*;
use crate::cache::{opt_view, strs};
use crate::lex::{lemma_lt_transitive, lemma_lt_trichotomy, seq_lt, str_lt};
use crate::strip_generic::str_equals;
use crate::text::{chars_of, lines, slice_vec, split_lines, starts_with, starts_with_str, string_of, views};

verus! {

// ───────────────────────── repos ─────────────────────────

/// The ids as plain values.
pub open spec fn id_views(ids: Seq<Option<String>>) -> Seq<Option<Seq<char>>> {
    ids.map_values(|o: Option<String>| match o {
        Some(s) => Some(s@),
        None => None,
    })
}

/// The id's text, empty where there is none.
pub open spec fn id_text(id: Option<Seq<char>>) -> Seq<char> {
    match id {
        Some(s) => s,
        None => seq![],
    }
}

/// Repo `i` is listed before repo `j`: the active repo first, then by id,
/// then in the order given.
pub open spec fn listed_before(ids: Seq<Option<Seq<char>>>, active: Option<Seq<char>>, i: int, j: int) -> bool {
    let ai = ids[i] == active;
    let aj = ids[j] == active;
    if ai != aj {
        ai
    } else if id_text(ids[i]) != id_text(ids[j]) {
        seq_lt(id_text(ids[i]), id_text(ids[j]))
    } else {
        i < j
    }
}

proof fn lemma_listed_total(ids: Seq<Option<Seq<char>>>, active: Option<Seq<char>>, i: int, j: int)
    requires
        i != j,
    ensures
        listed_before(ids, active, i, j) || listed_before(ids, active, j, i),
        !(listed_before(ids, active, i, j) && listed_before(ids, active, j, i)),
{
    lemma_lt_trichotomy(id_text(ids[i]), id_text(ids[j]));
}

proof fn lemma_listed_transitive(ids: Seq<Option<Seq<char>>>, active: Option<Seq<char>>, i: int, j: int, k: int)
    requires
        listed_before(ids, active, i, j),
        listed_before(ids, active, j, k),
    ensures
        listed_before(ids, active, i, k),
{
    let (ti, tj, tk) = (id_text(ids[i]), id_text(ids[j]), id_text(ids[k]));
    lemma_lt_trichotomy(ti, tj);
    lemma_lt_trichotomy(tj, tk);
    lemma_lt_trichotomy(ti, tk);
    if seq_lt(ti, tj) && seq_lt(tj, tk) {
        lemma_lt_transitive(ti, tj, tk);
    }
}

fn is_active_id(id: &Option<String>, active: Option<&str>) -> (res: bool)
    ensures
        res == (match id {
            Some(s) => Some(s@),
            None => None,
        } == opt_view(active)),
{
    match (id, active) {
        (Some(s), Some(a)) => str_equals(s.as_str(), a),
        (None, None) => true,
        _ => false,
    }
}

fn id_str(id: &Option<String>) -> (res: &str)
    ensures
        res@ == id_text(match id {
            Some(s) => Some(s@),
            None => None,
        }),
{
    match id {
        Some(s) => s.as_str(),
        None => {
            proof {
                reveal_strlit("");
            }
            ""
        },
    }
}

fn listed_before_exec(ids: &Vec<Option<String>>, active: Option<&str>, i: usize, j: usize) -> (res: bool)
    requires
        i < ids.len(),
        j < ids.len(),
    ensures
        res == listed_before(id_views(ids@), opt_view(active), i as int, j as int),
{
    let ai = is_active_id(&ids[i], active);
    let aj = is_active_id(&ids[j], active);
    if ai != aj {
        return ai;
    }
    let ti = id_str(&ids[i]);
    let tj = id_str(&ids[j]);
    if !str_equals(ti, tj) {
        str_lt(ti, tj)
    } else {
        i < j
    }
}

/// The order in which to list the repos: positions into `ids`, the active
/// repo first, then by id, ties kept in the order given.
pub fn order_repos(ids: &Vec<Option<String>>, active: Option<&str>) -> (res: Vec<usize>)
    ensures
        res@.len() == ids@.len(),
        forall|k: int| 0 <= k < res@.len() ==> #[trigger] res@[k] < ids@.len(),
        forall|t: usize| t < ids@.len() ==> #[trigger] res@.contains(t),
        forall|k: int, l: int|
            0 <= k < l < res@.len() ==> listed_before(id_views(ids@), opt_view(active), #[trigger] res@[k] as int, #[trigger] res@[l] as int),
{
    let ghost v = id_views(ids@);
    let ghost a = opt_view(active);
    let n = ids.len();
    let mut res: Vec<usize> = Vec::new();
    let mut i: usize = 0;
    while i < n
        invariant
            n == ids@.len(),
            v == id_views(ids@),
            a == opt_view(active),
            i <= n,
            res@.len() == i,
            forall|k: int| 0 <= k < res@.len() ==> #[trigger] res@[k] < i,
            forall|t: usize| t < i ==> #[trigger] res@.contains(t),
            forall|k: int, l: int|
                0 <= k < l < res@.len() ==> listed_before(v, a, #[trigger] res@[k] as int, #[trigger] res@[l] as int),
        decreases n - i,
    {
        let mut p: usize = 0;
        while p < res.len() && !listed_before_exec(ids, active, i, res[p])
            invariant
                n == ids@.len(),
                v == id_views(ids@),
                a == opt_view(active),
                i < n,
                p <= res@.len(),
                forall|k: int| 0 <= k < res@.len() ==> #[trigger] res@[k] < i,
                forall|k: int| 0 <= k < p ==> !listed_before(v, a, i as int, #[trigger] res@[k] as int),
            decreases res.len() - p,
        {
            p += 1;
        }
        let ghost old_res = res@;
        res.insert(p, i);
        proof {
            assert(res@ == old_res.insert(p as int, i));
            assert forall|k: int| 0 <= k < res@.len() implies #[trigger] res@[k] < i + 1 by {
                if k < p {
                    assert(res@[k] == old_res[k]);
                } else if k > p {
                    assert(res@[k] == old_res[k - 1]);
                }
            }
            assert forall|t: usize| t < i + 1 implies #[trigger] res@.contains(t) by {
                if t == i {
                    assert(res@[p as int] == i);
                } else {
                    assert(old_res.contains(t));
                    let k = choose|k: int| 0 <= k < old_res.len() && old_res[k] == t;
                    if k < p {
                        assert(res@[k] == old_res[k]);
                    } else {
                        assert(res@[k + 1] == old_res[k]);
                    }
                }
            }
            // Where `i` stands among the earlier positions.
            assert forall|k: int| 0 <= k < old_res.len() implies (k < p ==> listed_before(v, a, #[trigger] old_res[k] as int, i as int))
                && (k >= p ==> listed_before(v, a, i as int, old_res[k] as int)) by {
                lemma_listed_total(v, a, old_res[k] as int, i as int);
                if k > p {
                    lemma_listed_transitive(v, a, i as int, old_res[p as int] as int, old_res[k] as int);
                }
            }
            assert forall|k: int, l: int| 0 <= k < l < res@.len() implies listed_before(v, a, #[trigger] res@[k] as int, #[trigger] res@[l] as int) by {
                if l < p {
                    assert(res@[k] == old_res[k] && res@[l] == old_res[l]);
                } else if l == p {
                    assert(res@[k] == old_res[k] && res@[l] == i);
                } else if k < p {
                    assert(res@[k] == old_res[k] && res@[l] == old_res[l - 1]);
                } else if k == p {
                    assert(res@[k] == i && res@[l] == old_res[l - 1]);
                } else {
                    assert(res@[k] == old_res[k - 1] && res@[l] == old_res[l - 1]);
                }
            }
        }
        i += 1;
    }
    res
}

// ───────────────────────── fetched files ─────────────────────────

/// The marker in front of a file's path in fetched text.
pub open spec fn file_marker() -> Seq<char> {
    "//--+ file:///"@
}

/// The paths that marker lines among `ls` name.
pub open spec fn marked_paths(ls: Seq<Seq<char>>) -> Set<Seq<char>>
    decreases ls.len(),
{
    if ls.len() == 0 {
        Set::empty()
    } else if starts_with(ls.last(), file_marker()) {
        marked_paths(ls.drop_last()).insert(ls.last().skip(file_marker().len() as int))
    } else {
        marked_paths(ls.drop_last())
    }
}

/// The files a fetched text comes from: the paths of its marker lines,
/// each once, in ascending order.
pub fn fetched_files(body: &str) -> (res: Vec<String>)
    ensures
        strs(res@).to_set() == marked_paths(lines(body@)),
        forall|k: int, l: int| 0 <= k < l < res@.len() ==> seq_lt(#[trigger] res@[k]@, #[trigger] res@[l]@),
{
    let ls = split_lines(&chars_of(body));
    let ghost vls = views(ls@);
    let marker = chars_of("//--+ file:///");
    let mut res: Vec<String> = Vec::new();
    let mut i: usize = 0;
    assert(strs(res@).to_set() =~= Set::<Seq<char>>::empty());
    assert(vls.take(0) =~= Seq::<Seq<char>>::empty());
    while i < ls.len()
        invariant
            vls == views(ls@),
            vls == lines(body@),
            marker@ == file_marker(),
            i <= ls.len(),
            strs(res@).to_set() == marked_paths(vls.take(i as int)),
            forall|k: int, l: int| 0 <= k < l < res@.len() ==> seq_lt(#[trigger] res@[k]@, #[trigger] res@[l]@),
        decreases ls.len() - i,
    {
        proof {
            assert(vls.take(i + 1).drop_last() =~= vls.take(i as int));
            assert(vls.take(i + 1).last() == ls@[i as int]@);
        }
        if crate::text::vec_starts_with(&ls[i], &marker) {
            let rest = slice_vec(&ls[i], marker.len(), ls[i].len());
            let x = string_of(&rest);
            assert(x@ == ls@[i as int]@.skip(file_marker().len() as int));
            let mut p: usize = 0;
            while p < res.len() && str_lt(res[p].as_str(), x.as_str())
                invariant
                    p <= res@.len(),
                    forall|k: int| 0 <= k < p ==> seq_lt(#[trigger] res@[k]@, x@),
                decreases res.len() - p,
            {
                p += 1;
            }
            let ghost old_res = res@;
            let ghost old_set = strs(old_res).to_set();
            if p < res.len() && str_equals(res[p].as_str(), x.as_str()) {
                proof {
                    assert(strs(old_res)[p as int] == x@);
                    assert(old_set.contains(x@));
                    assert(old_set.insert(x@) =~= old_set);
                }
            } else {
                res.insert(p, x);
                proof {
                    assert(res@ == old_res.insert(p as int, x));
                    assert(strs(res@) =~= strs(old_res).insert(p as int, x@));
                    assert forall|y: Seq<char>| strs(res@).contains(y) <==> old_set.contains(y) || y == x@ by {
                        if strs(res@).contains(y) {
                            let k = choose|k: int| 0 <= k < strs(res@).len() && strs(res@)[k] == y;
                            if k < p {
                                assert(strs(old_res)[k] == y);
                            } else if k > p {
                                assert(strs(old_res)[k - 1] == y);
                            }
                        }
                        if old_set.contains(y) {
                            assert(strs(old_res).contains(y));
                            let k = choose|k: int| 0 <= k < strs(old_res).len() && strs(old_res)[k] == y;
                            if k < p {
                                assert(strs(res@)[k] == y);
                            } else {
                                assert(strs(res@)[k + 1] == y);
                            }
                        }
                        if y == x@ {
                            assert(strs(res@)[p as int] == y);
                        }
                    }
                    assert forall|y: Seq<char>| #[trigger] strs(res@).to_set().contains(y) == old_set.insert(x@).contains(y) by {
                        assert(strs(res@).to_set().contains(y) == strs(res@).contains(y));
                        assert(old_set.contains(y) == strs(old_res).contains(y));
                    }
                    assert(strs(res@).to_set() =~= old_set.insert(x@));
                    if p < old_res.len() {
                        lemma_lt_trichotomy(old_res[p as int]@, x@);
                    }
                    assert forall|k: int| 0 <= k < old_res.len() implies (k < p ==> seq_lt(#[trigger] old_res[k]@, x@))
                        && (k >= p ==> seq_lt(x@, old_res[k]@)) by {
                        if k > p {
                            lemma_lt_transitive(x@, old_res[p as int]@, old_res[k]@);
                        }
                    }
                    assert forall|k: int, l: int| 0 <= k < l < res@.len() implies seq_lt(#[trigger] res@[k]@, #[trigger] res@[l]@) by {
                        if l < p {
                            assert(res@[k] == old_res[k] && res@[l] == old_res[l]);
                        } else if l == p {
                            assert(res@[k] == old_res[k] && res@[l] == x);
                        } else if k < p {
                            assert(res@[k] == old_res[k] && res@[l] == old_res[l - 1]);
                        } else if k == p {
                            assert(res@[k] == x && res@[l] == old_res[l - 1]);
                        } else {
                            assert(res@[k] == old_res[k - 1] && res@[l] == old_res[l - 1]);
                        }
                    }
                }
            }
        }
        i += 1;
    }
    assert(vls.take(ls.len() as int) =~= vls);
    res
}

} // verus!
