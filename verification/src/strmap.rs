//! A map keyed by strings, kept as a list of entries with distinct keys.
//!
//! Its view is a `Map` from the keys' character sequences to the values;
//! the entries keep insertion order, which is one of the orders a hash map
//! could present them in.
use vstd::prelude::*;
use crate::strip_generic::str_equals;

verus! {

/// The map described by a list of entries (a later entry wins).
pub open spec fn map_of<V>(s: Seq<(String, V)>) -> Map<Seq<char>, V>
    decreases s.len(),
{
    if s.len() == 0 {
        Map::empty()
    } else {
        map_of(s.drop_last()).insert(s.last().0@, s.last().1)
    }
}

/// No key occurs twice.
pub open spec fn distinct_keys<V>(s: Seq<(String, V)>) -> bool {
    forall|i: int, j: int| 0 <= i < j < s.len() ==> s[i].0@ != s[j].0@
}

pub proof fn lemma_map_of_dom<V>(s: Seq<(String, V)>, k: Seq<char>)
    ensures
        map_of(s).dom().contains(k) <==> exists|i: int| 0 <= i < s.len() && s[i].0@ == k,
    decreases s.len(),
{
    if s.len() > 0 {
        lemma_map_of_dom(s.drop_last(), k);
        if map_of(s).dom().contains(k) && s.last().0@ != k {
            let i = choose|i: int| 0 <= i < s.drop_last().len() && s.drop_last()[i].0@ == k;
            assert(s[i].0@ == k);
        }
        if exists|i: int| 0 <= i < s.len() && s[i].0@ == k {
            let i = choose|i: int| 0 <= i < s.len() && s[i].0@ == k;
            if i < s.len() - 1 {
                assert(s.drop_last()[i].0@ == k);
            }
        }
    }
}

pub proof fn lemma_map_of_index<V>(s: Seq<(String, V)>, i: int)
    requires
        distinct_keys(s),
        0 <= i < s.len(),
    ensures
        map_of(s).dom().contains(s[i].0@),
        map_of(s)[s[i].0@] == s[i].1,
    decreases s.len(),
{
    if i < s.len() - 1 {
        assert(s.drop_last()[i] == s[i]);
        lemma_map_of_index(s.drop_last(), i);
    }
}

pub proof fn lemma_map_of_remove<V>(s: Seq<(String, V)>, i: int)
    requires
        distinct_keys(s),
        0 <= i < s.len(),
    ensures
        map_of(s.remove(i)) == map_of(s).remove(s[i].0@),
        distinct_keys(s.remove(i)),
    decreases s.len(),
{
    let k = s[i].0@;
    if i == s.len() - 1 {
        assert(s.remove(i) =~= s.drop_last());
        lemma_map_of_dom(s.drop_last(), k);
        assert(!map_of(s.drop_last()).dom().contains(k));
        assert(map_of(s).remove(k) =~= map_of(s.drop_last()));
    } else {
        let d = s.drop_last();
        assert(distinct_keys(d));
        lemma_map_of_remove(d, i);
        assert(s.remove(i) =~= d.remove(i).push(s.last()));
        assert(s.last().0@ != k);
        assert(s.remove(i).drop_last() =~= d.remove(i));
        assert(s.remove(i).last() == s.last());
        assert(map_of(s.remove(i)) == map_of(d.remove(i)).insert(s.last().0@, s.last().1));
        assert(map_of(s.remove(i)) =~= map_of(s).remove(k));
    }
}

pub proof fn lemma_map_of_update<V>(s: Seq<(String, V)>, i: int, v: V)
    requires
        distinct_keys(s),
        0 <= i < s.len(),
    ensures
        map_of(s.update(i, (s[i].0, v))) == map_of(s).insert(s[i].0@, v),
        distinct_keys(s.update(i, (s[i].0, v))),
    decreases s.len(),
{
    let k = s[i].0@;
    if i == s.len() - 1 {
        assert(s.update(i, (s[i].0, v)).drop_last() =~= s.drop_last());
        assert(map_of(s.update(i, (s[i].0, v))) =~= map_of(s).insert(k, v));
    } else {
        let d = s.drop_last();
        lemma_map_of_update(d, i, v);
        assert(s.update(i, (s[i].0, v)).drop_last() =~= d.update(i, (s[i].0, v)));
        assert(map_of(s.update(i, (s[i].0, v))) =~= map_of(s).insert(k, v));
    }
}

/// A map from strings to values.
pub struct StrMap<V> {
    entries: Vec<(String, V)>,
}

impl<V> StrMap<V> {
    #[verifier::type_invariant]
    spec fn wf(self) -> bool {
        distinct_keys(self.entries@)
    }

    /// The entries in their order.
    pub closed spec fn entry_seq(self) -> Seq<(String, V)> {
        self.entries@
    }

    /// The map the entries describe.
    pub open spec fn spec_map(self) -> Map<Seq<char>, V> {
        map_of(self.entry_seq())
    }

    proof fn lemma_wf(self)
        requires
            distinct_keys(self.entries@),
        ensures
            distinct_keys(self.entry_seq()),
            forall|i: int| 0 <= i < self.entry_seq().len() ==> self.spec_map().dom().contains(#[trigger] self.entry_seq()[i].0@) && self.spec_map()[self.entry_seq()[i].0@] == self.entry_seq()[i].1,
            forall|k: Seq<char>| #[trigger] self.spec_map().dom().contains(k) <==> exists|i: int| 0 <= i < self.entry_seq().len() && self.entry_seq()[i].0@ == k,
    {
        assert forall|i: int| 0 <= i < self.entry_seq().len() implies self.spec_map().dom().contains(#[trigger] self.entry_seq()[i].0@) && self.spec_map()[self.entry_seq()[i].0@] == self.entry_seq()[i].1 by {
            lemma_map_of_index(self.entries@, i);
        }
        assert forall|k: Seq<char>| #[trigger] self.spec_map().dom().contains(k) <==> exists|i: int| 0 <= i < self.entry_seq().len() && self.entry_seq()[i].0@ == k by {
            lemma_map_of_dom(self.entries@, k);
        }
    }

    /// An empty map.
    pub fn new() -> (res: Self)
        ensures
            res.spec_map() == Map::<Seq<char>, V>::empty(),
            res.entry_seq().len() == 0,
    {
        StrMap { entries: Vec::new() }
    }

    /// Number of entries; also states that the entries list the map exactly once each.
    pub fn len(&self) -> (res: usize)
        ensures
            res == self.entry_seq().len(),
            distinct_keys(self.entry_seq()),
            forall|i: int| 0 <= i < self.entry_seq().len() ==> self.spec_map().dom().contains(#[trigger] self.entry_seq()[i].0@) && self.spec_map()[self.entry_seq()[i].0@] == self.entry_seq()[i].1,
            forall|k: Seq<char>| #[trigger] self.spec_map().dom().contains(k) <==> exists|i: int| 0 <= i < self.entry_seq().len() && self.entry_seq()[i].0@ == k,
    {
        proof {
            use_type_invariant(self);
            self.lemma_wf();
        }
        self.entries.len()
    }

    /// The `i`-th entry.
    pub fn entry(&self, i: usize) -> (res: (&String, &V))
        requires
            i < self.entry_seq().len(),
        ensures
            *res.0 == self.entry_seq()[i as int].0,
            *res.1 == self.entry_seq()[i as int].1,
    {
        let e = &self.entries[i];
        (&e.0, &e.1)
    }

    /// The position of the key among the entries, if present.
    pub fn find(&self, k: &str) -> (res: Option<usize>)
        ensures
            match res {
                Some(i) => i < self.entry_seq().len() && self.entry_seq()[i as int].0@ == k@
                    && self.spec_map().dom().contains(k@) && self.spec_map()[k@] == self.entry_seq()[i as int].1,
                None => !self.spec_map().dom().contains(k@),
            },
    {
        proof {
            use_type_invariant(self);
            self.lemma_wf();
        }
        let mut i: usize = 0;
        while i < self.entries.len()
            invariant
                i <= self.entries@.len(),
                forall|j: int| 0 <= j < i ==> self.entries@[j].0@ != k@,
            decreases self.entries.len() - i,
        {
            if str_equals(self.entries[i].0.as_str(), k) {
                proof {
                    use_type_invariant(self);
                    self.lemma_wf();
                }
                return Some(i);
            }
            i += 1;
        }
        None
    }

    /// Does the map hold the key?
    pub fn contains_key(&self, k: &str) -> (res: bool)
        ensures
            res == self.spec_map().dom().contains(k@),
    {
        proof {
            use_type_invariant(self);
            self.lemma_wf();
        }
        self.find(k).is_some()
    }

    /// The value stored under the key.
    pub fn get(&self, k: &str) -> (res: Option<&V>)
        ensures
            match res {
                Some(v) => self.spec_map().dom().contains(k@) && self.spec_map()[k@] == *v,
                None => !self.spec_map().dom().contains(k@),
            },
    {
        proof {
            use_type_invariant(self);
            self.lemma_wf();
        }
        match self.find(k) {
            Some(i) => Some(&self.entries[i].1),
            None => None,
        }
    }

    /// Store `v` under `k`, replacing any earlier value.
    pub fn insert(&mut self, k: String, v: V)
        ensures
            final(self).spec_map() == old(self).spec_map().insert(k@, v),
    {
        proof {
            use_type_invariant(&*self);
            self.lemma_wf();
        }
        match self.find(k.as_str()) {
            Some(i) => {
                let ghost s = self.entries@;
                let key = self.entries[i].0.clone();
                let mut entries: Vec<(String, V)> = Vec::new();
                std::mem::swap(&mut entries, &mut self.entries);
                proof {
                    lemma_map_of_update(s, i as int, v);
                }
                entries.set(i, (key, v));
                assert(entries@ =~= s.update(i as int, (s[i as int].0, v)));
                self.entries = entries;
            },
            None => {
                let ghost s = self.entries@;
                let mut entries: Vec<(String, V)> = Vec::new();
                std::mem::swap(&mut entries, &mut self.entries);
                proof {
                    lemma_map_of_dom(s, k@);
                }
                entries.push((k, v));
                assert(entries@.drop_last() =~= s);
                self.entries = entries;
            },
        }
    }

    /// Remove the key; returns its value if it was present.
    pub fn remove(&mut self, k: &str) -> (res: Option<V>)
        ensures
            final(self).spec_map() == old(self).spec_map().remove(k@),
            match res {
                Some(v) => old(self).spec_map().dom().contains(k@) && old(self).spec_map()[k@] == v,
                None => !old(self).spec_map().dom().contains(k@),
            },
    {
        proof {
            use_type_invariant(&*self);
            self.lemma_wf();
        }
        match self.find(k) {
            Some(i) => {
                let ghost s = self.entries@;
                let mut entries: Vec<(String, V)> = Vec::new();
                std::mem::swap(&mut entries, &mut self.entries);
                proof {
                    lemma_map_of_remove(s, i as int);
                    lemma_map_of_index(s, i as int);
                }
                let (_, v) = entries.remove(i);
                self.entries = entries;
                Some(v)
            },
            None => {
                assert(old(self).spec_map().remove(k@) =~= old(self).spec_map());
                None
            },
        }
    }
}

} // verus!
