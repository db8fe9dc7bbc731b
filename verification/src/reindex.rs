//! Bringing the index in line with a fresh scan of the mirrored repos.
use vstd::prelude::*;
use crate::cache::{strs, without, hashes_of, lemma_without, BodyEntry, DaemonCache, FileEntry};
use crate::scanner::ProcessedFile;
use crate::strip_generic::str_equals;
use crate::text::{ends_with, ends_with_str, chars_of};

verus! {

/// The entries of `s` that lie in `keep`, in order.
pub open spec fn filter_in(s: Seq<Seq<char>>, keep: Set<Seq<char>>) -> Seq<Seq<char>>
    decreases s.len(),
{
    if s.len() == 0 {
        seq![]
    } else if keep.contains(s.last()) {
        filter_in(s.drop_last(), keep).push(s.last())
    } else {
        filter_in(s.drop_last(), keep)
    }
}

/// Dropping an entry that is not kept does not change what is kept.
pub proof fn lemma_filter_without(s: Seq<Seq<char>>, keep: Set<Seq<char>>, x: Seq<char>)
    requires
        !keep.contains(x),
    ensures
        filter_in(without(s, x), keep) == filter_in(s, keep),
    decreases s.len(),
{
    if s.len() > 0 {
        lemma_filter_without(s.drop_last(), keep, x);
        if s.last() != x {
            assert(without(s, x).drop_last() =~= without(s.drop_last(), x));
        }
    }
}

/// `s` with `x` appended unless it is already there.
pub open spec fn push_new(s: Seq<Seq<char>>, x: Seq<char>) -> Seq<Seq<char>> {
    if s.contains(x) {
        s
    } else {
        s.push(x)
    }
}

/// Does the list hold the string?
pub fn vec_contains_str(v: &Vec<String>, x: &str) -> (res: bool)
    ensures
        res == strs(v@).contains(x@),
{
    let mut i: usize = 0;
    while i < v.len()
        invariant
            i <= v@.len(),
            forall|j: int| 0 <= j < i ==> v@[j]@ != x@,
        decreases v.len() - i,
    {
        if str_equals(v[i].as_str(), x) {
            assert(strs(v@)[i as int] == x@);
            return true;
        }
        i += 1;
    }
    proof {
        if strs(v@).contains(x@) {
            let j = choose|j: int| 0 <= j < strs(v@).len() && strs(v@)[j] == x@;
            assert(v@[j]@ == x@);
        }
    }
    false
}

/// The entries of the list that lie in `keep`, in order.
fn retain_in(v: &Vec<String>, keep: &Vec<String>) -> (res: Vec<String>)
    ensures
        strs(res@) == filter_in(strs(v@), strs(keep@).to_set()),
{
    let ghost k = strs(keep@).to_set();
    let mut res: Vec<String> = Vec::new();
    let mut i: usize = 0;
    while i < v.len()
        invariant
            i <= v@.len(),
            k == strs(keep@).to_set(),
            strs(res@) == filter_in(strs(v@).take(i as int), k),
        decreases v.len() - i,
    {
        proof {
            let t = strs(v@).take(i + 1);
            assert(t.drop_last() =~= strs(v@).take(i as int));
            assert(t.last() == v@[i as int]@);
        }
        if vec_contains_str(keep, v[i].as_str()) {
            let ghost before = strs(res@);
            res.push(v[i].clone());
            assert(strs(res@) =~= before.push(v@[i as int]@));
        }
        i += 1;
    }
    assert(strs(v@).take(v@.len() as int) =~= strs(v@));
    res
}

/// The stored entry of a body.
pub open spec fn body_entry(t: (String, crate::cache::BodyMeta, String)) -> BodyEntry {
    BodyEntry { meta: t.1, body: t.2 }
}

/// The bodies map after inserting a file's bodies in order.
pub open spec fn with_bodies(m: Map<Seq<char>, BodyEntry>, bs: Seq<(String, crate::cache::BodyMeta, String)>) -> Map<Seq<char>, BodyEntry>
    decreases bs.len(),
{
    if bs.len() == 0 {
        m
    } else {
        with_bodies(m, bs.drop_last()).insert(bs.last().0@, body_entry(bs.last()))
    }
}

/// The hashes of a file's bodies.
pub open spec fn body_hashes(bs: Seq<(String, crate::cache::BodyMeta, String)>) -> Seq<Seq<char>> {
    bs.map_values(|t: (String, crate::cache::BodyMeta, String)| t.0@)
}

/// Does a path name a Rust file?
pub open spec fn is_rust_path(p: Seq<char>) -> bool {
    ends_with(p, ".rs"@)
}

impl DaemonCache {
    /// Index one processed file: a Rust file's bodies, entry, skeleton
    /// segment and place in the order; other files are not indexed.
    pub fn ingest_file(&mut self, f: ProcessedFile)
        ensures
            !is_rust_path(f.rel_path@) ==> *final(self) == *old(self),
            is_rust_path(f.rel_path@) ==> {
                let rel = f.rel_path@;
                &&& final(self).bodies.spec_map() == with_bodies(old(self).bodies.spec_map(), f.bodies@)
                &&& final(self).files.spec_map().dom() == old(self).files.spec_map().dom().insert(rel)
                &&& final(self).files.spec_map().remove(rel) == old(self).files.spec_map().remove(rel)
                &&& final(self).files.spec_map()[rel].loc == f.loc
                &&& final(self).files.spec_map()[rel].byte_size == f.byte_size
                &&& final(self).files.spec_map()[rel].code == f.code
                &&& strs(final(self).files.spec_map()[rel].body_hashes@) == body_hashes(f.bodies@)
                &&& final(self).skeleton_segments.spec_map() == match f.skeleton_segment {
                    Some(seg) => old(self).skeleton_segments.spec_map().insert(rel, seg),
                    None => old(self).skeleton_segments.spec_map(),
                }
                &&& strs(final(self).file_order@) == push_new(strs(old(self).file_order@), rel)
                &&& final(self).fingerprints == old(self).fingerprints
                &&& final(self).file_hits == old(self).file_hits
                &&& final(self).hash_hits == old(self).hash_hits
                &&& final(self).meta_prompt == old(self).meta_prompt
                &&& final(self).generation == old(self).generation
                &&& final(self).cache_path == old(self).cache_path
            },
    {
        let rel_chars = chars_of(f.rel_path.as_str());
        if !ends_with_str(&rel_chars, ".rs") {
            return;
        }
        let ProcessedFile { rel_path, extension: _, kind: _, loc, byte_size, code, skeleton_segment, bodies } = f;
        let ghost bs = bodies@;
        let ghost b0 = self.bodies.spec_map();
        let mut body_hashes_v: Vec<String> = Vec::new();
        let mut rest = bodies;
        let ghost mut taken: Seq<(String, crate::cache::BodyMeta, String)> = seq![];
        let ghost snap = *self;
        // Move the bodies in, in order.
        assert(taken + rest@ =~= bs);
        while rest.len() > 0
            invariant
                taken + rest@ == bs,
                self.bodies.spec_map() == with_bodies(b0, taken),
                strs(body_hashes_v@) == body_hashes(taken),
                self.files == snap.files,
                self.skeleton_segments == snap.skeleton_segments,
                self.file_order == snap.file_order,
                self.fingerprints == snap.fingerprints,
                self.file_hits == snap.file_hits,
                self.hash_hits == snap.hash_hits,
                self.meta_prompt == snap.meta_prompt,
                self.generation == snap.generation,
                self.cache_path == snap.cache_path,
            decreases rest.len(),
        {
            let t = rest.remove(0);
            let ghost tt = t;
            let (hash, meta, body) = t;
            let ghost before_h = body_hashes_v@;
            body_hashes_v.push(hash.clone());
            self.bodies.insert(hash, BodyEntry { meta, body });
            let ghost before_t = taken;
            proof {
                taken = taken.push(tt);
                assert(taken.drop_last() =~= before_t);
                assert(strs(body_hashes_v@) =~= strs(before_h).push(tt.0@));
                assert(body_hashes(taken) =~= body_hashes(before_t).push(tt.0@));
                assert(taken + rest@ =~= bs);
            }
        }
        assert(taken =~= taken + rest@);
        let ghost f0 = self.files.spec_map();
        let key = rel_path.clone();
        self.files.insert(key, FileEntry { loc, byte_size, body_hashes: body_hashes_v, code });
        assert(self.files.spec_map().remove(rel_path@) =~= f0.remove(rel_path@));
        match skeleton_segment {
            Some(seg) => {
                self.skeleton_segments.insert(rel_path.clone(), seg);
            },
            None => {},
        }
        if !vec_contains_str(&self.file_order, rel_path.as_str()) {
            self.file_order.push(rel_path);
            assert(strs(self.file_order@) =~= strs(snap.file_order@).push(rel_path@));
        }
    }
}

/// The hashes of the bodies of the files at the given paths.
pub open spec fn hashes_under(files: Map<Seq<char>, FileEntry>, paths: Set<Seq<char>>) -> Set<Seq<char>> {
    Set::new(|h: Seq<char>| exists|k: Seq<char>| paths.contains(k) && #[trigger] hashes_of(files, k).contains(h))
}

/// The indexed paths that are not among the found ones.
pub open spec fn stale_paths(files: Map<Seq<char>, FileEntry>, found: Set<Seq<char>>) -> Set<Seq<char>> {
    files.dom().filter(|k: Seq<char>| !found.contains(k))
}

/// No entry occurs twice.
pub open spec fn no_dups(s: Seq<Seq<char>>) -> bool {
    forall|i: int, j: int| 0 <= i < j < s.len() ==> s[i] != s[j]
}

/// Facts about `filter_in`: membership, and that it keeps a list free of
/// duplicates.
pub proof fn lemma_filter_in(s: Seq<Seq<char>>, keep: Set<Seq<char>>)
    ensures
        forall|x: Seq<char>| #[trigger] filter_in(s, keep).contains(x) <==> s.contains(x) && keep.contains(x),
        no_dups(s) ==> no_dups(filter_in(s, keep)),
    decreases s.len(),
{
    broadcast use vstd::seq_lib::group_seq_properties;
    if s.len() > 0 {
        let d = s.drop_last();
        lemma_filter_in(d, keep);
        assert(s =~= d.push(s.last()));
        if no_dups(s) {
            assert(no_dups(d));
            if keep.contains(s.last()) {
                let f = filter_in(d, keep);
                assert(!d.contains(s.last()));
                assert(!f.contains(s.last()));
                assert forall|i: int, j: int| 0 <= i < j < f.push(s.last()).len() implies f.push(s.last())[i] != f.push(s.last())[j] by {
                    if j == f.len() {
                        assert(f.contains(f[i]));
                    }
                }
            }
        }
    }
}

/// The keys of a list of entries.
pub open spec fn key_seq(es: Seq<(String, FileEntry)>) -> Seq<Seq<char>> {
    es.map_values(|e: (String, FileEntry)| e.0@)
}

impl DaemonCache {
    /// The indexed paths that are not found, in index order.
    fn stale_list(&self, found: &Vec<String>) -> (res: Vec<String>)
        ensures
            strs(res@).to_set() == stale_paths(self.files.spec_map(), strs(found@).to_set()),
            no_dups(strs(res@)),
    {
        let ghost fset = strs(found@).to_set();
        let ghost keep = Set::new(|k: Seq<char>| !fset.contains(k));
        let n = self.files.len();
        let ghost es = self.files.entry_seq();
        let ghost ks = key_seq(es);
        let mut res: Vec<String> = Vec::new();
        let mut i: usize = 0;
        while i < n
            invariant
                i <= n,
                n == es.len(),
                es == self.files.entry_seq(),
                ks == key_seq(es),
                fset == strs(found@).to_set(),
                keep == Set::new(|k: Seq<char>| !fset.contains(k)),
                strs(res@) == filter_in(ks.take(i as int), keep),
            decreases n - i,
        {
            let (k, _) = self.files.entry(i);
            proof {
                assert(ks.take(i + 1).drop_last() =~= ks.take(i as int));
                assert(ks.take(i + 1).last() == k@);
                assert(fset.contains(k@) <==> strs(found@).contains(k@));
            }
            if !vec_contains_str(found, k.as_str()) {
                let ghost before = strs(res@);
                res.push(k.clone());
                assert(strs(res@) =~= before.push(k@));
            }
            i += 1;
        }
        proof {
            let m = self.files.spec_map();
            assert(ks.take(n as int) =~= ks);
            lemma_filter_in(ks, keep);
            assert(no_dups(ks)) by {
                assert forall|a: int, b: int| 0 <= a < b < ks.len() implies ks[a] != ks[b] by {
                    assert(es[a].0@ != es[b].0@);
                }
            }
            assert forall|k: Seq<char>| #[trigger] strs(res@).to_set().contains(k) <==> stale_paths(m, fset).contains(k) by {
                if ks.contains(k) {
                    let j = choose|j: int| 0 <= j < ks.len() && ks[j] == k;
                    assert(es[j].0@ == k);
                }
                if m.dom().contains(k) {
                    let j = choose|j: int| 0 <= j < es.len() && es[j].0@ == k;
                    assert(ks[j] == k);
                }
            }
            assert(strs(res@).to_set() =~= stale_paths(m, fset));
        }
        res
    }
}

impl DaemonCache {
    /// Evict every indexed file that is not among the found paths, and keep
    /// only found paths in the file order. Returns how many files were stale.
    pub fn evict_stale(&mut self, found: &Vec<String>) -> (n_stale: usize)
        ensures
            ({
                let fset = strs(found@).to_set();
                let stale = stale_paths(old(self).files.spec_map(), fset);
                &&& final(self).files.spec_map() == old(self).files.spec_map().remove_keys(stale)
                &&& final(self).bodies.spec_map() == old(self).bodies.spec_map().remove_keys(
                    hashes_under(old(self).files.spec_map(), stale),
                )
                &&& final(self).hash_hits.spec_map() == old(self).hash_hits.spec_map().remove_keys(
                    hashes_under(old(self).files.spec_map(), stale),
                )
                &&& final(self).skeleton_segments.spec_map() == old(self).skeleton_segments.spec_map().remove_keys(stale)
                &&& final(self).file_hits.spec_map() == old(self).file_hits.spec_map().remove_keys(stale)
                &&& strs(final(self).file_order@) == filter_in(strs(old(self).file_order@), fset)
                &&& n_stale == stale.len()
            }),
            final(self).fingerprints == old(self).fingerprints,
            final(self).meta_prompt == old(self).meta_prompt,
            final(self).generation == old(self).generation,
            final(self).cache_path == old(self).cache_path,
    {
        let ghost fset = strs(found@).to_set();
        let ghost f0 = self.files.spec_map();
        let ghost b0 = self.bodies.spec_map();
        let ghost h0 = self.hash_hits.spec_map();
        let ghost s0 = self.skeleton_segments.spec_map();
        let ghost fh0 = self.file_hits.spec_map();
        let ghost o0 = strs(self.file_order@);
        let ghost snap = *self;
        let stale = self.stale_list(found);
        let ghost st = strs(stale@);
        let ghost all = stale_paths(f0, fset);
        proof {
            assert(b0.remove_keys(hashes_under(f0, Set::empty())) =~= b0);
            assert(h0.remove_keys(hashes_under(f0, Set::empty())) =~= h0);
            assert(f0.remove_keys(Set::empty()) =~= f0);
            assert(s0.remove_keys(Set::empty()) =~= s0);
            assert(fh0.remove_keys(Set::empty()) =~= fh0);
            assert(st.take(0).to_set() =~= Set::<Seq<char>>::empty());
        }
        let mut j: usize = 0;
        while j < stale.len()
            invariant
                j <= stale@.len(),
                st == strs(stale@),
                st.to_set() == all,
                all == stale_paths(f0, fset),
                no_dups(st),
                self.files.spec_map() == f0.remove_keys(st.take(j as int).to_set()),
                self.bodies.spec_map() == b0.remove_keys(hashes_under(f0, st.take(j as int).to_set())),
                self.hash_hits.spec_map() == h0.remove_keys(hashes_under(f0, st.take(j as int).to_set())),
                self.skeleton_segments.spec_map() == s0.remove_keys(st.take(j as int).to_set()),
                self.file_hits.spec_map() == fh0.remove_keys(st.take(j as int).to_set()),
                filter_in(strs(self.file_order@), fset) == filter_in(o0, fset),
                self.fingerprints == snap.fingerprints,
                self.meta_prompt == snap.meta_prompt,
                self.generation == snap.generation,
                self.cache_path == snap.cache_path,
            decreases stale.len() - j,
        {
            let k = stale[j].as_str();
            let ghost t0 = st.take(j as int).to_set();
            let ghost t1 = st.take(j + 1).to_set();
            proof {
                assert(st.take(j + 1) =~= st.take(j as int).push(k@));
                st.take(j as int).lemma_push_to_set_commute(k@);
                assert(t1 =~= t0.insert(k@));
                assert(st[j as int] == k@);
                assert(st.contains(k@));
                assert(st.to_set().contains(k@));
                assert(all.contains(k@));
                assert(!t0.contains(k@)) by {
                    if t0.contains(k@) {
                        let p = choose|p: int| 0 <= p < j && st.take(j as int)[p] == k@;
                        assert(st[p] == st[j as int]);
                    }
                }
                assert(hashes_of(self.files.spec_map(), k@) == hashes_of(f0, k@));
                assert(hashes_under(f0, t1) =~= hashes_under(f0, t0).union(hashes_of(f0, k@))) by {
                    assert forall|h: Seq<char>| hashes_under(f0, t1).contains(h) implies hashes_under(f0, t0).union(hashes_of(f0, k@)).contains(h) by {
                        let w = choose|w: Seq<char>| t1.contains(w) && #[trigger] hashes_of(f0, w).contains(h);
                        if w != k@ {
                            assert(t0.contains(w));
                        }
                    }
                    assert forall|h: Seq<char>| hashes_under(f0, t0).union(hashes_of(f0, k@)).contains(h) implies hashes_under(f0, t1).contains(h) by {
                        if hashes_of(f0, k@).contains(h) {
                            assert(t1.contains(k@));
                        } else {
                            let w = choose|w: Seq<char>| t0.contains(w) && #[trigger] hashes_of(f0, w).contains(h);
                            assert(t1.contains(w));
                        }
                    }
                }
                lemma_filter_without(strs(self.file_order@), fset, k@);
            }
            self.evict_file(k);
            proof {
                assert(self.files.spec_map() =~= f0.remove_keys(t1));
                assert(self.bodies.spec_map() =~= b0.remove_keys(hashes_under(f0, t1)));
                assert(self.hash_hits.spec_map() =~= h0.remove_keys(hashes_under(f0, t1)));
                assert(self.skeleton_segments.spec_map() =~= s0.remove_keys(t1));
                assert(self.file_hits.spec_map() =~= fh0.remove_keys(t1));
            }
            j += 1;
        }
        proof {
            assert(st.take(st.len() as int) =~= st);
            assert(st.no_duplicates());
            st.unique_seq_to_set();
        }
        let kept = retain_in(&self.file_order, found);
        self.file_order = kept;
        stale.len()
    }
}

/// The relative paths of a list of processed files.
pub open spec fn rel_paths(fs: Seq<ProcessedFile>) -> Seq<Seq<char>> {
    fs.map_values(|f: ProcessedFile| f.rel_path@)
}

/// The Rust paths among a list of processed files.
pub open spec fn rust_paths(fs: Seq<ProcessedFile>) -> Set<Seq<char>> {
    Set::new(|k: Seq<char>| is_rust_path(k) && rel_paths(fs).contains(k))
}

/// The bodies map after indexing the files in order.
pub open spec fn bodies_after(b: Map<Seq<char>, BodyEntry>, fs: Seq<ProcessedFile>) -> Map<Seq<char>, BodyEntry>
    decreases fs.len(),
{
    if fs.len() == 0 {
        b
    } else if is_rust_path(fs.last().rel_path@) {
        with_bodies(bodies_after(b, fs.drop_last()), fs.last().bodies@)
    } else {
        bodies_after(b, fs.drop_last())
    }
}

/// The skeleton segments after indexing the files in order.
pub open spec fn segments_after(s: Map<Seq<char>, String>, fs: Seq<ProcessedFile>) -> Map<Seq<char>, String>
    decreases fs.len(),
{
    if fs.len() == 0 {
        s
    } else {
        let prev = segments_after(s, fs.drop_last());
        if is_rust_path(fs.last().rel_path@) {
            match fs.last().skeleton_segment {
                Some(seg) => prev.insert(fs.last().rel_path@, seg),
                None => prev,
            }
        } else {
            prev
        }
    }
}

/// The file order after indexing the files in order.
pub open spec fn order_after(o: Seq<Seq<char>>, fs: Seq<ProcessedFile>) -> Seq<Seq<char>>
    decreases fs.len(),
{
    if fs.len() == 0 {
        o
    } else if is_rust_path(fs.last().rel_path@) {
        push_new(order_after(o, fs.drop_last()), fs.last().rel_path@)
    } else {
        order_after(o, fs.drop_last())
    }
}

/// The position of the last file at path `k`, or -1.
pub open spec fn last_at(fs: Seq<ProcessedFile>, k: Seq<char>) -> int
    decreases fs.len(),
{
    if fs.len() == 0 {
        -1
    } else if fs.last().rel_path@ == k {
        fs.len() - 1
    } else {
        last_at(fs.drop_last(), k)
    }
}

/// The index entry of a file holds what the processed file says.
pub open spec fn entry_of(e: FileEntry, f: ProcessedFile) -> bool {
    &&& e.loc == f.loc
    &&& e.byte_size == f.byte_size
    &&& e.code == f.code
    &&& strs(e.body_hashes@) == body_hashes(f.bodies@)
}

/// The files map after indexing: the last file at each Rust path gives the
/// entry, other entries are as they were.
pub open spec fn files_after(f0: Map<Seq<char>, FileEntry>, fs: Seq<ProcessedFile>, m: Map<Seq<char>, FileEntry>) -> bool {
    &&& m.dom() == f0.dom().union(rust_paths(fs))
    &&& forall|k: Seq<char>| #[trigger] m.dom().contains(k) ==> if rust_paths(fs).contains(k) {
        0 <= last_at(fs, k) < fs.len() && entry_of(m[k], fs[last_at(fs, k)])
    } else {
        m[k] == f0[k]
    }
}

proof fn lemma_last_at(fs: Seq<ProcessedFile>, k: Seq<char>)
    ensures
        -1 <= last_at(fs, k) < fs.len(),
        last_at(fs, k) >= 0 ==> fs[last_at(fs, k)].rel_path@ == k,
        rel_paths(fs).contains(k) <==> last_at(fs, k) >= 0,
    decreases fs.len(),
{
    broadcast use vstd::seq_lib::group_seq_properties;
    if fs.len() > 0 {
        lemma_last_at(fs.drop_last(), k);
        assert(rel_paths(fs) =~= rel_paths(fs.drop_last()).push(fs.last().rel_path@));
    }
}

impl DaemonCache {
    /// Bring the index in line with a scan: index every Rust file found,
    /// evict the indexed files that were not found, keep the order to found
    /// files and advance the generation. Returns the number of distinct
    /// found paths and the number of stale files evicted.
    pub fn apply_scan(&mut self, files: Vec<ProcessedFile>) -> (res: (usize, usize))
        requires
            old(self).generation < u64::MAX,
        ensures
            ({
                let fs = files@;
                let found = rel_paths(fs).to_set();
                let stale = stale_paths(old(self).files.spec_map(), found);
                &&& exists|m: Map<Seq<char>, FileEntry>|
                    files_after(old(self).files.spec_map(), fs, m) && final(self).files.spec_map() == m.remove_keys(stale)
                &&& final(self).bodies.spec_map() == bodies_after(old(self).bodies.spec_map(), fs).remove_keys(
                    hashes_under(old(self).files.spec_map(), stale),
                )
                &&& final(self).hash_hits.spec_map() == old(self).hash_hits.spec_map().remove_keys(
                    hashes_under(old(self).files.spec_map(), stale),
                )
                &&& final(self).skeleton_segments.spec_map() == segments_after(
                    old(self).skeleton_segments.spec_map(),
                    fs,
                ).remove_keys(stale)
                &&& final(self).file_hits.spec_map() == old(self).file_hits.spec_map().remove_keys(stale)
                &&& strs(final(self).file_order@) == filter_in(order_after(strs(old(self).file_order@), fs), found)
                &&& res.0 == found.len()
                &&& res.1 == stale.len()
            }),
            final(self).generation == old(self).generation + 1,
            final(self).fingerprints == old(self).fingerprints,
            final(self).meta_prompt == old(self).meta_prompt,
            final(self).cache_path == old(self).cache_path,
    {
        let ghost fs = files@;
        let ghost f0 = self.files.spec_map();
        let ghost b0 = self.bodies.spec_map();
        let ghost s0 = self.skeleton_segments.spec_map();
        let ghost o0 = strs(self.file_order@);
        let ghost snap = *self;
        let mut found: Vec<String> = Vec::new();
        let mut rest = files;
        let ghost mut done: Seq<ProcessedFile> = seq![];
        proof {
            assert(done + rest@ =~= fs);
            assert(rust_paths(done) =~= Set::<Seq<char>>::empty());
            assert(f0.dom().union(Set::empty()) =~= f0.dom());
            assert(strs(found@).to_set() =~= rel_paths(done).to_set());
        }
        while rest.len() > 0
            invariant
                done + rest@ == fs,
                self.bodies.spec_map() == bodies_after(b0, done),
                files_after(f0, done, self.files.spec_map()),
                self.skeleton_segments.spec_map() == segments_after(s0, done),
                strs(self.file_order@) == order_after(o0, done),
                strs(found@).to_set() == rel_paths(done).to_set(),
                no_dups(strs(found@)),
                self.hash_hits == snap.hash_hits,
                self.file_hits == snap.file_hits,
                self.fingerprints == snap.fingerprints,
                self.meta_prompt == snap.meta_prompt,
                self.generation == snap.generation,
                self.cache_path == snap.cache_path,
            decreases rest.len(),
        {
            let f = rest.remove(0);
            let ghost ff = f;
            let ghost prev = done;
            proof {
                done = done.push(ff);
                assert(done.drop_last() =~= prev);
                assert(done + rest@ =~= fs);
                assert(rel_paths(done) =~= rel_paths(prev).push(ff.rel_path@));
            }
            if !vec_contains_str(&found, f.rel_path.as_str()) {
                let ghost before = strs(found@);
                found.push(f.rel_path.clone());
                proof {
                    assert(strs(found@) =~= before.push(ff.rel_path@));
                    before.lemma_push_to_set_commute(ff.rel_path@);
                    rel_paths(prev).lemma_push_to_set_commute(ff.rel_path@);
                    assert forall|a: int, b: int| 0 <= a < b < strs(found@).len() implies strs(found@)[a] != strs(found@)[b] by {
                        if b == before.len() {
                            assert(before.contains(before[a]));
                        }
                    }
                }
            } else {
                proof {
                    rel_paths(prev).lemma_push_to_set_commute(ff.rel_path@);
                    assert(rel_paths(done).to_set() =~= rel_paths(prev).to_set());
                }
            }
            let ghost m_before = self.files.spec_map();
            self.ingest_file(f);
            proof {
                lemma_last_at(done, ff.rel_path@);
                if is_rust_path(ff.rel_path@) {
                    assert(rust_paths(done) =~= rust_paths(prev).insert(ff.rel_path@)) by {
                        assert forall|k: Seq<char>| rust_paths(done).contains(k) <==> rust_paths(prev).insert(ff.rel_path@).contains(k) by {
                            broadcast use vstd::seq_lib::group_seq_properties;
                        }
                    }
                    let m = self.files.spec_map();
                    assert(m.dom() =~= f0.dom().union(rust_paths(done)));
                    assert forall|k: Seq<char>| #[trigger] m.dom().contains(k) implies if rust_paths(done).contains(k) {
                        0 <= last_at(done, k) < done.len() && entry_of(m[k], done[last_at(done, k)])
                    } else {
                        m[k] == f0[k]
                    } by {
                        lemma_last_at(prev, k);
                        lemma_last_at(done, k);
                        if k != ff.rel_path@ {
                            assert(m.remove(ff.rel_path@).dom().contains(k));
                            assert(m.remove(ff.rel_path@)[k] == m_before.remove(ff.rel_path@)[k]);
                            assert(m[k] == m_before[k]);
                            assert(last_at(done, k) == last_at(prev, k));
                            if rust_paths(done).contains(k) {
                                assert(rust_paths(prev).contains(k));
                            }
                        }
                    }
                    assert(order_after(o0, done) == push_new(order_after(o0, prev), ff.rel_path@));
                } else {
                    assert(rust_paths(done) =~= rust_paths(prev)) by {
                        assert forall|k: Seq<char>| rust_paths(done).contains(k) <==> rust_paths(prev).contains(k) by {
                            broadcast use vstd::seq_lib::group_seq_properties;
                        }
                    }
                    let m = self.files.spec_map();
                    assert forall|k: Seq<char>| #[trigger] m.dom().contains(k) implies if rust_paths(done).contains(k) {
                        0 <= last_at(done, k) < done.len() && entry_of(m[k], done[last_at(done, k)])
                    } else {
                        m[k] == f0[k]
                    } by {
                        lemma_last_at(prev, k);
                        if k != ff.rel_path@ {
                            assert(last_at(done, k) == last_at(prev, k));
                        } else {
                            assert(!rust_paths(prev).contains(k));
                        }
                    }
                }
            }
        }
        proof {
            assert(done =~= fs);
        }
        let ghost after = self.files.spec_map();
        let ghost fset = strs(found@).to_set();
        proof {
            let st_after = stale_paths(after, fset);
            let st_old = stale_paths(f0, fset);
            assert forall|k: Seq<char>| rust_paths(fs).contains(k) implies fset.contains(k) by {}
            assert(st_after =~= st_old);
            assert(hashes_under(after, st_after) =~= hashes_under(f0, st_old)) by {
                assert forall|k: Seq<char>| st_old.contains(k) implies #[trigger] hashes_of(after, k) == hashes_of(f0, k) by {
                    assert(!rust_paths(fs).contains(k));
                    assert(after[k] == f0[k]);
                }
                assert forall|h: Seq<char>| hashes_under(after, st_after).contains(h) <==> hashes_under(f0, st_old).contains(h) by {
                    if hashes_under(after, st_after).contains(h) {
                        let w = choose|w: Seq<char>| st_after.contains(w) && #[trigger] hashes_of(after, w).contains(h);
                        assert(hashes_of(f0, w).contains(h));
                    }
                    if hashes_under(f0, st_old).contains(h) {
                        let w = choose|w: Seq<char>| st_old.contains(w) && #[trigger] hashes_of(f0, w).contains(h);
                        assert(hashes_of(after, w).contains(h));
                    }
                }
            }
            assert(strs(found@).no_duplicates());
            strs(found@).unique_seq_to_set();
        }
        let n_stale = self.evict_stale(&found);
        self.generation = self.generation + 1;
        (found.len(), n_stale)
    }

    /// Evict each of the given paths (the files a sync changed).
    pub fn evict_files(&mut self, paths: &Vec<String>)
        ensures
            final(self).generation == old(self).generation,
            forall|k: Seq<char>| #[trigger] strs(paths@).contains(k) ==> !final(self).files.spec_map().dom().contains(k),
            forall|k: Seq<char>| !strs(paths@).contains(k) ==> (#[trigger] final(self).files.spec_map().dom().contains(k)
                <==> old(self).files.spec_map().dom().contains(k)),
    {
        let mut i: usize = 0;
        while i < paths.len()
            invariant
                i <= paths@.len(),
                self.generation == old(self).generation,
                forall|j: int| 0 <= j < i ==> !self.files.spec_map().dom().contains(#[trigger] paths@[j]@),
                forall|k: Seq<char>| !strs(paths@).take(i as int).contains(k) ==> (#[trigger] self.files.spec_map().dom().contains(k)
                    <==> old(self).files.spec_map().dom().contains(k)),
            decreases paths.len() - i,
        {
            self.evict_file(paths[i].as_str());
            proof {
                assert(strs(paths@).take(i + 1) =~= strs(paths@).take(i as int).push(paths@[i as int]@));
                assert forall|k: Seq<char>| !strs(paths@).take(i + 1).contains(k) implies (#[trigger] self.files.spec_map().dom().contains(k)
                    <==> old(self).files.spec_map().dom().contains(k)) by {
                    broadcast use vstd::seq_lib::group_seq_properties;
                }
            }
            i += 1;
        }
        proof {
            assert(strs(paths@).take(paths@.len() as int) =~= strs(paths@));
            assert forall|k: Seq<char>| #[trigger] strs(paths@).contains(k) implies !self.files.spec_map().dom().contains(k) by {
                let j = choose|j: int| 0 <= j < strs(paths@).len() && strs(paths@)[j] == k;
                assert(paths@[j]@ == k);
            }
        }
    }
}

/// After a reindex, every indexed file and every file in the order was found
/// by the scan, and every Rust file the scan found is indexed.
pub proof fn lemma_reindex_found_only(
    f0: Map<Seq<char>, FileEntry>,
    fs: Seq<ProcessedFile>,
    m: Map<Seq<char>, FileEntry>,
    order0: Seq<Seq<char>>,
)
    requires
        files_after(f0, fs, m),
    ensures
        ({
            let found = rel_paths(fs).to_set();
            let indexed = m.remove_keys(stale_paths(f0, found));
            &&& forall|k: Seq<char>| #[trigger] indexed.dom().contains(k) ==> found.contains(k)
            &&& forall|k: Seq<char>| #[trigger] rust_paths(fs).contains(k) ==> indexed.dom().contains(k)
            &&& forall|k: Seq<char>| #[trigger] filter_in(order_after(order0, fs), found).contains(k) ==> found.contains(k)
        }),
{
    let found = rel_paths(fs).to_set();
    lemma_filter_in(order_after(order0, fs), found);
    assert forall|k: Seq<char>| #[trigger] rust_paths(fs).contains(k) implies found.contains(k) by {}
}

// ───────────────────────── what a scan stores ─────────────────────────

/// The bodies of the Rust files among `fs`, in order.
pub open spec fn rust_bodies(fs: Seq<ProcessedFile>) -> Seq<(String, crate::cache::BodyMeta, String)>
    decreases fs.len(),
{
    if fs.len() == 0 {
        seq![]
    } else if is_rust_path(fs.last().rel_path@) {
        rust_bodies(fs.drop_last()) + fs.last().bodies@
    } else {
        rust_bodies(fs.drop_last())
    }
}

proof fn lemma_with_bodies_concat(
    m: Map<Seq<char>, BodyEntry>,
    a: Seq<(String, crate::cache::BodyMeta, String)>,
    b: Seq<(String, crate::cache::BodyMeta, String)>,
)
    ensures
        with_bodies(m, a + b) == with_bodies(with_bodies(m, a), b),
    decreases b.len(),
{
    if b.len() == 0 {
        assert(a + b =~= a);
    } else {
        lemma_with_bodies_concat(m, a, b.drop_last());
        assert((a + b).drop_last() =~= a + b.drop_last());
        assert((a + b).last() == b.last());
    }
}

proof fn lemma_bodies_after_flat(b: Map<Seq<char>, BodyEntry>, fs: Seq<ProcessedFile>)
    ensures
        bodies_after(b, fs) == with_bodies(b, rust_bodies(fs)),
    decreases fs.len(),
{
    if fs.len() > 0 {
        lemma_bodies_after_flat(b, fs.drop_last());
        if is_rust_path(fs.last().rel_path@) {
            lemma_with_bodies_concat(b, rust_bodies(fs.drop_last()), fs.last().bodies@);
        }
    } else {
        assert(with_bodies(b, seq![]) == b);
    }
}

/// Writing bodies in order leaves under each hash the last body written
/// under it.
pub proof fn lemma_last_body_wins(
    m: Map<Seq<char>, BodyEntry>,
    bs: Seq<(String, crate::cache::BodyMeta, String)>,
    k: int,
)
    requires
        0 <= k < bs.len(),
        forall|j: int| k < j < bs.len() ==> (#[trigger] bs[j]).0@ != bs[k].0@,
    ensures
        with_bodies(m, bs).dom().contains(bs[k].0@),
        with_bodies(m, bs)[bs[k].0@] == body_entry(bs[k]),
    decreases bs.len(),
{
    if k < bs.len() - 1 {
        let d = bs.drop_last();
        assert forall|j: int| k < j < d.len() implies (#[trigger] d[j]).0@ != d[k].0@ by {
            assert(d[j] == bs[j]);
        }
        lemma_last_body_wins(m, d, k);
        assert(bs.last() == bs[bs.len() - 1]);
    }
}

/// After a reindex, the hash of a body the scan produced holds the last
/// body the scan produced under it, unless the hash belonged to a file that
/// went stale.
pub proof fn lemma_scan_stores_bodies(
    b0: Map<Seq<char>, BodyEntry>,
    f0: Map<Seq<char>, FileEntry>,
    fs: Seq<ProcessedFile>,
    k: int,
)
    requires
        0 <= k < rust_bodies(fs).len(),
        forall|j: int| k < j < rust_bodies(fs).len() ==> (#[trigger] rust_bodies(fs)[j]).0@ != rust_bodies(fs)[k].0@,
        !hashes_under(f0, stale_paths(f0, rel_paths(fs).to_set())).contains(rust_bodies(fs)[k].0@),
    ensures
        ({
            let stored = bodies_after(b0, fs).remove_keys(hashes_under(f0, stale_paths(f0, rel_paths(fs).to_set())));
            let t = rust_bodies(fs)[k];
            &&& stored.dom().contains(t.0@)
            &&& stored[t.0@] == body_entry(t)
        }),
{
    lemma_bodies_after_flat(b0, fs);
    lemma_last_body_wins(b0, rust_bodies(fs), k);
}

} // verus!
