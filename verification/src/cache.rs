//! The daemon's index: extracted bodies, per-file entries, skeleton
//! segments and the order in which files are presented.
use vstd::prelude::*;
use crate::fingerprint::FileFingerprint;
use crate::strmap::StrMap;
use crate::text::{
    append, append_str, chars_of, decimal, decimal_vec, ends_with, ends_with_str, join,
    join_with, starts_with, string_of, slice_vec, vec_starts_with, views,
};
use crate::strip_generic::str_equals;

verus! {

/// The instructions appended to a skeleton when no custom prompt is set.
pub const DEFAULT_META_PROMPT: &'static str = "\n===\n\
     Your process:\n\
     Analyze the feature requirements and determine which files, structs, traits, \
     and functions you need to see the full implementation of.\n\
     Prefer asking for whole files rather than individual hashes.\n\
     If a file is too large, ask for specific impl blocks or struct definitions by their HASH.\n\
     List exactly what you need in a clear, numbered list. For each item, include:\n\
     - The file path as shown in the skeleton header (e.g., src/main.rs).\n\
     - If you need a specific block, include its HASH (e.g., /* HASH:1a12fb93 [183 LOC] */).\n\
     - A brief reason (e.g., “to know the fields of AppState”, “to see how sync is implemented”).\n\
     \n\
     please ASKing using 'cli' like this in single for all\n\
     cli <path1> <path2> hash1 hash2         → fetch all in once\n\
     Do not guess or stub missing implementations.\n\
     Do not proceed until you have received all requested code.\n\
     ===";

/// The first line of a skeleton response.
pub const SKELETON_HEADER: &'static str = "// === SKELETON MODE (COMPRESSED) ===";

/// The character sequences of a list of strings.
pub open spec fn strs(v: Seq<String>) -> Seq<Seq<char>> {
    v.map_values(|s: String| s@)
}

/// `repo` followed by a slash.
pub open spec fn dir_prefix(repo: Seq<char>) -> Seq<char> {
    repo.push('/')
}

/// Strip the first repo id (from position `i` on) that prefixes `path`.
pub open spec fn strip_repo_prefix_from(path: Seq<char>, ids: Seq<Seq<char>>, i: int) -> Seq<char>
    decreases ids.len() - i,
{
    if i < 0 || i >= ids.len() {
        path
    } else if starts_with(path, dir_prefix(ids[i])) {
        path.skip(ids[i].len() + 1int)
    } else {
        strip_repo_prefix_from(path, ids, i + 1)
    }
}

/// `strip_repo_prefix` on views.
pub open spec fn spec_strip_repo_prefix(path: Seq<char>, ids: Seq<Seq<char>>) -> Seq<char> {
    strip_repo_prefix_from(path, ids, 0)
}

/// Strips a known repo-id prefix from a path (e.g., "grab/src/main.rs" → "src/main.rs").
/// If no known repo prefix matches, returns the path unchanged.
pub fn strip_repo_prefix(path: &str, repo_ids: &[String]) -> (res: String)
    ensures
        res@ == spec_strip_repo_prefix(path@, strs(repo_ids@)),
{
    let ghost ids = strs(repo_ids@);
    let pv = chars_of(path);
    let mut i: usize = 0;
    while i < repo_ids.len()
        invariant
            i <= repo_ids@.len(),
            ids == strs(repo_ids@),
            pv@ == path@,
            strip_repo_prefix_from(path@, ids, 0) == strip_repo_prefix_from(path@, ids, i as int),
        decreases repo_ids.len() - i,
    {
        let mut prefix = chars_of(repo_ids[i].as_str());
        prefix.push('/');
        assert(prefix@ == dir_prefix(ids[i as int]));
        if vec_starts_with(&pv, &prefix) {
            let rest = slice_vec(&pv, prefix.len(), pv.len());
            assert(rest@ =~= path@.skip(ids[i as int].len() + 1int));
            return string_of(&rest);
        }
        i += 1;
    }
    string_of(&pv)
}

#[derive(Clone, Debug)]
pub struct BodyMeta {
    pub filepath: String,
    pub loc: usize,
    pub byte_size: usize,
}

#[derive(Clone, Debug)]
pub struct BodyEntry {
    pub meta: BodyMeta,
    pub body: String,
}

#[derive(Clone, Debug)]
pub struct FileEntry {
    pub loc: usize,
    pub byte_size: usize,
    pub body_hashes: Vec<String>,
    pub code: String,
}

/// The whole index the daemon serves from.
pub struct DaemonCache {
    pub bodies: StrMap<BodyEntry>,
    pub files: StrMap<FileEntry>,
    pub skeleton_segments: StrMap<String>,
    pub file_order: Vec<String>,
    pub fingerprints: StrMap<FileFingerprint>,
    pub meta_prompt: String,
    pub generation: u64,
    pub file_hits: StrMap<u64>,
    pub hash_hits: StrMap<u64>,
    pub cache_path: String,
}

/// `s` without the occurrences of `x`, in order (`retain(|p| p != x)`).
pub open spec fn without(s: Seq<Seq<char>>, x: Seq<char>) -> Seq<Seq<char>>
    decreases s.len(),
{
    if s.len() == 0 {
        seq![]
    } else if s.last() == x {
        without(s.drop_last(), x)
    } else {
        without(s.drop_last(), x).push(s.last())
    }
}

/// The body hashes that go with the file at `path`, if it is indexed.
pub open spec fn hashes_of(files: Map<Seq<char>, FileEntry>, path: Seq<char>) -> Set<Seq<char>> {
    if files.dom().contains(path) {
        strs(files[path].body_hashes@).to_set()
    } else {
        Set::empty()
    }
}

impl Default for DaemonCache {
    fn default() -> (res: Self)
        ensures
            res.bodies.spec_map() == Map::<Seq<char>, BodyEntry>::empty(),
            res.files.spec_map() == Map::<Seq<char>, FileEntry>::empty(),
            res.skeleton_segments.spec_map() == Map::<Seq<char>, String>::empty(),
            res.file_order@.len() == 0,
            res.fingerprints.spec_map() == Map::<Seq<char>, FileFingerprint>::empty(),
            res.meta_prompt@.len() == 0,
            res.generation == 0,
            res.file_hits.spec_map() == Map::<Seq<char>, u64>::empty(),
            res.hash_hits.spec_map() == Map::<Seq<char>, u64>::empty(),
            res.cache_path@.len() == 0,
    {
        DaemonCache {
            bodies: StrMap::new(),
            files: StrMap::new(),
            skeleton_segments: StrMap::new(),
            file_order: Vec::new(),
            fingerprints: StrMap::new(),
            meta_prompt: String::new(),
            generation: 0,
            file_hits: StrMap::new(),
            hash_hits: StrMap::new(),
            cache_path: String::new(),
        }
    }
}

/// Copy of the list with every entry equal to `x` left out.
fn retain_other(v: &Vec<String>, x: &str) -> (res: Vec<String>)
    ensures
        strs(res@) == without(strs(v@), x@),
{
    let mut res: Vec<String> = Vec::new();
    let mut i: usize = 0;
    while i < v.len()
        invariant
            i <= v@.len(),
            strs(res@) == without(strs(v@).take(i as int), x@),
        decreases v.len() - i,
    {
        proof {
            let t = strs(v@).take(i + 1);
            assert(t.drop_last() =~= strs(v@).take(i as int));
            assert(t.last() == v@[i as int]@);
        }
        if !str_equals(v[i].as_str(), x) {
            let ghost before = strs(res@);
            res.push(v[i].clone());
            assert(strs(res@) =~= before.push(v@[i as int]@));
        }
        i += 1;
    }
    assert(strs(v@).take(v@.len() as int) =~= strs(v@));
    res
}

impl DaemonCache {
    /// Drop a file from the index: its entry, its bodies and their hit
    /// counts, its skeleton segment, its place in the order and its hits.
    pub fn evict_file(&mut self, path: &str)
        ensures
            final(self).files.spec_map() == old(self).files.spec_map().remove(path@),
            final(self).bodies.spec_map() == old(self).bodies.spec_map().remove_keys(
                hashes_of(old(self).files.spec_map(), path@),
            ),
            final(self).hash_hits.spec_map() == old(self).hash_hits.spec_map().remove_keys(
                hashes_of(old(self).files.spec_map(), path@),
            ),
            final(self).skeleton_segments.spec_map() == old(self).skeleton_segments.spec_map().remove(path@),
            strs(final(self).file_order@) == without(strs(old(self).file_order@), path@),
            final(self).file_hits.spec_map() == old(self).file_hits.spec_map().remove(path@),
            final(self).fingerprints == old(self).fingerprints,
            final(self).meta_prompt == old(self).meta_prompt,
            final(self).generation == old(self).generation,
            final(self).cache_path == old(self).cache_path,
    {
        let ghost files0 = self.files.spec_map();
        let ghost bodies0 = self.bodies.spec_map();
        let ghost hits0 = self.hash_hits.spec_map();
        let removed = self.files.remove(path);
        let ghost snap = *self;
        match removed {
            Some(old_entry) => {
                let ghost hs = strs(old_entry.body_hashes@);
                let mut i: usize = 0;
                assert(hs.take(0).to_set() =~= Set::<Seq<char>>::empty());
                assert(bodies0.remove_keys(Set::empty()) =~= bodies0);
                assert(hits0.remove_keys(Set::empty()) =~= hits0);
                while i < old_entry.body_hashes.len()
                    invariant
                        i <= old_entry.body_hashes@.len(),
                        hs == strs(old_entry.body_hashes@),
                        self.bodies.spec_map() == bodies0.remove_keys(hs.take(i as int).to_set()),
                        self.hash_hits.spec_map() == hits0.remove_keys(hs.take(i as int).to_set()),
                        self.files == snap.files,
                        self.skeleton_segments == snap.skeleton_segments,
                        self.file_order == snap.file_order,
                        self.fingerprints == snap.fingerprints,
                        self.meta_prompt == snap.meta_prompt,
                        self.generation == snap.generation,
                        self.file_hits == snap.file_hits,
                        self.cache_path == snap.cache_path,
                    decreases old_entry.body_hashes.len() - i,
                {
                    let h = old_entry.body_hashes[i].as_str();
                    let _ = self.bodies.remove(h);
                    let _ = self.hash_hits.remove(h);
                    proof {
                        let s0 = hs.take(i as int).to_set();
                        let s1 = hs.take(i + 1).to_set();
                        assert(hs.take(i + 1) =~= hs.take(i as int).push(h@));
                        hs.take(i as int).lemma_push_to_set_commute(h@);
                        assert(s1 =~= s0.insert(h@));
                        assert(bodies0.remove_keys(s0).remove(h@) =~= bodies0.remove_keys(s1));
                        assert(hits0.remove_keys(s0).remove(h@) =~= hits0.remove_keys(s1));
                    }
                    i += 1;
                }
                assert(hs.take(hs.len() as int) =~= hs);
                assert(hashes_of(files0, path@) == hs.to_set());
            },
            None => {
                assert(hashes_of(files0, path@) =~= Set::<Seq<char>>::empty());
                assert(bodies0.remove_keys(Set::empty()) =~= bodies0);
                assert(hits0.remove_keys(Set::empty()) =~= hits0);
            },
        }
        let _ = self.skeleton_segments.remove(path);
        let kept = retain_other(&self.file_order, path);
        self.file_order = kept;
        let _ = self.file_hits.remove(path);
    }
}

/// The header line that introduces a file in the skeleton.
pub open spec fn file_header(display: Seq<char>, loc: nat, bodies: nat) -> Seq<char> {
    "//--+ file:///"@ + display + " ["@ + decimal(loc) + " LOC | "@ + decimal(bodies) + " bodies]\n"@
}

/// Does a path pass the repo filter and name a Rust file?
pub open spec fn selected(fp: Seq<char>, filter: Option<Seq<char>>) -> bool {
    &&& match filter {
        Some(r) => starts_with(fp, dir_prefix(r)),
        None => true,
    }
    &&& ends_with(fp, ".rs"@)
}

/// An optional string slice by its view.
pub open spec fn opt_view(o: Option<&str>) -> Option<Seq<char>> {
    match o {
        Some(r) => Some(r@),
        None => None,
    }
}

/// The skeleton parts of the files in `order`, one per selected file that
/// has a segment.
pub open spec fn skeleton_parts(
    order: Seq<Seq<char>>,
    filter: Option<Seq<char>>,
    segs: Map<Seq<char>, String>,
    files: Map<Seq<char>, FileEntry>,
    ids: Seq<Seq<char>>,
) -> Seq<Seq<char>>
    decreases order.len(),
{
    if order.len() == 0 {
        seq![]
    } else {
        let prev = skeleton_parts(order.drop_last(), filter, segs, files, ids);
        let fp = order.last();
        if selected(fp, filter) && segs.dom().contains(fp) {
            let loc: nat = if files.dom().contains(fp) { files[fp].loc as nat } else { 0 };
            let nb: nat = if files.dom().contains(fp) { files[fp].body_hashes@.len() } else { 0 };
            prev.push(file_header(spec_strip_repo_prefix(fp, ids), loc, nb) + segs[fp]@)
        } else {
            prev
        }
    }
}

impl DaemonCache {
    /// The skeleton of the selected files, in file order, joined by newlines.
    pub open spec fn spec_skeleton(self, filter: Option<Seq<char>>, ids: Seq<Seq<char>>) -> Seq<char> {
        join(
            skeleton_parts(
                strs(self.file_order@),
                filter,
                self.skeleton_segments.spec_map(),
                self.files.spec_map(),
                ids,
            ),
            seq!['\n'],
        )
    }

    /// The prompt that ends a skeleton: the custom one, or the default.
    pub open spec fn spec_meta_prompt(self) -> Seq<char> {
        if self.meta_prompt@.len() > 0 {
            self.meta_prompt@
        } else {
            DEFAULT_META_PROMPT@
        }
    }

    /// The whole skeleton response for a `repo` query parameter.
    pub open spec fn spec_full_skeleton(self, repo_param: Seq<char>, ids: Seq<Seq<char>>) -> Seq<char> {
        let filter = if repo_param == "all"@ { None } else { Some(repo_param) };
        SKELETON_HEADER@ + self.spec_skeleton(filter, ids) + self.spec_meta_prompt()
    }

    /// The skeleton of the indexed Rust files, restricted to one repo when a
    /// filter is given.
    pub fn assemble_skeleton_for_repos(&self, repo_filter: Option<&str>, repo_ids: &[String]) -> (res: String)
        ensures
            res@ == self.spec_skeleton(opt_view(repo_filter), strs(repo_ids@)),
    {
        let ghost filter = opt_view(repo_filter);
        let ghost ids = strs(repo_ids@);
        let ghost order = strs(self.file_order@);
        let mut parts: Vec<Vec<char>> = Vec::new();
        let mut i: usize = 0;
        while i < self.file_order.len()
            invariant
                i <= self.file_order@.len(),
                order == strs(self.file_order@),
                filter == opt_view(repo_filter),
                ids == strs(repo_ids@),
                views(parts@) == skeleton_parts(
                    order.take(i as int),
                    filter,
                    self.skeleton_segments.spec_map(),
                    self.files.spec_map(),
                    ids,
                ),
            decreases self.file_order.len() - i,
        {
            let filepath = &self.file_order[i];
            let fpv = chars_of(filepath.as_str());
            proof {
                let t = order.take(i + 1);
                assert(t.drop_last() =~= order.take(i as int));
                assert(t.last() == fpv@);
            }
            let pass_filter = match repo_filter {
                Some(repo) => {
                    let mut prefix = chars_of(repo);
                    prefix.push('/');
                    vec_starts_with(&fpv, &prefix)
                },
                None => true,
            };
            if pass_filter && ends_with_str(&fpv, ".rs") {
                match self.skeleton_segments.get(filepath.as_str()) {
                    Some(segment) => {
                        let (loc, body_count) = match self.files.get(filepath.as_str()) {
                            Some(e) => (e.loc, e.body_hashes.len()),
                            None => (0, 0),
                        };
                        let display_path = strip_repo_prefix(filepath.as_str(), repo_ids);
                        let mut part: Vec<char> = Vec::new();
                        append_str(&mut part, "//--+ file:///");
                        append_str(&mut part, display_path.as_str());
                        append_str(&mut part, " [");
                        append(&mut part, &decimal_vec(loc as u128));
                        append_str(&mut part, " LOC | ");
                        append(&mut part, &decimal_vec(body_count as u128));
                        append_str(&mut part, " bodies]\n");
                        append_str(&mut part, segment.as_str());
                        let ghost before = views(parts@);
                        parts.push(part);
                        assert(views(parts@) =~= before.push(part@));
                    },
                    None => {},
                }
            }
            i += 1;
        }
        assert(order.take(order.len() as int) =~= order);
        let nl = vec!['\n'];
        assert(nl@ =~= seq!['\n']);
        let joined = join_with(&parts, &nl);
        string_of(&joined)
    }

    /// Returns the custom `meta_prompt` if configured, or falls back to the static default.
    pub fn effective_meta_prompt(&self) -> (res: String)
        ensures
            res@ == self.spec_meta_prompt(),
    {
        if !self.meta_prompt.as_str().is_empty() {
            self.meta_prompt.clone()
        } else {
            string_of(&chars_of(DEFAULT_META_PROMPT))
        }
    }

    /// The skeleton response: the header, the skeleton of the requested repo
    /// (`"all"` for every repo) and the meta prompt.
    pub fn assemble_full_skeleton_response(&self, _daemon_port: u16, repo_param: &str, repo_ids: &[String]) -> (res: String)
        ensures
            res@ == self.spec_full_skeleton(repo_param@, strs(repo_ids@)),
    {
        let is_all = str_equals(repo_param, "all");
        let repo_filter = if is_all { None } else { Some(repo_param) };
        let skeleton = self.assemble_skeleton_for_repos(repo_filter, repo_ids);
        let meta_prompt = self.effective_meta_prompt();
        let mut out: Vec<char> = Vec::new();
        append_str(&mut out, SKELETON_HEADER);
        append_str(&mut out, skeleton.as_str());
        append_str(&mut out, meta_prompt.as_str());
        string_of(&out)
    }
}

/// Facts about `without`: `x` is gone and every other entry stays.
pub proof fn lemma_without(s: Seq<Seq<char>>, x: Seq<char>)
    ensures
        !without(s, x).contains(x),
        forall|y: Seq<char>| y != x ==> (#[trigger] without(s, x).contains(y) <==> s.contains(y)),
        without(without(s, x), x) == without(s, x),
    decreases s.len(),
{
    broadcast use vstd::seq_lib::group_seq_properties;
    if s.len() > 0 {
        let d = s.drop_last();
        lemma_without(d, x);
        assert(s =~= d.push(s.last()));
        if s.last() != x {
            assert(without(s, x).drop_last() =~= without(d, x));
            assert(without(without(s, x), x) == without(without(d, x), x).push(s.last()));
        }
    }
}

/// After a file is evicted it appears nowhere in the index, and evicting it
/// a second time changes nothing.
pub proof fn lemma_evict_file_removes_path(
    files: Map<Seq<char>, FileEntry>,
    segs: Map<Seq<char>, String>,
    hits: Map<Seq<char>, u64>,
    order: Seq<Seq<char>>,
    bodies: Map<Seq<char>, BodyEntry>,
    path: Seq<char>,
)
    ensures
        !files.remove(path).dom().contains(path),
        !segs.remove(path).dom().contains(path),
        !hits.remove(path).dom().contains(path),
        !without(order, path).contains(path),
        forall|h: Seq<char>| #[trigger] hashes_of(files, path).contains(h) ==> !bodies.remove_keys(hashes_of(files, path)).dom().contains(h),
        files.remove(path).remove(path) == files.remove(path),
        without(without(order, path), path) == without(order, path),
        hashes_of(files.remove(path), path) == Set::<Seq<char>>::empty(),
        bodies.remove_keys(hashes_of(files, path)).remove_keys(hashes_of(files.remove(path), path))
            == bodies.remove_keys(hashes_of(files, path)),
{
    lemma_without(order, path);
    assert(files.remove(path).remove(path) =~= files.remove(path));
    assert(hashes_of(files.remove(path), path) =~= Set::<Seq<char>>::empty());
    let b = bodies.remove_keys(hashes_of(files, path));
    assert(b.remove_keys(Set::<Seq<char>>::empty()) =~= b);
}

/// The skeleton part of one file.
pub open spec fn part_of(
    fp: Seq<char>,
    segs: Map<Seq<char>, String>,
    files: Map<Seq<char>, FileEntry>,
    ids: Seq<Seq<char>>,
) -> Seq<char> {
    let loc: nat = if files.dom().contains(fp) { files[fp].loc as nat } else { 0 };
    let nb: nat = if files.dom().contains(fp) { files[fp].body_hashes@.len() } else { 0 };
    file_header(spec_strip_repo_prefix(fp, ids), loc, nb) + segs[fp]@
}

/// Every part of a skeleton is the part of a file in the order that passes
/// the filter (for a repo filter: a Rust file of that repo) and has a
/// segment; and every such file contributes its part.
pub proof fn lemma_skeleton_parts_selected(
    order: Seq<Seq<char>>,
    filter: Option<Seq<char>>,
    segs: Map<Seq<char>, String>,
    files: Map<Seq<char>, FileEntry>,
    ids: Seq<Seq<char>>,
)
    ensures
        forall|k: int| #![trigger skeleton_parts(order, filter, segs, files, ids)[k]]
            0 <= k < skeleton_parts(order, filter, segs, files, ids).len() ==> exists|j: int|
            #![trigger order[j]]
            0 <= j < order.len() && selected(order[j], filter) && segs.dom().contains(order[j])
                && skeleton_parts(order, filter, segs, files, ids)[k] == part_of(order[j], segs, files, ids),
        forall|j: int| 0 <= j < order.len() && selected(#[trigger] order[j], filter) && segs.dom().contains(order[j])
            ==> skeleton_parts(order, filter, segs, files, ids).contains(part_of(order[j], segs, files, ids)),
    decreases order.len(),
{
    broadcast use vstd::seq_lib::group_seq_properties;
    if order.len() > 0 {
        let d = order.drop_last();
        lemma_skeleton_parts_selected(d, filter, segs, files, ids);
        let p = skeleton_parts(d, filter, segs, files, ids);
        let q = skeleton_parts(order, filter, segs, files, ids);
        assert forall|k: int| #![trigger q[k]] 0 <= k < q.len() implies exists|j: int|
            #![trigger order[j]]
            0 <= j < order.len() && selected(order[j], filter) && segs.dom().contains(order[j])
                && q[k] == part_of(order[j], segs, files, ids) by {
            if k < p.len() {
                assert(q[k] == p[k]);
                let j = choose|j: int| 0 <= j < d.len() && selected(#[trigger] d[j], filter) && segs.dom().contains(d[j])
                    && p[k] == part_of(d[j], segs, files, ids);
                assert(order[j] == d[j]);
            } else {
                assert(order[order.len() - 1] == order.last());
            }
        }
        assert forall|j: int| 0 <= j < order.len() && selected(#[trigger] order[j], filter) && segs.dom().contains(order[j])
            implies q.contains(part_of(order[j], segs, files, ids)) by {
            if j < d.len() {
                assert(d[j] == order[j]);
                assert(p.contains(part_of(d[j], segs, files, ids)));
            } else {
                assert(q.last() == part_of(order[j], segs, files, ids));
            }
        }
    }
}

/// A display path is the path itself when no repo id prefixes it, and
/// otherwise what follows the first repo id that does.
pub proof fn lemma_strip_repo_prefix(path: Seq<char>, ids: Seq<Seq<char>>, i: int)
    requires
        0 <= i,
    ensures
        (forall|j: int| i <= j < ids.len() ==> !starts_with(path, dir_prefix(#[trigger] ids[j])))
            ==> strip_repo_prefix_from(path, ids, i) == path,
        strip_repo_prefix_from(path, ids, i) == path || exists|j: int|
            i <= j < ids.len() && starts_with(path, dir_prefix(#[trigger] ids[j]))
                && strip_repo_prefix_from(path, ids, i) == path.skip(ids[j].len() + 1int),
    decreases ids.len() - i,
{
    if i < ids.len() {
        lemma_strip_repo_prefix(path, ids, i + 1);
    }
}

} // verus!
