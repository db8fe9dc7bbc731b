//! The registry of mirrored repositories, keyed by repo id.
use vstd::prelude::*;
use crate::strmap::StrMap;
use crate::strip_generic::str_equals;
use crate::cache::strs;
use crate::text::{append_str, chars_of, string_of};

verus! {

#[derive(Clone, Debug)]
pub struct RepoEntry {
    /// Short name used as subdirectory in central dir (e.g., "core", "api")
    pub id: String,
    /// Absolute path to the real repo on disk
    pub source_path: String,
    /// Whether this repo is actively synced
    pub active: bool,
    /// Last successful sync timestamp (unix epoch seconds)
    pub last_sync: Option<u64>,
    /// Git branch if detected
    pub git_branch: Option<String>,
    /// Number of files at last sync
    pub file_count: Option<usize>,
}

/// All registered repos and the directory that holds their mirrors.
pub struct RepoRegistry {
    pub repos: StrMap<RepoEntry>,
    /// Absolute path to central directory
    pub central_dir: String,
}

/// A freshly registered entry: active, never synced.
pub open spec fn is_fresh_entry(e: RepoEntry, id: Seq<char>, source_path: Seq<char>) -> bool {
    &&& e.id@ == id
    &&& e.source_path@ == source_path
    &&& e.active
    &&& e.last_sync is None
    &&& e.git_branch is None
    &&& e.file_count is None
}

/// The keys of a list of entries, in order.
pub open spec fn entry_keys<V>(s: Seq<(String, V)>) -> Seq<Seq<char>> {
    s.map_values(|e: (String, V)| e.0@)
}

/// Does entry `j` record the path `source` (compared by components) under
/// an id other than `id`?
pub open spec fn conflicts_at(s: Seq<(String, RepoEntry)>, j: int, source: Seq<char>, id: Seq<char>) -> bool {
    crate::paths::path_key(s[j].1.source_path@) == crate::paths::path_key(source) && s[j].0@ != id
}

impl RepoRegistry {
    /// An empty registry for the given central directory.
    pub fn new(central_dir: String) -> (res: Self)
        ensures
            res.repos.spec_map() == Map::<Seq<char>, RepoEntry>::empty(),
            res.central_dir@ == central_dir@,
    {
        RepoRegistry { repos: StrMap::new(), central_dir }
    }

    /// Register a new repo, or update the source path of an existing one.
    /// Returns true if this was a new registration.
    pub fn add_repo(&mut self, id: &str, source_path: String) -> (is_new: bool)
        ensures
            is_new == !old(self).repos.spec_map().dom().contains(id@),
            final(self).repos.spec_map().dom() == old(self).repos.spec_map().dom().insert(id@),
            final(self).repos.spec_map().remove(id@) == old(self).repos.spec_map().remove(id@),
            is_fresh_entry(final(self).repos.spec_map()[id@], id@, source_path@),
            final(self).central_dir == old(self).central_dir,
    {
        let is_new = !self.repos.contains_key(id);
        let ghost sp = source_path@;
        let entry = RepoEntry {
            id: id.to_string(),
            source_path,
            active: true,
            last_sync: None,
            git_branch: None,
            file_count: None,
        };
        let ghost m0 = self.repos.spec_map();
        self.repos.insert(id.to_string(), entry);
        assert(self.repos.spec_map().remove(id@) =~= m0.remove(id@));
        is_new
    }

    /// Unregister a repo.
    pub fn remove_repo(&mut self, id: &str)
        ensures
            final(self).repos.spec_map() == old(self).repos.spec_map().remove(id@),
            final(self).central_dir == old(self).central_dir,
    {
        let _ = self.repos.remove(id);
    }

    /// The registered ids, in the registry's order.
    pub fn repo_ids(&self) -> (res: Vec<String>)
        ensures
            strs(res@) == entry_keys(self.repos.entry_seq()),
    {
        let n = self.repos.len();
        let mut res: Vec<String> = Vec::new();
        let mut i: usize = 0;
        while i < n
            invariant
                i <= n,
                n == self.repos.entry_seq().len(),
                strs(res@) == entry_keys(self.repos.entry_seq()).take(i as int),
            decreases n - i,
        {
            let (k, _) = self.repos.entry(i);
            let kc = k.clone();
            let ghost before = res@;
            res.push(kc);
            proof {
                let ks = entry_keys(self.repos.entry_seq());
                assert(res@ == before.push(kc));
                assert(ks[i as int] == self.repos.entry_seq()[i as int].0@);
                assert(strs(res@) =~= strs(before).push(kc@));
                assert(ks.take(i + 1) =~= ks.take(i as int).push(ks[i as int]));
            }
            i += 1;
        }
        assert(entry_keys(self.repos.entry_seq()).take(n as int) =~= entry_keys(self.repos.entry_seq()));
        res
    }

    /// The id of another repo already registered with this source path, if
    /// any (the first in the registry's order).
    pub fn find_source_conflict(&self, source_path: &str, id: &str) -> (res: Option<String>)
        ensures
            match res {
                Some(other) => exists|j: int|
                    0 <= j < self.repos.entry_seq().len()
                    && conflicts_at(self.repos.entry_seq(), j, source_path@, id@)
                    && self.repos.entry_seq()[j].0@ == other@
                    && forall|k: int| 0 <= k < j ==> !conflicts_at(self.repos.entry_seq(), k, source_path@, id@),
                None => forall|j: int| 0 <= j < self.repos.entry_seq().len()
                    ==> !conflicts_at(self.repos.entry_seq(), j, source_path@, id@),
            },
    {
        let n = self.repos.len();
        let mut i: usize = 0;
        while i < n
            invariant
                i <= n,
                n == self.repos.entry_seq().len(),
                forall|k: int| 0 <= k < i ==> !conflicts_at(self.repos.entry_seq(), k, source_path@, id@),
            decreases n - i,
        {
            let (k, e) = self.repos.entry(i);
            if crate::paths::same_path(e.source_path.as_str(), source_path) && !str_equals(k.as_str(), id) {
                let other = k.clone();
                assert(conflicts_at(self.repos.entry_seq(), i as int, source_path@, id@));
                assert(self.repos.entry_seq()[i as int].0@ == other@);
                return Some(other);
            }
            i += 1;
        }
        None
    }

    /// Why `id` cannot be synced on its own: it is not registered. A
    /// registered repo is synced whatever its mode, so it gets `None`.
    pub fn sync_refusal(&self, id: &str) -> (res: Option<String>)
        ensures
            !self.repos.spec_map().dom().contains(id@) ==> (res matches Some(m) && m@ == "Repo '"@ + id@ + "' not found"@),
            self.repos.spec_map().dom().contains(id@) ==> res is None,
    {
        if self.repos.contains_key(id) {
            None
        } else {
            let mut v = chars_of("Repo '");
            append_str(&mut v, id);
            append_str(&mut v, "' not found");
            Some(string_of(&v))
        }
    }

    /// Record the outcome of a sync of `id`: when it happened, how many
    /// files the source held and which branch it is on. Unknown ids are
    /// left alone.
    pub fn record_sync(&mut self, id: &str, now: u64, file_count: usize, git_branch: Option<String>)
        ensures
            final(self).repos.spec_map().dom() == old(self).repos.spec_map().dom(),
            final(self).repos.spec_map().remove(id@) == old(self).repos.spec_map().remove(id@),
            old(self).repos.spec_map().dom().contains(id@) ==> {
                let e0 = old(self).repos.spec_map()[id@];
                let e1 = final(self).repos.spec_map()[id@];
                &&& e1.id == e0.id
                &&& e1.source_path == e0.source_path
                &&& e1.active == e0.active
                &&& e1.last_sync == Some(now)
                &&& e1.file_count == Some(file_count)
                &&& e1.git_branch == git_branch
            },
            final(self).central_dir == old(self).central_dir,
    {
        let ghost m0 = self.repos.spec_map();
        match self.repos.remove(id) {
            Some(e) => {
                let updated = RepoEntry {
                    id: e.id,
                    source_path: e.source_path,
                    active: e.active,
                    last_sync: Some(now),
                    git_branch,
                    file_count: Some(file_count),
                };
                self.repos.insert(id.to_string(), updated);
                assert(self.repos.spec_map().dom() =~= m0.dom());
                assert(self.repos.spec_map().remove(id@) =~= m0.remove(id@));
            },
            None => {
                assert(self.repos.spec_map() =~= m0);
            },
        }
    }
}

/// Registering a new id and then removing it gives back the registry as it
/// was; removing it after any registration leaves the id unregistered and
/// every other entry untouched.
pub proof fn lemma_add_then_remove(
    before: Map<Seq<char>, RepoEntry>,
    after_add: Map<Seq<char>, RepoEntry>,
    id: Seq<char>,
)
    requires
        after_add.dom() == before.dom().insert(id),
        after_add.remove(id) == before.remove(id),
    ensures
        !before.dom().contains(id) ==> after_add.remove(id) == before,
        !after_add.remove(id).dom().contains(id),
        forall|k: Seq<char>| k != id && #[trigger] before.dom().contains(k)
            ==> after_add.remove(id).dom().contains(k) && after_add.remove(id)[k] == before[k],
{
    if !before.dom().contains(id) {
        assert(before.remove(id) =~= before);
    }
}

/// Registering an id that is already registered keeps the set of ids, and a
/// second registration of the same id is never reported as new.
pub proof fn lemma_add_twice(
    before: Map<Seq<char>, RepoEntry>,
    after_first: Map<Seq<char>, RepoEntry>,
    after_second: Map<Seq<char>, RepoEntry>,
    id: Seq<char>,
)
    requires
        after_first.dom() == before.dom().insert(id),
        after_second.dom() == after_first.dom().insert(id),
    ensures
        after_first.dom().contains(id),
        after_second.dom() == after_first.dom(),
{
    assert(after_first.dom().insert(id) =~= after_first.dom());
}

} // verus!
