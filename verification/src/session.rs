//! Lines of code handed out in the current session: the skeleton, and the
//! files and bodies fetched since it was last requested.
use vstd::prelude::*;

verus! {

/// A request that hands out code.
#[derive(PartialEq, Eq, Structural, Clone, Copy, Debug)]
pub enum Fetch {
    Skeleton,
    File,
    Hash,
}

/// The running counters of the session.
#[derive(Clone, Copy, Debug)]
pub struct LocCounters {
    pub skeleton_loc: usize,
    pub file_loc: usize,
    pub hash_loc: usize,
}

/// The counters as reported: each one and their total.
#[derive(Clone, Copy, Debug)]
pub struct LocInfo {
    pub skeleton_loc: usize,
    pub file_loc: usize,
    pub hash_loc: usize,
    pub total_loc: usize,
}

/// A count that stops at `usize::MAX` instead of wrapping.
pub open spec fn capped(n: int) -> usize {
    if n > usize::MAX {
        usize::MAX
    } else {
        n as usize
    }
}

/// The counters after one request that handed out `loc` lines: the
/// skeleton starts the session anew; files and bodies add to their counter.
pub open spec fn step(c: LocCounters, kind: Fetch, loc: usize) -> LocCounters {
    match kind {
        Fetch::Skeleton => LocCounters { skeleton_loc: loc, file_loc: 0, hash_loc: 0 },
        Fetch::File => LocCounters { file_loc: capped(c.file_loc + loc), ..c },
        Fetch::Hash => LocCounters { hash_loc: capped(c.hash_loc + loc), ..c },
    }
}

/// The counters after a series of requests, in order.
pub open spec fn replay(c: LocCounters, events: Seq<(Fetch, usize)>) -> LocCounters
    decreases events.len(),
{
    if events.len() == 0 {
        c
    } else {
        let e = events.last();
        step(replay(c, events.drop_last()), e.0, e.1)
    }
}

/// The lines handed out by the requests of one kind.
pub open spec fn lines_of(events: Seq<(Fetch, usize)>, kind: Fetch) -> nat
    decreases events.len(),
{
    if events.len() == 0 {
        0
    } else if events.last().0 == kind {
        (lines_of(events.drop_last(), kind) + events.last().1) as nat
    } else {
        lines_of(events.drop_last(), kind)
    }
}

impl LocCounters {
    /// A session where nothing has been handed out.
    pub fn new() -> (res: Self)
        ensures
            res == (LocCounters { skeleton_loc: 0, file_loc: 0, hash_loc: 0 }),
    {
        LocCounters { skeleton_loc: 0, file_loc: 0, hash_loc: 0 }
    }

    /// Count a request that handed out `loc` lines.
    pub fn record(&mut self, kind: Fetch, loc: usize)
        ensures
            *final(self) == step(*old(self), kind, loc),
    {
        match kind {
            Fetch::Skeleton => {
                self.skeleton_loc = loc;
                self.file_loc = 0;
                self.hash_loc = 0;
            },
            Fetch::File => {
                self.file_loc = self.file_loc.saturating_add(loc);
            },
            Fetch::Hash => {
                self.hash_loc = self.hash_loc.saturating_add(loc);
            },
        }
    }

    /// The counters and their total.
    pub fn info(&self) -> (res: LocInfo)
        ensures
            res.skeleton_loc == self.skeleton_loc,
            res.file_loc == self.file_loc,
            res.hash_loc == self.hash_loc,
            res.total_loc == capped(self.skeleton_loc + self.file_loc + self.hash_loc),
    {
        LocInfo {
            skeleton_loc: self.skeleton_loc,
            file_loc: self.file_loc,
            hash_loc: self.hash_loc,
            total_loc: self.skeleton_loc.saturating_add(self.file_loc).saturating_add(self.hash_loc),
        }
    }
}

/// Since the last skeleton request, the skeleton counter holds that
/// skeleton's lines and the file and body counters hold the lines of the
/// files and bodies fetched after it (capped at `usize::MAX`), whatever came
/// before.
pub proof fn lemma_counts_since_skeleton(
    c: LocCounters,
    before: Seq<(Fetch, usize)>,
    n: usize,
    after: Seq<(Fetch, usize)>,
)
    requires
        forall|i: int| 0 <= i < after.len() ==> (#[trigger] after[i]).0 != Fetch::Skeleton,
    ensures
        replay(c, before.push((Fetch::Skeleton, n)) + after) == (LocCounters {
            skeleton_loc: n,
            file_loc: capped(lines_of(after, Fetch::File) as int),
            hash_loc: capped(lines_of(after, Fetch::Hash) as int),
        }),
    decreases after.len(),
{
    let evs = before.push((Fetch::Skeleton, n)) + after;
    if after.len() == 0 {
        assert(evs =~= before.push((Fetch::Skeleton, n)));
        assert(evs.drop_last() =~= before);
    } else {
        let d = after.drop_last();
        assert forall|i: int| 0 <= i < d.len() implies (#[trigger] d[i]).0 != Fetch::Skeleton by {
            assert(d[i] == after[i]);
        }
        lemma_counts_since_skeleton(c, before, n, d);
        assert(evs.drop_last() =~= before.push((Fetch::Skeleton, n)) + d);
        assert(evs.last() == after.last());
        assert(after.last().0 != Fetch::Skeleton) by {
            assert(after.last() == after[after.len() - 1]);
        }
    }
}

} // verus!
