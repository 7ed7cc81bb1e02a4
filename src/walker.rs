use vstd::prelude::*;

use crate::scan_result::{views, ScanResult};

verus! {

/// One outcome of reading a directory or walking a subtree: an entry that was
/// read, with whether it is a directory, or an entry that could not be read.
#[derive(Debug, Clone)]
pub enum Entry {
    Found { path: String, is_dir: bool },
    Failed,
}

/// The paths of the entries that were read, in order.
pub open spec fn found_paths(h: Seq<Entry>) -> Seq<Seq<char>>
    decreases h.len(),
{
    if h.len() == 0 {
        Seq::empty()
    } else {
        match h.last() {
            Entry::Found { path, is_dir } => found_paths(h.drop_last()).push(path@),
            Entry::Failed => found_paths(h.drop_last()),
        }
    }
}

/// The number of entries that could not be read.
pub open spec fn failures(h: Seq<Entry>) -> nat
    decreases h.len(),
{
    if h.len() == 0 {
        0
    } else {
        match h.last() {
            Entry::Found { .. } => failures(h.drop_last()),
            Entry::Failed => failures(h.drop_last()) + 1,
        }
    }
}

/// The number of directories among the entries that were read: the
/// directory boundaries a walk has crossed.
pub open spec fn crossings(h: Seq<Entry>) -> nat
    decreases h.len(),
{
    if h.len() == 0 {
        0
    } else {
        match h.last() {
            Entry::Found { is_dir, .. } => crossings(h.drop_last()) + if is_dir { 1nat } else { 0nat },
            Entry::Failed => crossings(h.drop_last()),
        }
    }
}

/// `r` accounts for the outcomes `h`: every read entry is a recorded path and
/// a success, every failure an error.
pub open spec fn accounts_for(r: ScanResult, h: Seq<Entry>) -> bool {
    &&& views(r.paths@) == found_paths(h)
    &&& r.success_count == found_paths(h).len()
    &&& r.error_count == failures(h)
}

/// Every outcome is either a read entry or a failure.
pub proof fn lemma_outcomes_split(h: Seq<Entry>)
    ensures
        found_paths(h).len() + failures(h) == h.len(),
        crossings(h) <= found_paths(h).len(),
    decreases h.len(),
{
    if h.len() > 0 {
        lemma_outcomes_split(h.drop_last());
    }
}

/// A depth-bounded walk of one subtree, fed one traversal outcome at a time.
///
/// The walk stops taking outcomes once it has crossed `limit` directory
/// boundaries: the rest of the subtree is left unvisited, without error.
pub struct Walker {
    limit: usize,
    crossed: usize,
    result: ScanResult,
    seen: Ghost<Seq<Entry>>,
}

impl Walker {
    /// The outcomes taken so far, in order.
    pub closed spec fn history(&self) -> Seq<Entry> {
        self.seen@
    }

    /// The number of directory boundaries the walk may cross.
    pub closed spec fn limit(&self) -> nat {
        self.limit as nat
    }

    /// The counters and paths account for the outcomes taken, and every
    /// outcome was taken while fewer than `limit` boundaries were crossed.
    pub closed spec fn wf(&self) -> bool {
        &&& self.crossed == crossings(self.seen@)
        &&& self.crossed <= self.limit
        &&& accounts_for(self.result, self.seen@)
        &&& self.seen@.len() <= usize::MAX
        &&& forall|i: int|
            0 <= i < self.seen@.len() ==> #[trigger] crossings(self.seen@.take(i)) < self.limit
    }

    /// Whether the walk takes another outcome: fewer than `limit` boundaries
    /// crossed (and room left in the counters).
    pub open spec fn spec_wants_more(&self) -> bool {
        crossings(self.history()) < self.limit() && self.history().len() < usize::MAX
    }

    /// A walk that has taken nothing yet.
    pub fn new(limit: usize) -> (w: Walker)
        ensures
            w.wf(),
            w.history() == Seq::<Entry>::empty(),
            w.limit() == limit,
    {
        let result = ScanResult::new();
        assert(views(result.paths@) =~= Seq::<Seq<char>>::empty());
        Walker { limit, crossed: 0, result, seen: Ghost(Seq::empty()) }
    }

    /// Whether the walk takes another outcome.
    pub fn wants_more(&self) -> (r: bool)
        requires
            self.wf(),
        ensures
            r == self.spec_wants_more(),
    {
        proof {
            lemma_outcomes_split(self.seen@);
        }
        self.crossed < self.limit && self.result.total() < usize::MAX
    }

    /// Takes one outcome: a read entry is recorded and counted as a success
    /// (a directory also crosses a boundary), a failure is counted as an
    /// error.
    pub fn record(&mut self, entry: Entry)
        requires
            old(self).wf(),
            old(self).spec_wants_more(),
        ensures
            final(self).wf(),
            final(self).history() == old(self).history().push(entry),
            final(self).limit() == old(self).limit(),
    {
        let ghost h0 = self.seen@;
        proof {
            lemma_outcomes_split(h0);
        }
        match &entry {
            Entry::Found { path, is_dir } => {
                self.result.push(path.clone());
                self.result.increase_success(1);
                if *is_dir {
                    self.crossed = self.crossed + 1;
                }
            },
            Entry::Failed => {
                self.result.increase_error(1);
            },
        }
        self.seen = Ghost(h0.push(entry));
        proof {
            let h1 = self.seen@;
            assert(h1.drop_last() == h0);
            assert(views(self.result.paths@) =~= found_paths(h1));
            assert forall|i: int| 0 <= i < h1.len() implies #[trigger] crossings(h1.take(i))
                < self.limit by {
                if i < h0.len() {
                    assert(h1.take(i) == h0.take(i));
                } else {
                    assert(h1.take(i) == h0);
                }
            }
        }
    }

    /// The outcome of the walk: the paths read, in order, one success for
    /// each and one error for each failure.
    pub fn finish(self) -> (r: ScanResult)
        requires
            self.wf(),
        ensures
            accounts_for(r, self.history()),
    {
        self.result
    }
}

/// Every outcome a walk took came while fewer than `limit` boundaries had
/// been crossed, so no recorded entry lies past the depth limit, and the walk
/// never crosses more than `limit` boundaries. With a limit of zero the walk
/// takes nothing at all.
pub proof fn lemma_walk_respects_limit(w: Walker)
    requires
        w.wf(),
    ensures
        forall|i: int|
            0 <= i < w.history().len() ==> #[trigger] crossings(w.history().take(i))
                < w.limit(),
        crossings(w.history()) <= w.limit(),
        w.limit() == 0 ==> w.history().len() == 0,
{
    if w.limit() == 0 && w.history().len() > 0 {
        assert(w.history().take(0) =~= Seq::<Entry>::empty());
        assert(crossings(w.history().take(0)) < w.limit());
    }
}

} // verus!
