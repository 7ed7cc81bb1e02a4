use vstd::prelude::*;

verus! {

/// The character sequences of a list of paths.
pub open spec fn views(paths: Seq<String>) -> Seq<Seq<char>> {
    paths.map_values(|p: String| p@)
}

/// The character sequences of two lists, one after the other, are those of
/// the lists concatenated.
pub proof fn lemma_views_concat(a: Seq<String>, b: Seq<String>)
    ensures
        views(a + b) == views(a) + views(b),
{
    assert(views(a + b) =~= views(a) + views(b));
}

/// What a scan came across: the paths it recorded, in discovery order, and
/// how many entries it visited and how many it failed to read.
#[derive(Debug, Clone)]
pub struct ScanResult {
    pub paths: Vec<String>,
    pub error_count: usize,
    pub success_count: usize,
}

impl ScanResult {
    /// The number of traversal attempts accounted for.
    pub open spec fn spec_total(&self) -> int {
        self.success_count + self.error_count
    }

    /// An empty result: no path, both counters at zero.
    pub fn new() -> (r: ScanResult)
        ensures
            r.paths@.len() == 0,
            r.error_count == 0,
            r.success_count == 0,
    {
        ScanResult { paths: Vec::new(), error_count: 0, success_count: 0 }
    }

    /// Records a path; the counters stay as they are.
    pub fn push(&mut self, path: String)
        ensures
            final(self).paths@ == old(self).paths@.push(path),
            final(self).error_count == old(self).error_count,
            final(self).success_count == old(self).success_count,
    {
        self.paths.push(path);
    }

    /// The number of recorded paths.
    pub fn size(&self) -> (r: usize)
        ensures
            r == self.paths@.len(),
    {
        self.paths.len()
    }

    /// Adds `amount` to the success counter.
    pub fn increase_success(&mut self, amount: usize)
        requires
            old(self).success_count + amount <= usize::MAX,
        ensures
            final(self).success_count == old(self).success_count + amount,
            final(self).error_count == old(self).error_count,
            final(self).paths@ == old(self).paths@,
    {
        self.success_count = self.success_count + amount;
    }

    /// Adds `amount` to the error counter.
    pub fn increase_error(&mut self, amount: usize)
        requires
            old(self).error_count + amount <= usize::MAX,
        ensures
            final(self).error_count == old(self).error_count + amount,
            final(self).success_count == old(self).success_count,
            final(self).paths@ == old(self).paths@,
    {
        self.error_count = self.error_count + amount;
    }

    /// The number of entries the scan came across, read or not.
    pub fn total(&self) -> (r: usize)
        requires
            self.spec_total() <= usize::MAX,
        ensures
            r == self.spec_total(),
    {
        self.success_count + self.error_count
    }

    /// Merges `other` into this result: its paths follow ours, and the
    /// counters add up.
    pub fn append(&mut self, other: ScanResult)
        requires
            old(self).error_count + other.error_count <= usize::MAX,
            old(self).success_count + other.success_count <= usize::MAX,
        ensures
            final(self).paths@ == old(self).paths@ + other.paths@,
            final(self).error_count == old(self).error_count + other.error_count,
            final(self).success_count == old(self).success_count + other.success_count,
    {
        let mut other = other;
        self.paths.append(&mut other.paths);
        self.error_count = self.error_count + other.error_count;
        self.success_count = self.success_count + other.success_count;
    }
}

} // verus!
