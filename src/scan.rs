use vstd::prelude::*;

use crate::scan_result::{lemma_views_concat, views, ScanResult};
use crate::utils::flatten;
use crate::walker::{accounts_for, failures, found_paths, lemma_outcomes_split, Entry};

verus! {

/// Why a scan could not run.
#[derive(Debug, Clone, Copy, PartialEq, Eq, Structural)]
pub enum ScanError {
    /// The root does not exist.
    NotFound,
    /// The root exists but is not a directory.
    NotADirectory,
}

/// Decides whether a scan may start from a root with the given properties.
pub fn check_root(exists: bool, is_dir: bool) -> (r: Result<(), ScanError>)
    ensures
        !exists ==> r == Err::<(), ScanError>(ScanError::NotFound),
        exists && !is_dir ==> r == Err::<(), ScanError>(ScanError::NotADirectory),
        exists && is_dir ==> r is Ok,
{
    if !exists {
        Err(ScanError::NotFound)
    } else if !is_dir {
        Err(ScanError::NotADirectory)
    } else {
        Ok(())
    }
}

/// The paths of the read entries of a listing that are not directories.
pub open spec fn listed_files(h: Seq<Entry>) -> Seq<Seq<char>>
    decreases h.len(),
{
    if h.len() == 0 {
        Seq::empty()
    } else {
        match h.last() {
            Entry::Found { path, is_dir } => if is_dir {
                listed_files(h.drop_last())
            } else {
                listed_files(h.drop_last()).push(path@)
            },
            Entry::Failed => listed_files(h.drop_last()),
        }
    }
}

/// The paths of the read entries of a listing that are directories.
pub open spec fn listed_dirs(h: Seq<Entry>) -> Seq<Seq<char>>
    decreases h.len(),
{
    if h.len() == 0 {
        Seq::empty()
    } else {
        match h.last() {
            Entry::Found { path, is_dir } => if is_dir {
                listed_dirs(h.drop_last()).push(path@)
            } else {
                listed_dirs(h.drop_last())
            },
            Entry::Failed => listed_dirs(h.drop_last()),
        }
    }
}

/// `top` is what the top-level listing `listing` contributes to a scan:
/// the entries that are not directories, one success per read entry and one
/// error per failure.
pub open spec fn listing_outcome(top: ScanResult, listing: Seq<Entry>) -> bool {
    &&& views(top.paths@) == listed_files(listing)
    &&& top.success_count == found_paths(listing).len()
    &&& top.error_count == failures(listing)
}

proof fn lemma_listing_split(h: Seq<Entry>)
    ensures
        listed_files(h).len() + listed_dirs(h).len() == found_paths(h).len(),
    decreases h.len(),
{
    if h.len() > 0 {
        lemma_listing_split(h.drop_last());
    }
}

/// Sorts the top-level listing of the root: entries that are not
/// directories are recorded at once, directories become the workload to
/// walk; every entry counts as a success or an error.
pub fn split_listing(listing: Vec<Entry>) -> (r: (ScanResult, Vec<String>))
    requires
        listing@.len() <= usize::MAX,
    ensures
        listing_outcome(r.0, listing@),
        views(r.1@) == listed_dirs(listing@),
{
    let mut top = ScanResult::new();
    let mut dirs: Vec<String> = Vec::new();
    let mut i: usize = 0;
    assert(views(top.paths@) =~= Seq::<Seq<char>>::empty());
    assert(views(dirs@) =~= Seq::<Seq<char>>::empty());
    while i < listing.len()
        invariant
            i <= listing@.len(),
            listing_outcome(top, listing@.take(i as int)),
            views(dirs@) == listed_dirs(listing@.take(i as int)),
        decreases listing@.len() - i,
    {
        let ghost h0 = listing@.take(i as int);
        let ghost h1 = listing@.take(i + 1);
        assert(h1.drop_last() == h0);
        proof {
            lemma_outcomes_split(h0);
        }
        match &listing[i] {
            Entry::Found { path, is_dir } => {
                if *is_dir {
                    dirs.push(path.clone());
                } else {
                    top.push(path.clone());
                }
                top.increase_success(1);
            },
            Entry::Failed => {
                top.increase_error(1);
            },
        }
        assert(views(top.paths@) =~= listed_files(h1));
        assert(views(dirs@) =~= listed_dirs(h1));
        i = i + 1;
    }
    assert(listing@.take(listing@.len() as int) =~= listing@);
    (top, dirs)
}

/// The sum of the success counters of `parts`.
pub open spec fn sum_successes(parts: Seq<ScanResult>) -> int
    decreases parts.len(),
{
    if parts.len() == 0 {
        0
    } else {
        sum_successes(parts.drop_last()) + parts.last().success_count
    }
}

/// The sum of the error counters of `parts`.
pub open spec fn sum_errors(parts: Seq<ScanResult>) -> int
    decreases parts.len(),
{
    if parts.len() == 0 {
        0
    } else {
        sum_errors(parts.drop_last()) + parts.last().error_count
    }
}

/// The paths of `parts`, one part after the other.
pub open spec fn all_paths(parts: Seq<ScanResult>) -> Seq<Seq<char>>
    decreases parts.len(),
{
    if parts.len() == 0 {
        Seq::empty()
    } else {
        all_paths(parts.drop_last()) + views(parts.last().paths@)
    }
}

/// `merged` is `top` followed by `parts`: paths concatenated in that order,
/// counters added.
pub open spec fn merged_from(merged: ScanResult, top: ScanResult, parts: Seq<ScanResult>) -> bool {
    &&& views(merged.paths@) == views(top.paths@) + all_paths(parts)
    &&& merged.success_count == top.success_count + sum_successes(parts)
    &&& merged.error_count == top.error_count + sum_errors(parts)
}

/// Merges the results of the workers into the result of the top-level
/// listing, in the order given.
pub fn merge_results(top: ScanResult, parts: Vec<ScanResult>) -> (r: ScanResult)
    requires
        top.success_count + sum_successes(parts@) <= usize::MAX,
        top.error_count + sum_errors(parts@) <= usize::MAX,
    ensures
        merged_from(r, top, parts@),
{
    let ghost all = parts@;
    let mut r = top;
    let mut parts = parts;
    let n = parts.len();
    let mut i: usize = 0;
    assert(views(r.paths@) =~= views(top.paths@) + all_paths(all.take(0)));
    while i < n
        invariant
            n == all.len(),
            i <= n,
            parts@.len() == n,
            forall|j: int| i <= j < n ==> #[trigger] parts@[j] == all[j],
            merged_from(r, top, all.take(i as int)),
            top.success_count + sum_successes(all) <= usize::MAX,
            top.error_count + sum_errors(all) <= usize::MAX,
        decreases n - i,
    {
        let mut p = ScanResult::new();
        std::mem::swap(&mut p, &mut parts[i]);
        proof {
            assert(all.take(i + 1).drop_last() =~= all.take(i as int));
            lemma_sums_monotone(all, i + 1);
        }
        let ghost before = r.paths@;
        r.append(p);
        proof {
            lemma_views_concat(before, all[i as int].paths@);
            assert(all.take(i + 1).last() == all[i as int]);
        }
        assert(views(r.paths@) =~= views(top.paths@) + all_paths(all.take(i + 1)));
        i = i + 1;
    }
    assert(all.take(all.len() as int) =~= all);
    r
}

proof fn lemma_sums_monotone(parts: Seq<ScanResult>, i: int)
    requires
        0 <= i <= parts.len(),
    ensures
        sum_successes(parts.take(i)) <= sum_successes(parts),
        sum_errors(parts.take(i)) <= sum_errors(parts),
        sum_successes(parts.take(i)) >= 0,
        sum_errors(parts.take(i)) >= 0,
    decreases parts.len(),
{
    if i < parts.len() {
        assert(parts.drop_last().take(i) =~= parts.take(i));
        lemma_sums_monotone(parts.drop_last(), i);
    } else {
        assert(parts.take(i) =~= parts);
        lemma_sums_nonneg(parts);
    }
}

proof fn lemma_sums_nonneg(parts: Seq<ScanResult>)
    ensures
        sum_successes(parts) >= 0,
        sum_errors(parts) >= 0,
    decreases parts.len(),
{
    if parts.len() > 0 {
        lemma_sums_nonneg(parts.drop_last());
    }
}

/// The number of traversal attempts of a list of walks.
pub open spec fn attempts(walks: Seq<Seq<Entry>>) -> int
    decreases walks.len(),
{
    if walks.len() == 0 {
        0
    } else {
        attempts(walks.drop_last()) + walks.last().len()
    }
}

/// A scan counts every traversal attempt exactly once, as a success or as
/// an error: the merged counters add up to the entries of the top-level
/// listing plus the outcomes taken by the walks, however many walks there
/// are and in whatever order their results are merged.
pub proof fn lemma_scan_counts_every_attempt(
    listing: Seq<Entry>,
    walks: Seq<Seq<Entry>>,
    top: ScanResult,
    parts: Seq<ScanResult>,
    merged: ScanResult,
)
    requires
        listing_outcome(top, listing),
        parts.len() == walks.len(),
        forall|i: int| 0 <= i < parts.len() ==> #[trigger] accounts_for(parts[i], walks[i]),
        merged_from(merged, top, parts),
    ensures
        merged.spec_total() == listing.len() + attempts(walks),
{
    lemma_outcomes_split(listing);
    lemma_parts_count_attempts(walks, parts);
}

proof fn lemma_parts_count_attempts(walks: Seq<Seq<Entry>>, parts: Seq<ScanResult>)
    requires
        parts.len() == walks.len(),
        forall|i: int| 0 <= i < parts.len() ==> #[trigger] accounts_for(parts[i], walks[i]),
    ensures
        sum_successes(parts) + sum_errors(parts) == attempts(walks),
    decreases parts.len(),
{
    if parts.len() > 0 {
        let k = parts.len() - 1;
        assert(accounts_for(parts[k], walks[k]));
        lemma_outcomes_split(walks[k]);
        assert forall|i: int| 0 <= i < parts.drop_last().len() implies #[trigger] accounts_for(
            parts.drop_last()[i],
            walks.drop_last()[i],
        ) by {
            assert(accounts_for(parts[i], walks[i]));
        }
        lemma_parts_count_attempts(walks.drop_last(), parts.drop_last());
    }
}

/// With a depth limit of zero no walk takes anything, so a scan yields
/// exactly what the top-level listing collected.
pub proof fn lemma_zero_depth_scan_is_listing(
    top: ScanResult,
    parts: Seq<ScanResult>,
    merged: ScanResult,
)
    requires
        forall|i: int| 0 <= i < parts.len() ==> #[trigger] accounts_for(parts[i], Seq::empty()),
        merged_from(merged, top, parts),
    ensures
        views(merged.paths@) == views(top.paths@),
        merged.success_count == top.success_count,
        merged.error_count == top.error_count,
{
    lemma_empty_walks_add_nothing(parts);
    assert(views(top.paths@) + Seq::<Seq<char>>::empty() =~= views(top.paths@));
}

proof fn lemma_empty_walks_add_nothing(parts: Seq<ScanResult>)
    requires
        forall|i: int| 0 <= i < parts.len() ==> #[trigger] accounts_for(parts[i], Seq::empty()),
    ensures
        all_paths(parts) == Seq::<Seq<char>>::empty(),
        sum_successes(parts) == 0,
        sum_errors(parts) == 0,
    decreases parts.len(),
{
    if parts.len() > 0 {
        let k = parts.len() - 1;
        assert(accounts_for(parts[k], Seq::empty()));
        assert forall|i: int| 0 <= i < parts.drop_last().len() implies #[trigger] accounts_for(
            parts.drop_last()[i],
            Seq::empty(),
        ) by {
            assert(accounts_for(parts[i], Seq::empty()));
        }
        lemma_empty_walks_add_nothing(parts.drop_last());
        assert(views(parts[k].paths@) =~= Seq::<Seq<char>>::empty());
        assert(all_paths(parts) =~= Seq::<Seq<char>>::empty());
    }
}

/// The results of walking each directory of `dirs`, in order, where `walk`
/// gives the result of walking one directory of a tree that does not change.
pub open spec fn walked(dirs: Seq<String>, walk: spec_fn(Seq<char>) -> ScanResult) -> Seq<ScanResult> {
    dirs.map_values(|d: String| walk(d@))
}

proof fn lemma_concat_to_set(a: Seq<Seq<char>>, b: Seq<Seq<char>>)
    ensures
        (a + b).to_set() == a.to_set().union(b.to_set()),
{
    assert forall|x: Seq<char>| (a + b).to_set().contains(x) == a.to_set().union(
        b.to_set(),
    ).contains(x) by {
        if (a + b).contains(x) {
            let k = choose|k: int| 0 <= k < (a + b).len() && (a + b)[k] == x;
            if k < a.len() {
                assert(a[k] == x);
            } else {
                assert(b[k - a.len()] == x);
            }
        }
        if a.contains(x) {
            let k = choose|k: int| 0 <= k < a.len() && a[k] == x;
            assert((a + b)[k] == x);
        }
        if b.contains(x) {
            let k = choose|k: int| 0 <= k < b.len() && b[k] == x;
            assert((a + b)[k + a.len()] == x);
        }
    }
    assert((a + b).to_set() =~= a.to_set().union(b.to_set()));
}

proof fn lemma_walked_last(s: Seq<String>, walk: spec_fn(Seq<char>) -> ScanResult)
    requires
        s.len() > 0,
    ensures
        sum_successes(walked(s, walk)) == sum_successes(walked(s.drop_last(), walk)) + walk(
            s.last()@,
        ).success_count,
        sum_errors(walked(s, walk)) == sum_errors(walked(s.drop_last(), walk)) + walk(
            s.last()@,
        ).error_count,
        all_paths(walked(s, walk)).to_set() == all_paths(walked(s.drop_last(), walk)).to_set().union(
            views(walk(s.last()@).paths@).to_set(),
        ),
{
    assert(walked(s, walk).drop_last() =~= walked(s.drop_last(), walk));
    lemma_concat_to_set(all_paths(walked(s.drop_last(), walk)), views(walk(s.last()@).paths@));
}

proof fn lemma_walked_remove(s: Seq<String>, i: int, walk: spec_fn(Seq<char>) -> ScanResult)
    requires
        0 <= i < s.len(),
    ensures
        sum_successes(walked(s, walk)) == sum_successes(walked(s.remove(i), walk)) + walk(
            s[i]@,
        ).success_count,
        sum_errors(walked(s, walk)) == sum_errors(walked(s.remove(i), walk)) + walk(
            s[i]@,
        ).error_count,
        all_paths(walked(s, walk)).to_set() == all_paths(walked(s.remove(i), walk)).to_set().union(
            views(walk(s[i]@).paths@).to_set(),
        ),
    decreases s.len(),
{
    lemma_walked_last(s, walk);
    if i == s.len() - 1 {
        assert(s.remove(i) =~= s.drop_last());
    } else {
        let r = s.remove(i);
        assert(r.drop_last() =~= s.drop_last().remove(i));
        assert(r.last() == s.last());
        lemma_walked_remove(s.drop_last(), i, walk);
        lemma_walked_last(r, walk);
        let p = all_paths(walked(s.drop_last().remove(i), walk)).to_set();
        let q = views(walk(s[i]@).paths@).to_set();
        let l = views(walk(s.last()@).paths@).to_set();
        assert(p.union(q).union(l) =~= p.union(l).union(q));
    }
}

proof fn lemma_walked_reordered(a: Seq<String>, b: Seq<String>, walk: spec_fn(Seq<char>) -> ScanResult)
    requires
        a.to_multiset() == b.to_multiset(),
    ensures
        sum_successes(walked(a, walk)) == sum_successes(walked(b, walk)),
        sum_errors(walked(a, walk)) == sum_errors(walked(b, walk)),
        all_paths(walked(a, walk)).to_set() == all_paths(walked(b, walk)).to_set(),
    decreases a.len(),
{
    broadcast use vstd::seq_lib::group_to_multiset_ensures;

    if a.len() == 0 {
        assert(b.len() == b.to_multiset().len());
        assert(a =~= b);
    } else {
        let x = a.last();
        let a1 = a.drop_last();
        assert(a =~= a1.push(x));
        assert(a.to_multiset().count(x) > 0);
        assert(b.contains(x));
        let i = choose|i: int| 0 <= i < b.len() && b[i] == x;
        let b1 = b.remove(i);
        assert(b1.to_multiset() =~= b.to_multiset().remove(x));
        assert(a1.to_multiset() =~= a.to_multiset().remove(x));
        lemma_walked_reordered(a1, b1, walk);
        lemma_walked_last(a, walk);
        lemma_walked_remove(b, i, walk);
    }
}

/// The number of workers does not change what a scan finds. Dealing the
/// workload `dirs` out to any number of workers yields buckets that hold
/// exactly the workload (as `distribute` ensures); walking the directories
/// of two such dealings, say for one worker and for many, and merging the
/// results gives the same counters and the same set of paths, whatever the
/// order in which the buckets are taken.
pub proof fn lemma_worker_count_does_not_matter(
    dirs: Seq<String>,
    one: Seq<Seq<String>>,
    many: Seq<Seq<String>>,
    walk: spec_fn(Seq<char>) -> ScanResult,
    top: ScanResult,
    merged_one: ScanResult,
    merged_many: ScanResult,
)
    requires
        flatten(one).to_multiset() == dirs.to_multiset(),
        flatten(many).to_multiset() == dirs.to_multiset(),
        merged_from(merged_one, top, walked(flatten(one), walk)),
        merged_from(merged_many, top, walked(flatten(many), walk)),
    ensures
        merged_one.success_count == merged_many.success_count,
        merged_one.error_count == merged_many.error_count,
        views(merged_one.paths@).to_set() == views(merged_many.paths@).to_set(),
{
    lemma_walked_reordered(flatten(one), flatten(many), walk);
    lemma_concat_to_set(views(top.paths@), all_paths(walked(flatten(one), walk)));
    lemma_concat_to_set(views(top.paths@), all_paths(walked(flatten(many), walk)));
}

} // verus!
