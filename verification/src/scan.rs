//! Rules of the cache scan: where the walk may go, what counts as a cache
//! directory, and which of the directories found are reported.
//!
//! The walk itself is the caller's: it visits the file system and asks these
//! functions about each entry. What it has found goes through
//! [`rank_caches`], which decides what the dashboard shows.

use vstd::prelude::*;
use crate::ranking::{
    has_distinct_weights, is_descending, is_strictly_descending,
    lemma_filter_keeps_weights_distinct, lemma_top_ranked_is_strict_without_ties,
    lemma_top_ranked_keeps_heaviest, lemma_top_ranked_selects, rank_top, top_ranked, Weighted,
};
use crate::text::text_eq;
use crate::usage::saturated;

verus! {

/// How many levels below the scan root the walk looks.
pub const MAX_SCAN_DEPTH: usize = 6;

/// Size in bytes that a cache directory must exceed to be reported.
pub const SIGNIFICANCE_FLOOR: u64 = 100_000_000;

/// How many cache directories are reported at most.
pub const MAX_REPORTED_CACHES: usize = 10;

/// A cache directory and the total size of the files below it.
#[derive(Debug)]
pub struct CacheEntry {
    pub path: String,
    pub size_bytes: u64,
}

impl Clone for CacheEntry {
    fn clone(&self) -> (copy: Self)
        ensures
            copy == *self,
    {
        CacheEntry { path: self.path.clone(), size_bytes: self.size_bytes }
    }
}

impl Weighted for CacheEntry {
    open spec fn weight(&self) -> nat {
        self.size_bytes as nat
    }

    fn outweighs(&self, other: &Self) -> (heavier: bool) {
        self.size_bytes > other.size_bytes
    }
}

impl CacheEntry {
    /// Whether the directory is large enough to be reported.
    pub open spec fn is_significant(self) -> bool {
        self.size_bytes > SIGNIFICANCE_FLOOR
    }
}

/// The name of a dependency cache directory.
pub open spec fn cache_dir_name() -> Seq<char> {
    "node_modules"@
}

/// The scan root that is used where the home directory is not known.
pub open spec fn fallback_scan_root() -> Seq<char> {
    "/Users"@
}

/// Whether an entry of this name is hidden.
pub open spec fn is_hidden_name(name: Seq<char>) -> bool {
    name.len() > 0 && name[0] == '.'
}

/// Whether an entry of this name is one of the system directories that the
/// walk stays out of.
pub open spec fn is_system_name(name: Seq<char>) -> bool {
    name == "Library"@ || name == "System"@ || name == "Applications"@
}

/// Whether the walk yields an entry of this name and, if it is a directory,
/// goes below it.
pub open spec fn spec_should_visit(name: Seq<char>) -> bool {
    !is_hidden_name(name) && !is_system_name(name)
}

/// The test that picks the cache directories worth reporting.
pub open spec fn significant() -> spec_fn(CacheEntry) -> bool {
    |entry: CacheEntry| entry.is_significant()
}

/// What is reported of the cache directories in `found`: those above the
/// significance floor, largest first, at most [`MAX_REPORTED_CACHES`].
pub open spec fn reported_caches(found: Seq<CacheEntry>) -> Seq<CacheEntry> {
    top_ranked(found.filter(significant()), MAX_REPORTED_CACHES as nat)
}

/// The sum of `sizes`.
pub open spec fn sum_of(sizes: Seq<u64>) -> nat
    decreases sizes.len(),
{
    if sizes.len() == 0 {
        0
    } else {
        sum_of(sizes.drop_last()) + sizes.last() as nat
    }
}

/// The directory in which the scan starts: the home directory, or the
/// fallback where there is none.
pub fn scan_root(home: Option<String>) -> (root: String)
    ensures
        root@ == match home {
            Some(dir) => dir@,
            None => fallback_scan_root(),
        },
{
    match home {
        Some(dir) => dir,
        None => "/Users".to_owned(),
    }
}

/// Whether the walk yields an entry of this name and, if it is a directory,
/// goes below it: not for hidden entries and not for the system directories.
pub fn should_visit(name: &str) -> (visit: bool)
    ensures
        visit == spec_should_visit(name@),
{
    if !name.is_empty() && name.get_char(0) == '.' {
        return false;
    }
    !(text_eq(name, "Library") || text_eq(name, "System") || text_eq(name, "Applications"))
}

/// Whether an entry is a dependency cache directory.
pub fn is_cache_dir(name: &str, is_dir: bool) -> (found: bool)
    ensures
        found == (is_dir && name@ == cache_dir_name()),
{
    is_dir && text_eq(name, "node_modules")
}

/// Whether a directory of this size is large enough to be reported.
pub fn is_significant(size_bytes: u64) -> (significant: bool)
    ensures
        significant == (size_bytes > SIGNIFICANCE_FLOOR),
{
    size_bytes > SIGNIFICANCE_FLOOR
}

/// The total size of a directory from the sizes of the files below it. A
/// total beyond what `u64` holds is reported as `u64::MAX`.
pub fn total_size(file_sizes: &[u64]) -> (total: u64)
    ensures
        total == saturated(sum_of(file_sizes@)),
{
    let mut total: u64 = 0;
    let mut at: usize = 0;
    while at < file_sizes.len()
        invariant
            at <= file_sizes.len(),
            total == saturated(sum_of(file_sizes@.take(at as int))),
        decreases file_sizes.len() - at,
    {
        proof {
            assert(file_sizes@.take(at + 1).drop_last() =~= file_sizes@.take(at as int));
        }
        total = total.saturating_add(file_sizes[at]);
        at = at + 1;
    }
    proof {
        assert(file_sizes@.take(at as int) =~= file_sizes@);
    }
    total
}

/// Decides what is reported of the cache directories that the walk found:
/// those above the significance floor, largest first and equal sizes in the
/// order in which they were found, at most [`MAX_REPORTED_CACHES`].
pub fn rank_caches(found: Vec<CacheEntry>) -> (reported: Vec<CacheEntry>)
    ensures
        reported@ == reported_caches(found@),
        reported@.len() <= MAX_REPORTED_CACHES,
        forall|i: int|
            0 <= i < reported@.len() ==> (#[trigger] reported@[i]).size_bytes
                > SIGNIFICANCE_FLOOR,
        forall|i: int| 0 <= i < reported@.len() ==> found@.contains(#[trigger] reported@[i]),
        is_descending(reported@),
{
    let ghost all = found@;
    proof {
        lemma_reported_caches_are_ranked(all);
    }
    let mut kept: Vec<CacheEntry> = Vec::new();
    for entry in it: found
        invariant
            it.seq() == all,
            kept@ == all.take(it.index() as int).filter(significant()),
    {
        proof {
            let seen = it.index() as int;
            assert(all.take(seen + 1).drop_last() =~= all.take(seen));
            all.take(seen).lemma_filter_push(entry, significant());
            assert(all.take(seen).push(entry) =~= all.take(seen + 1));
        }
        if is_significant(entry.size_bytes) {
            kept.push(entry);
        }
    }
    proof {
        assert(all.take(all.len() as int) =~= all);
    }
    rank_top(kept, MAX_REPORTED_CACHES)
}

/// Whether no two entries of `entries` name the same directory.
pub open spec fn has_distinct_paths(entries: Seq<CacheEntry>) -> bool {
    forall|i: int, j: int| 0 <= i < j < entries.len() ==> entries[i].path@ != entries[j].path@
}

/// What is reported is at most [`MAX_REPORTED_CACHES`] of the directories
/// found, each above the significance floor, none smaller than a later one.
pub proof fn lemma_reported_caches_are_ranked(found: Seq<CacheEntry>)
    ensures
        reported_caches(found).len() <= MAX_REPORTED_CACHES,
        forall|i: int|
            0 <= i < reported_caches(found).len() ==> (#[trigger] reported_caches(
                found,
            )[i]).size_bytes > SIGNIFICANCE_FLOOR,
        forall|i: int|
            0 <= i < reported_caches(found).len() ==> found.contains(
                #[trigger] reported_caches(found)[i],
            ),
        is_descending(reported_caches(found)),
{
    let kept = found.filter(significant());
    let reported = reported_caches(found);
    lemma_top_ranked_keeps_heaviest(kept, MAX_REPORTED_CACHES as nat);
    lemma_top_ranked_selects(kept, MAX_REPORTED_CACHES as nat);
    assert forall|i: int| 0 <= i < reported.len() implies (#[trigger] reported[i]).size_bytes
        > SIGNIFICANCE_FLOOR && found.contains(reported[i]) by {
        let entry = reported[i];
        assert(kept.contains(entry));
        let at = choose|at: int| 0 <= at < kept.len() && kept[at] == entry;
        found.lemma_filter_pred(significant(), at);
        found.lemma_filter_contains_rev(significant(), entry);
    }
}

/// Where no two of the directories found have the same size, each reported
/// directory is strictly larger than the next.
pub proof fn lemma_reported_caches_are_strict_without_ties(found: Seq<CacheEntry>)
    requires
        has_distinct_weights(found),
    ensures
        is_strictly_descending(reported_caches(found)),
{
    lemma_filter_keeps_weights_distinct(found, significant());
    lemma_top_ranked_is_strict_without_ties(
        found.filter(significant()),
        MAX_REPORTED_CACHES as nat,
    );
}

/// A directory that was found once is reported at most once.
pub proof fn lemma_reported_caches_keep_paths_distinct(found: Seq<CacheEntry>)
    requires
        has_distinct_paths(found),
    ensures
        has_distinct_paths(reported_caches(found)),
{
    let reported = reported_caches(found);
    lemma_reported_caches_are_ranked(found);
    assert(found.no_duplicates());
    let kept = found.filter(significant());
    assert(kept.no_duplicates()) by {
        lemma_filter_keeps_no_duplicates(found, significant());
    }
    lemma_top_ranked_selects(kept, MAX_REPORTED_CACHES as nat);
    assert forall|i: int, j: int| 0 <= i < j < reported.len() implies reported[i].path@
        != reported[j].path@ by {
        assert(found.contains(reported[i]));
        assert(found.contains(reported[j]));
        let first = choose|at: int| 0 <= at < found.len() && found[at] == reported[i];
        let second = choose|at: int| 0 <= at < found.len() && found[at] == reported[j];
        assert(reported[i] != reported[j]);
        assert(first != second);
    }
}

/// Leaving entries out does not create repetitions.
proof fn lemma_filter_keeps_no_duplicates<T>(items: Seq<T>, pick: spec_fn(T) -> bool)
    requires
        items.no_duplicates(),
    ensures
        items.filter(pick).no_duplicates(),
    decreases items.len(),
{
    reveal(Seq::filter);
    if items.len() != 0 {
        let front = items.drop_last();
        let kept = items.filter(pick);
        lemma_filter_keeps_no_duplicates(front, pick);
        assert forall|i: int, j: int| 0 <= i < j < kept.len() implies kept[i] != kept[j] by {
            if j >= front.filter(pick).len() {
                assert(kept[i] == front.filter(pick)[i]);
                assert(front.filter(pick).contains(kept[i]));
                front.lemma_filter_contains_rev(pick, kept[i]);
                let source = choose|source: int|
                    0 <= source < front.len() && front[source] == kept[i];
                assert(items[source] == kept[i]);
            } else {
                assert(kept[i] == front.filter(pick)[i] && kept[j] == front.filter(pick)[j]);
            }
        }
    }
}

} // verus!
