//! Ranking of running processes by what they take of the machine.

use vstd::prelude::*;
use crate::ranking::{
    is_descending, lemma_ranked_len, lemma_top_ranked_follows_weights,
    lemma_top_ranked_keeps_heaviest, lemma_top_ranked_selects, rank_top, ranked,
    related_pairwise, top_ranked, Weighted,
};

verus! {

/// How many processes are reported at most.
pub const MAX_REPORTED_PROCESSES: usize = 5;

/// How many score units one percent of processor time is worth. One byte of
/// memory is worth one unit, so a percent counts as much as a megabyte.
pub const SCORE_UNITS_PER_PERCENT: u64 = 1_000_000;

/// One sample of a running process. Processor use is held in millionths of
/// a percent, so that the score is a whole number.
#[derive(Debug)]
pub struct ProcessEntry {
    pub name: String,
    pub pid: u32,
    pub cpu_millionths: u64,
    pub memory_bytes: u64,
}

impl Clone for ProcessEntry {
    fn clone(&self) -> (copy: Self)
        ensures
            copy == *self,
    {
        ProcessEntry {
            name: self.name.clone(),
            pid: self.pid,
            cpu_millionths: self.cpu_millionths,
            memory_bytes: self.memory_bytes,
        }
    }
}

impl ProcessEntry {
    /// The resource score in score units: processor use in percent plus
    /// memory in megabytes, times [`SCORE_UNITS_PER_PERCENT`].
    pub open spec fn spec_score(&self) -> nat {
        (self.cpu_millionths + self.memory_bytes) as nat
    }

    /// The resource score in score units.
    pub fn score(&self) -> (score: u128)
        ensures
            score == self.spec_score(),
    {
        self.cpu_millionths as u128 + self.memory_bytes as u128
    }

    /// Whether two samples say the same of the same process.
    pub open spec fn same_sample(self, other: ProcessEntry) -> bool {
        &&& self.name@ == other.name@
        &&& self.pid == other.pid
        &&& self.cpu_millionths == other.cpu_millionths
        &&& self.memory_bytes == other.memory_bytes
    }
}

impl Weighted for ProcessEntry {
    open spec fn weight(&self) -> nat {
        self.spec_score()
    }

    fn outweighs(&self, other: &Self) -> (heavier: bool) {
        self.score() > other.score()
    }
}

/// The relation between samples that say the same.
pub open spec fn same_samples() -> spec_fn(ProcessEntry, ProcessEntry) -> bool {
    |first: ProcessEntry, second: ProcessEntry| first.same_sample(second)
}

/// What is reported of the processes in `samples`: the
/// [`MAX_REPORTED_PROCESSES`] with the highest score, highest first, equal
/// scores in the order of `samples`.
pub open spec fn top_processes(samples: Seq<ProcessEntry>) -> Seq<ProcessEntry> {
    top_ranked(samples, MAX_REPORTED_PROCESSES as nat)
}

/// Picks the processes to report: the [`MAX_REPORTED_PROCESSES`] with the
/// highest score, highest first, equal scores in the order of `samples`.
pub fn rank_processes(samples: Vec<ProcessEntry>) -> (reported: Vec<ProcessEntry>)
    ensures
        reported@ == top_processes(samples@),
        reported@.len() <= MAX_REPORTED_PROCESSES,
        forall|i: int| 0 <= i < reported@.len() ==> samples@.contains(#[trigger] reported@[i]),
        is_descending(reported@),
{
    proof {
        lemma_top_processes_are_ranked(samples@);
    }
    rank_top(samples, MAX_REPORTED_PROCESSES)
}

/// The score is processor use in percent plus memory in megabytes: a process
/// that takes `percent` percent and `megabytes` million bytes has a score of
/// `percent + megabytes` times [`SCORE_UNITS_PER_PERCENT`], and every
/// further byte and every further millionth of a percent adds one unit.
pub proof fn lemma_score_is_percent_plus_megabytes(
    entry: ProcessEntry,
    percent: nat,
    megabytes: nat,
)
    requires
        entry.cpu_millionths == percent * SCORE_UNITS_PER_PERCENT,
        entry.memory_bytes == megabytes * 1_000_000,
    ensures
        entry.spec_score() == (percent + megabytes) * SCORE_UNITS_PER_PERCENT,
        entry.spec_score() == entry.cpu_millionths + entry.memory_bytes,
{
}

/// What is reported is at most [`MAX_REPORTED_PROCESSES`] of the samples, in
/// descending order of score, and no sample that is left out has a higher
/// score than one that is reported.
pub proof fn lemma_top_processes_are_ranked(samples: Seq<ProcessEntry>)
    ensures
        top_processes(samples).len() == if samples.len() < MAX_REPORTED_PROCESSES {
            samples.len()
        } else {
            MAX_REPORTED_PROCESSES as nat
        },
        is_descending(top_processes(samples)),
        forall|i: int|
            0 <= i < top_processes(samples).len() ==> samples.contains(
                #[trigger] top_processes(samples)[i],
            ),
        forall|i: int, j: int|
            0 <= i < top_processes(samples).len() <= j < samples.len() ==> top_processes(
                samples,
            )[i].spec_score() >= ranked(samples)[j].spec_score(),
{
    lemma_ranked_len(samples);
    lemma_top_ranked_keeps_heaviest(samples, MAX_REPORTED_PROCESSES as nat);
    lemma_top_ranked_selects(samples, MAX_REPORTED_PROCESSES as nat);
}

/// The ranking is settled by what the samples say: two lists of samples that
/// say the same, one by one, are reported alike, ties included.
pub proof fn lemma_top_processes_are_reproducible(
    first: Seq<ProcessEntry>,
    second: Seq<ProcessEntry>,
)
    requires
        related_pairwise(first, second, same_samples()),
    ensures
        related_pairwise(top_processes(first), top_processes(second), same_samples()),
{
    lemma_top_ranked_follows_weights(
        first,
        second,
        same_samples(),
        MAX_REPORTED_PROCESSES as nat,
    );
}

} // verus!
