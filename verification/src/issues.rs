//! The issue state that the scanner and the interaction loop share.
//!
//! The state is the one thing that two threads touch, so it is kept small
//! and closed: it can be made, published to and read, and every value of it
//! is consistent. What is published is put in order beforehand, as a report,
//! so that the state is held only for as long as it takes to move the report
//! in or to copy a part out.

use vstd::prelude::*;
use crate::images::{ImageEntry, MAX_REPORTED_IMAGES};
use crate::processes::{rank_processes, top_processes, ProcessEntry, MAX_REPORTED_PROCESSES};
use crate::ranking::is_descending;
use crate::scan::{
    rank_caches, reported_caches, CacheEntry, MAX_REPORTED_CACHES, SIGNIFICANCE_FLOOR,
};

verus! {

/// Whether `caches` can be shown as the cache directories of a scan: at most
/// [`MAX_REPORTED_CACHES`], each above the significance floor, none smaller
/// than a later one.
pub open spec fn is_cache_ranking(caches: Seq<CacheEntry>) -> bool {
    &&& caches.len() <= MAX_REPORTED_CACHES
    &&& forall|i: int| 0 <= i < caches.len() ==> (#[trigger] caches[i]).size_bytes
        > SIGNIFICANCE_FLOOR
    &&& is_descending(caches)
}

/// Whether `processes` can be shown as the heaviest processes: at most
/// [`MAX_REPORTED_PROCESSES`], none with a lower score than a later one.
pub open spec fn is_process_ranking(processes: Seq<ProcessEntry>) -> bool {
    &&& processes.len() <= MAX_REPORTED_PROCESSES
    &&& is_descending(processes)
}

/// The first [`MAX_REPORTED_IMAGES`] of `images`, or all of them where there
/// are fewer.
pub open spec fn capped_images(images: Seq<ImageEntry>) -> Seq<ImageEntry> {
    if images.len() > MAX_REPORTED_IMAGES {
        images.take(MAX_REPORTED_IMAGES as int)
    } else {
        images
    }
}

/// The paths of `caches`, in their order.
pub open spec fn paths_of(caches: Seq<CacheEntry>) -> Seq<Seq<char>> {
    caches.map_values(|entry: CacheEntry| entry.path@)
}

/// The bytes that `caches` take together.
pub open spec fn bytes_of(caches: Seq<CacheEntry>) -> nat
    decreases caches.len(),
{
    if caches.len() == 0 {
        0
    } else {
        bytes_of(caches.drop_last()) + caches.last().size_bytes as nat
    }
}

/// What a list of paths holds, as text.
pub open spec fn texts_of(paths: Seq<String>) -> Seq<Seq<char>> {
    paths.map_values(|path: String| path@)
}

/// What an [`IssueState`] holds.
pub struct IssueView {
    pub caches: Seq<CacheEntry>,
    pub images: Seq<ImageEntry>,
    pub processes: Seq<ProcessEntry>,
    pub scanning: bool,
}

/// Whether a state of these contents is consistent: the caches and the
/// processes are rankings, the images are capped, and nothing of a scan is
/// shown while the scan is still running.
pub open spec fn is_consistent(view: IssueView) -> bool {
    &&& is_cache_ranking(view.caches)
    &&& view.images.len() <= MAX_REPORTED_IMAGES
    &&& is_process_ranking(view.processes)
    &&& view.scanning ==> view.caches.len() == 0 && view.images.len() == 0
}

/// The result of one scan, in the order in which it will be shown.
pub struct ScanReport {
    caches: Vec<CacheEntry>,
    images: Vec<ImageEntry>,
}

impl ScanReport {
    #[verifier::type_invariant]
    spec fn well_formed(self) -> bool {
        is_cache_ranking(self.caches@) && self.images@.len() <= MAX_REPORTED_IMAGES
    }

    /// The cache directories of the report.
    pub closed spec fn caches(self) -> Seq<CacheEntry> {
        self.caches@
    }

    /// The images of the report.
    pub closed spec fn images(self) -> Seq<ImageEntry> {
        self.images@
    }

    /// Puts the findings of a scan in order: of the cache directories found,
    /// those worth reporting, largest first; of the images, the first
    /// [`MAX_REPORTED_IMAGES`] in the order given.
    pub fn assemble(found: Vec<CacheEntry>, images: Vec<ImageEntry>) -> (report: ScanReport)
        ensures
            report.caches() == reported_caches(found@),
            report.images() == capped_images(images@),
            is_cache_ranking(report.caches()),
            report.images().len() <= MAX_REPORTED_IMAGES,
    {
        let caches = rank_caches(found);
        let mut images = images;
        images.truncate(MAX_REPORTED_IMAGES);
        ScanReport { caches, images }
    }
}

/// The heaviest processes of one sampling, in the order in which they will
/// be shown.
pub struct ProcessReport {
    processes: Vec<ProcessEntry>,
}

impl ProcessReport {
    #[verifier::type_invariant]
    spec fn well_formed(self) -> bool {
        is_process_ranking(self.processes@)
    }

    /// The processes of the report.
    pub closed spec fn processes(self) -> Seq<ProcessEntry> {
        self.processes@
    }

    /// Picks the processes to show from the samples of all processes.
    pub fn rank(samples: Vec<ProcessEntry>) -> (report: ProcessReport)
        ensures
            report.processes() == top_processes(samples@),
            is_process_ranking(report.processes()),
    {
        ProcessReport { processes: rank_processes(samples) }
    }
}

/// The issues that the dashboard shows, and whether the scan that finds
/// most of them is still running.
pub struct IssueState {
    caches: Vec<CacheEntry>,
    images: Vec<ImageEntry>,
    processes: Vec<ProcessEntry>,
    scanning: bool,
}

impl View for IssueState {
    type V = IssueView;

    closed spec fn view(&self) -> IssueView {
        IssueView {
            caches: self.caches@,
            images: self.images@,
            processes: self.processes@,
            scanning: self.scanning,
        }
    }
}

impl IssueState {
    #[verifier::type_invariant]
    spec fn well_formed(self) -> bool {
        is_consistent(self@)
    }

    /// The state at the start: nothing found yet, and the scan running.
    pub fn new() -> (state: IssueState)
        ensures
            state@.caches.len() == 0,
            state@.images.len() == 0,
            state@.processes.len() == 0,
            state@.scanning,
            is_consistent(state@),
    {
        IssueState {
            caches: Vec::new(),
            images: Vec::new(),
            processes: Vec::new(),
            scanning: true,
        }
    }

    /// Takes in the result of the scan and marks the scan as done. The
    /// processes stay as they are.
    pub fn publish_scan(&mut self, report: ScanReport)
        ensures
            final(self)@.caches == report.caches(),
            final(self)@.images == report.images(),
            final(self)@.processes == old(self)@.processes,
            !final(self)@.scanning,
            is_consistent(final(self)@),
    {
        proof {
            use_type_invariant(&*self);
            use_type_invariant(&report);
        }
        let ScanReport { caches, images } = report;
        self.scanning = false;
        self.caches = caches;
        self.images = images;
    }

    /// Takes in the heaviest processes of the latest sampling. What the scan
    /// found, and whether it is running, stay as they are.
    pub fn publish_processes(&mut self, report: ProcessReport)
        ensures
            final(self)@.processes == report.processes(),
            final(self)@.caches == old(self)@.caches,
            final(self)@.images == old(self)@.images,
            final(self)@.scanning == old(self)@.scanning,
            is_consistent(final(self)@),
    {
        proof {
            use_type_invariant(&*self);
            use_type_invariant(&report);
        }
        let ProcessReport { processes } = report;
        self.processes = processes;
    }

    /// Whether the scan is still running.
    pub fn is_scanning(&self) -> (scanning: bool)
        ensures
            scanning == self@.scanning,
    {
        self.scanning
    }

    /// The cache directories to show: a ranking, and empty while the scan is
    /// running.
    pub fn caches(&self) -> (caches: &Vec<CacheEntry>)
        ensures
            caches@ == self@.caches,
            is_cache_ranking(caches@),
            self@.scanning ==> caches@.len() == 0,
    {
        proof {
            use_type_invariant(self);
        }
        &self.caches
    }

    /// The images to show: at most [`MAX_REPORTED_IMAGES`], and none while
    /// the scan is running.
    pub fn images(&self) -> (images: &Vec<ImageEntry>)
        ensures
            images@ == self@.images,
            images@.len() <= MAX_REPORTED_IMAGES,
            self@.scanning ==> images@.len() == 0,
    {
        proof {
            use_type_invariant(self);
        }
        &self.images
    }

    /// The processes to show: a ranking.
    pub fn processes(&self) -> (processes: &Vec<ProcessEntry>)
        ensures
            processes@ == self@.processes,
            is_process_ranking(processes@),
    {
        proof {
            use_type_invariant(self);
        }
        &self.processes
    }

    /// How many processes are shown.
    pub fn process_count(&self) -> (count: usize)
        ensures
            count == self@.processes.len(),
            count <= MAX_REPORTED_PROCESSES,
    {
        proof {
            use_type_invariant(self);
        }
        self.processes.len()
    }

    /// The process id in row `index` of the processes shown, if there is
    /// such a row.
    pub fn process_pid(&self, index: usize) -> (pid: Option<u32>)
        ensures
            pid == if index < self@.processes.len() {
                Some(self@.processes[index as int].pid)
            } else {
                None
            },
    {
        if index < self.processes.len() {
            Some(self.processes[index].pid)
        } else {
            None
        }
    }

    /// The paths of the cache directories shown, in their order: what a
    /// cleanup of the caches deletes.
    pub fn cache_paths(&self) -> (paths: Vec<String>)
        ensures
            texts_of(paths@) == paths_of(self@.caches),
    {
        let mut paths: Vec<String> = Vec::new();
        let mut at: usize = 0;
        while at < self.caches.len()
            invariant
                at <= self.caches.len(),
                texts_of(paths@) == paths_of(self.caches@.take(at as int)),
            decreases self.caches.len() - at,
        {
            let path = self.caches[at].path.clone();
            proof {
                assert(texts_of(paths@.push(path)) =~= texts_of(paths@).push(path@));
                assert(paths_of(self.caches@.take(at + 1)) =~= paths_of(
                    self.caches@.take(at as int),
                ).push(self.caches@[at as int].path@));
            }
            paths.push(path);
            at = at + 1;
        }
        proof {
            assert(self.caches@.take(at as int) =~= self.caches@);
        }
        paths
    }

    /// The bytes that a cleanup of the caches would free: the sizes of the
    /// cache directories shown, added up.
    pub fn reclaimable_bytes(&self) -> (total: u128)
        ensures
            total == bytes_of(self@.caches),
    {
        proof {
            use_type_invariant(self);
        }
        let mut total: u128 = 0;
        let mut at: usize = 0;
        while at < self.caches.len()
            invariant
                at <= self.caches.len() <= MAX_REPORTED_CACHES,
                total == bytes_of(self.caches@.take(at as int)),
                total <= at * u64::MAX,
            decreases self.caches.len() - at,
        {
            proof {
                assert(self.caches@.take(at + 1).drop_last() =~= self.caches@.take(at as int));
            }
            total = total + self.caches[at].size_bytes as u128;
            at = at + 1;
        }
        proof {
            assert(self.caches@.take(at as int) =~= self.caches@);
        }
        total
    }

    /// A copy of the state, to be read after the state itself is let go.
    pub fn snapshot(&self) -> (copy: IssueState)
        ensures
            copy@ == self@,
            is_consistent(copy@),
    {
        proof {
            use_type_invariant(self);
        }
        let caches = self.caches.clone();
        let images = self.images.clone();
        let processes = self.processes.clone();
        proof {
            assert(caches@ =~= self.caches@);
            assert(images@ =~= self.images@);
            assert(processes@ =~= self.processes@);
        }
        IssueState { caches, images, processes, scanning: self.scanning }
    }
}

impl Default for IssueState {
    /// The state at the start, as [`IssueState::new`] makes it.
    fn default() -> (state: IssueState)
        ensures
            state@.caches.len() == 0,
            state@.images.len() == 0,
            state@.processes.len() == 0,
            state@.scanning,
    {
        IssueState::new()
    }
}

} // verus!
