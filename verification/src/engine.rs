//! The course of one scan, from its start to its result.
//!
//! A scan is idle, then starting, then running in one of two modes, and ends
//! by completing, by being cancelled or by failing. The engine keeps the
//! phase and the progress snapshot that goes with it. It reads no directory
//! and starts no thread: it is told what happened and says what follows.

use crate::disk::DiskInfo;
use crate::progress::{ScanProgress, ScanResult};
use crate::sort::{lemma_rearranged_keeps_sums, rearranged};
use crate::tree::DirNode;
use crate::walk::Tally;
use vstd::prelude::*;
use vstd::string::StringExecFns;

verus! {

/// How the tree is walked.
#[derive(Clone, Copy, Debug, PartialEq, Eq, Structural)]
pub enum ScanMode {
    /// Strictly depth first on one thread: for media that seek.
    Sequential,
    /// The entries of the topmost directories side by side, depth first
    /// below them: for solid-state media.
    Parallel,
}

/// The number of levels, counted from the directory a scan starts at, on
/// which a parallel scan hands the entries of a directory out side by side.
pub const FAN_OUT_LEVELS: usize = 2;

/// Where a scan stands.
#[derive(Clone, Copy, Debug, PartialEq, Eq, Structural)]
pub enum ScanPhase {
    Idle,
    Starting,
    Running(ScanMode),
    Completing,
    Cancelling,
    Failing,
    Terminal,
}

/// The mode that suits a volume.
pub open spec fn mode_for(disk: DiskInfo) -> ScanMode {
    if disk.prefer_parallel {
        ScanMode::Parallel
    } else {
        ScanMode::Sequential
    }
}

/// The message shown while a scan runs in `mode`.
pub open spec fn scanning_text(mode: ScanMode) -> Seq<char> {
    match mode {
        ScanMode::Parallel => "Scanning (parallel mode)..."@,
        ScanMode::Sequential => "Scanning (single-threaded mode)..."@,
    }
}

/// The snapshot with which a scan of a path on `disk` starts: nothing is
/// counted, the volume is noted, and the threads are those of the pool for a
/// parallel scan and one otherwise.
pub open spec fn starting(progress: ScanProgress, disk: DiskInfo, pool_threads: usize) -> bool {
    &&& progress.message@ == "Starting scan..."@
    &&& progress.current_path@.len() == 0
    &&& progress.counted() == (Tally { files: 0, dirs: 0, bytes: 0 })
    &&& progress.disk_size == disk.total_space
    &&& progress.disk_type@ == disk.kind_label@
    &&& progress.thread_count == if disk.prefer_parallel {
        pool_threads
    } else {
        1
    }
}

/// `shown` is `sorted` with its root expanded.
pub open spec fn expanded(sorted: DirNode, shown: DirNode) -> bool {
    &&& shown.is_expanded
    &&& shown.path == sorted.path
    &&& shown.name == sorted.name
    &&& shown.size == sorted.size
    &&& shown.is_file == sorted.is_file
    &&& shown.children == sorted.children
}

/// `shown` is the tree that a completed scan hands out for the tree `found`
/// that its traversal built: the same nodes, every directory's children
/// largest first, the root expanded.
pub open spec fn presented(found: DirNode, shown: DirNode) -> bool {
    &&& shown.ordered()
    &&& exists|sorted: DirNode| #[trigger] rearranged(found, sorted) && expanded(sorted, shown)
}

/// Whether a parallel scan hands out the entries of a directory that lies
/// `depth` levels below the start side by side.
pub fn fans_out(mode: ScanMode, depth: usize) -> (side_by_side: bool)
    ensures
        side_by_side == (mode == ScanMode::Parallel && depth < FAN_OUT_LEVELS),
{
    match mode {
        ScanMode::Parallel => depth < FAN_OUT_LEVELS,
        ScanMode::Sequential => false,
    }
}

/// Sorts a tree for display and expands its root.
pub fn finish_tree(found: DirNode) -> (shown: DirNode)
    ensures
        presented(found, shown),
{
    let mut tree = found;
    tree.sort_by_size();
    let ghost sorted = tree;
    tree.is_expanded = true;
    proof {
        assert(rearranged(found, sorted) && expanded(sorted, tree));
    }
    tree
}

/// A tree that is presented has the size and the counts of the tree that
/// was found, and its directory sizes add up if they did in that one.
pub proof fn lemma_presented_keeps_sums(found: DirNode, shown: DirNode)
    requires
        presented(found, shown),
    ensures
        shown.size == found.size,
        shown.file_count() == found.file_count(),
        shown.dir_count() == found.dir_count(),
        found.consistent() ==> shown.consistent(),
{
    let sorted = choose|sorted: DirNode| #[trigger]
        rearranged(found, sorted) && expanded(sorted, shown);
    lemma_rearranged_keeps_sums(found, sorted);
}

/// What a completed scan hands out adds up: if the tree that the traversal
/// built has directory sizes that are the sums of their children's, and
/// totals that describe it, then the same holds of the tree handed out, and
/// in that tree every directory's children stand largest first.
pub proof fn lemma_complete_tree_adds_up(found: DirNode, shown: DirNode, totals: Tally)
    requires
        found.consistent(),
        totals.describes(found),
        presented(found, shown),
    ensures
        shown.consistent(),
        shown.ordered(),
        totals.describes(shown),
{
    lemma_presented_keeps_sums(found, shown);
}

/// The engine as contracts see it.
pub struct EngineView {
    pub phase: ScanPhase,
    pub mode: ScanMode,
    pub progress: ScanProgress,
}

/// The phase of one scan with its progress snapshot.
pub struct ScanEngine {
    phase: ScanPhase,
    mode: ScanMode,
    progress: ScanProgress,
}

impl View for ScanEngine {
    type V = EngineView;

    closed spec fn view(&self) -> EngineView {
        EngineView { phase: self.phase, mode: self.mode, progress: self.progress }
    }
}

impl ScanEngine {
    /// An idle engine: no scan has started, so nothing is counted, nothing
    /// is known of a volume, there is no message, and the mode and the one
    /// thread are those of a sequential scan.
    pub fn new() -> (engine: ScanEngine)
        ensures
            engine@.phase is Idle,
            engine@.mode == ScanMode::Sequential,
            engine@.progress.message@ == Seq::<char>::empty(),
            engine@.progress.current_path@ == Seq::<char>::empty(),
            engine@.progress.counted() == (Tally { files: 0, dirs: 0, bytes: 0 }),
            engine@.progress.disk_size == 0,
            engine@.progress.disk_type@ == Seq::<char>::empty(),
            engine@.progress.thread_count == 1,
    {
        ScanEngine {
            phase: ScanPhase::Idle,
            mode: ScanMode::Sequential,
            progress: ScanProgress::default(),
        }
    }

    pub fn phase(&self) -> (phase: ScanPhase)
        ensures
            phase == self@.phase,
    {
        self.phase
    }

    pub fn progress(&self) -> (progress: &ScanProgress)
        ensures
            *progress == self@.progress,
    {
        &self.progress
    }

    /// Starts a scan, from idle or after an earlier scan has ended: the
    /// counters are reset, the volume is noted and the mode is chosen by
    /// its kind. `pool_threads` is the size of the worker pool; it counts
    /// only for a parallel scan. In any other phase nothing happens.
    pub fn start(&mut self, disk: &DiskInfo, pool_threads: usize) -> (started: bool)
        ensures
            started == (old(self)@.phase is Idle || old(self)@.phase is Terminal),
            started ==> {
                &&& final(self)@.phase is Starting
                &&& final(self)@.mode == mode_for(*disk)
                &&& starting(final(self)@.progress, *disk, pool_threads)
            },
            !started ==> final(self)@ == old(self)@,
    {
        match self.phase {
            ScanPhase::Idle | ScanPhase::Terminal => {},
            _ => {
                return false;
            },
        }
        self.phase = ScanPhase::Starting;
        self.mode = if disk.prefer_parallel {
            ScanMode::Parallel
        } else {
            ScanMode::Sequential
        };
        self.progress.message = "Starting scan...".to_owned();
        self.progress.current_path = String::new();
        self.progress.files_scanned = 0;
        self.progress.dirs_scanned = 0;
        self.progress.total_size = 0;
        self.progress.disk_size = disk.total_space;
        self.progress.disk_type = disk.kind_label.clone();
        self.progress.thread_count = if disk.prefer_parallel {
            pool_threads
        } else {
            1
        };
        true
    }

    /// Lets a starting scan run, or fail where the path to scan does not
    /// exist. A scan that runs is handed its mode. In any other phase
    /// nothing happens.
    pub fn launch(&mut self, root_exists: bool) -> (mode: Option<ScanMode>)
        ensures
            old(self)@.phase is Starting && root_exists ==> {
                &&& mode == Some(old(self)@.mode)
                &&& final(self)@.phase == ScanPhase::Running(old(self)@.mode)
                &&& final(self)@.mode == old(self)@.mode
                &&& final(self)@.progress.message@ == scanning_text(old(self)@.mode)
                &&& final(self)@.progress.same_but_message(old(self)@.progress)
            },
            old(self)@.phase is Starting && !root_exists ==> {
                &&& mode is None
                &&& final(self)@.phase is Failing
                &&& final(self)@.mode == old(self)@.mode
                &&& final(self)@.progress.message@ == "Error: Path does not exist"@
                &&& final(self)@.progress.same_but_message(old(self)@.progress)
            },
            !(old(self)@.phase is Starting) ==> mode is None && final(self)@ == old(self)@,
    {
        match self.phase {
            ScanPhase::Starting => {},
            _ => {
                return None;
            },
        }
        if !root_exists {
            self.phase = ScanPhase::Failing;
            self.progress.message = "Error: Path does not exist".to_owned();
            return None;
        }
        self.phase = ScanPhase::Running(self.mode);
        self.progress.message = match self.mode {
            ScanMode::Parallel => "Scanning (parallel mode)...".to_owned(),
            ScanMode::Sequential => "Scanning (single-threaded mode)...".to_owned(),
        };
        Some(self.mode)
    }

    /// Notes that the traversal of a running scan has ended, with a tree or
    /// without one. With a tree the scan goes on to complete, the counters
    /// are set to the exact totals and the message says that the tree is
    /// being sorted. Without one the scan was cancelled. In any other phase
    /// nothing happens.
    pub fn traversal_ended(&mut self, found: bool, totals: Tally)
        ensures
            old(self)@.phase is Running && found ==> {
                &&& final(self)@.phase is Completing
                &&& final(self)@.mode == old(self)@.mode
                &&& final(self)@.progress.counted() == totals
                &&& final(self)@.progress.message@ == "Sorting..."@
                &&& final(self)@.progress.current_path@ == old(self)@.progress.current_path@
                &&& final(self)@.progress.disk_size == old(self)@.progress.disk_size
                &&& final(self)@.progress.disk_type@ == old(self)@.progress.disk_type@
                &&& final(self)@.progress.thread_count == old(self)@.progress.thread_count
            },
            old(self)@.phase is Running && !found ==> {
                &&& final(self)@.phase is Cancelling
                &&& final(self)@.mode == old(self)@.mode
                &&& final(self)@.progress == old(self)@.progress
            },
            !(old(self)@.phase is Running) ==> final(self)@ == old(self)@,
    {
        match self.phase {
            ScanPhase::Running(_) => {},
            _ => {
                return ;
            },
        }
        if found {
            self.phase = ScanPhase::Completing;
            self.progress.record(totals);
            self.progress.message = "Sorting...".to_owned();
        } else {
            self.phase = ScanPhase::Cancelling;
        }
    }

    /// Ends the scan and hands out its result.
    ///
    /// A completing scan hands out the tree that was found, sorted and with
    /// its root expanded, and the message tells the time taken, which
    /// `elapsed` gives in seconds as it is to be shown. Without a tree to
    /// hand out it counts as cancelled. A scan that was cancelled hands out
    /// just that, and one that failed the reason. In any other phase there
    /// is no result yet and nothing happens.
    pub fn finish(&mut self, found: Option<DirNode>, elapsed: &str) -> (result: ScanResult)
        ensures
            old(self)@.phase is Completing ==> final(self)@.phase is Terminal && match found {
                Some(tree) => {
                    &&& result matches ScanResult::Complete(shown) && presented(tree, shown)
                    &&& final(self)@.progress.message@ == "Complete in "@ + elapsed@ + "s"@
                    &&& final(self)@.progress.same_but_message(old(self)@.progress)
                },
                None => result is Cancelled && final(self)@.progress == old(self)@.progress,
            },
            old(self)@.phase is Cancelling ==> {
                &&& result is Cancelled
                &&& final(self)@.phase is Terminal
                &&& final(self)@.progress == old(self)@.progress
            },
            old(self)@.phase is Failing ==> {
                &&& result matches ScanResult::Error(reason) && reason@ == "Path does not exist"@
                &&& final(self)@.phase is Terminal
                &&& final(self)@.progress == old(self)@.progress
            },
            !(old(self)@.phase is Completing || old(self)@.phase is Cancelling
                || old(self)@.phase is Failing)
                ==> result is InProgress && final(self)@ == old(self)@,
            final(self)@.mode == old(self)@.mode,
    {
        match self.phase {
            ScanPhase::Completing => {
                self.phase = ScanPhase::Terminal;
                match found {
                    Some(tree) => {
                        let shown = finish_tree(tree);
                        let mut message = "Complete in ".to_owned();
                        message.append(elapsed);
                        message.append("s");
                        self.progress.message = message;
                        ScanResult::Complete(shown)
                    },
                    None => ScanResult::Cancelled,
                }
            },
            ScanPhase::Cancelling => {
                self.phase = ScanPhase::Terminal;
                ScanResult::Cancelled
            },
            ScanPhase::Failing => {
                self.phase = ScanPhase::Terminal;
                ScanResult::Error("Path does not exist".to_owned())
            },
            _ => ScanResult::InProgress,
        }
    }
}

} // verus!
