//! The progress of a scan as a poller sees it, and the result of a scan.

use crate::tree::DirNode;
use crate::walk::Tally;
use vstd::prelude::*;

verus! {

/// A snapshot of the progress of a scan.
///
/// The three counters never go down within one scan. The capacity and kind
/// of the volume and the number of threads are set when the scan starts and
/// stay as they are. A capacity of zero means that it is not known.
pub struct ScanProgress {
    pub message: String,
    pub current_path: String,
    pub files_scanned: usize,
    pub dirs_scanned: usize,
    pub total_size: u64,
    pub disk_size: u64,
    pub disk_type: String,
    pub thread_count: usize,
}

/// How a scan ended, or that it has not ended yet.
pub enum ScanResult {
    /// No result yet.
    InProgress,
    /// The scan ran to its end and found this tree.
    Complete(DirNode),
    /// The scan was cancelled; nothing of what it found is kept.
    Cancelled,
    /// The scan could not start.
    Error(String),
}

impl ScanResult {
    /// The scan is over.
    pub open spec fn terminal(self) -> bool {
        !(self is InProgress)
    }

    /// Whether the scan is over.
    pub fn is_terminal(&self) -> (over: bool)
        ensures
            over == self.terminal(),
    {
        match self {
            ScanResult::InProgress => false,
            _ => true,
        }
    }
}

impl Default for ScanProgress {
    /// The progress before any scan: nothing counted, nothing known of the
    /// volume, one thread.
    fn default() -> (progress: Self)
        ensures
            progress.message@.len() == 0,
            progress.current_path@.len() == 0,
            progress.files_scanned == 0,
            progress.dirs_scanned == 0,
            progress.total_size == 0,
            progress.disk_size == 0,
            progress.disk_type@.len() == 0,
            progress.thread_count == 1,
    {
        ScanProgress {
            message: String::new(),
            current_path: String::new(),
            files_scanned: 0,
            dirs_scanned: 0,
            total_size: 0,
            disk_size: 0,
            disk_type: String::new(),
            thread_count: 1,
        }
    }
}

impl ScanProgress {
    /// The counters as totals.
    pub open spec fn counted(self) -> Tally {
        Tally { files: self.files_scanned, dirs: self.dirs_scanned, bytes: self.total_size }
    }

    /// Everything but the counters is the same in both snapshots.
    pub open spec fn same_setting(self, other: ScanProgress) -> bool {
        &&& self.message@ == other.message@
        &&& self.current_path@ == other.current_path@
        &&& self.disk_size == other.disk_size
        &&& self.disk_type@ == other.disk_type@
        &&& self.thread_count == other.thread_count
    }

    /// Everything but the message is the same in both snapshots.
    pub open spec fn same_but_message(self, other: ScanProgress) -> bool {
        &&& self.counted() == other.counted()
        &&& self.current_path@ == other.current_path@
        &&& self.disk_size == other.disk_size
        &&& self.disk_type@ == other.disk_type@
        &&& self.thread_count == other.thread_count
    }

    /// A copy of the snapshot.
    pub fn snapshot(&self) -> (copy: ScanProgress)
        ensures
            copy.counted() == self.counted(),
            copy.same_setting(*self),
    {
        ScanProgress {
            message: self.message.clone(),
            current_path: self.current_path.clone(),
            files_scanned: self.files_scanned,
            dirs_scanned: self.dirs_scanned,
            total_size: self.total_size,
            disk_size: self.disk_size,
            disk_type: self.disk_type.clone(),
            thread_count: self.thread_count,
        }
    }

    /// Copies the counters of a running scan into the snapshot.
    pub fn record(&mut self, tally: Tally)
        ensures
            final(self).counted() == tally,
            final(self).same_setting(*old(self)),
    {
        self.files_scanned = tally.files;
        self.dirs_scanned = tally.dirs;
        self.total_size = tally.bytes;
    }

    /// Notes that the user asked for the scan to stop.
    pub fn mark_cancelled(&mut self)
        ensures
            final(self).message@ == "Scan cancelled"@,
            final(self).same_but_message(*old(self)),
    {
        self.message = "Scan cancelled".to_owned();
    }

    /// The part of the capacity that is scanned, as a pair of counter and
    /// denominator for whoever shows a percentage: the bytes scanned, at
    /// most the capacity, over the capacity. There is none where the
    /// capacity is not known.
    pub fn scanned_share(&self) -> (share: Option<(u64, u64)>)
        ensures
            self.disk_size == 0 ==> share is None,
            self.disk_size > 0 ==> share == Some(
                (
                    if self.total_size <= self.disk_size {
                        self.total_size
                    } else {
                        self.disk_size
                    },
                    self.disk_size,
                ),
            ),
    {
        if self.disk_size == 0 {
            None
        } else if self.total_size <= self.disk_size {
            Some((self.total_size, self.disk_size))
        } else {
            Some((self.disk_size, self.disk_size))
        }
    }
}

/// Takes the result of a scan out of the place where the scan leaves it. A
/// result is handed out only when the scan is over: until then the place is
/// left as it is and nothing is handed out.
pub fn take_outcome(slot: &mut Option<ScanResult>) -> (taken: Option<ScanResult>)
    ensures
        match *old(slot) {
            Some(result) if result.terminal() => taken == Some(result) && *final(slot) is None,
            _ => taken is None && *final(slot) == *old(slot),
        },
{
    let ready = match slot {
        Some(result) => result.is_terminal(),
        None => false,
    };
    if ready {
        slot.take()
    } else {
        None
    }
}

} // verus!
