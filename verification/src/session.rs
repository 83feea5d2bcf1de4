//! What the viewer of a scan keeps between scans: the tree on display, the
//! selection, and whether a scan is under way.

use crate::disk::{all_as_reported, as_reported, kind_text, mounted_volumes, DiskKind, Volume};
use crate::progress::{take_outcome, ScanResult};
use crate::prune::pruned;
use crate::text::same_text;
use crate::tree::DirNode;
use vstd::prelude::*;

verus! {

/// A drive as the path chooser lists it.
pub struct DriveInfo {
    pub path: String,
    pub size: u64,
    pub kind: String,
}

/// The most children of one directory that are shown at a time.
pub const MAX_VISIBLE_CHILDREN: usize = 200;

/// What a look for the result of a scan brought.
pub enum Polled {
    /// No scan is awaited, or the scan has left no result yet.
    Nothing,
    /// The scan completed and its tree is on display.
    Completed,
    /// The scan was cancelled.
    Cancelled,
    /// The scan could not start, for this reason.
    Failed(String),
}

/// The state of the viewer.
pub struct Session {
    pub root_node: Option<DirNode>,
    pub selected_path: Option<String>,
    pub is_scanning: bool,
    pub last_scan_size: u64,
}

/// The drives that a sequence of volumes brings to the path chooser: one for
/// each volume whose mount point is text, in the order of the volumes.
pub open spec fn listed(volumes: Seq<Volume>) -> Seq<(Seq<char>, u64, Seq<char>)>
    decreases volumes.len(),
{
    if volumes.len() == 0 {
        Seq::empty()
    } else {
        let head = listed(volumes.drop_last());
        match volumes.last().mount_point {
            Some(mount_point) => head.push(
                (mount_point@, volumes.last().total_space, volumes.last().kind_label@),
            ),
            None => head,
        }
    }
}

/// The drives as contracts see them: path, size and kind of each.
pub open spec fn drives_view(drives: Seq<DriveInfo>) -> Seq<(Seq<char>, u64, Seq<char>)> {
    drives.map_values(|drive: DriveInfo| (drive.path@, drive.size, drive.kind@))
}

/// The drives that the path chooser lists for the given volumes.
pub fn drives_of(volumes: &Vec<Volume>) -> (drives: Vec<DriveInfo>)
    ensures
        drives_view(drives@) == listed(volumes@),
{
    let mut drives: Vec<DriveInfo> = Vec::new();
    let mut i: usize = 0;
    proof {
        assert(drives_view(drives@) =~= listed(volumes@.subrange(0, 0)));
    }
    while i < volumes.len()
        invariant
            i <= volumes@.len(),
            drives_view(drives@) == listed(volumes@.subrange(0, i as int)),
        decreases volumes@.len() - i,
    {
        let volume = &volumes[i];
        let ghost before = drives@;
        proof {
            assert(volumes@.subrange(0, i + 1).drop_last() =~= volumes@.subrange(0, i as int));
        }
        match &volume.mount_point {
            Some(mount_point) => {
                let drive = DriveInfo {
                    path: mount_point.clone(),
                    size: volume.total_space,
                    kind: volume.kind_label.clone(),
                };
                drives.push(drive);
                proof {
                    assert(drives_view(drives@) =~= drives_view(before).push(
                        (drive.path@, drive.size, drive.kind@),
                    ));
                }
            },
            None => {},
        }
        i += 1;
    }
    proof {
        assert(volumes@.subrange(0, i as int) =~= volumes@);
    }
    drives
}

/// The drives that the path chooser lists for the volumes that are mounted
/// now.
///
/// Which volumes are mounted is the system's answer. Whatever it is, the
/// drives are those that `listed` gives for it: one for each volume whose
/// mount point is text, in the order of the volumes, each with the volume's
/// capacity and with the text that names the volume's kind.
pub fn available_drives() -> (drives: Vec<DriveInfo>)
    ensures
        exists|volumes: Seq<Volume>|
            all_as_reported(volumes) && drives_view(drives@) == #[trigger] listed(volumes),
        forall|i: int|
            0 <= i < drives@.len() ==> exists|kind: DiskKind|
                (#[trigger] drives@[i]).kind@ == kind_text(kind),
{
    let volumes = mounted_volumes();
    let drives = drives_of(&volumes);
    proof {
        lemma_listed_kinds(volumes@);
        assert forall|i: int| 0 <= i < drives@.len() implies exists|kind: DiskKind|
            (#[trigger] drives@[i]).kind@ == kind_text(kind) by {
            assert(drives_view(drives@)[i] == listed(volumes@)[i]);
            let kind = choose|kind: DiskKind| listed(volumes@)[i].2 == kind_text(kind);
            assert(drives@[i].kind@ == kind_text(kind));
        }
    }
    drives
}

/// The drives that volumes bring which are labelled with the texts that
/// name their kinds all carry such a text.
proof fn lemma_listed_kinds(volumes: Seq<Volume>)
    requires
        all_as_reported(volumes),
    ensures
        forall|i: int|
            0 <= i < listed(volumes).len() ==> exists|kind: DiskKind|
                (#[trigger] listed(volumes)[i]).2 == kind_text(kind),
    decreases volumes.len(),
{
    if volumes.len() > 0 {
        let head = volumes.drop_last();
        assert forall|i: int| 0 <= i < head.len() implies as_reported(#[trigger] head[i]) by {
            assert(head[i] == volumes[i]);
        }
        lemma_listed_kinds(head);
        assert(as_reported(volumes[volumes.len() - 1]));
        assert forall|i: int| 0 <= i < listed(volumes).len() implies exists|kind: DiskKind|
            (#[trigger] listed(volumes)[i]).2 == kind_text(kind) by {
            if i < listed(head).len() {
                assert(listed(volumes)[i] == listed(head)[i]);
            } else {
                assert(listed(volumes)[i].2 == kind_text(volumes.last().kind));
            }
        }
    }
}

/// The path that the chooser starts with: the one scanned last, else the
/// first drive, else `C:\`.
pub fn default_scan_path(last_path: Option<String>, drives: &Vec<DriveInfo>) -> (path: String)
    ensures
        path@ == match last_path {
            Some(last) => last@,
            None => if drives@.len() > 0 {
                drives@[0].path@
            } else {
                "C:\\"@
            },
        },
{
    match last_path {
        Some(last) => last,
        None => if drives.len() > 0 {
            drives[0].path.clone()
        } else {
            "C:\\".to_owned()
        },
    }
}

/// How many of `total` children are shown and how many are only counted.
pub fn visible_children(total: usize) -> (split: (usize, usize))
    ensures
        split.0 + split.1 == total,
        split.0 == if total <= MAX_VISIBLE_CHILDREN {
            total
        } else {
            MAX_VISIBLE_CHILDREN
        },
{
    if total > MAX_VISIBLE_CHILDREN {
        (MAX_VISIBLE_CHILDREN, total - MAX_VISIBLE_CHILDREN)
    } else {
        (total, 0)
    }
}

impl DirNode {
    /// Whether the node can be opened and closed: a directory that has
    /// children can.
    pub fn can_expand(&self) -> (can: bool)
        ensures
            can == (!self.is_file && self.children@.len() > 0),
    {
        !self.is_file && self.children.len() > 0
    }

    /// Opens the node if it is closed and closes it if it is open, where it
    /// can be opened at all.
    pub fn toggle_expanded(&mut self)
        ensures
            final(self).is_expanded == if !old(self).is_file && old(self).children@.len() > 0 {
                !old(self).is_expanded
            } else {
                old(self).is_expanded
            },
            final(self).path == old(self).path,
            final(self).name == old(self).name,
            final(self).size == old(self).size,
            final(self).is_file == old(self).is_file,
            final(self).children == old(self).children,
    {
        if self.can_expand() {
            self.is_expanded = !self.is_expanded;
        }
    }
}

impl Session {
    /// The viewer before any scan.
    pub fn new() -> (session: Session)
        ensures
            session.root_node is None,
            session.selected_path is None,
            !session.is_scanning,
            session.last_scan_size == 0,
    {
        Session { root_node: None, selected_path: None, is_scanning: false, last_scan_size: 0 }
    }

    /// A scan starts: the tree on display goes.
    pub fn start_scan(&mut self)
        ensures
            final(self).is_scanning,
            final(self).root_node is None,
            final(self).selected_path == old(self).selected_path,
            final(self).last_scan_size == old(self).last_scan_size,
    {
        self.is_scanning = true;
        self.root_node = None;
    }

    /// The user stops the scan: the viewer no longer waits for a result.
    pub fn stop_scan(&mut self)
        ensures
            !final(self).is_scanning,
            final(self).root_node == old(self).root_node,
            final(self).selected_path == old(self).selected_path,
            final(self).last_scan_size == old(self).last_scan_size,
    {
        self.is_scanning = false;
    }

    /// Takes in what was found in the place where a scan leaves its result.
    ///
    /// A tree goes on display and its size is noted; a scan that was
    /// cancelled or failed leaves the display as it is and the size at
    /// zero. With any of these the scan is over. What is no result yet is
    /// handed back to be put where it was, and nothing changes.
    pub fn receive(&mut self, outcome: ScanResult) -> (put_back: Option<ScanResult>)
        ensures
            final(self).selected_path == old(self).selected_path,
            match outcome {
                ScanResult::Complete(tree) => {
                    &&& put_back is None
                    &&& !final(self).is_scanning
                    &&& final(self).last_scan_size == tree.size
                    &&& final(self).root_node == Some(tree)
                },
                ScanResult::Cancelled | ScanResult::Error(_) => {
                    &&& put_back is None
                    &&& !final(self).is_scanning
                    &&& final(self).last_scan_size == 0
                    &&& final(self).root_node == old(self).root_node
                },
                ScanResult::InProgress => {
                    &&& put_back == Some(ScanResult::InProgress)
                    &&& *final(self) == *old(self)
                },
            },
    {
        match outcome {
            ScanResult::Complete(tree) => {
                self.is_scanning = false;
                self.last_scan_size = tree.size;
                self.root_node = Some(tree);
                None
            },
            ScanResult::Cancelled => {
                self.is_scanning = false;
                self.last_scan_size = 0;
                None
            },
            ScanResult::Error(_) => {
                self.is_scanning = false;
                self.last_scan_size = 0;
                None
            },
            ScanResult::InProgress => Some(ScanResult::InProgress),
        }
    }

    /// Looks into the place where a scan leaves its result, and takes the
    /// result in if there is one.
    ///
    /// While no scan is awaited the place is left alone and nothing changes.
    /// The same holds while the place is empty or holds what is no result
    /// yet. A result is taken out of the place and taken in as `receive`
    /// says: the scan is over, and a tree goes on display.
    pub fn poll(&mut self, slot: &mut Option<ScanResult>) -> (polled: Polled)
        ensures
            final(self).selected_path == old(self).selected_path,
            match *old(slot) {
                Some(ScanResult::Complete(tree)) if old(self).is_scanning => {
                    &&& polled is Completed
                    &&& *final(slot) is None
                    &&& !final(self).is_scanning
                    &&& final(self).last_scan_size == tree.size
                    &&& final(self).root_node == Some(tree)
                },
                Some(ScanResult::Cancelled) if old(self).is_scanning => {
                    &&& polled is Cancelled
                    &&& *final(slot) is None
                    &&& !final(self).is_scanning
                    &&& final(self).last_scan_size == 0
                    &&& final(self).root_node == old(self).root_node
                },
                Some(ScanResult::Error(reason)) if old(self).is_scanning => {
                    &&& polled == Polled::Failed(reason)
                    &&& *final(slot) is None
                    &&& !final(self).is_scanning
                    &&& final(self).last_scan_size == 0
                    &&& final(self).root_node == old(self).root_node
                },
                _ => {
                    &&& polled is Nothing
                    &&& *final(slot) == *old(slot)
                    &&& *final(self) == *old(self)
                },
            },
    {
        if !self.is_scanning {
            return Polled::Nothing;
        }
        match take_outcome(slot) {
            None => Polled::Nothing,
            Some(ScanResult::Complete(tree)) => {
                let _ = self.receive(ScanResult::Complete(tree));
                Polled::Completed
            },
            Some(ScanResult::Cancelled) => {
                let _ = self.receive(ScanResult::Cancelled);
                Polled::Cancelled
            },
            Some(ScanResult::Error(reason)) => {
                let told = reason.clone();
                let _ = self.receive(ScanResult::Error(reason));
                Polled::Failed(told)
            },
            Some(ScanResult::InProgress) => Polled::Nothing,
        }
    }

    /// Takes what lies at `path` out of the tree on display.
    ///
    /// If the tree's root is at `path`, the tree goes and nothing is
    /// selected any more. Otherwise every node at `path` goes, with what
    /// hangs below it, and the selection goes if it was `path`. Without a
    /// tree nothing changes.
    pub fn remove_from_tree(&mut self, path: &str)
        ensures
            final(self).is_scanning == old(self).is_scanning,
            final(self).last_scan_size == old(self).last_scan_size,
            match old(self).root_node {
                None => *final(self) == *old(self),
                Some(root) => if root.path@ == path@ {
                    final(self).root_node is None && final(self).selected_path is None
                } else {
                    &&& final(self).root_node matches Some(left) && pruned(root, path@, left)
                    &&& final(self).selected_path == match old(self).selected_path {
                        Some(selected) if selected@ != path@ => Some(selected),
                        _ => None,
                    }
                },
            },
    {
        match self.root_node.take() {
            None => {},
            Some(root) => {
                if same_text(root.path.as_str(), path) {
                    self.selected_path = None;
                } else {
                    let mut left = root;
                    left.remove_path(path);
                    self.root_node = Some(left);
                    let drop_selection = match &self.selected_path {
                        Some(selected) => same_text(selected.as_str(), path),
                        None => false,
                    };
                    if drop_selection {
                        self.selected_path = None;
                    }
                }
            },
        }
    }
}

} // verus!
