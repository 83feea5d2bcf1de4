//! The depth-first traversal as a state machine.
//!
//! A `Walker` never touches the file system. It says what has to be read
//! next, is told what the reading brought, and builds the size tree from
//! that. Whoever drives it polls the cancellation token before each reading
//! and reports a request to cancel in place of the reading's result.

use crate::tree::{
    dirs_in, files_in, lemma_sums_push, lemma_total_size_nonnegative, total_size, DirNode,
};
use vstd::prelude::*;

verus! {

/// Running totals of a traversal: the files and directories that became
/// nodes, and the bytes of those files. The directory a traversal starts at
/// is not counted.
#[derive(Clone, Copy, Debug, PartialEq, Eq)]
pub struct Tally {
    pub files: usize,
    pub dirs: usize,
    pub bytes: u64,
}

impl Tally {
    /// The totals say exactly what the tree below `root` holds.
    pub open spec fn describes(self, root: DirNode) -> bool {
        &&& self.files == root.file_count()
        &&& self.dirs + 1 == root.dir_count()
        &&& self.bytes == root.size
    }

    /// No total of `earlier` is larger than the same total here.
    pub open spec fn at_least(self, earlier: Tally) -> bool {
        &&& self.files >= earlier.files
        &&& self.dirs >= earlier.dirs
        &&& self.bytes >= earlier.bytes
    }
}

/// What the driver reports back to a walker.
pub enum Event {
    /// The cancellation token was found set; nothing was read.
    CancelRequested,
    /// The directory asked for could be opened for listing.
    Opened,
    /// The directory asked for could not be read.
    OpenFailed,
    /// The listing brought a directory that is no link.
    Directory { path: String, name: String },
    /// The listing brought a regular file of `size` bytes.
    File { path: String, name: String, size: u64 },
    /// The listing brought something that is neither a regular file nor a
    /// directory, such as a symbolic link.
    Other,
    /// The listing brought an entry that could not be read or classified.
    Unreadable,
    /// The listing is exhausted.
    EndOfDirectory,
}

/// What a walker asks its driver to do next.
pub enum Step {
    /// Open the directory that was entered last.
    OpenDirectory,
    /// Fetch the next entry of the directory being listed.
    NextEntry,
    /// Stop: the traversal ended with this tree, or without one if it was
    /// cancelled.
    Finish(Option<DirNode>),
}

/// Where a walker stands.
#[derive(Clone, Copy, Debug, PartialEq, Eq)]
pub enum Phase {
    /// A directory was entered and waits to be opened.
    Opening,
    /// A directory is open and its entries are coming in.
    Listing,
    /// The traversal has ended.
    Finished,
}

/// A walker as contracts see it.
pub struct WalkerView {
    /// The directories entered and not yet left, outermost first, each with
    /// the children it has so far.
    pub frames: Seq<DirNode>,
    pub phase: Phase,
    pub tally: Tally,
}

/// `grown` is the directory `parent` after `child` was hung below it.
pub open spec fn adopted(parent: DirNode, child: DirNode, grown: DirNode) -> bool {
    &&& grown.path == parent.path
    &&& grown.name == parent.name
    &&& grown.is_file == parent.is_file
    &&& grown.is_expanded == parent.is_expanded
    &&& grown.size == parent.size + child.size
    &&& grown.children@ == parent.children@.push(child)
}

/// `node` is a fresh node with these properties and without children.
pub open spec fn fresh(node: DirNode, path: Seq<char>, name: Seq<char>, size: u64, is_file: bool) -> bool {
    &&& node.path@ == path
    &&& node.name@ == name
    &&& node.size == size
    &&& node.is_file == is_file
    &&& !node.is_expanded
    &&& node.children@.len() == 0
}

/// The innermost open directory is left: it becomes the last child of the
/// directory around it and counts as one directory, or, if it is the
/// outermost, it is the result of the traversal.
pub open spec fn leaves(before: WalkerView, after: WalkerView, next: Step) -> bool {
    let done = before.frames.last();
    if before.frames.len() == 1 {
        &&& after.frames.len() == 0
        &&& after.phase == Phase::Finished
        &&& after.tally == before.tally
        &&& next == Step::Finish(Some(done))
    } else {
        let parent = before.frames[before.frames.len() - 2];
        &&& after.frames.len() == before.frames.len() - 1
        &&& after.frames.drop_last() == before.frames.subrange(0, before.frames.len() - 2)
        &&& adopted(parent, done, after.frames.last())
        &&& after.phase == Phase::Listing
        &&& after.tally == (Tally { dirs: (before.tally.dirs + 1) as usize, ..before.tally })
        &&& next == Step::NextEntry
    }
}

/// Nothing changes and the walker asks for an entry of the open directory.
pub open spec fn passes_over(before: WalkerView, after: WalkerView, next: Step) -> bool {
    after == before && next == Step::NextEntry
}

/// The step a walker takes from `before` on `event`.
pub open spec fn advances(before: WalkerView, event: Event, after: WalkerView, next: Step) -> bool {
    match (before.phase, event) {
        (Phase::Finished, _) => after == before && next == Step::Finish(None),
        (_, Event::CancelRequested) => {
            &&& after.frames.len() == 0
            &&& after.phase == Phase::Finished
            &&& after.tally == before.tally
            &&& next == Step::Finish(None)
        },
        (Phase::Opening, Event::Opened) => {
            &&& after == (WalkerView { phase: Phase::Listing, ..before })
            &&& next == Step::NextEntry
        },
        (Phase::Opening, Event::OpenFailed) => leaves(before, after, next),
        (Phase::Opening, _) => after == before && next == Step::OpenDirectory,
        (Phase::Listing, Event::EndOfDirectory) => leaves(before, after, next),
        (Phase::Listing, Event::Directory { path, name }) => {
            &&& after.frames.drop_last() == before.frames
            &&& after.frames.len() == before.frames.len() + 1
            &&& fresh(after.frames.last(), path@, name@, 0, false)
            &&& after.phase == Phase::Opening
            &&& after.tally == before.tally
            &&& next == Step::OpenDirectory
        },
        (Phase::Listing, Event::File { path, name, size }) => {
            &&& after.frames.len() == before.frames.len()
            &&& after.frames.drop_last() == before.frames.drop_last()
            &&& exists|file: DirNode|
                fresh(file, path@, name@, size, true) && #[trigger] adopted(
                    before.frames.last(),
                    file,
                    after.frames.last(),
                )
            &&& after.phase == Phase::Listing
            &&& after.tally == (Tally {
                files: (before.tally.files + 1) as usize,
                bytes: (before.tally.bytes + size) as u64,
                ..before.tally
            })
            &&& next == Step::NextEntry
        },
        (Phase::Listing, Event::Other) => passes_over(before, after, next),
        (Phase::Listing, Event::Unreadable) => passes_over(before, after, next),
        (Phase::Listing, _) => passes_over(before, after, next),
    }
}

/// The state of one depth-first traversal.
pub struct Walker {
    frames: Vec<DirNode>,
    phase: Phase,
    tally: Tally,
}

impl View for Walker {
    type V = WalkerView;

    closed spec fn view(&self) -> WalkerView {
        WalkerView { frames: self.frames@, phase: self.phase, tally: self.tally }
    }
}

/// The state of a walker is one that a traversal can reach: directories are
/// open exactly while it runs, each is a directory whose size is the sum of
/// its children's, one that waits to be opened is empty, and while the
/// traversal runs the totals count what hangs in the open directories.
pub open spec fn well_formed(w: WalkerView) -> bool {
    &&& w.phase == Phase::Finished <==> w.frames.len() == 0
    &&& forall|i: int|
        0 <= i < w.frames.len() ==> !(#[trigger] w.frames[i]).is_file && w.frames[i].consistent()
    &&& w.phase == Phase::Opening ==> w.frames.last().size == 0 && w.frames.last().children@.len()
        == 0
    &&& w.phase != Phase::Finished ==> {
        &&& w.tally.bytes == total_size(w.frames)
        &&& w.tally.files == files_in(w.frames)
        &&& w.tally.dirs + w.frames.len() == dirs_in(w.frames)
    }
}

/// The totals have room for what `event` adds to them.
pub open spec fn has_room(w: WalkerView, event: Event) -> bool {
    match event {
        Event::File { path, name, size } => w.phase == Phase::Listing ==> w.tally.files
            < usize::MAX && w.tally.bytes + size <= u64::MAX,
        Event::OpenFailed => w.phase == Phase::Opening && w.frames.len() > 1 ==> w.tally.dirs
            < usize::MAX,
        Event::EndOfDirectory => w.phase == Phase::Listing && w.frames.len() > 1 ==> w.tally.dirs
            < usize::MAX,
        _ => true,
    }
}

impl Walker {
    /// A walker that has entered the directory a traversal starts at and
    /// waits for it to be opened.
    pub fn new(path: String, name: String) -> (walker: Walker)
        ensures
            well_formed(walker@),
            walker@.phase == Phase::Opening,
            walker@.frames.len() == 1,
            fresh(walker@.frames[0], path@, name@, 0, false),
            walker@.tally == (Tally { files: 0, dirs: 0, bytes: 0 }),
    {
        let root = DirNode::new(path, name, 0, false);
        let mut frames: Vec<DirNode> = Vec::new();
        frames.push(root);
        proof {
            lemma_sums_push(Seq::<DirNode>::empty(), root);
            assert(frames@ =~= Seq::<DirNode>::empty().push(root));
            assert(files_in(root.children@) == 0);
            assert(dirs_in(root.children@) == 0);
            assert(total_size(root.children@) == 0);
        }
        Walker { frames, phase: Phase::Opening, tally: Tally { files: 0, dirs: 0, bytes: 0 } }
    }

    /// The totals so far.
    pub fn tally(&self) -> (tally: Tally)
        ensures
            tally == self@.tally,
    {
        self.tally
    }

    /// Where the walker stands.
    pub fn phase(&self) -> (phase: Phase)
        ensures
            phase == self@.phase,
    {
        self.phase
    }

    /// How many directories are entered and not yet left.
    pub fn depth(&self) -> (depth: usize)
        ensures
            depth == self@.frames.len(),
    {
        self.frames.len()
    }

    /// Whether the totals have room for what `event` adds to them.
    pub fn has_room(&self, event: &Event) -> (room: bool)
        ensures
            room == has_room(self@, *event),
    {
        let listing = match self.phase {
            Phase::Listing => true,
            _ => false,
        };
        let opening = match self.phase {
            Phase::Opening => true,
            _ => false,
        };
        match event {
            Event::File { path: _, name: _, size } => !listing || (self.tally.files < usize::MAX
                && *size <= u64::MAX - self.tally.bytes),
            Event::OpenFailed => !(opening && self.frames.len() > 1) || self.tally.dirs
                < usize::MAX,
            Event::EndOfDirectory => !(listing && self.frames.len() > 1) || self.tally.dirs
                < usize::MAX,
            _ => true,
        }
    }

    /// Leaves the innermost open directory.
    fn leave(&mut self) -> (next: Step)
        requires
            well_formed(old(self)@),
            old(self)@.phase != Phase::Finished,
            old(self)@.frames.len() > 1 ==> old(self)@.tally.dirs < usize::MAX,
        ensures
            well_formed(final(self)@),
            leaves(old(self)@, final(self)@, next),
    {
        let ghost before = self.frames@;
        let done = self.frames.pop().unwrap();
        proof {
            assert(before =~= self.frames@.push(done));
            lemma_sums_push(self.frames@, done);
        }
        if self.frames.len() == 0 {
            self.phase = Phase::Finished;
            Step::Finish(Some(done))
        } else {
            let ghost rest = self.frames@;
            let mut parent = self.frames.pop().unwrap();
            let ghost outer = self.frames@;
            let ghost parent_before = parent;
            proof {
                assert(rest =~= outer.push(parent));
                lemma_sums_push(outer, parent);
                lemma_total_size_nonnegative(outer);
                assert(before[before.len() - 2] == parent);
                assert(outer =~= before.subrange(0, before.len() - 2));
            }
            parent.add_child(done);
            proof {
                lemma_sums_push(parent_before.children@, done);
                lemma_sums_push(outer, parent);
            }
            self.frames.push(parent);
            self.tally.dirs = self.tally.dirs + 1;
            self.phase = Phase::Listing;
            proof {
                assert(self.frames@.drop_last() =~= outer);
                assert forall|i: int| 0 <= i < self.frames@.len() implies !(
                #[trigger] self.frames@[i]).is_file && self.frames@[i].consistent() by {
                    if i < outer.len() {
                        assert(self.frames@[i] == before[i]);
                    }
                }
            }
            Step::NextEntry
        }
    }

    /// Takes in what the driver reports and says what to do next.
    pub fn step(&mut self, event: Event) -> (next: Step)
        requires
            well_formed(old(self)@),
            has_room(old(self)@, event),
        ensures
            well_formed(final(self)@),
            advances(old(self)@, event, final(self)@, next),
            final(self)@.tally.at_least(old(self)@.tally),
            next matches Step::Finish(Some(root)) ==> root.consistent() && !root.is_file
                && final(self)@.tally.describes(root),
            event is CancelRequested ==> next == Step::Finish(None) && final(self)@.phase
                == Phase::Finished,
            event is Other || event is Unreadable ==> final(self)@ == old(self)@,
            (event is Other || event is Unreadable || event is OpenFailed) && old(self)@.phase
                != Phase::Finished ==> next != Step::Finish(None),
            event is OpenFailed && old(self)@.phase == Phase::Opening
                ==> old(self)@.frames.last().size == 0
                && old(self)@.frames.last().children@.len() == 0,
    {
        match self.phase {
            Phase::Finished => Step::Finish(None),
            Phase::Opening => match event {
                Event::CancelRequested => self.abandon(),
                Event::Opened => {
                    self.phase = Phase::Listing;
                    Step::NextEntry
                },
                Event::OpenFailed => {
                    let next = self.leave();
                    proof {
                        self.lemma_result_described(old(self)@, next);
                    }
                    next
                },
                _ => Step::OpenDirectory,
            },
            Phase::Listing => match event {
                Event::CancelRequested => self.abandon(),
                Event::EndOfDirectory => {
                    let next = self.leave();
                    proof {
                        self.lemma_result_described(old(self)@, next);
                    }
                    next
                },
                Event::Directory { path, name } => {
                    let entered = DirNode::new(path, name, 0, false);
                    proof {
                        lemma_sums_push(self.frames@, entered);
                        assert(files_in(entered.children@) == 0);
                        assert(dirs_in(entered.children@) == 0);
                        assert(total_size(entered.children@) == 0);
                    }
                    self.frames.push(entered);
                    self.phase = Phase::Opening;
                    proof {
                        assert(self.frames@.drop_last() =~= old(self)@.frames);
                    }
                    Step::OpenDirectory
                },
                Event::File { path, name, size } => {
                    let ghost before = self.frames@;
                    let file = DirNode::new(path, name, size, true);
                    let mut top = self.frames.pop().unwrap();
                    let ghost outer = self.frames@;
                    let ghost top_before = top;
                    proof {
                        assert(before =~= outer.push(top));
                        lemma_sums_push(outer, top);
                        lemma_total_size_nonnegative(outer);
                        assert(files_in(file.children@) == 0);
                        assert(dirs_in(file.children@) == 0);
                    }
                    top.add_child(file);
                    proof {
                        lemma_sums_push(top_before.children@, file);
                        lemma_sums_push(outer, top);
                    }
                    self.frames.push(top);
                    self.tally.files = self.tally.files + 1;
                    self.tally.bytes = self.tally.bytes + size;
                    proof {
                        assert(self.frames@.drop_last() =~= outer);
                        assert(before.drop_last() =~= outer);
                        assert forall|i: int| 0 <= i < self.frames@.len() implies !(
                        #[trigger] self.frames@[i]).is_file && self.frames@[i].consistent() by {
                            if i < outer.len() {
                                assert(self.frames@[i] == before[i]);
                            }
                        }
                        assert(adopted(before.last(), file, self.frames@.last()));
                    }
                    Step::NextEntry
                },
                _ => Step::NextEntry,
            },
        }
    }

    /// Drops whatever was built and ends the traversal without a tree.
    fn abandon(&mut self) -> (next: Step)
        ensures
            final(self)@.frames.len() == 0,
            final(self)@.phase == Phase::Finished,
            final(self)@.tally == old(self)@.tally,
            next == Step::Finish(None),
    {
        self.frames = Vec::new();
        self.phase = Phase::Finished;
        Step::Finish(None)
    }

    /// When the outermost directory is left, the totals describe it.
    proof fn lemma_result_described(self, before: WalkerView, next: Step)
        requires
            well_formed(before),
            before.phase != Phase::Finished,
            leaves(before, self@, next),
        ensures
            next matches Step::Finish(Some(root)) ==> root.consistent() && !root.is_file
                && self@.tally.describes(root),
    {
        if before.frames.len() == 1 {
            let root = before.frames.last();
            assert(before.frames =~= Seq::<DirNode>::empty().push(root));
            lemma_sums_push(Seq::<DirNode>::empty(), root);
        }
    }
}

} // verus!
