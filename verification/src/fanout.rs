//! Putting a directory together from entries that were scanned side by side.
//!
//! Near the top of a tree the entries of a directory may be handed out to
//! several workers at once. Each worker reports what became of its entry as a
//! `Branch`; `assemble` makes the directory's node from the reports.

use crate::tree::{dirs_in, files_in, lemma_sums_push, total_size, DirNode};
use crate::walk::{fresh, Event, Tally};
use vstd::prelude::*;

verus! {

/// What became of one entry of a directory.
pub enum Branch {
    /// The entry is left out: it could not be read, or it is neither a
    /// regular file nor a directory.
    Skipped,
    /// A regular file.
    File(DirNode),
    /// A directory, with the totals of what was found below it.
    Directory(DirNode, Tally),
    /// A request to cancel was seen before the entry was done.
    Cancelled,
}

/// The report on an entry that needs no scan of its own, going by what the
/// listing said of it: a regular file is reported as a file, a request to
/// cancel as cancelled, and anything else but a directory is left out. For
/// a directory there is no report yet: it has to be scanned first.
pub fn leaf_report(found: Event) -> (report: Option<Branch>)
    ensures
        match found {
            Event::Directory { path, name } => report is None,
            Event::File { path, name, size } => report matches Some(Branch::File(node)) && fresh(
                node,
                path@,
                name@,
                size,
                true,
            ),
            Event::CancelRequested => report == Some(Branch::Cancelled),
            _ => report == Some(Branch::Skipped),
        },
{
    match found {
        Event::Directory { path: _, name: _ } => None,
        Event::File { path, name, size } => Some(Branch::File(DirNode::new(path, name, size, true))),
        Event::CancelRequested => Some(Branch::Cancelled),
        _ => Some(Branch::Skipped),
    }
}

/// The nodes that a sequence of reports brings, in the order of the reports.
pub open spec fn kept(branches: Seq<Branch>) -> Seq<DirNode>
    decreases branches.len(),
{
    if branches.len() == 0 {
        Seq::empty()
    } else {
        let head = kept(branches.drop_last());
        match branches.last() {
            Branch::File(node) => head.push(node),
            Branch::Directory(node, _) => head.push(node),
            _ => head,
        }
    }
}

/// The files that a sequence of reports counts.
pub open spec fn files_of(branches: Seq<Branch>) -> int
    decreases branches.len(),
{
    if branches.len() == 0 {
        0
    } else {
        files_of(branches.drop_last()) + match branches.last() {
            Branch::File(_) => 1int,
            Branch::Directory(_, below) => below.files as int,
            _ => 0int,
        }
    }
}

/// The directories that a sequence of reports counts.
pub open spec fn dirs_of(branches: Seq<Branch>) -> int
    decreases branches.len(),
{
    if branches.len() == 0 {
        0
    } else {
        dirs_of(branches.drop_last()) + match branches.last() {
            Branch::Directory(_, below) => below.dirs + 1,
            _ => 0int,
        }
    }
}

/// Some report says that its entry was cancelled.
pub open spec fn any_cancelled(branches: Seq<Branch>) -> bool {
    exists|i: int| 0 <= i < branches.len() && branches[i] is Cancelled
}

/// A report is sound: a file is a file without children, and a directory is
/// a directory whose sizes add up and whose totals describe it.
pub open spec fn sound(branch: Branch) -> bool {
    match branch {
        Branch::File(node) => node.is_file && node.children@.len() == 0,
        Branch::Directory(node, below) => !node.is_file && node.consistent() && below.describes(
            node,
        ),
        _ => true,
    }
}

/// The totals of a sequence of reports fit the counters.
pub open spec fn fits(branches: Seq<Branch>) -> bool {
    &&& files_of(branches) <= usize::MAX
    &&& dirs_of(branches) <= usize::MAX
    &&& total_size(kept(branches)) <= u64::MAX
}

proof fn lemma_sums_grow(branches: Seq<Branch>, upto: int)
    requires
        0 <= upto <= branches.len(),
    ensures
        0 <= files_of(branches.subrange(0, upto)) <= files_of(branches),
        0 <= dirs_of(branches.subrange(0, upto)) <= dirs_of(branches),
        0 <= total_size(kept(branches.subrange(0, upto))) <= total_size(kept(branches)),
    decreases branches.len() - upto,
{
    if upto == branches.len() {
        assert(branches.subrange(0, upto) =~= branches);
        lemma_sums_nonnegative(branches);
    } else {
        lemma_sums_grow(branches, upto + 1);
        let longer = branches.subrange(0, upto + 1);
        assert(longer.drop_last() =~= branches.subrange(0, upto));
        lemma_sums_nonnegative(branches.subrange(0, upto));
        match longer.last() {
            Branch::File(node) => lemma_sums_push(kept(longer.drop_last()), node),
            Branch::Directory(node, _) => lemma_sums_push(kept(longer.drop_last()), node),
            _ => {},
        }
    }
}

proof fn lemma_sums_nonnegative(branches: Seq<Branch>)
    ensures
        0 <= files_of(branches),
        0 <= dirs_of(branches),
        0 <= total_size(kept(branches)),
    decreases branches.len(),
{
    if branches.len() > 0 {
        lemma_sums_nonnegative(branches.drop_last());
        match branches.last() {
            Branch::File(node) => lemma_sums_push(kept(branches.drop_last()), node),
            Branch::Directory(node, _) => lemma_sums_push(kept(branches.drop_last()), node),
            _ => {},
        }
    }
}

/// `node` is the directory at `path`, collapsed, that is made of `branches`:
/// the files and directories reported are its children, in the order of the
/// reports, and its size is the sum of theirs. `below` counts what the
/// reports count.
pub open spec fn assembled(
    path: String,
    name: String,
    branches: Seq<Branch>,
    node: DirNode,
    below: Tally,
) -> bool {
    &&& node.path == path
    &&& node.name == name
    &&& !node.is_file
    &&& !node.is_expanded
    &&& node.children@ == kept(branches)
    &&& node.size == total_size(kept(branches))
    &&& below.files == files_of(branches)
    &&& below.dirs == dirs_of(branches)
    &&& below.bytes == node.size
}

/// Whether the totals of the reports fit the counters.
pub fn reports_fit(branches: &Vec<Branch>) -> (ok: bool)
    ensures
        ok == fits(branches@),
{
    let mut files: usize = 0;
    let mut dirs: usize = 0;
    let mut bytes: u64 = 0;
    let mut i: usize = 0;
    while i < branches.len()
        invariant
            i <= branches@.len(),
            files == files_of(branches@.subrange(0, i as int)),
            dirs == dirs_of(branches@.subrange(0, i as int)),
            bytes == total_size(kept(branches@.subrange(0, i as int))),
        decreases branches@.len() - i,
    {
        let ghost seen = branches@.subrange(0, i as int);
        let ghost longer = branches@.subrange(0, i + 1);
        proof {
            assert(longer.drop_last() =~= seen);
            assert(longer.last() == branches@[i as int]);
            lemma_sums_grow(branches@, i + 1);
        }
        match &branches[i] {
            Branch::File(node) => {
                proof {
                    lemma_sums_push(kept(seen), *node);
                }
                if files == usize::MAX || node.size > u64::MAX - bytes {
                    return false;
                }
                files = files + 1;
                bytes = bytes + node.size;
            },
            Branch::Directory(node, below) => {
                proof {
                    lemma_sums_push(kept(seen), *node);
                }
                if below.files > usize::MAX - files || below.dirs == usize::MAX || below.dirs + 1
                    > usize::MAX - dirs || node.size > u64::MAX - bytes {
                    return false;
                }
                files = files + below.files;
                dirs = dirs + below.dirs + 1;
                bytes = bytes + node.size;
            },
            _ => {},
        }
        i += 1;
    }
    proof {
        assert(branches@.subrange(0, i as int) =~= branches@);
    }
    true
}

/// Whether some report says that its entry was cancelled.
pub fn cancelled_among(branches: &Vec<Branch>) -> (found: bool)
    ensures
        found == any_cancelled(branches@),
{
    let mut i: usize = 0;
    while i < branches.len()
        invariant
            i <= branches@.len(),
            forall|j: int| 0 <= j < i ==> !(branches@[j] is Cancelled),
        decreases branches@.len() - i,
    {
        match &branches[i] {
            Branch::Cancelled => {
                return true;
            },
            _ => {},
        }
        i += 1;
    }
    false
}

/// Makes the node of a directory from the reports on its entries.
///
/// If any entry was cancelled there is no node. Otherwise the files and
/// directories reported become the children, in the order of the reports,
/// the directory's size is the sum of theirs, and the totals returned count
/// everything below the directory.
pub fn assemble(path: String, name: String, branches: Vec<Branch>) -> (made: Option<
    (DirNode, Tally),
>)
    requires
        fits(branches@),
    ensures
        made is None <==> any_cancelled(branches@),
        made matches Some((node, below)) ==> {
            &&& assembled(path, name, branches@, node, below)
            &&& (forall|i: int| 0 <= i < branches@.len() ==> sound(#[trigger] branches@[i]))
                ==> node.consistent() && below.describes(node)
        },
{
    if cancelled_among(&branches) {
        return None;
    }
    let mut node = DirNode::new(path, name, 0, false);
    let mut below = Tally { files: 0, dirs: 0, bytes: 0 };
    let ghost all = branches@;
    let ghost all_sound = forall|i: int| 0 <= i < all.len() ==> sound(#[trigger] all[i]);
    proof {
        assert(files_in(node.children@) == 0);
        assert(dirs_in(node.children@) == 0);
        assert(total_size(node.children@) == 0);
    }
    for branch in it: branches
        invariant
            it.seq() == all,
            fits(all),
            all_sound == (forall|i: int| 0 <= i < all.len() ==> sound(#[trigger] all[i])),
            node.path == path,
            node.name == name,
            !node.is_file,
            !node.is_expanded,
            node.children@ == kept(all.subrange(0, it.index() as int)),
            node.size == total_size(node.children@),
            below.files == files_of(all.subrange(0, it.index() as int)),
            below.dirs == dirs_of(all.subrange(0, it.index() as int)),
            below.bytes == node.size,
            all_sound ==> node.consistent() && below.files == files_in(node.children@)
                && below.dirs == dirs_in(node.children@),
    {
        let ghost seen = all.subrange(0, it.index() as int);
        let ghost longer = all.subrange(0, it.index() + 1);
        let ghost children_before = node.children@;
        proof {
            assert(longer.drop_last() =~= seen);
            assert(longer.last() == branch);
            assert(all[it.index() as int] == branch);
            lemma_sums_grow(all, it.index() + 1);
        }
        match branch {
            Branch::File(file) => {
                proof {
                    lemma_sums_push(children_before, file);
                    if all_sound {
                        assert(sound(all[it.index() as int]));
                        assert(files_in(file.children@) == 0);
                        assert(dirs_in(file.children@) == 0);
                    }
                }
                below.files = below.files + 1;
                below.bytes = below.bytes + file.size;
                node.add_child(file);
            },
            Branch::Directory(dir, inside) => {
                proof {
                    lemma_sums_push(children_before, dir);
                    if all_sound {
                        assert(sound(all[it.index() as int]));
                    }
                }
                below.files = below.files + inside.files;
                below.dirs = below.dirs + inside.dirs + 1;
                below.bytes = below.bytes + dir.size;
                node.add_child(dir);
            },
            _ => {},
        }
    }
    proof {
        assert(all.subrange(0, all.len() as int) =~= all);
    }
    Some((node, below))
}

} // verus!
