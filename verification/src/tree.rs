//! The size tree: one node per scanned file or directory.

use vstd::prelude::*;

verus! {

/// One file or directory of a scan, with everything found below it.
///
/// `path` identifies the node within a scan and `name` is its last component.
/// A file carries its length in `size`; a directory carries the sum of the
/// sizes of its children once the scan has put it together. `is_expanded`
/// belongs to whoever displays the tree and plays no part in a scan.
pub struct DirNode {
    pub path: String,
    pub name: String,
    pub size: u64,
    pub children: Vec<DirNode>,
    pub is_expanded: bool,
    pub is_file: bool,
}

/// The sum of the sizes of a sequence of nodes.
pub open spec fn total_size(nodes: Seq<DirNode>) -> int
    decreases nodes.len(),
{
    if nodes.len() == 0 {
        0
    } else {
        total_size(nodes.drop_last()) + nodes.last().size
    }
}

/// The number of file nodes in the trees of a sequence of nodes.
pub open spec fn files_in(nodes: Seq<DirNode>) -> nat
    decreases nodes, 0nat,
{
    if nodes.len() == 0 {
        0
    } else {
        files_in(nodes.drop_last()) + nodes.last().file_count()
    }
}

/// The number of directory nodes in the trees of a sequence of nodes.
pub open spec fn dirs_in(nodes: Seq<DirNode>) -> nat
    decreases nodes, 0nat,
{
    if nodes.len() == 0 {
        0
    } else {
        dirs_in(nodes.drop_last()) + nodes.last().dir_count()
    }
}

/// No node of the sequence is larger than one that stands before it.
pub open spec fn descending(nodes: Seq<DirNode>) -> bool {
    forall|i: int, j: int| 0 <= i < j < nodes.len() ==> nodes[i].size >= nodes[j].size
}

impl DirNode {
    /// The number of file nodes in this tree, the root included.
    pub open spec fn file_count(self) -> nat
        decreases self, 1nat,
    {
        (if self.is_file { 1nat } else { 0nat }) + files_in(self.children@)
    }

    /// The number of directory nodes in this tree, the root included.
    pub open spec fn dir_count(self) -> nat
        decreases self, 1nat,
    {
        (if self.is_file { 0nat } else { 1nat }) + dirs_in(self.children@)
    }

    /// Every directory of the tree weighs exactly what its children weigh
    /// together, and no file has children.
    pub open spec fn consistent(self) -> bool
        decreases self,
    {
        &&& self.is_file ==> self.children@.len() == 0
        &&& !self.is_file ==> self.size == total_size(self.children@)
        &&& forall|i: int|
            0 <= i < self.children@.len() ==> (#[trigger] self.children@[i]).consistent()
    }

    /// At every level of the tree the children stand largest first.
    pub open spec fn ordered(self) -> bool
        decreases self,
    {
        &&& descending(self.children@)
        &&& forall|i: int|
            0 <= i < self.children@.len() ==> (#[trigger] self.children@[i]).ordered()
    }

    /// A node without children, collapsed.
    pub fn new(path: String, name: String, size: u64, is_file: bool) -> (node: DirNode)
        ensures
            node.path == path,
            node.name == name,
            node.size == size,
            node.is_file == is_file,
            !node.is_expanded,
            node.children@ == Seq::<DirNode>::empty(),
    {
        DirNode { path, name, size, children: Vec::new(), is_expanded: false, is_file }
    }

    /// Hangs `child` below this node as its last child and adds the child's
    /// size to the node's own. The sum must fit the size.
    pub fn add_child(&mut self, child: DirNode)
        requires
            old(self).size + child.size <= u64::MAX,
        ensures
            final(self).children@ == old(self).children@.push(child),
            final(self).size == old(self).size + child.size,
            final(self).path == old(self).path,
            final(self).name == old(self).name,
            final(self).is_expanded == old(self).is_expanded,
            final(self).is_file == old(self).is_file,
            !old(self).is_file && old(self).consistent() && child.consistent()
                ==> final(self).consistent(),
    {
        proof {
            lemma_sums_push(self.children@, child);
        }
        self.size = self.size + child.size;
        self.children.push(child);
    }
}

/// The name under which a directory is shown: its last path component where
/// that is text, else its whole path where that is text, else `Unknown`.
pub fn display_name(file_name: Option<String>, path_text: Option<String>) -> (name: String)
    ensures
        name@ == match file_name {
            Some(last) => last@,
            None => match path_text {
                Some(whole) => whole@,
                None => "Unknown"@,
            },
        },
{
    match file_name {
        Some(last) => last,
        None => match path_text {
            Some(whole) => whole,
            None => "Unknown".to_owned(),
        },
    }
}

/// Appending one node adds its size and its counts to those of the sequence.
pub proof fn lemma_sums_push(nodes: Seq<DirNode>, node: DirNode)
    ensures
        total_size(nodes.push(node)) == total_size(nodes) + node.size,
        files_in(nodes.push(node)) == files_in(nodes) + node.file_count(),
        dirs_in(nodes.push(node)) == dirs_in(nodes) + node.dir_count(),
{
    assert(nodes.push(node).drop_last() =~= nodes);
}

/// The sums over a concatenation are the sums of the sums.
pub proof fn lemma_sums_concat(a: Seq<DirNode>, b: Seq<DirNode>)
    ensures
        total_size(a + b) == total_size(a) + total_size(b),
        files_in(a + b) == files_in(a) + files_in(b),
        dirs_in(a + b) == dirs_in(a) + dirs_in(b),
    decreases b.len(),
{
    if b.len() == 0 {
        assert(a + b =~= a);
    } else {
        lemma_sums_concat(a, b.drop_last());
        assert((a + b).drop_last() =~= a + b.drop_last());
    }
}

/// A sum of sizes is never negative.
pub proof fn lemma_total_size_nonnegative(nodes: Seq<DirNode>)
    ensures
        total_size(nodes) >= 0,
    decreases nodes.len(),
{
    if nodes.len() > 0 {
        lemma_total_size_nonnegative(nodes.drop_last());
    }
}

} // verus!
