//! Taking a path out of a tree that was scanned, without scanning again.

use crate::text::same_text;
use crate::tree::DirNode;
use vstd::prelude::*;

verus! {

/// `after` holds the nodes of `before` but those at `path`, each with `path`
/// taken out below it, in the order they had.
pub open spec fn pruned_list(before: Seq<DirNode>, path: Seq<char>, after: Seq<DirNode>) -> bool
    decreases before, 0nat,
{
    if before.len() == 0 {
        after.len() == 0
    } else if before.last().path@ == path {
        pruned_list(before.drop_last(), path, after)
    } else {
        &&& after.len() > 0
        &&& pruned(before.last(), path, after.last())
        &&& pruned_list(before.drop_last(), path, after.drop_last())
    }
}

/// `after` is `before` with every node at `path` taken out below it,
/// together with what hangs below such a node. The node itself stays as it
/// is, and so do the sizes of the directories that remain.
pub open spec fn pruned(before: DirNode, path: Seq<char>, after: DirNode) -> bool
    decreases before, 1nat,
{
    &&& after.path == before.path
    &&& after.name == before.name
    &&& after.size == before.size
    &&& after.is_file == before.is_file
    &&& after.is_expanded == before.is_expanded
    &&& pruned_list(before.children@, path, after.children@)
}

impl DirNode {
    /// Takes every node at `path` out of the tree below this node.
    pub fn remove_path(&mut self, path: &str)
        ensures
            pruned(*old(self), path@, *final(self)),
        decreases *old(self),
    {
        let mut taken: Vec<DirNode> = Vec::new();
        core::mem::swap(&mut self.children, &mut taken);
        let ghost all = taken@;
        let mut left: Vec<DirNode> = Vec::new();
        for child in it: taken
            invariant
                it.seq() == all,
                all == old(self).children@,
                pruned_list(all.subrange(0, it.index() as int), path@, left@),
                self.path == old(self).path,
                self.name == old(self).name,
                self.size == old(self).size,
                self.is_file == old(self).is_file,
                self.is_expanded == old(self).is_expanded,
        {
            let ghost seen = all.subrange(0, it.index() as int);
            let ghost longer = all.subrange(0, it.index() + 1);
            let ghost left_before = left@;
            proof {
                assert(longer.drop_last() =~= seen);
                assert(longer.last() == child);
                assert(child == old(self).children@[it.index() as int]);
            }
            if !same_text(child.path.as_str(), path) {
                let mut kept = child;
                kept.remove_path(path);
                left.push(kept);
                proof {
                    assert(left@.drop_last() =~= left_before);
                }
            }
        }
        proof {
            assert(all.subrange(0, all.len() as int) =~= all);
        }
        self.children = left;
    }
}

} // verus!
