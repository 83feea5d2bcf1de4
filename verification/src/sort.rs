//! Ordering a finished tree: at every level the largest child comes first.

use crate::tree::{
    descending, dirs_in, files_in, lemma_sums_concat, lemma_sums_push, total_size, DirNode,
};
use vstd::prelude::*;
use vstd::seq_lib::{to_multiset_build, to_multiset_contains, to_multiset_len, to_multiset_remove};

verus! {

/// `after` is `before` with the children of each directory possibly in another
/// order: nothing is added, dropped or altered.
pub open spec fn rearranged(before: DirNode, after: DirNode) -> bool
    decreases after,
{
    &&& after.path == before.path
    &&& after.name == before.name
    &&& after.size == before.size
    &&& after.is_file == before.is_file
    &&& after.is_expanded == before.is_expanded
    &&& exists|mid: Seq<DirNode>|
        {
            &&& #[trigger] mid.to_multiset() == before.children@.to_multiset()
            &&& mid.len() == after.children@.len()
            &&& forall|i: int|
                0 <= i < mid.len() ==> rearranged(mid[i], #[trigger] after.children@[i])
        }
}

/// No node of the sequence is smaller than one that stands before it.
spec fn ascending(nodes: Seq<DirNode>) -> bool {
    forall|i: int, j: int| 0 <= i < j < nodes.len() ==> nodes[i].size <= nodes[j].size
}

/// Every node of `low` is at most as large as every node of `high`.
spec fn all_below(low: Seq<DirNode>, high: Seq<DirNode>) -> bool {
    forall|i: int, j: int|
        0 <= i < low.len() && 0 <= j < high.len() ==> low[i].size <= high[j].size
}

/// Takes the last node off a vector that has one.
fn take_last(nodes: &mut Vec<DirNode>) -> (last: DirNode)
    requires
        old(nodes)@.len() > 0,
    ensures
        last == old(nodes)@.last(),
        final(nodes)@ == old(nodes)@.drop_last(),
        old(nodes)@ == final(nodes)@.push(last),
        old(nodes)@.to_multiset() == final(nodes)@.to_multiset().insert(last),
{
    let last = nodes.pop().unwrap();
    proof {
        assert(old(nodes)@ =~= nodes@.push(last));
        to_multiset_build(nodes@, last);
    }
    last
}

/// Puts the nodes of a vector in the opposite order.
fn reversed(nodes: Vec<DirNode>) -> (out: Vec<DirNode>)
    requires
        ascending(nodes@),
    ensures
        descending(out@),
        out@.to_multiset() == nodes@.to_multiset(),
{
    let mut rest = nodes;
    let mut out: Vec<DirNode> = Vec::new();
    proof {
        assert(out@.to_multiset().add(rest@.to_multiset()) =~= nodes@.to_multiset()) by {
            broadcast use vstd::multiset::group_multiset_axioms;
            assert(out@.to_multiset().len() == 0) by {
                to_multiset_len(out@);
            }
        }
    }
    while rest.len() > 0
        invariant
            ascending(rest@),
            descending(out@),
            all_below(rest@, out@),
            out@.to_multiset().add(rest@.to_multiset()) == nodes@.to_multiset(),
        decreases rest@.len(),
    {
        let ghost rest_before = rest@;
        let ghost out_before = out@;
        let node = take_last(&mut rest);
        out.push(node);
        proof {
            to_multiset_build(out_before, node);
            assert(out@.to_multiset().add(rest@.to_multiset()) =~= out_before.to_multiset().add(
                rest_before.to_multiset(),
            )) by {
                broadcast use vstd::multiset::group_multiset_axioms;
            }
            assert forall|i: int, j: int| 0 <= i < j < out@.len() implies out@[i].size
                >= out@[j].size by {
                if j == out@.len() - 1 {
                    assert(out@[j] == rest_before[rest_before.len() - 1]);
                }
            }
            assert forall|i: int, j: int|
                0 <= i < rest@.len() && 0 <= j < out@.len() implies rest@[i].size
                <= out@[j].size by {
                assert(rest@[i] == rest_before[i]);
                if j == out@.len() - 1 {
                    assert(out@[j] == rest_before[rest_before.len() - 1]);
                } else {
                    assert(out@[j] == out_before[j]);
                }
            }
        }
    }
    proof {
        assert(out@.to_multiset() =~= nodes@.to_multiset()) by {
            broadcast use vstd::multiset::group_multiset_axioms;
            to_multiset_len(rest@);
        }
    }
    out
}

/// Merges two runs that each stand largest first into one that does.
fn merge(left: Vec<DirNode>, right: Vec<DirNode>) -> (merged: Vec<DirNode>)
    requires
        descending(left@),
        descending(right@),
    ensures
        descending(merged@),
        merged@.to_multiset() == left@.to_multiset().add(right@.to_multiset()),
{
    let mut a = left;
    let mut b = right;
    let mut low: Vec<DirNode> = Vec::new();
    proof {
        assert(a@.to_multiset().add(b@.to_multiset()).add(low@.to_multiset())
            =~= left@.to_multiset().add(right@.to_multiset())) by {
            broadcast use vstd::multiset::group_multiset_axioms;
            to_multiset_len(low@);
        }
    }
    while a.len() > 0 || b.len() > 0
        invariant
            descending(a@),
            descending(b@),
            ascending(low@),
            all_below(low@, a@),
            all_below(low@, b@),
            a@.to_multiset().add(b@.to_multiset()).add(low@.to_multiset())
                == left@.to_multiset().add(right@.to_multiset()),
        decreases a@.len() + b@.len(),
    {
        let ghost a_before = a@;
        let ghost b_before = b@;
        let ghost low_before = low@;
        let from_right = if a.len() == 0 {
            true
        } else if b.len() == 0 {
            false
        } else {
            b[b.len() - 1].size <= a[a.len() - 1].size
        };
        let node = if from_right {
            take_last(&mut b)
        } else {
            take_last(&mut a)
        };
        low.push(node);
        proof {
            to_multiset_build(low_before, node);
            assert(a@.to_multiset().add(b@.to_multiset()).add(low@.to_multiset())
                =~= a_before.to_multiset().add(b_before.to_multiset()).add(
                low_before.to_multiset(),
            )) by {
                broadcast use vstd::multiset::group_multiset_axioms;
            }
            assert forall|i: int, j: int| 0 <= i < j < low@.len() implies low@[i].size
                <= low@[j].size by {
                if j == low@.len() - 1 {
                    if from_right {
                        assert(low@[j] == b_before[b_before.len() - 1]);
                    } else {
                        assert(low@[j] == a_before[a_before.len() - 1]);
                    }
                    assert(low@[i] == low_before[i]);
                }
            }
            assert forall|i: int, j: int|
                0 <= i < low@.len() && 0 <= j < a@.len() implies low@[i].size <= a@[j].size by {
                assert(a@[j] == a_before[j]);
                if i == low@.len() - 1 {
                    if from_right {
                        assert(low@[i] == b_before[b_before.len() - 1]);
                        assert(a_before[a_before.len() - 1].size <= a_before[j].size);
                    } else {
                        assert(low@[i] == a_before[a_before.len() - 1]);
                    }
                } else {
                    assert(low@[i] == low_before[i]);
                }
            }
            assert forall|i: int, j: int|
                0 <= i < low@.len() && 0 <= j < b@.len() implies low@[i].size <= b@[j].size by {
                assert(b@[j] == b_before[j]);
                if i == low@.len() - 1 {
                    if from_right {
                        assert(low@[i] == b_before[b_before.len() - 1]);
                    } else {
                        assert(low@[i] == a_before[a_before.len() - 1]);
                        assert(b_before[b_before.len() - 1].size <= b_before[j].size);
                    }
                } else {
                    assert(low@[i] == low_before[i]);
                }
            }
        }
    }
    proof {
        assert(low@.to_multiset() =~= left@.to_multiset().add(right@.to_multiset())) by {
            broadcast use vstd::multiset::group_multiset_axioms;
            to_multiset_len(a@);
            to_multiset_len(b@);
        }
    }
    reversed(low)
}

/// Sorts nodes by size, largest first. The result holds exactly the nodes
/// that were handed in.
pub fn sort_nodes(nodes: Vec<DirNode>) -> (sorted: Vec<DirNode>)
    ensures
        descending(sorted@),
        sorted@.to_multiset() == nodes@.to_multiset(),
    decreases nodes@.len(),
{
    if nodes.len() <= 1 {
        return nodes;
    }
    let mut left = nodes;
    let half = left.len() / 2;
    let right = left.split_off(half);
    proof {
        assert(nodes@ =~= left@ + right@);
        vstd::seq_lib::lemma_multiset_commutative(left@, right@);
    }
    let left = sort_nodes(left);
    let right = sort_nodes(right);
    merge(left, right)
}

impl DirNode {
    /// Sorts the children of every directory of the tree by size, largest
    /// first.
    pub fn sort_by_size(&mut self)
        ensures
            final(self).ordered(),
            rearranged(*old(self), *final(self)),
        decreases *old(self),
    {
        let mut taken: Vec<DirNode> = Vec::new();
        core::mem::swap(&mut self.children, &mut taken);
        self.children = sort_nodes(taken);
        let ghost mid = self.children@;
        let count = self.children.len();
        let mut i: usize = 0;
        while i < count
            invariant
                i <= count,
                count == mid.len(),
                self.children@.len() == count,
                mid.to_multiset() == old(self).children@.to_multiset(),
                descending(mid),
                self.path == old(self).path,
                self.name == old(self).name,
                self.size == old(self).size,
                self.is_file == old(self).is_file,
                self.is_expanded == old(self).is_expanded,
                forall|j: int| i <= j < count ==> self.children@[j] == mid[j],
                forall|j: int|
                    0 <= j < i ==> rearranged(mid[j], #[trigger] self.children@[j])
                        && self.children@[j].ordered(),
            decreases count - i,
        {
            let ghost before = self.children@;
            proof {
                to_multiset_contains(mid, mid[i as int]);
                to_multiset_contains(old(self).children@, mid[i as int]);
                assert(mid.contains(mid[i as int]));
                let k = choose|k: int|
                    0 <= k < old(self).children@.len() && old(self).children@[k] == mid[i as int];
                assert(self.children@[i as int] == old(self).children@[k]);
            }
            self.children[i].sort_by_size();
            proof {
                assert forall|j: int| 0 <= j < i + 1 implies rearranged(
                    mid[j],
                    #[trigger] self.children@[j],
                ) && self.children@[j].ordered() by {
                    if j < i {
                        assert(self.children@[j] == before[j]);
                    }
                }
            }
            i += 1;
        }
        proof {
            assert forall|a: int, b: int| 0 <= a < b < count implies self.children@[a].size
                >= self.children@[b].size by {
                assert(rearranged(mid[a], self.children@[a]));
                assert(rearranged(mid[b], self.children@[b]));
            }
        }
    }
}

/// Taking one node out of a sequence takes its size and its counts out of the
/// sums.
proof fn lemma_sums_remove(nodes: Seq<DirNode>, i: int)
    requires
        0 <= i < nodes.len(),
    ensures
        total_size(nodes) == total_size(nodes.remove(i)) + nodes[i].size,
        files_in(nodes) == files_in(nodes.remove(i)) + nodes[i].file_count(),
        dirs_in(nodes) == dirs_in(nodes.remove(i)) + nodes[i].dir_count(),
{
    let head = nodes.subrange(0, i);
    let tail = nodes.subrange(i + 1, nodes.len() as int);
    assert(nodes =~= head.push(nodes[i]) + tail);
    assert(nodes.remove(i) =~= head + tail);
    lemma_sums_push(head, nodes[i]);
    lemma_sums_concat(head.push(nodes[i]), tail);
    lemma_sums_concat(head, tail);
}

/// Two sequences that hold the same nodes, in whatever order, have the same
/// total size and the same counts.
pub proof fn lemma_sums_ignore_order(a: Seq<DirNode>, b: Seq<DirNode>)
    requires
        a.to_multiset() == b.to_multiset(),
    ensures
        a.len() == b.len(),
        total_size(a) == total_size(b),
        files_in(a) == files_in(b),
        dirs_in(a) == dirs_in(b),
    decreases a.len(),
{
    to_multiset_len(a);
    to_multiset_len(b);
    if a.len() > 0 {
        let last = a.last();
        let rest = a.drop_last();
        assert(a =~= rest.push(last));
        to_multiset_build(rest, last);
        to_multiset_contains(a, last);
        to_multiset_contains(b, last);
        assert(a.contains(last));
        let k = choose|k: int| 0 <= k < b.len() && b[k] == last;
        to_multiset_remove(b, k);
        assert(rest.to_multiset() =~= b.remove(k).to_multiset()) by {
            broadcast use vstd::multiset::group_multiset_axioms;
        }
        lemma_sums_ignore_order(rest, b.remove(k));
        lemma_sums_remove(b, k);
    }
}

/// Two sequences whose nodes agree place by place in size and in counts have
/// the same total size and the same counts.
proof fn lemma_sums_by_place(a: Seq<DirNode>, b: Seq<DirNode>)
    requires
        a.len() == b.len(),
        forall|i: int|
            0 <= i < a.len() ==> a[i].size == b[i].size && a[i].file_count() == b[i].file_count()
                && a[i].dir_count() == b[i].dir_count(),
    ensures
        total_size(a) == total_size(b),
        files_in(a) == files_in(b),
        dirs_in(a) == dirs_in(b),
    decreases a.len(),
{
    if a.len() > 0 {
        lemma_sums_by_place(a.drop_last(), b.drop_last());
    }
}

/// Rearranging a tree changes neither the number of its files nor that of
/// its directories, and a tree whose directory sizes add up keeps that
/// property.
pub proof fn lemma_rearranged_keeps_sums(before: DirNode, after: DirNode)
    requires
        rearranged(before, after),
    ensures
        after.size == before.size,
        after.file_count() == before.file_count(),
        after.dir_count() == before.dir_count(),
        before.consistent() ==> after.consistent(),
    decreases after,
{
    let mid = choose|mid: Seq<DirNode>|
        {
            &&& #[trigger] mid.to_multiset() == before.children@.to_multiset()
            &&& mid.len() == after.children@.len()
            &&& forall|i: int|
                0 <= i < mid.len() ==> rearranged(mid[i], #[trigger] after.children@[i])
        };
    assert forall|i: int| 0 <= i < mid.len() implies mid[i].size == after.children@[i].size
        && mid[i].file_count() == after.children@[i].file_count() && mid[i].dir_count()
        == after.children@[i].dir_count() && (before.consistent()
        ==> after.children@[i].consistent()) by {
        assert(rearranged(mid[i], after.children@[i]));
        lemma_rearranged_keeps_sums(mid[i], after.children@[i]);
        if before.consistent() {
            to_multiset_contains(mid, mid[i]);
            to_multiset_contains(before.children@, mid[i]);
            assert(mid.contains(mid[i]));
            let k = choose|k: int|
                0 <= k < before.children@.len() && before.children@[k] == mid[i];
            assert(before.children@[k].consistent());
        }
    }
    lemma_sums_ignore_order(mid, before.children@);
    lemma_sums_by_place(mid, after.children@);
}

} // verus!
