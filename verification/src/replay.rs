//! What a walker builds from the readings of a whole tree.
//!
//! A tree of nodes also tells what a driver reads when it lists the
//! directories that the tree stands for: each directory is opened, its
//! entries come in the order of the children, and it ends. The law of this
//! module says that a walker that is fed these readings builds the tree
//! again, and counts exactly what is in it.

use crate::fanout::{any_cancelled, assembled, dirs_of, files_of, kept, sound, Branch};
use crate::tree::{
    dirs_in, files_in, lemma_sums_push, lemma_total_size_nonnegative, total_size, DirNode,
};
use crate::walk::{adopted, advances, fresh, leaves, Event, Phase, Step, Tally, WalkerView};
use vstd::prelude::*;

verus! {

/// The two trees hold the same nodes in the same places.
pub open spec fn same_tree(a: DirNode, b: DirNode) -> bool
    decreases a,
{
    &&& a.path@ == b.path@
    &&& a.name@ == b.name@
    &&& a.size == b.size
    &&& a.is_file == b.is_file
    &&& a.is_expanded == b.is_expanded
    &&& a.children@.len() == b.children@.len()
    &&& forall|i: int|
        0 <= i < a.children@.len() ==> same_tree(a.children@[i], #[trigger] b.children@[i])
}

/// No node of the tree is expanded.
pub open spec fn collapsed(node: DirNode) -> bool
    decreases node,
{
    &&& !node.is_expanded
    &&& forall|i: int|
        0 <= i < node.children@.len() ==> collapsed(#[trigger] node.children@[i])
}

/// What a driver reports while it lists the entries that `nodes` stand for.
pub open spec fn entries_readings(nodes: Seq<DirNode>) -> Seq<Event>
    decreases nodes, 0nat,
{
    if nodes.len() == 0 {
        Seq::empty()
    } else {
        entries_readings(nodes.drop_last()) + entry_readings(nodes.last())
    }
}

/// What a driver reports for the entry that `node` stands for: a file as it
/// is, a directory and then all that its listing brings.
pub open spec fn entry_readings(node: DirNode) -> Seq<Event>
    decreases node, 1nat,
{
    if node.is_file {
        seq![Event::File { path: node.path, name: node.name, size: node.size }]
    } else {
        seq![Event::Directory { path: node.path, name: node.name }] + listing_readings(node)
    }
}

/// What a driver reports from the opening of the directory that `dir` stands
/// for to the end of its listing.
pub open spec fn listing_readings(dir: DirNode) -> Seq<Event>
    decreases dir, 0nat,
{
    seq![Event::Opened] + entries_readings(dir.children@) + seq![Event::EndOfDirectory]
}

/// A walker goes through `states` as it takes in `events` one by one, and
/// answers with `steps`.
pub open spec fn replays(states: Seq<WalkerView>, events: Seq<Event>, steps: Seq<Step>) -> bool {
    &&& states.len() == events.len() + 1
    &&& steps.len() == events.len()
    &&& forall|i: int|
        0 <= i < events.len() ==> advances(states[i], #[trigger] events[i], states[i + 1], steps[i])
}

/// The walker lists a directory: it is in that phase and a directory is open.
pub open spec fn listing(w: WalkerView) -> bool {
    w.phase == Phase::Listing && w.frames.len() > 0
}

/// Between `before` and `after` only the innermost open directory changed,
/// and the walker still lists it.
pub open spec fn same_place(before: WalkerView, after: WalkerView) -> bool {
    &&& listing(after)
    &&& after.frames.len() == before.frames.len()
    &&& after.frames.drop_last() == before.frames.drop_last()
    &&& after.frames.last().path == before.frames.last().path
    &&& after.frames.last().name == before.frames.last().name
    &&& after.frames.last().is_file == before.frames.last().is_file
    &&& after.frames.last().is_expanded == before.frames.last().is_expanded
}

/// The totals of `after` are those of `before` and what `files`, `dirs` and
/// `bytes` add.
pub open spec fn counted_more(before: Tally, after: Tally, files: int, dirs: int, bytes: int) -> bool {
    &&& after.files == before.files + files
    &&& after.dirs == before.dirs + dirs
    &&& after.bytes == before.bytes + bytes
}

/// The totals of `before` have room for what `files`, `dirs` and `bytes` add.
pub open spec fn room_for(before: Tally, files: int, dirs: int, bytes: int) -> bool {
    &&& before.files + files <= usize::MAX
    &&& before.dirs + dirs <= usize::MAX
    &&& before.bytes + bytes <= u64::MAX
}

/// A run over two stretches of readings is a run over the first and a run
/// over the second.
proof fn lemma_replays_split(
    states: Seq<WalkerView>,
    first: Seq<Event>,
    second: Seq<Event>,
    steps: Seq<Step>,
)
    requires
        replays(states, first + second, steps),
    ensures
        replays(
            states.subrange(0, first.len() as int + 1),
            first,
            steps.subrange(0, first.len() as int),
        ),
        replays(
            states.subrange(first.len() as int, states.len() as int),
            second,
            steps.subrange(first.len() as int, steps.len() as int),
        ),
{
    let all = first + second;
    let n = first.len() as int;
    assert forall|i: int| 0 <= i < first.len() implies advances(
        states.subrange(0, n + 1)[i],
        #[trigger] first[i],
        states.subrange(0, n + 1)[i + 1],
        steps.subrange(0, n)[i],
    ) by {
        assert(all[i] == first[i]);
    }
    assert forall|i: int| 0 <= i < second.len() implies advances(
        states.subrange(n, states.len() as int)[i],
        #[trigger] second[i],
        states.subrange(n, states.len() as int)[i + 1],
        steps.subrange(n, steps.len() as int)[i],
    ) by {
        assert(all[n + i] == second[i]);
    }
}

/// A walker that lists a directory and takes in the readings for `nodes`
/// hangs a copy of each below that directory, in their order, and counts
/// what is in them. It never stops on the way.
pub proof fn lemma_entries_rebuilt(
    nodes: Seq<DirNode>,
    states: Seq<WalkerView>,
    steps: Seq<Step>,
)
    requires
        forall|i: int| 0 <= i < nodes.len() ==> (#[trigger] nodes[i]).consistent() && collapsed(nodes[i]),
        replays(states, entries_readings(nodes), steps),
        listing(states[0]),
        room_for(states[0].tally, files_in(nodes) as int, dirs_in(nodes) as int, total_size(nodes)),
    ensures
        same_place(states[0], states.last()),
        states.last().frames.last().size == states[0].frames.last().size + total_size(nodes),
        states.last().frames.last().children@.len() == states[0].frames.last().children@.len()
            + nodes.len(),
        states.last().frames.last().children@.subrange(
            0,
            states[0].frames.last().children@.len() as int,
        ) == states[0].frames.last().children@,
        forall|i: int|
            0 <= i < nodes.len() ==> same_tree(
                nodes[i],
                #[trigger] states.last().frames.last().children@[states[0].frames.last().children@.len()
                    + i],
            ),
        counted_more(
            states[0].tally,
            states.last().tally,
            files_in(nodes) as int,
            dirs_in(nodes) as int,
            total_size(nodes),
        ),
        forall|i: int| 0 <= i < steps.len() ==> !(#[trigger] steps[i] is Finish),
    decreases nodes, 0nat,
{
    let start = states[0];
    let top = start.frames.last();
    if nodes.len() == 0 {
        assert(states.last() == start);
        assert(start.frames.last().children@.subrange(0, top.children@.len() as int)
            =~= top.children@);
    } else {
        let head = nodes.drop_last();
        let last = nodes.last();
        let first = entries_readings(head);
        let second = entry_readings(last);
        let n = first.len() as int;
        lemma_replays_split(states, first, second, steps);
        let states_a = states.subrange(0, n + 1);
        let steps_a = steps.subrange(0, n);
        let states_b = states.subrange(n, states.len() as int);
        let steps_b = steps.subrange(n, steps.len() as int);
        assert(nodes =~= head.push(last));
        lemma_sums_push(head, last);
        lemma_total_size_nonnegative(head);
        lemma_total_size_nonnegative(last.children@);
        assert forall|i: int| 0 <= i < head.len() implies (#[trigger] head[i]).consistent()
            && collapsed(head[i]) by {
            assert(head[i] == nodes[i]);
        }
        assert(states_a[0] == start);
        lemma_entries_rebuilt(head, states_a, steps_a);
        let mid = states_a.last();
        assert(mid == states_b[0]);
        assert(last == nodes[nodes.len() - 1]);
        lemma_entry_rebuilt(last, states_b, steps_b);
        let end = states_b.last();
        assert(end == states.last());
        let copy = choose|copy: DirNode|
            same_tree(last, copy) && #[trigger] adopted(mid.frames.last(), copy, end.frames.last());
        let grown = end.frames.last().children@;
        let old_len = top.children@.len() as int;
        assert(grown == mid.frames.last().children@.push(copy));
        assert(grown.subrange(0, old_len) =~= top.children@) by {
            assert(mid.frames.last().children@.subrange(0, old_len) == top.children@);
        }
        assert forall|i: int| 0 <= i < nodes.len() implies same_tree(
            nodes[i],
            #[trigger] grown[old_len + i],
        ) by {
            if i < head.len() {
                assert(grown[old_len + i] == mid.frames.last().children@[old_len + i]);
                assert(head[i] == nodes[i]);
            }
        }
        assert forall|i: int| 0 <= i < steps.len() implies !(#[trigger] steps[i] is Finish) by {
            if i < n {
                assert(steps[i] == steps_a[i]);
            } else {
                assert(steps[i] == steps_b[i - n]);
            }
        }
        assert(end.frames.drop_last() == start.frames.drop_last());
    }
}

/// A walker that lists a directory and takes in the readings for `node`
/// hangs a copy of `node` below that directory as its last child and counts
/// what is in it. It never stops on the way.
pub proof fn lemma_entry_rebuilt(node: DirNode, states: Seq<WalkerView>, steps: Seq<Step>)
    requires
        node.consistent(),
        collapsed(node),
        replays(states, entry_readings(node), steps),
        listing(states[0]),
        room_for(
            states[0].tally,
            node.file_count() as int,
            node.dir_count() as int,
            node.size as int,
        ),
    ensures
        same_place(states[0], states.last()),
        exists|copy: DirNode|
            same_tree(node, copy) && #[trigger] adopted(
                states[0].frames.last(),
                copy,
                states.last().frames.last(),
            ),
        counted_more(
            states[0].tally,
            states.last().tally,
            node.file_count() as int,
            node.dir_count() as int,
            node.size as int,
        ),
        forall|i: int| 0 <= i < steps.len() ==> !(#[trigger] steps[i] is Finish),
    decreases node, 1nat,
{
    let start = states[0];
    let events = entry_readings(node);
    if node.is_file {
        assert(events.len() == 1);
        assert(advances(states[0], events[0], states[1], steps[0]));
        assert(states.last() == states[1]);
        let end = states[1];
        let file = choose|file: DirNode|
            fresh(file, node.path@, node.name@, node.size, true) && #[trigger] adopted(
                start.frames.last(),
                file,
                end.frames.last(),
            );
        assert(same_tree(node, file));
        assert(files_in(node.children@) == 0);
        assert(dirs_in(node.children@) == 0);
        assert forall|i: int| 0 <= i < steps.len() implies !(#[trigger] steps[i] is Finish) by {
            assert(i == 0);
        }
    } else {
        let enter = seq![Event::Directory { path: node.path, name: node.name }];
        let inside = listing_readings(node);
        lemma_replays_split(states, enter, inside, steps);
        assert(advances(states[0], events[0], states[1], steps[0]));
        assert(events[0] == enter[0]);
        let entered = states[1];
        let states_in = states.subrange(1, states.len() as int);
        let steps_in = steps.subrange(1, steps.len() as int);
        assert(states_in[0] == entered);
        assert(entered.frames.drop_last() == start.frames);
        lemma_total_size_nonnegative(node.children@);
        lemma_listing_rebuilt(node, states_in, steps_in);
        assert(states_in.last() == states.last());
        let end = states.last();
        assert(entered.frames[entered.frames.len() - 2] == start.frames.last()) by {
            assert(entered.frames.drop_last()[start.frames.len() - 1] == start.frames.last());
        }
        assert(entered.frames.subrange(0, entered.frames.len() - 2) =~= start.frames.drop_last())
            by {
            assert(entered.frames.drop_last() == start.frames);
        }
        assert forall|i: int| 0 <= i < steps.len() implies !(#[trigger] steps[i] is Finish) by {
            if i > 0 {
                assert(steps[i] == steps_in[i - 1]);
            }
        }
    }
}

/// A walker that has entered the directory that `dir` stands for, below
/// another, and takes in the readings of its listing builds a copy of `dir`,
/// hangs it below the directory around it and counts it with what is in it.
proof fn lemma_listing_rebuilt(dir: DirNode, states: Seq<WalkerView>, steps: Seq<Step>)
    requires
        !dir.is_file,
        dir.consistent(),
        collapsed(dir),
        replays(states, listing_readings(dir), steps),
        states[0].phase == Phase::Opening,
        states[0].frames.len() > 1,
        fresh(states[0].frames.last(), dir.path@, dir.name@, 0, false),
        room_for(
            states[0].tally,
            dir.file_count() as int,
            dir.dir_count() as int,
            dir.size as int,
        ),
    ensures
        listing(states.last()),
        states.last().frames.len() == states[0].frames.len() - 1,
        states.last().frames.drop_last() == states[0].frames.subrange(
            0,
            states[0].frames.len() - 2,
        ),
        exists|copy: DirNode|
            same_tree(dir, copy) && #[trigger] adopted(
                states[0].frames[states[0].frames.len() - 2],
                copy,
                states.last().frames.last(),
            ),
        counted_more(
            states[0].tally,
            states.last().tally,
            dir.file_count() as int,
            dir.dir_count() as int,
            dir.size as int,
        ),
        forall|i: int| 0 <= i < steps.len() ==> !(#[trigger] steps[i] is Finish),
    decreases dir, 0nat,
{
    let start = states[0];
    let open = seq![Event::Opened];
    let entries = entries_readings(dir.children@);
    let close = seq![Event::EndOfDirectory];
    let events = listing_readings(dir);
    assert(events =~= open + (entries + close));
    lemma_replays_split(states, open, entries + close, steps);
    assert(advances(states[0], events[0], states[1], steps[0]));
    let opened = states[1];
    let states_rest = states.subrange(1, states.len() as int);
    let steps_rest = steps.subrange(1, steps.len() as int);
    lemma_replays_split(states_rest, entries, close, steps_rest);
    let n = entries.len() as int;
    let states_in = states_rest.subrange(0, n + 1);
    let steps_in = steps_rest.subrange(0, n);
    let states_out = states_rest.subrange(n, states_rest.len() as int);
    let steps_out = steps_rest.subrange(n, steps_rest.len() as int);
    assert(states_in[0] == opened);
    lemma_total_size_nonnegative(dir.children@);
    lemma_entries_rebuilt(dir.children@, states_in, steps_in);
    let listed = states_in.last();
    assert(listed == states_out[0]);
    assert(advances(states_out[0], close[0], states_out[1], steps_out[0]));
    let end = states_out[1];
    assert(end == states.last());
    assert(leaves(listed, end, steps_out[0]));
    let copy = listed.frames.last();
    assert(copy.children@ =~= copy.children@.subrange(0, copy.children@.len() as int));
    assert(same_tree(dir, copy)) by {
        assert(start.frames.last().children@.len() == 0);
        assert forall|i: int| 0 <= i < dir.children@.len() implies same_tree(
            dir.children@[i],
            #[trigger] copy.children@[i],
        ) by {
            assert(copy.children@[0 + i] == copy.children@[i]);
        }
    }
    assert(listed.frames[listed.frames.len() - 2] == start.frames[start.frames.len() - 2]) by {
        assert(listed.frames.drop_last()[listed.frames.len() - 2] == opened.frames.drop_last()[
            listed.frames.len() - 2]);
    }
    assert(listed.frames.subrange(0, listed.frames.len() - 2) =~= start.frames.subrange(
        0,
        start.frames.len() - 2,
    )) by {
        assert forall|i: int| 0 <= i < listed.frames.len() - 2 implies listed.frames[i]
            == start.frames[i] by {
            assert(listed.frames.drop_last()[i] == opened.frames.drop_last()[i]);
        }
    }
    assert(adopted(start.frames[start.frames.len() - 2], copy, end.frames.last()));
    assert forall|i: int| 0 <= i < steps.len() implies !(#[trigger] steps[i] is Finish) by {
        if i == 0 {
        } else if i - 1 < n {
            assert(steps[i] == steps_rest[i - 1]);
            assert(steps_rest[i - 1] == steps_in[i - 1]);
        } else {
            assert(steps[i] == steps_rest[i - 1]);
            assert(steps_rest[i - 1] == steps_out[i - 1 - n]);
        }
    }
}

/// A walker that starts at the directory that `tree` stands for and takes
/// in the readings of its listing, with all that lies below, ends with a
/// copy of `tree` and with totals that count exactly what is in it. It does
/// not stop before the last reading.
pub proof fn lemma_walk_rebuilds_tree(tree: DirNode, states: Seq<WalkerView>, steps: Seq<Step>)
    requires
        !tree.is_file,
        tree.consistent(),
        collapsed(tree),
        tree.file_count() <= usize::MAX,
        tree.dir_count() - 1 <= usize::MAX,
        replays(states, listing_readings(tree), steps),
        states[0].phase == Phase::Opening,
        states[0].frames.len() == 1,
        fresh(states[0].frames[0], tree.path@, tree.name@, 0, false),
        states[0].tally == (Tally { files: 0, dirs: 0, bytes: 0 }),
    ensures
        steps.last() matches Step::Finish(Some(built)) && same_tree(tree, built),
        states.last().tally.describes(tree),
        states.last().phase == Phase::Finished,
        forall|i: int| 0 <= i < steps.len() - 1 ==> !(#[trigger] steps[i] is Finish),
{
    let start = states[0];
    let open = seq![Event::Opened];
    let entries = entries_readings(tree.children@);
    let close = seq![Event::EndOfDirectory];
    let events = listing_readings(tree);
    assert(events =~= open + (entries + close));
    lemma_replays_split(states, open, entries + close, steps);
    assert(advances(states[0], events[0], states[1], steps[0]));
    let opened = states[1];
    let states_rest = states.subrange(1, states.len() as int);
    let steps_rest = steps.subrange(1, steps.len() as int);
    lemma_replays_split(states_rest, entries, close, steps_rest);
    let n = entries.len() as int;
    let states_in = states_rest.subrange(0, n + 1);
    let steps_in = steps_rest.subrange(0, n);
    let states_out = states_rest.subrange(n, states_rest.len() as int);
    let steps_out = steps_rest.subrange(n, steps_rest.len() as int);
    assert(states_in[0] == opened);
    lemma_total_size_nonnegative(tree.children@);
    lemma_entries_rebuilt(tree.children@, states_in, steps_in);
    let listed = states_in.last();
    assert(listed == states_out[0]);
    assert(advances(states_out[0], close[0], states_out[1], steps_out[0]));
    assert(states_out[1] == states.last());
    assert(steps_out[0] == steps.last());
    assert(leaves(listed, states.last(), steps.last()));
    let built = listed.frames.last();
    assert(same_tree(tree, built)) by {
        assert(start.frames.last().children@.len() == 0);
        assert forall|i: int| 0 <= i < tree.children@.len() implies same_tree(
            tree.children@[i],
            #[trigger] built.children@[i],
        ) by {
            assert(built.children@[0 + i] == built.children@[i]);
        }
    }
    assert forall|i: int| 0 <= i < steps.len() - 1 implies !(#[trigger] steps[i] is Finish) by {
        if i > 0 {
            assert(steps[i] == steps_rest[i - 1]);
            assert(steps_rest[i - 1] == steps_in[i - 1]);
        }
    }
}

/// The report that the scan of the entry that `node` stands for hands in
/// when the entries of a directory are scanned side by side.
pub open spec fn report_of(node: DirNode) -> Branch {
    if node.is_file {
        Branch::File(node)
    } else {
        Branch::Directory(
            node,
            Tally {
                files: node.file_count() as usize,
                dirs: (node.dir_count() - 1) as usize,
                bytes: node.size,
            },
        )
    }
}

/// The reports for the entries that `nodes` stand for, in their order.
pub open spec fn reports_of(nodes: Seq<DirNode>) -> Seq<Branch> {
    nodes.map_values(|node: DirNode| report_of(node))
}

/// Every tree holds the same nodes as itself.
pub proof fn lemma_same_tree_reflexive(node: DirNode)
    ensures
        same_tree(node, node),
    decreases node,
{
    assert forall|i: int| 0 <= i < node.children@.len() implies same_tree(
        node.children@[i],
        #[trigger] node.children@[i],
    ) by {
        lemma_same_tree_reflexive(node.children@[i]);
    }
}

/// The reports for a sequence of entries bring exactly these entries and
/// count what is in them.
proof fn lemma_reports_kept(nodes: Seq<DirNode>)
    requires
        forall|i: int|
            0 <= i < nodes.len() ==> (#[trigger] nodes[i]).consistent() && nodes[i].file_count()
                <= usize::MAX && nodes[i].dir_count() <= usize::MAX,
    ensures
        kept(reports_of(nodes)) == nodes,
        files_of(reports_of(nodes)) == files_in(nodes),
        dirs_of(reports_of(nodes)) == dirs_in(nodes),
    decreases nodes.len(),
{
    if nodes.len() == 0 {
        assert(kept(reports_of(nodes)) =~= nodes);
    } else {
        let head = nodes.drop_last();
        assert(reports_of(nodes).drop_last() =~= reports_of(head));
        assert forall|i: int| 0 <= i < head.len() implies (#[trigger] head[i]).consistent()
            && head[i].file_count() <= usize::MAX && head[i].dir_count() <= usize::MAX by {
            assert(head[i] == nodes[i]);
        }
        lemma_reports_kept(head);
        assert(reports_of(nodes).last() == report_of(nodes.last()));
        assert(nodes.last() == nodes[nodes.len() - 1]);
        assert(kept(reports_of(nodes)) =~= nodes);
        lemma_total_size_nonnegative(nodes.last().children@);
        if nodes.last().is_file {
            assert(files_in(nodes.last().children@) == 0);
        }
    }
}

/// Scanning the entries of a directory side by side gives what walking it
/// gives: the node that is assembled from the reports for the children of
/// `tree` holds the same nodes as `tree`, and the totals that come with it
/// count exactly what is in `tree`.
pub proof fn lemma_assembled_is_same_tree(tree: DirNode, made: DirNode, below: Tally)
    requires
        !tree.is_file,
        !tree.is_expanded,
        tree.consistent(),
        forall|i: int|
            0 <= i < tree.children@.len() ==> (#[trigger] tree.children@[i]).file_count()
                <= usize::MAX && tree.children@[i].dir_count() <= usize::MAX,
        assembled(tree.path, tree.name, reports_of(tree.children@), made, below),
    ensures
        same_tree(tree, made),
        below.describes(tree),
        forall|i: int|
            0 <= i < tree.children@.len() ==> sound(#[trigger] reports_of(tree.children@)[i]),
        !any_cancelled(reports_of(tree.children@)),
{
    lemma_reports_kept(tree.children@);
    assert forall|i: int| 0 <= i < tree.children@.len() implies same_tree(
        tree.children@[i],
        #[trigger] made.children@[i],
    ) by {
        lemma_same_tree_reflexive(tree.children@[i]);
    }
    assert forall|i: int| 0 <= i < tree.children@.len() implies sound(
        #[trigger] reports_of(tree.children@)[i],
    ) by {
        let node = tree.children@[i];
        assert(node.consistent());
        lemma_total_size_nonnegative(node.children@);
    }
}

} // verus!
