use cedar_folder_size_analyzer::engine::{fans_out, finish_tree, ScanEngine, ScanMode, ScanPhase};
use cedar_folder_size_analyzer::fanout::{assemble, reports_fit, Branch};
use cedar_folder_size_analyzer::disk::DiskInfo;
use cedar_folder_size_analyzer::progress::ScanResult;
use cedar_folder_size_analyzer::tree::DirNode;
use cedar_folder_size_analyzer::walk::{Event, Phase, Step, Tally, Walker};

/// A directory tree held in memory, standing for what a disk would hold.
enum Entry {
    File(&'static str, u64),
    Dir(&'static str, Vec<Entry>),
    /// A directory that cannot be opened.
    Locked(&'static str),
    /// A symbolic link, whatever it points at.
    Link(&'static str),
    /// An entry that cannot be read.
    Broken,
}

fn no_entries() -> &'static [Entry] {
    &[]
}

/// Walks `root` with a `Walker`, asking to cancel in place of the reading
/// numbered `cancel_at`, and hands back how the walk ended.
fn walk(root: &Entry, cancel_at: Option<usize>) -> (Option<DirNode>, Tally) {
    let (root_name, root_entries, root_opens) = match root {
        Entry::Dir(name, entries) => (*name, entries.as_slice(), true),
        Entry::Locked(name) => (*name, no_entries(), false),
        _ => panic!("a walk starts at a directory"),
    };
    let mut walker = Walker::new(root_name.to_string(), root_name.to_string());
    let mut paths: Vec<String> = vec![root_name.to_string()];
    let mut open: Vec<(&[Entry], usize)> = Vec::new();
    let mut entered: (&[Entry], bool) = (root_entries, root_opens);
    let mut pending = Step::OpenDirectory;
    let mut readings = 0usize;
    loop {
        let event = match pending {
            Step::Finish(tree) => return (tree, walker.tally()),
            _ if cancel_at == Some(readings) => Event::CancelRequested,
            Step::OpenDirectory => {
                if entered.1 {
                    open.push((entered.0, 0));
                    Event::Opened
                } else {
                    paths.pop();
                    Event::OpenFailed
                }
            }
            Step::NextEntry => {
                let top = open.last_mut().unwrap();
                if top.1 == top.0.len() {
                    open.pop();
                    paths.pop();
                    Event::EndOfDirectory
                } else {
                    let entry = &top.0[top.1];
                    top.1 += 1;
                    let here = paths.last().unwrap().clone();
                    match entry {
                        Entry::File(name, size) => Event::File {
                            path: format!("{}/{}", here, name),
                            name: name.to_string(),
                            size: *size,
                        },
                        Entry::Dir(name, entries) => {
                            entered = (entries.as_slice(), true);
                            paths.push(format!("{}/{}", here, name));
                            Event::Directory { path: format!("{}/{}", here, name), name: name.to_string() }
                        }
                        Entry::Locked(name) => {
                            entered = (no_entries(), false);
                            paths.push(format!("{}/{}", here, name));
                            Event::Directory { path: format!("{}/{}", here, name), name: name.to_string() }
                        }
                        Entry::Link(_) => Event::Other,
                        Entry::Broken => Event::Unreadable,
                    }
                }
            }
        };
        readings += 1;
        assert!(walker.has_room(&event));
        pending = walker.step(event);
    }
}

fn adds_up(node: &DirNode) -> bool {
    if node.is_file {
        return node.children.is_empty();
    }
    node.size == node.children.iter().map(|child| child.size).sum::<u64>()
        && node.children.iter().all(adds_up)
}

fn largest_first(node: &DirNode) -> bool {
    node.children.windows(2).all(|pair| pair[0].size >= pair[1].size)
        && node.children.iter().all(largest_first)
}

fn count(node: &DirNode) -> (usize, usize) {
    let mut files = if node.is_file { 1 } else { 0 };
    let mut dirs = if node.is_file { 0 } else { 1 };
    for child in &node.children {
        let (f, d) = count(child);
        files += f;
        dirs += d;
    }
    (files, dirs)
}

fn sample() -> Entry {
    Entry::Dir(
        "root",
        vec![
            Entry::File("a.txt", 100),
            Entry::Dir("sub", vec![Entry::File("b.txt", 200)]),
        ],
    )
}

fn unknown_disk() -> DiskInfo {
    DiskInfo { total_space: 0, kind_label: "Unknown".to_string(), prefer_parallel: false }
}

#[test]
fn sequential_scan_of_small_tree() {
    let (found, totals) = walk(&sample(), None);
    let found = found.expect("the walk was not cancelled");
    assert_eq!(totals, Tally { files: 2, dirs: 1, bytes: 300 });
    assert_eq!(found.size, 300);
    let names: Vec<&str> = found.children.iter().map(|c| c.name.as_str()).collect();
    assert_eq!(names, vec!["a.txt", "sub"]);

    let shown = finish_tree(found);
    assert!(shown.is_expanded);
    assert_eq!(shown.size, 300);
    assert_eq!(shown.path, "root");
    let listed: Vec<(&str, u64, bool)> =
        shown.children.iter().map(|c| (c.name.as_str(), c.size, c.is_file)).collect();
    assert_eq!(listed, vec![("sub", 200, false), ("a.txt", 100, true)]);
    let sub = &shown.children[0];
    assert_eq!(sub.path, "root/sub");
    assert_eq!(sub.children.len(), 1);
    assert_eq!(sub.children[0].path, "root/sub/b.txt");
    assert_eq!(sub.children[0].size, 200);
    assert!(!sub.is_expanded);
}

#[test]
fn whole_scan_through_the_engine() {
    let mut engine = ScanEngine::new();
    assert_eq!(engine.phase(), ScanPhase::Idle);
    assert!(engine.start(&unknown_disk(), 8));
    assert_eq!(engine.phase(), ScanPhase::Starting);
    assert_eq!(engine.progress().message, "Starting scan...");
    assert_eq!(engine.progress().thread_count, 1);
    assert_eq!(engine.launch(true), Some(ScanMode::Sequential));
    assert_eq!(engine.phase(), ScanPhase::Running(ScanMode::Sequential));
    assert_eq!(engine.progress().message, "Scanning (single-threaded mode)...");

    let (found, totals) = walk(&sample(), None);
    engine.traversal_ended(found.is_some(), totals);
    assert_eq!(engine.phase(), ScanPhase::Completing);
    assert_eq!(engine.progress().message, "Sorting...");
    assert_eq!(engine.progress().files_scanned, 2);
    assert_eq!(engine.progress().dirs_scanned, 1);
    assert_eq!(engine.progress().total_size, 300);

    match engine.finish(found, "0.25") {
        ScanResult::Complete(root) => {
            assert_eq!(root.size, 300);
            assert_eq!(root.children[0].name, "sub");
            assert!(root.is_expanded);
        }
        _ => panic!("the scan completes"),
    }
    assert_eq!(engine.phase(), ScanPhase::Terminal);
    assert_eq!(engine.progress().message, "Complete in 0.25s");
}

#[test]
fn unknown_capacity_does_not_stop_a_scan() {
    let mut engine = ScanEngine::new();
    assert!(engine.start(&unknown_disk(), 4));
    assert_eq!(engine.progress().disk_size, 0);
    assert_eq!(engine.progress().scanned_share(), None);
    assert!(engine.launch(true).is_some());
    let (found, totals) = walk(&sample(), None);
    engine.traversal_ended(found.is_some(), totals);
    assert_eq!(engine.progress().scanned_share(), None);
    assert!(matches!(engine.finish(found, "0.00"), ScanResult::Complete(_)));
}

#[test]
fn cancelling_before_any_reading() {
    let (found, totals) = walk(&sample(), Some(0));
    assert!(found.is_none());
    assert_eq!(totals, Tally { files: 0, dirs: 0, bytes: 0 });

    let mut engine = ScanEngine::new();
    engine.start(&unknown_disk(), 1);
    engine.launch(true);
    engine.traversal_ended(false, totals);
    assert_eq!(engine.phase(), ScanPhase::Cancelling);
    assert!(matches!(engine.finish(None, "0.00"), ScanResult::Cancelled));
    assert_eq!(engine.phase(), ScanPhase::Terminal);
}

#[test]
fn cancelling_in_the_middle_of_a_large_tree() {
    let mut dirs = Vec::new();
    for _ in 0..100 {
        let mut files = Vec::new();
        for _ in 0..100 {
            files.push(Entry::File("f", 10));
        }
        dirs.push(Entry::Dir("d", files));
    }
    let root = Entry::Dir("big", dirs);

    let (whole, totals) = walk(&root, None);
    assert_eq!(totals, Tally { files: 10_000, dirs: 100, bytes: 100_000 });
    assert_eq!(whole.unwrap().size, 100_000);

    for cancel_at in [1usize, 2, 57, 5_000, 10_299] {
        let (found, seen) = walk(&root, Some(cancel_at));
        assert!(found.is_none(), "cancelled at reading {}", cancel_at);
        assert!(seen.files <= 10_000);

        let mut engine = ScanEngine::new();
        engine.start(&unknown_disk(), 1);
        engine.launch(true);
        engine.traversal_ended(found.is_some(), seen);
        assert!(matches!(engine.finish(found, "0.10"), ScanResult::Cancelled));
    }
}

#[test]
fn a_walker_that_was_cancelled_stays_finished() {
    let mut walker = Walker::new("r".to_string(), "r".to_string());
    assert!(matches!(walker.step(Event::Opened), Step::NextEntry));
    assert!(matches!(walker.step(Event::CancelRequested), Step::Finish(None)));
    assert_eq!(walker.phase(), Phase::Finished);
    assert_eq!(walker.depth(), 0);
    assert!(matches!(walker.step(Event::EndOfDirectory), Step::Finish(None)));
    assert!(matches!(walker.step(Event::Opened), Step::Finish(None)));
}

#[test]
fn missing_root_fails_before_anything_runs() {
    let mut engine = ScanEngine::new();
    assert!(engine.start(&unknown_disk(), 1));
    assert_eq!(engine.launch(false), None);
    assert_eq!(engine.phase(), ScanPhase::Failing);
    assert_eq!(engine.progress().message, "Error: Path does not exist");
    match engine.finish(None, "") {
        ScanResult::Error(reason) => assert_eq!(reason, "Path does not exist"),
        _ => panic!("the scan fails"),
    }
    assert_eq!(engine.phase(), ScanPhase::Terminal);
    assert_eq!(engine.progress().files_scanned, 0);
}

#[test]
fn what_cannot_be_read_is_left_out_and_the_scan_goes_on() {
    let root = Entry::Dir(
        "root",
        vec![
            Entry::Broken,
            Entry::File("a", 5),
            Entry::Locked("secret"),
            Entry::Broken,
            Entry::Dir("open", vec![Entry::Broken, Entry::File("b", 7), Entry::Locked("deep")]),
            Entry::File("c", 11),
        ],
    );
    let (found, totals) = walk(&root, None);
    let found = found.expect("the scan goes on");
    assert_eq!(totals, Tally { files: 3, dirs: 3, bytes: 23 });
    assert_eq!(count(&found), (3, 4));
    assert!(adds_up(&found));
    let names: Vec<&str> = found.children.iter().map(|c| c.name.as_str()).collect();
    assert_eq!(names, vec!["a", "secret", "open", "c"]);
    let secret = &found.children[1];
    assert!(!secret.is_file);
    assert_eq!(secret.size, 0);
    assert!(secret.children.is_empty());
    assert_eq!(found.children[2].size, 7);
}

#[test]
fn a_root_that_cannot_be_opened_is_an_empty_tree() {
    let (found, totals) = walk(&Entry::Locked("root"), None);
    let found = found.expect("an unreadable directory is no failure");
    assert_eq!(found.size, 0);
    assert!(found.children.is_empty());
    assert!(!found.is_file);
    assert_eq!(totals, Tally { files: 0, dirs: 0, bytes: 0 });
}

#[test]
fn links_are_not_followed() {
    let root = Entry::Dir(
        "root",
        vec![Entry::Link("to_elsewhere"), Entry::File("a", 40), Entry::Link("to_sub")],
    );
    let (found, totals) = walk(&root, None);
    let found = found.unwrap();
    assert_eq!(found.size, 40);
    assert_eq!(found.children.len(), 1);
    assert_eq!(totals, Tally { files: 1, dirs: 0, bytes: 40 });

    let mut walker = Walker::new("r".to_string(), "r".to_string());
    walker.step(Event::Opened);
    let before = (walker.tally(), walker.depth(), walker.phase());
    assert!(matches!(walker.step(Event::Other), Step::NextEntry));
    assert_eq!((walker.tally(), walker.depth(), walker.phase()), before);
}

#[test]
fn events_out_of_turn_change_nothing() {
    let mut walker = Walker::new("r".to_string(), "r".to_string());
    assert_eq!(walker.phase(), Phase::Opening);
    assert_eq!(walker.depth(), 1);
    let file = Event::File { path: "r/a".to_string(), name: "a".to_string(), size: 9 };
    assert!(walker.has_room(&file));
    assert!(matches!(walker.step(file), Step::OpenDirectory));
    assert!(matches!(walker.step(Event::EndOfDirectory), Step::OpenDirectory));
    assert_eq!(walker.tally(), Tally { files: 0, dirs: 0, bytes: 0 });
    assert!(matches!(walker.step(Event::Opened), Step::NextEntry));
    assert_eq!(walker.phase(), Phase::Listing);
    assert!(matches!(walker.step(Event::Opened), Step::NextEntry));
    assert!(matches!(walker.step(Event::OpenFailed), Step::NextEntry));
    assert_eq!(walker.depth(), 1);
}

#[test]
fn totals_never_go_down_and_leave_no_room_at_the_limit() {
    let mut walker = Walker::new("r".to_string(), "r".to_string());
    walker.step(Event::Opened);
    let mut last = walker.tally();
    for size in [0u64, 5, u64::MAX - 6] {
        let file = Event::File { path: "r/f".to_string(), name: "f".to_string(), size };
        assert!(walker.has_room(&file));
        walker.step(file);
        let now = walker.tally();
        assert!(now.files >= last.files && now.dirs >= last.dirs && now.bytes >= last.bytes);
        last = now;
    }
    assert_eq!(last, Tally { files: 3, dirs: 0, bytes: u64::MAX - 1 });
    let one = Event::File { path: "r/g".to_string(), name: "g".to_string(), size: 1 };
    assert!(walker.has_room(&one));
    let two = Event::File { path: "r/h".to_string(), name: "h".to_string(), size: 2 };
    assert!(!walker.has_room(&two));
    assert!(walker.has_room(&Event::EndOfDirectory));
}

#[test]
fn deep_and_wide_tree_adds_up_and_is_sorted() {
    let root = Entry::Dir(
        "r",
        vec![
            Entry::File("s1", 3),
            Entry::Dir(
                "d1",
                vec![
                    Entry::File("x", 1),
                    Entry::Dir("d2", vec![Entry::File("y", 50), Entry::File("z", 60), Entry::Dir("e", vec![])]),
                    Entry::File("w", 70),
                ],
            ),
            Entry::File("s2", 500),
            Entry::Dir("d3", vec![Entry::File("v", 181)]),
            Entry::File("s3", 181),
        ],
    );
    let (found, totals) = walk(&root, None);
    let found = found.unwrap();
    assert!(adds_up(&found));
    assert_eq!(found.size, 3 + 1 + 50 + 60 + 70 + 500 + 181 + 181);
    assert_eq!(totals.bytes, found.size);
    assert_eq!((totals.files, totals.dirs + 1), count(&found));

    let shown = finish_tree(found);
    assert!(adds_up(&shown));
    assert!(largest_first(&shown));
    assert_eq!((totals.files, totals.dirs + 1), count(&shown));
    let sizes: Vec<u64> = shown.children.iter().map(|c| c.size).collect();
    assert_eq!(sizes, vec![500, 181, 181, 181, 3]);
    let d1 = shown.children.iter().find(|c| c.name == "d1").unwrap();
    let inner: Vec<&str> = d1.children.iter().map(|c| c.name.as_str()).collect();
    assert_eq!(inner, vec!["d2", "w", "x"]);
}

/// Scans `entries` as a parallel scan does, one entry after the other: side
/// by side near the top, with a walker below.
fn fan_out(path: &str, name: &str, entries: Option<&[Entry]>, depth: usize) -> Option<(DirNode, Tally)> {
    let mut branches = Vec::new();
    for entry in entries.unwrap_or(no_entries()) {
        branches.push(match entry {
            Entry::File(name, size) => {
                Branch::File(DirNode::new(format!("{}/{}", path, name), name.to_string(), *size, true))
            }
            Entry::Link(_) | Entry::Broken => Branch::Skipped,
            Entry::Locked(name) => match fan_out(&format!("{}/{}", path, name), name, None, depth + 1) {
                Some((node, below)) => Branch::Directory(node, below),
                None => Branch::Cancelled,
            },
            Entry::Dir(name, inside) => {
                let below = if fans_out(ScanMode::Parallel, depth + 1) {
                    fan_out(&format!("{}/{}", path, name), name, Some(inside.as_slice()), depth + 1)
                } else {
                    match rooted(&format!("{}/{}", path, name), entry) {
                        (Some(node), totals) => Some((node, totals)),
                        (None, _) => None,
                    }
                };
                match below {
                    Some((node, below)) => Branch::Directory(node, below),
                    None => Branch::Cancelled,
                }
            }
        });
    }
    assert!(reports_fit(&branches));
    assemble(path.to_string(), name.to_string(), branches)
}

/// Walks `entry` with a walker and puts the tree at `path`.
fn rooted(path: &str, entry: &Entry) -> (Option<DirNode>, Tally) {
    fn move_to(node: &mut DirNode, from: &str, to: &str) {
        node.path = format!("{}{}", to, &node.path[from.len()..]);
        for child in &mut node.children {
            move_to(child, from, to);
        }
    }
    let (found, totals) = walk(entry, None);
    let name = match entry {
        Entry::Dir(name, _) | Entry::Locked(name) => *name,
        _ => panic!("a walk starts at a directory"),
    };
    (found.map(|mut node| {
        move_to(&mut node, name, path);
        node
    }), totals)
}

fn flatten(node: &DirNode, out: &mut Vec<(String, String, u64, bool, usize)>) {
    out.push((node.path.clone(), node.name.clone(), node.size, node.is_file, node.children.len()));
    for child in &node.children {
        flatten(child, out);
    }
}

#[test]
fn both_modes_find_the_same_tree() {
    let root = Entry::Dir(
        "r",
        vec![
            Entry::File("s1", 3),
            Entry::Broken,
            Entry::Dir(
                "d1",
                vec![
                    Entry::File("x", 1),
                    Entry::Locked("no"),
                    Entry::Dir(
                        "d2",
                        vec![
                            Entry::File("y", 50),
                            Entry::Link("l"),
                            Entry::Dir("d3", vec![Entry::File("z", 60), Entry::Dir("e", vec![])]),
                        ],
                    ),
                    Entry::File("w", 70),
                ],
            ),
            Entry::Link("away"),
            Entry::Dir("d4", vec![Entry::File("v", 181)]),
        ],
    );
    let (walked, walked_totals) = walk(&root, None);
    let entries = match &root {
        Entry::Dir(_, entries) => entries.as_slice(),
        _ => no_entries(),
    };
    let (assembled, assembled_totals) = fan_out("r", "r", Some(entries), 0).unwrap();

    assert_eq!(walked_totals, assembled_totals);
    assert_eq!(walked_totals, Tally { files: 6, dirs: 6, bytes: 365 });
    let mut a = Vec::new();
    let mut b = Vec::new();
    flatten(&walked.unwrap(), &mut a);
    flatten(&assembled, &mut b);
    assert_eq!(a, b);
    assert_eq!(a.len(), 13);
    assert!(adds_up(&assembled));
}
