use cedar_folder_size_analyzer::disk::DiskInfo;
use cedar_folder_size_analyzer::engine::{finish_tree, ScanEngine, ScanMode, ScanPhase};
use cedar_folder_size_analyzer::progress::ScanResult;
use cedar_folder_size_analyzer::tree::DirNode;
use cedar_folder_size_analyzer::walk::Tally;

fn ssd() -> DiskInfo {
    DiskInfo { total_space: 5_000, kind_label: "SSD".to_string(), prefer_parallel: true }
}

fn hdd() -> DiskInfo {
    DiskInfo { total_space: 9_000, kind_label: "HDD".to_string(), prefer_parallel: false }
}

#[test]
fn a_new_engine_is_idle() {
    let engine = ScanEngine::new();
    assert_eq!(engine.phase(), ScanPhase::Idle);
    assert_eq!(engine.progress().thread_count, 1);
    assert_eq!(engine.progress().files_scanned, 0);
    assert_eq!(engine.progress().dirs_scanned, 0);
    assert_eq!(engine.progress().total_size, 0);
    assert_eq!(engine.progress().disk_size, 0);
    assert_eq!(engine.progress().message, "");
    assert_eq!(engine.progress().current_path, "");
    assert_eq!(engine.progress().disk_type, "");
}

#[test]
fn a_new_engine_would_run_on_one_thread() {
    let mut engine = ScanEngine::new();
    engine.start(&hdd(), 7);
    assert_eq!(engine.launch(true), Some(ScanMode::Sequential));
}

#[test]
fn a_solid_state_volume_is_scanned_in_parallel() {
    let mut engine = ScanEngine::new();
    assert!(engine.start(&ssd(), 12));
    assert_eq!(engine.progress().thread_count, 12);
    assert_eq!(engine.progress().disk_size, 5_000);
    assert_eq!(engine.progress().disk_type, "SSD");
    assert_eq!(engine.progress().current_path, "");
    assert_eq!(engine.launch(true), Some(ScanMode::Parallel));
    assert_eq!(engine.phase(), ScanPhase::Running(ScanMode::Parallel));
    assert_eq!(engine.progress().message, "Scanning (parallel mode)...");
    assert_eq!(engine.progress().thread_count, 12);
}

#[test]
fn any_other_volume_is_scanned_on_one_thread() {
    let mut engine = ScanEngine::new();
    assert!(engine.start(&hdd(), 12));
    assert_eq!(engine.progress().thread_count, 1);
    assert_eq!(engine.progress().disk_size, 9_000);
    assert_eq!(engine.launch(true), Some(ScanMode::Sequential));
    assert_eq!(engine.progress().message, "Scanning (single-threaded mode)...");
}

#[test]
fn steps_out_of_turn_are_ignored() {
    let mut engine = ScanEngine::new();
    assert_eq!(engine.launch(true), None);
    assert_eq!(engine.phase(), ScanPhase::Idle);
    engine.traversal_ended(true, Tally { files: 1, dirs: 1, bytes: 1 });
    assert_eq!(engine.phase(), ScanPhase::Idle);
    assert_eq!(engine.progress().files_scanned, 0);
    assert!(matches!(engine.finish(None, "1.00"), ScanResult::InProgress));
    assert_eq!(engine.phase(), ScanPhase::Idle);

    assert!(engine.start(&hdd(), 2));
    assert!(!engine.start(&ssd(), 2));
    assert_eq!(engine.progress().disk_type, "HDD");
    assert!(matches!(engine.finish(None, "1.00"), ScanResult::InProgress));
    assert_eq!(engine.phase(), ScanPhase::Starting);

    engine.launch(true);
    assert!(!engine.start(&ssd(), 2));
    assert_eq!(engine.launch(true), None);
    assert!(matches!(engine.finish(None, "1.00"), ScanResult::InProgress));
    assert_eq!(engine.phase(), ScanPhase::Running(ScanMode::Sequential));
}

#[test]
fn a_scan_can_follow_a_scan() {
    let mut engine = ScanEngine::new();
    engine.start(&hdd(), 2);
    engine.launch(true);
    engine.traversal_ended(true, Tally { files: 4, dirs: 2, bytes: 64 });
    let root = DirNode::new("/r".to_string(), "r".to_string(), 0, false);
    assert!(matches!(engine.finish(Some(root), "2.50"), ScanResult::Complete(_)));
    assert_eq!(engine.progress().message, "Complete in 2.50s");
    assert_eq!(engine.progress().files_scanned, 4);
    assert_eq!(engine.phase(), ScanPhase::Terminal);

    assert!(engine.start(&ssd(), 6));
    assert_eq!(engine.phase(), ScanPhase::Starting);
    assert_eq!(engine.progress().message, "Starting scan...");
    assert_eq!(engine.progress().files_scanned, 0);
    assert_eq!(engine.progress().dirs_scanned, 0);
    assert_eq!(engine.progress().total_size, 0);
    assert_eq!(engine.progress().thread_count, 6);
}

#[test]
fn completing_without_a_tree_counts_as_cancelled() {
    let mut engine = ScanEngine::new();
    engine.start(&hdd(), 2);
    engine.launch(true);
    engine.traversal_ended(true, Tally { files: 0, dirs: 0, bytes: 0 });
    assert!(matches!(engine.finish(None, "0.10"), ScanResult::Cancelled));
    assert_eq!(engine.phase(), ScanPhase::Terminal);
    assert_eq!(engine.progress().message, "Sorting...");
}

#[test]
fn a_cancelled_scan_keeps_its_progress() {
    let mut engine = ScanEngine::new();
    engine.start(&ssd(), 4);
    engine.launch(true);
    engine.traversal_ended(false, Tally { files: 9, dirs: 9, bytes: 9 });
    assert_eq!(engine.phase(), ScanPhase::Cancelling);
    assert_eq!(engine.progress().files_scanned, 0);
    assert_eq!(engine.progress().message, "Scanning (parallel mode)...");
    let tree = DirNode::new("/r".to_string(), "r".to_string(), 0, false);
    assert!(matches!(engine.finish(Some(tree), "0.10"), ScanResult::Cancelled));
    assert_eq!(engine.progress().message, "Scanning (parallel mode)...");
}

#[test]
fn finish_tree_expands_only_the_root() {
    let mut root = DirNode::new("/r".to_string(), "r".to_string(), 0, false);
    let mut sub = DirNode::new("/r/s".to_string(), "s".to_string(), 0, false);
    sub.add_child(DirNode::new("/r/s/x".to_string(), "x".to_string(), 1, true));
    sub.add_child(DirNode::new("/r/s/y".to_string(), "y".to_string(), 2, true));
    root.add_child(sub);
    let shown = finish_tree(root);
    assert!(shown.is_expanded);
    assert!(!shown.children[0].is_expanded);
    assert_eq!(shown.children[0].children[0].name, "y");
    assert_eq!(shown.size, 3);
}
