use rust_npkill::input::InputEvent;
use rust_npkill::scan::{ScanOrchestrator, ScanPhase};
use rust_npkill::status::DirStatus;
use rust_npkill::tree::{find_node_modules, FsNode};

fn started(now: u64) -> ScanOrchestrator {
    let mut scan = ScanOrchestrator::new(now);
    assert!(scan.start(true));
    scan
}

#[test]
fn new_scan_has_not_started() {
    let scan = ScanOrchestrator::new(77);
    assert_eq!(scan.phase(), ScanPhase::NotStarted);
    assert_eq!(scan.store().len(), 0);
    assert_eq!(scan.store().started_at(), 77);
    assert_eq!(scan.store().finished_at(), None);
}

#[test]
fn start_with_a_root_begins_scanning() {
    let mut scan = ScanOrchestrator::new(0);
    assert!(scan.start(true));
    assert_eq!(scan.phase(), ScanPhase::Scanning);
    assert!(!scan.start(true));
    assert!(!scan.start(false));
    assert_eq!(scan.phase(), ScanPhase::Scanning);
}

#[test]
fn start_without_a_root_fails_for_good() {
    let mut scan = ScanOrchestrator::new(0);
    assert!(!scan.start(false));
    assert_eq!(scan.phase(), ScanPhase::Failed);
    assert!(!scan.start(true));
    assert_eq!(scan.path_discovered("a".to_string()), None);
    scan.probe_completed(0, Some(5));
    scan.feed_exhausted();
    assert!(!scan.probes_joined(10));
    assert_eq!(scan.phase(), ScanPhase::Failed);
    assert_eq!(scan.store().len(), 0);
    assert_eq!(scan.store().finished_at(), None);
}

#[test]
fn paths_before_the_start_are_dropped() {
    let mut scan = ScanOrchestrator::new(0);
    assert_eq!(scan.path_discovered("a".to_string()), None);
    assert_eq!(scan.store().len(), 0);
    assert!(!scan.probes_joined(5));
    assert_eq!(scan.phase(), ScanPhase::NotStarted);
}

#[test]
fn discovered_paths_get_handles_in_order() {
    let mut scan = started(0);
    assert_eq!(scan.path_discovered("a".to_string()), Some(0));
    assert_eq!(scan.path_discovered("b".to_string()), Some(1));
    assert_eq!(scan.path_discovered("c".to_string()), Some(2));
    assert_eq!(scan.store().get(1).unwrap().path(), "b");
    assert_eq!(scan.store().get(1).unwrap().status(), DirStatus::Loading);
}

#[test]
fn paths_after_the_end_of_the_walk_are_dropped() {
    let mut scan = started(0);
    assert_eq!(scan.path_discovered("a".to_string()), Some(0));
    scan.feed_exhausted();
    assert_eq!(scan.path_discovered("late".to_string()), None);
    assert_eq!(scan.store().len(), 1);
}

#[test]
fn finish_waits_for_the_walk_and_every_probe() {
    let mut scan = started(100);
    let a = scan.path_discovered("a".to_string()).unwrap();
    let b = scan.path_discovered("b".to_string()).unwrap();
    assert!(!scan.probes_joined(200));
    scan.probe_completed(b, Some(20));
    assert!(!scan.probes_joined(201));
    scan.probe_completed(a, Some(10));
    assert!(!scan.probes_joined(202));
    assert_eq!(scan.store().finished_at(), None);
    scan.feed_exhausted();
    assert_eq!(scan.phase(), ScanPhase::Scanning);
    assert!(scan.probes_joined(203));
    assert_eq!(scan.phase(), ScanPhase::Finished);
    assert_eq!(scan.store().finished_at(), Some(203));
    assert_eq!(scan.store().bytes_accounted(), 30);
    assert!(scan.store().settled());
}

#[test]
fn finish_waits_for_a_probe_still_running() {
    let mut scan = started(0);
    let a = scan.path_discovered("a".to_string()).unwrap();
    let b = scan.path_discovered("b".to_string()).unwrap();
    scan.feed_exhausted();
    scan.probe_completed(a, Some(1));
    assert!(!scan.probes_joined(9));
    assert_eq!(scan.phase(), ScanPhase::Scanning);
    assert_eq!(scan.store().finished_at(), None);
    scan.probe_completed(b, None);
    assert!(scan.probes_joined(10));
    assert_eq!(scan.store().finished_at(), Some(10));
    assert_eq!(scan.store().get(b).unwrap().status(), DirStatus::Ready);
    assert_eq!(scan.store().get(b).unwrap().bytes(), Some(0));
    assert_eq!(scan.store().bytes_accounted(), 1);
}

#[test]
fn many_probes_are_settled_before_the_finish() {
    let mut scan = started(0);
    let count: usize = 200;
    for i in 0..count {
        assert_eq!(scan.path_discovered(format!("p{i}")), Some(i));
    }
    scan.feed_exhausted();
    let mut expected: u64 = 0;
    for step in 0..count {
        let handle = (step * 37) % count;
        assert!(!scan.probes_joined(step as u64));
        assert_eq!(scan.store().finished_at(), None);
        scan.probe_completed(handle, Some(handle as u64 + 1));
        expected += handle as u64 + 1;
        assert_eq!(scan.store().bytes_accounted(), expected);
    }
    assert!(scan.probes_joined(1_000));
    assert_eq!(scan.store().finished_at(), Some(1_000));
    assert_eq!(scan.store().bytes_accounted(), (count as u64) * (count as u64 + 1) / 2);
}

#[test]
fn finished_scan_ignores_everything() {
    let mut scan = started(0);
    let a = scan.path_discovered("a".to_string()).unwrap();
    scan.probe_completed(a, Some(4));
    scan.feed_exhausted();
    assert!(scan.probes_joined(50));
    assert!(!scan.probes_joined(60));
    assert!(!scan.start(true));
    assert_eq!(scan.path_discovered("b".to_string()), None);
    scan.probe_completed(a, Some(400));
    scan.feed_exhausted();
    assert_eq!(scan.phase(), ScanPhase::Finished);
    assert_eq!(scan.store().len(), 1);
    assert_eq!(scan.store().bytes_accounted(), 4);
    assert_eq!(scan.store().finished_at(), Some(50));
}

#[test]
fn second_result_for_a_handle_is_ignored() {
    let mut scan = started(0);
    let a = scan.path_discovered("a".to_string()).unwrap();
    scan.probe_completed(a, Some(4));
    scan.probe_completed(a, Some(4));
    scan.probe_completed(a, None);
    scan.probe_completed(99, Some(1));
    assert_eq!(scan.store().bytes_accounted(), 4);
    assert_eq!(scan.store().get(a).unwrap().bytes(), Some(4));
}

#[test]
fn size_that_the_total_cannot_take_is_an_error() {
    let mut scan = started(0);
    let a = scan.path_discovered("a".to_string()).unwrap();
    let b = scan.path_discovered("b".to_string()).unwrap();
    let c = scan.path_discovered("c".to_string()).unwrap();
    scan.probe_completed(a, Some(u64::MAX - 5));
    scan.probe_completed(b, Some(6));
    assert_eq!(scan.store().get(b).unwrap().status(), DirStatus::Error);
    assert_eq!(scan.store().get(b).unwrap().bytes(), None);
    assert_eq!(scan.store().bytes_accounted(), u64::MAX - 5);
    scan.probe_completed(c, Some(5));
    assert_eq!(scan.store().get(c).unwrap().status(), DirStatus::Ready);
    assert_eq!(scan.store().bytes_accounted(), u64::MAX);
    scan.feed_exhausted();
    assert!(scan.probes_joined(1));
}

#[test]
fn display_events_move_the_cursor_only() {
    let mut scan = started(0);
    scan.path_discovered("a".to_string());
    scan.path_discovered("b".to_string());
    assert!(!scan.handle_input(InputEvent::Down));
    assert_eq!(scan.store().selected(), Some(0));
    assert!(!scan.handle_input(InputEvent::Down));
    assert_eq!(scan.store().selected(), Some(1));
    assert!(!scan.handle_input(InputEvent::Up));
    assert_eq!(scan.store().selected(), Some(0));
    assert!(!scan.handle_input(InputEvent::Tick));
    assert!(!scan.handle_input(InputEvent::Select));
    assert!(scan.handle_input(InputEvent::Quit));
    assert_eq!(scan.store().selected(), Some(0));
    assert_eq!(scan.store().len(), 2);
    assert_eq!(scan.phase(), ScanPhase::Scanning);
}

#[test]
fn scan_of_a_tree_lists_the_walk_in_order() {
    let nm = || FsNode::dir("node_modules".to_string(), vec![]);
    let root = FsNode::dir(
        "root".to_string(),
        vec![
            FsNode::dir("a".to_string(), vec![nm()]),
            FsNode::dir("b".to_string(), vec![FsNode::file("package.json".to_string(), 300), nm()]),
            FsNode::dir("c".to_string(), vec![FsNode::dir("d".to_string(), vec![nm()])]),
        ],
    );
    let sizes = [60u64, 7, 1000];
    let orders: [[usize; 3]; 3] = [[0, 1, 2], [2, 1, 0], [1, 2, 0]];
    let mut seen: Vec<Vec<String>> = Vec::new();
    for order in orders {
        let mut scan = started(0);
        for path in find_node_modules(&root, "/root") {
            assert!(scan.path_discovered(path).is_some());
        }
        scan.feed_exhausted();
        for handle in order {
            scan.probe_completed(handle, Some(sizes[handle]));
        }
        assert!(scan.probes_joined(9));
        assert_eq!(scan.store().bytes_accounted(), 1067);
        let paths: Vec<String> =
            (0..scan.store().len()).map(|i| scan.store().get(i).unwrap().path().clone()).collect();
        for (handle, size) in sizes.iter().enumerate() {
            assert_eq!(scan.store().get(handle).unwrap().bytes(), Some(*size));
        }
        seen.push(paths);
    }
    assert_eq!(
        seen[0],
        vec!["/root/a/node_modules", "/root/b/node_modules", "/root/c/d/node_modules"]
    );
    assert_eq!(seen[0], seen[1]);
    assert_eq!(seen[0], seen[2]);
}
