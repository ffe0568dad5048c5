use pickwp::catalog::Catalog;
use pickwp::data::{PathData, RelativePath, RootData, RootId, Time, UnixTimestamp};
use pickwp::scan::{CatalogOp, EntryAction, ImageScanner, LoopStep, ScanCycle};

fn rel(s: &str) -> RelativePath {
    RelativePath::try_from(s.to_string()).unwrap()
}

fn at(m: i64) -> Time {
    Time { mtime: UnixTimestamp(m), btime: None }
}

fn entry(s: &str, m: i64) -> PathData {
    PathData { root_id: RootId(1), path: rel(s), time: at(m) }
}

/// Runs one full cycle over `listing`, hashing and tagging each new file
/// with the tag "wall"; returns (hash jobs, inserts, updates).
fn run_cycle(committed: &mut Catalog, listing: &Vec<PathData>) -> (usize, usize, usize) {
    let mut cycle = ScanCycle::begin(committed);
    let to_hash = cycle.scan_listing(listing).unwrap();
    cycle.on_scan_done();
    let mut inserts = 0;
    for &i in &to_hash {
        assert_eq!(cycle.next_step(false), LoopStep::Wait);
        let d = &listing[i];
        cycle.on_hashed(d.path.copy(), d.time, &vec!["wall".to_string()]).unwrap();
        inserts += 1;
    }
    assert_eq!(cycle.next_step(false), LoopStep::Commit);
    let ops = cycle.conclude(committed, false);
    let updates = ops
        .iter()
        .filter(|op| matches!(op, CatalogOp::UpdateTimestamps { .. }))
        .count();
    (to_hash.len(), inserts, updates)
}

#[test]
fn three_scans_of_two_files() {
    let mut committed = Catalog::new(RootId(1));
    let t1 = 100;
    let t2 = 200;
    let listing = vec![entry("a.png", t1), entry("b.png", t1)];
    assert_eq!(run_cycle(&mut committed, &listing), (2, 2, 0));
    assert_eq!(committed.len(), 2);
    assert_eq!(run_cycle(&mut committed, &listing), (0, 0, 0));
    assert_eq!(committed.len(), 2);
    let touched = vec![entry("a.png", t2), entry("b.png", t1)];
    assert_eq!(run_cycle(&mut committed, &touched), (0, 0, 1));
    assert_eq!(committed.len(), 2);
    assert_eq!(committed.lookup(&rel("a.png")), Some(at(t2)));
    assert_eq!(committed.lookup(&rel("b.png")), Some(at(t1)));
    let wall = committed.get_tag_id(&"wall".to_string()).unwrap();
    assert_eq!(committed.get_path_tags(&rel("a.png")), vec![wall]);
    assert_eq!(committed.get_path_tags(&rel("b.png")), vec![wall]);
}

#[test]
fn writes_carry_new_timestamps_and_tags() {
    let mut committed = Catalog::new(RootId(1));
    committed.insert_new(rel("a.png"), at(1), &vec![]).unwrap();
    let mut cycle = ScanCycle::begin(&committed);
    cycle.on_scanned(&rel("a.png"), at(7)).unwrap();
    cycle.on_scanned(&rel("n.png"), at(3)).unwrap();
    let id = cycle.on_hashed(rel("n.png"), at(3), &vec!["sky".to_string(), "sky".to_string()]).unwrap();
    cycle.on_scan_done();
    let ops = cycle.conclude(&mut committed, false);
    let sky = committed.get_tag_id(&"sky".to_string()).unwrap();
    assert_eq!(ops.len(), 2);
    match &ops[0] {
        CatalogOp::UpdateTimestamps { path, time } => {
            assert_eq!(path.as_str(), "a.png");
            assert_eq!(*time, at(7));
        }
        _ => panic!("expected an update first"),
    }
    match &ops[1] {
        CatalogOp::Insert { id: op_id, path, time, tags } => {
            assert_eq!(*op_id, id);
            assert_eq!(path.as_str(), "n.png");
            assert_eq!(*time, at(3));
            // the row's tags form a set; a name given twice names one tag
            assert!(!tags.is_empty());
            assert!(tags.iter().all(|t| *t == sky));
        }
        _ => panic!("expected an insert second"),
    }
}

#[test]
fn failed_cycle_commits_nothing() {
    let mut committed = Catalog::new(RootId(1));
    committed.insert_new(rel("a.png"), at(1), &vec![]).unwrap();
    let mut cycle = ScanCycle::begin(&committed);
    cycle.on_scanned(&rel("b.png"), at(2)).unwrap();
    cycle.on_hashed(rel("b.png"), at(2), &vec![]).unwrap();
    assert!(cycle.on_hashed(rel("a.png"), at(5), &vec![]).is_err());
    cycle.on_scan_done();
    assert_eq!(cycle.next_step(false), LoopStep::Abort);
    let ops = cycle.conclude(&mut committed, false);
    assert!(ops.is_empty());
    assert_eq!(committed.len(), 1);
    assert_eq!(committed.lookup(&rel("b.png")), None);
}

#[test]
fn outside_failure_aborts_the_cycle() {
    let mut committed = Catalog::new(RootId(1));
    let mut cycle = ScanCycle::begin(&committed);
    cycle.on_scanned(&rel("b.png"), at(2)).unwrap();
    cycle.fail();
    cycle.on_hash_failed();
    cycle.on_scan_done();
    assert_eq!(cycle.next_step(false), LoopStep::Abort);
    assert!(cycle.conclude(&mut committed, false).is_empty());
    assert_eq!(committed.len(), 0);
}

#[test]
fn changed_timestamps_update_without_hashing() {
    let mut committed = Catalog::new(RootId(1));
    committed.insert_new(rel("a.png"), at(1), &vec![]).unwrap();
    let mut cycle = ScanCycle::begin(&committed);
    let changed = Time { mtime: UnixTimestamp(1), btime: Some(UnixTimestamp(0)) };
    assert_eq!(cycle.on_scanned(&rel("a.png"), changed), Ok(EntryAction::UpdateTimestamps));
    assert_eq!(cycle.on_scanned(&rel("a.png"), changed), Ok(EntryAction::Unchanged));
    assert_eq!(cycle.on_scanned(&rel("new.png"), at(3)), Ok(EntryAction::Hash));
    cycle.on_scan_done();
    // one hash job is still out
    assert_eq!(cycle.next_step(false), LoopStep::Wait);
    cycle.on_hash_failed();
    assert_eq!(cycle.next_step(false), LoopStep::Commit);
    let ops = cycle.conclude(&mut committed, false);
    assert_eq!(ops.len(), 1);
    assert_eq!(committed.lookup(&rel("a.png")), Some(changed));
    assert_eq!(committed.lookup(&rel("new.png")), None);
}

#[test]
fn cancelled_cycle_commits_nothing() {
    let mut committed = Catalog::new(RootId(1));
    let mut cycle = ScanCycle::begin(&committed);
    assert_eq!(cycle.on_scanned(&rel("a.png"), at(1)), Ok(EntryAction::Hash));
    cycle.on_hashed(rel("a.png"), at(1), &vec!["x".to_string()]).unwrap();
    assert_eq!(cycle.next_step(true), LoopStep::Abort);
    let ops = cycle.conclude(&mut committed, true);
    assert!(ops.is_empty());
    assert_eq!(committed.len(), 0);
    assert_eq!(committed.lookup(&rel("a.png")), None);
    assert_eq!(committed.get_tag_id(&"x".to_string()), None);
}

#[test]
fn second_start_request_is_dropped() {
    let mut scanner = ImageScanner::new();
    let root = RootData { path: "/wp".to_string(), id: RootId(1) };
    assert!(scanner.start_scan(root.copy()));
    assert!(scanner.is_scanning());
    assert!(!scanner.start_scan(root.copy()));
    assert!(scanner.is_scanning());
    scanner.finish();
    assert!(!scanner.is_scanning());
    assert!(scanner.start_scan(root));
}

#[test]
fn root_change_cancels_once() {
    let mut scanner = ImageScanner::new();
    assert!(!scanner.abort_if_root_differs(RootId(2)));
    scanner.start_scan(RootData { path: "/wp".to_string(), id: RootId(1) });
    assert!(!scanner.abort_if_root_differs(RootId(1)));
    assert!(!scanner.abort_requested());
    assert!(scanner.abort_if_root_differs(RootId(2)));
    assert!(scanner.abort_requested());
    assert!(!scanner.abort_if_root_differs(RootId(2)));
}

#[test]
fn listing_reports_positions_to_hash() {
    let mut committed = Catalog::new(RootId(1));
    committed.insert_new(rel("b.png"), at(1), &vec![]).unwrap();
    let mut cycle = ScanCycle::begin(&committed);
    let listing = vec![entry("a.png", 1), entry("b.png", 1), entry("c.png", 2), entry("b.png", 5)];
    assert_eq!(cycle.scan_listing(&listing), Ok(vec![0, 2]));
    assert_eq!(cycle.next_step(false), LoopStep::Wait);
    let ops = cycle.conclude(&mut committed, false);
    assert_eq!(ops.len(), 1);
    assert_eq!(committed.lookup(&rel("b.png")), Some(at(5)));
}
