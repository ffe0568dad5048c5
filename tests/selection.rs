use pickwp::catalog::Catalog;
use pickwp::daemon::{Cmd, Reply, StateInner, Wakeup};
use pickwp::data::{RelativePath, RootData, RootId, Time as PathTime, UnixTimestamp};
use pickwp::filter::{
    eligible, pick, pick_wallpapers, FilenameFilter, Filter, LastShown, TagFilter, TimeFilter,
};
use pickwp::monitor::{sway_background_command, Mode};
use pickwp::storage::{FileKey, Storage, Time, TimeKind};

fn rel(s: &str) -> RelativePath {
    RelativePath::try_from(s.to_string()).unwrap()
}

fn times(m: i64) -> Time {
    Time { atime: UnixTimestamp(0), mtime: UnixTimestamp(m), ctime: UnixTimestamp(0) }
}

fn key_of(s: &Storage, path: &str) -> FileKey {
    s.keys()
        .into_iter()
        .find(|k| s.relative_path(*k).map(|p| p.as_str() == path).unwrap_or(false))
        .unwrap()
}

fn storage_of(paths: &[(&str, i64)], cat: &Catalog) -> Storage {
    let mut s = Storage::new();
    let listing = paths.iter().map(|(p, m)| (rel(p), times(*m))).collect();
    s.refresh(&listing, cat);
    s
}

#[test]
fn last_shown_blocks_a_second_pick() {
    let cat = Catalog::new(RootId(1));
    let s = storage_of(&[("a.png", 1)], &cat);
    let a = key_of(&s, "a.png");
    let mut filters = vec![Filter::LastShown(LastShown::new())];
    let first = pick_wallpapers(&mut filters, &s, &vec![0]);
    assert_eq!(first, vec![Some(a)]);
    let second = pick_wallpapers(&mut filters, &s, &vec![0]);
    assert_eq!(second, vec![None]);
    // after a cycle with no pick, the file is eligible again
    let third = pick_wallpapers(&mut filters, &s, &vec![5]);
    assert_eq!(third, vec![Some(a)]);
}

#[test]
fn time_filter_bounds_are_inclusive() {
    let cat = Catalog::new(RootId(1));
    let s = storage_of(&[("old.png", 10), ("mid.png", 20), ("new.png", 30)], &cat);
    let f = Filter::FileTime(TimeFilter {
        time_kind: TimeKind::Mtime,
        from: Some(UnixTimestamp(20)),
        to: Some(UnixTimestamp(30)),
    });
    assert!(!f.is_ok(key_of(&s, "old.png"), &s));
    assert!(f.is_ok(key_of(&s, "mid.png"), &s));
    assert!(f.is_ok(key_of(&s, "new.png"), &s));
    let open = Filter::FileTime(TimeFilter { time_kind: TimeKind::Mtime, from: None, to: Some(UnixTimestamp(10)) });
    assert!(open.is_ok(key_of(&s, "old.png"), &s));
    assert!(!open.is_ok(key_of(&s, "mid.png"), &s));
    assert!(f.needed_storages().filetime);
}

#[test]
fn filename_filter_matches_substrings() {
    let cat = Catalog::new(RootId(1));
    let s = storage_of(&[("beach/sun.png", 1), ("city.png", 1)], &cat);
    let f = Filter::Filename(FilenameFilter { contains: "ach/s".to_string() });
    assert!(f.is_ok(key_of(&s, "beach/sun.png"), &s));
    assert!(!f.is_ok(key_of(&s, "city.png"), &s));
    assert!(f.needed_storages().relapath);
}

#[test]
fn tag_filter_resolves_against_the_catalog() {
    let mut cat = Catalog::new(RootId(1));
    cat.insert_new(rel("a.png"), PathTime { mtime: UnixTimestamp(1), btime: None }, &vec!["sea".to_string()])
        .unwrap();
    let s = storage_of(&[("a.png", 1), ("b.png", 1)], &cat);
    let unresolved = Filter::Tag(TagFilter { name: "sea".to_string() });
    assert!(unresolved.is_ok(key_of(&s, "b.png"), &s));
    let resolved = unresolved.read_ctx(&cat).unwrap().unwrap();
    assert!(resolved.is_ok(key_of(&s, "a.png"), &s));
    assert!(!resolved.is_ok(key_of(&s, "b.png"), &s));
    let missing = Filter::Tag(TagFilter { name: "moon".to_string() });
    match missing.read_ctx(&cat) {
        Err(e) => assert_eq!(e.message(), "Tag with name moon doesn't exist"),
        Ok(_) => panic!("unknown tag resolved"),
    }
    assert!(Filter::LastShown(LastShown::new()).read_ctx(&cat).unwrap().is_none());
}

#[test]
fn picks_follow_the_draw() {
    let keys = vec![FileKey(10), FileKey(20), FileKey(30)];
    assert_eq!(pick(&keys, 0), Some(FileKey(10)));
    assert_eq!(pick(&keys, 4), Some(FileKey(20)));
    assert_eq!(pick(&vec![], 4), None);
    let cat = Catalog::new(RootId(1));
    let s = storage_of(&[("a.png", 1), ("b.png", 2)], &cat);
    let filters = vec![Filter::Filename(FilenameFilter { contains: "b".to_string() })];
    let all = s.keys();
    assert_eq!(eligible(&filters, &s, &all), vec![key_of(&s, "b.png")]);
}

#[test]
fn no_match_gives_no_wallpaper() {
    let cat = Catalog::new(RootId(1));
    let s = storage_of(&[("a.png", 1)], &cat);
    let mut filters = vec![Filter::Filename(FilenameFilter { contains: "zzz".to_string() })];
    assert_eq!(pick_wallpapers(&mut filters, &s, &vec![1, 2]), vec![None, None]);
    let empty = Storage::new();
    let mut none: Vec<Filter> = vec![];
    assert_eq!(pick_wallpapers(&mut none, &empty, &vec![3]), vec![None]);
}

#[test]
fn state_records_and_freezes() {
    let cat = Catalog::new(RootId(1));
    let s = storage_of(&[("a.png", 1)], &cat);
    let a = key_of(&s, "a.png");
    let root = RootData { path: "/wp".to_string(), id: RootId(1) };
    let mut st = StateInner::new();
    assert!(!st.frozen());
    st.record_selection(
        &root,
        &s,
        &vec!["DP-1".to_string(), "HDMI-1".to_string()],
        &vec![Some(a), None],
        &vec![true, false],
    );
    assert_eq!(
        st.get_wallpapers(),
        vec![("DP-1".to_string(), Some("/wp/a.png".to_string())), ("HDMI-1".to_string(), None)]
    );
    // an output whose backend call failed shows nothing
    st.record_selection(
        &root,
        &s,
        &vec!["DP-1".to_string(), "HDMI-1".to_string()],
        &vec![Some(a), Some(a)],
        &vec![false, true],
    );
    assert_eq!(
        st.get_wallpapers(),
        vec![("DP-1".to_string(), None), ("HDMI-1".to_string(), Some("/wp/a.png".to_string()))]
    );
    assert!(st.toggle_freeze());
    assert!(st.frozen());
    assert!(!st.toggle_freeze());
}

#[test]
fn sway_command_text() {
    assert_eq!(
        sway_background_command("DP-1", "/wp/a.png", Mode::Fill),
        "output DP-1 background \"/wp/a.png\" fill"
    );
    assert_eq!(sway_background_command("X", "p", Mode::Tile), "output X background \"p\" tile");
}

#[test]
fn requests_are_answered() {
    let mut st = StateInner::new();
    let (r, w) = st.handle(Cmd::Refresh);
    assert!(matches!(r, Reply::Unit));
    assert_eq!(w, Wakeup::Refresh);
    let (r, w) = st.handle(Cmd::Rescan);
    assert!(matches!(r, Reply::Unit));
    assert_eq!(w, Wakeup::Rescan);
    let (r, w) = st.handle(Cmd::ToggleFreeze);
    assert!(matches!(r, Reply::FreezeStatus(true)));
    assert_eq!(w, Wakeup::Nothing);
    let (r, _) = st.handle(Cmd::Current);
    assert!(matches!(r, Reply::Wps(ref v) if v.is_empty()));
}

#[test]
fn filter_errors_carry_their_text() {
    let e = pickwp::filter::FilterCreateError::generic("bad filter".to_string());
    assert_eq!(e.message(), "bad filter");
    assert!(!Filter::LastShown(LastShown::new()).needed_storages().relapath);
    assert!(!Filter::LastShown(LastShown::new()).needed_storages().filetime);
}

#[test]
fn schedule_runs_timers_and_wakeups() {
    let mut s = pickwp::control::Schedule::new(100, 30, 0);
    let due = s.poll(0);
    assert!(due.scan && due.refresh);
    assert_eq!(s.wait(0), 30);
    let due = s.poll(30);
    assert!(!due.scan && due.refresh);
    assert_eq!(s.wait(50), 10);
    s.wake(Wakeup::Rescan, 55);
    assert_eq!(s.wait(55), 0);
    let due = s.poll(55);
    assert!(due.scan && !due.refresh);
    let mut far = pickwp::control::Schedule::new(u64::MAX, 1, 10);
    far.poll(10);
    assert_eq!(far.next_scan, u64::MAX);
}
