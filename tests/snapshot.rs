use pickwp::catalog::Catalog;
use pickwp::data::{RelativePath, RootId, Time as PathTime, UnixTimestamp};
use pickwp::storage::{FileKey, Storage, Time, TimeKind};

fn rel(s: &str) -> RelativePath {
    RelativePath::try_from(s.to_string()).unwrap()
}

fn times(a: i64, m: i64, c: i64) -> Time {
    Time { atime: UnixTimestamp(a), mtime: UnixTimestamp(m), ctime: UnixTimestamp(c) }
}

fn key_of(s: &Storage, path: &str) -> Option<FileKey> {
    s.keys()
        .into_iter()
        .find(|k| s.relative_path(*k).map(|p| p.as_str() == path).unwrap_or(false))
}

#[test]
fn time_select_picks_the_kind() {
    let t = times(1, 2, 3);
    assert_eq!(t.select(TimeKind::Atime), UnixTimestamp(1));
    assert_eq!(t.select(TimeKind::Mtime), UnixTimestamp(2));
    assert_eq!(t.select(TimeKind::Ctime), UnixTimestamp(3));
}

#[test]
fn refresh_keeps_identities() {
    let cat = Catalog::new(RootId(1));
    let mut s = Storage::new();
    s.refresh(&vec![(rel("a.png"), times(1, 1, 1)), (rel("b.png"), times(2, 2, 2))], &cat);
    assert_eq!(s.keys().len(), 2);
    let a = key_of(&s, "a.png").unwrap();
    let b = key_of(&s, "b.png").unwrap();
    assert_ne!(a, b);
    s.refresh(
        &vec![(rel("b.png"), times(9, 9, 9)), (rel("a.png"), times(8, 8, 8)), (rel("c.png"), times(3, 3, 3))],
        &cat,
    );
    assert_eq!(s.keys().len(), 3);
    assert_eq!(key_of(&s, "a.png"), Some(a));
    assert_eq!(key_of(&s, "b.png"), Some(b));
    // a kept identity keeps its attributes
    assert_eq!(s.time(a), Some(times(1, 1, 1)));
}

#[test]
fn refresh_evicts_unlisted_paths() {
    let cat = Catalog::new(RootId(1));
    let mut s = Storage::new();
    s.refresh(&vec![(rel("a.png"), times(1, 1, 1)), (rel("b.png"), times(2, 2, 2))], &cat);
    let a = key_of(&s, "a.png").unwrap();
    s.refresh(&vec![(rel("b.png"), times(2, 2, 2))], &cat);
    assert_eq!(s.keys().len(), 1);
    assert!(s.relative_path(a).is_none());
    assert!(s.time(a).is_none());
    assert!(!s.has_tag(a, 1));
    assert_eq!(key_of(&s, "a.png"), None);
    // the path coming back gets a new identity
    s.refresh(&vec![(rel("a.png"), times(1, 1, 1)), (rel("b.png"), times(2, 2, 2))], &cat);
    let a2 = key_of(&s, "a.png").unwrap();
    assert_ne!(a, a2);
}

#[test]
fn new_identities_take_catalog_tags() {
    let mut cat = Catalog::new(RootId(1));
    cat.insert_new(rel("a.png"), PathTime { mtime: UnixTimestamp(1), btime: None }, &vec!["sea".to_string()])
        .unwrap();
    let sea = cat.get_tag_id(&"sea".to_string()).unwrap();
    let mut s = Storage::new();
    s.refresh(&vec![(rel("a.png"), times(1, 1, 1)), (rel("b.png"), times(1, 1, 1))], &cat);
    let a = key_of(&s, "a.png").unwrap();
    let b = key_of(&s, "b.png").unwrap();
    assert!(s.has_tag(a, sea));
    assert!(!s.has_tag(b, sea));
}
