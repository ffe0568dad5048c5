use pickwp::catalog::{Catalog, StoreError};
use pickwp::data::{PathId, RelativePath, RootId, Time, UnixTimestamp};
use pickwp::index::TextIndex;

fn rel(s: &str) -> RelativePath {
    RelativePath::try_from(s.to_string()).unwrap()
}

fn at(m: i64) -> Time {
    Time { mtime: UnixTimestamp(m), btime: None }
}

#[test]
fn text_index_maps_and_forgets() {
    let mut idx = TextIndex::new();
    idx.insert("a.png".to_string(), 7);
    idx.insert("b.png".to_string(), 8);
    assert_eq!(idx.get(&"a.png".to_string()), Some(7));
    assert_eq!(idx.get(&"b.png".to_string()), Some(8));
    assert_eq!(idx.get(&"c.png".to_string()), None);
    idx.remove(&"a.png".to_string());
    assert_eq!(idx.get(&"a.png".to_string()), None);
    assert_eq!(idx.get(&"b.png".to_string()), Some(8));
}

#[test]
fn insert_new_assigns_ids_and_tags() {
    let mut c = Catalog::new(RootId(1));
    let id = c.insert_new(rel("a.png"), at(5), &vec!["cat".to_string(), "dog".to_string()]);
    assert_eq!(id, Ok(PathId(1)));
    let id = c.insert_new(rel("b.png"), at(6), &vec!["dog".to_string()]);
    assert_eq!(id, Ok(PathId(2)));
    assert_eq!(c.len(), 2);
    let cat = c.get_tag_id(&"cat".to_string()).unwrap();
    let dog = c.get_tag_id(&"dog".to_string()).unwrap();
    assert_ne!(cat, dog);
    assert_eq!(c.get_tag_id(&"bird".to_string()), None);
    let mut a_tags = c.get_path_tags(&rel("a.png"));
    a_tags.sort();
    let mut want = vec![cat, dog];
    want.sort();
    assert_eq!(a_tags, want);
    assert_eq!(c.get_path_tags(&rel("b.png")), vec![dog]);
    assert!(c.get_path_tags(&rel("zzz.png")).is_empty());
    assert_eq!(c.lookup(&rel("a.png")), Some(at(5)));
    assert_eq!(c.lookup(&rel("c.png")), None);
}

#[test]
fn insert_new_refuses_known_path() {
    let mut c = Catalog::new(RootId(1));
    c.insert_new(rel("a.png"), at(5), &vec![]).unwrap();
    assert_eq!(c.insert_new(rel("a.png"), at(9), &vec![]), Err(StoreError::DuplicatePath));
    assert_eq!(c.lookup(&rel("a.png")), Some(at(5)));
}

#[test]
fn upsert_needs_existing_row() {
    let mut c = Catalog::new(RootId(1));
    assert_eq!(c.upsert_timestamps(&rel("a.png"), at(2)), Err(StoreError::UnknownPath));
    c.insert_new(rel("a.png"), at(1), &vec![]).unwrap();
    assert_eq!(c.upsert_timestamps(&rel("a.png"), at(2)), Ok(()));
    assert_eq!(c.lookup(&rel("a.png")), Some(at(2)));
}

#[test]
fn loading_checks_names_and_ids() {
    let mut c = Catalog::new(RootId(4));
    assert_eq!(c.load_tag("cat".to_string(), 3), Ok(()));
    assert_eq!(c.load_tag("cat".to_string(), 5), Err(StoreError::DuplicateTag));
    assert_eq!(c.load_tag("dog".to_string(), 0), Err(StoreError::InvalidId));
    assert_eq!(c.load_row(PathId(10), rel("a.png"), at(1), vec![3]), Ok(()));
    assert_eq!(c.load_row(PathId(11), rel("a.png"), at(1), vec![]), Err(StoreError::DuplicatePath));
    assert_eq!(c.load_row(PathId(-1), rel("b.png"), at(1), vec![]), Err(StoreError::InvalidId));
    // new rows and tags get ids past the loaded ones
    assert_eq!(c.insert_new(rel("b.png"), at(1), &vec!["dog".to_string()]), Ok(PathId(11)));
    assert_eq!(c.get_tag_id(&"dog".to_string()), Some(4));
    assert_eq!(c.get_path_tags(&rel("a.png")), vec![3]);
}

#[test]
fn copy_is_independent() {
    let mut c = Catalog::new(RootId(1));
    c.insert_new(rel("a.png"), at(1), &vec!["cat".to_string()]).unwrap();
    let mut d = c.copy();
    d.insert_new(rel("b.png"), at(2), &vec![]).unwrap();
    assert_eq!(c.len(), 1);
    assert_eq!(d.len(), 2);
    assert_eq!(d.lookup(&rel("a.png")), Some(at(1)));
    assert_eq!(d.get_tag_id(&"cat".to_string()), c.get_tag_id(&"cat".to_string()));
    let entries = d.tag_entries();
    assert_eq!(entries.len(), 1);
    assert_eq!(entries[0].0, "cat");
}

#[test]
fn path_exists_follows_rows() {
    let mut c = Catalog::new(RootId(1));
    assert!(!c.path_exists(&rel("a.png")));
    c.insert_new(rel("a.png"), at(1), &vec![]).unwrap();
    assert!(c.path_exists(&rel("a.png")));
}

#[test]
fn reserved_ids_are_skipped() {
    let mut c = Catalog::new(RootId(2));
    c.load_row(PathId(3), rel("a.png"), at(1), vec![]).unwrap();
    c.reserve_ids(40, 9);
    c.reserve_ids(20, 2);
    assert_eq!(c.insert_new(rel("b.png"), at(1), &vec!["t".to_string()]), Ok(PathId(40)));
    assert_eq!(c.get_tag_id(&"t".to_string()), Some(9));
}
