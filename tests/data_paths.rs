use pickwp::data::{join_path, RelativePath, RelativePathError, RootData, RootId, Time, UnixTimestamp};

#[test]
fn relative_path_accepts_plain_names() {
    let p = RelativePath::try_from("a/b.png".to_string()).unwrap();
    assert_eq!(p.as_str(), "a/b.png");
    let p = RelativePath::try_from("..hidden".to_string()).unwrap();
    assert_eq!(p.as_str(), "..hidden");
    let p = RelativePath::try_from(String::new()).unwrap();
    assert_eq!(p.as_str(), "");
}

#[test]
fn relative_path_rejects_absolute() {
    assert!(matches!(
        RelativePath::try_from("/wp/a.png".to_string()),
        Err(RelativePathError::NotRelative)
    ));
}

#[test]
fn relative_path_rejects_escape() {
    assert!(matches!(
        RelativePath::try_from("../a.png".to_string()),
        Err(RelativePathError::EscapesRoot)
    ));
    assert!(matches!(
        RelativePath::try_from("..".to_string()),
        Err(RelativePathError::EscapesRoot)
    ));
}

#[test]
fn relative_path_from_bytes() {
    let p = RelativePath::try_from_bytes("b\u{e9}.png".as_bytes().to_vec()).unwrap();
    assert_eq!(p.as_str(), "b\u{e9}.png");
    assert!(matches!(
        RelativePath::try_from_bytes(vec![0x61, 0xff]),
        Err(RelativePathError::InvalidUTF8)
    ));
    assert!(matches!(
        RelativePath::try_from_bytes(vec![b'/', 0xff]),
        Err(RelativePathError::NotRelative)
    ));
}

#[test]
fn join_path_adds_one_separator() {
    assert_eq!(join_path("/wp", "a.png"), "/wp/a.png");
    assert_eq!(join_path("/wp/", "a.png"), "/wp/a.png");
    assert_eq!(join_path("", "a.png"), "a.png");
}

#[test]
fn root_data_joins_relative_paths() {
    let root = RootData { path: "/wp".to_string(), id: RootId(3) };
    let rel = RelativePath::try_from("sub/a.png".to_string()).unwrap();
    assert_eq!(root.root(&rel), "/wp/sub/a.png");
    assert_eq!(root.id(), RootId(3));
}

#[test]
fn timestamp_pairs_compare_both_fields() {
    let a = Time { mtime: UnixTimestamp::from(10), btime: None };
    let b = Time { mtime: UnixTimestamp::from(10), btime: Some(UnixTimestamp(10)) };
    let c = Time { mtime: UnixTimestamp::from(10), btime: None };
    let d = Time { mtime: UnixTimestamp::from(11), btime: None };
    assert!(!a.same(&b));
    assert!(a.same(&c));
    assert!(!a.same(&d));
}
