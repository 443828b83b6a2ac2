//! Tests of the file map helpers.

use sn_membership::error::Error;
use sn_membership::files::{
    add_or_update_file_item, file_map_for_path, filesmap_chroot, get_file_link_and_metadata,
    FileInfo, FilesMap, FilesMapChange, GetAttr,
};

fn file_record(link: &str) -> FileInfo {
    let mut info = FileInfo::new();
    info.insert("type".to_string(), "text/plain".to_string());
    info.insert("link".to_string(), link.to_string());
    info
}

fn dir_record() -> FileInfo {
    let mut info = FileInfo::new();
    info.insert("type".to_string(), "inode/directory".to_string());
    info
}

fn symlink_record() -> FileInfo {
    let mut info = FileInfo::new();
    info.insert("type".to_string(), "inode/symlink".to_string());
    info
}

#[test]
fn change_kind_predicates() {
    let added = FilesMapChange::Added("safe://a".to_string());
    let updated = FilesMapChange::Updated("safe://b".to_string());
    let removed = FilesMapChange::Removed("safe://c".to_string());
    let failed = FilesMapChange::Failed("boom".to_string());
    assert!(added.is_added() && !added.is_updated() && !added.is_removed());
    assert!(updated.is_updated() && !updated.is_added());
    assert!(removed.is_removed());
    assert!(added.is_success() && updated.is_success() && removed.is_success());
    assert!(!failed.is_success());
    assert_eq!(added.link(), Some(&"safe://a".to_string()));
    assert_eq!(failed.link(), None);
}

#[test]
fn getattr_finds_keys_and_reports_missing_ones() {
    let info = file_record("safe://x");
    assert_eq!(info.getattr("link"), Ok("safe://x"));
    assert!(matches!(info.getattr("nope"), Err(Error::EntryNotFound(_))));
}

#[test]
fn insert_replaces_and_adds() {
    let mut info = FileInfo::new();
    info.insert("k".to_string(), "v1".to_string());
    info.insert("k".to_string(), "v2".to_string());
    assert_eq!(info.get("k"), Some(&"v2".to_string()));
    assert_eq!(info.entries.len(), 1);
}

#[test]
fn chroot_keeps_only_the_subtree() {
    let mut map = FilesMap::new();
    map.insert("/docs/a.txt".to_string(), file_record("safe://a"));
    map.insert("/docs/b.txt".to_string(), file_record("safe://b"));
    map.insert("/other/c.txt".to_string(), file_record("safe://c"));
    let sub = filesmap_chroot("/docs", &map).unwrap();
    assert_eq!(sub.entries.len(), 2);
    assert!(sub.get("a.txt").is_some());
    assert!(sub.get("b.txt").is_some());
    assert!(sub.get("c.txt").is_none());
}

#[test]
fn chroot_of_an_empty_subtree_is_an_error() {
    let mut map = FilesMap::new();
    map.insert("/docs/a.txt".to_string(), file_record("safe://a"));
    assert!(matches!(
        filesmap_chroot("/nothing", &map),
        Err(Error::ContentError(_))
    ));
}

#[test]
fn file_map_for_path_dispatches_on_type() {
    let mut map = FilesMap::new();
    map.insert("/docs".to_string(), dir_record());
    map.insert("/docs/a.txt".to_string(), file_record("safe://a"));
    map.insert("/link".to_string(), symlink_record());

    // a plain file keeps the whole map
    let whole = file_map_for_path(clone_map(&map), "/docs/a.txt").unwrap();
    assert_eq!(whole.entries.len(), 3);
    // a directory chroots
    let sub = file_map_for_path(clone_map(&map), "/docs").unwrap();
    assert_eq!(sub.entries.len(), 1);
    assert!(sub.get("a.txt").is_some());
    // a symlink is refused
    assert!(matches!(
        file_map_for_path(clone_map(&map), "/link"),
        Err(Error::ContentError(_))
    ));
}

fn clone_map(map: &FilesMap) -> FilesMap {
    let mut out = FilesMap::new();
    for (k, v) in &map.entries {
        out.insert(k.clone(), v.clone_info());
    }
    out
}

#[test]
fn link_and_metadata_for_a_file() {
    let mut map = FilesMap::new();
    map.insert("/docs/a.txt".to_string(), file_record("safe://a"));
    let (link, info) = get_file_link_and_metadata(&map, "/docs/a.txt").unwrap();
    assert_eq!(link, Some("safe://a".to_string()));
    let info = info.unwrap();
    assert_eq!(info.get("name"), Some(&"a.txt".to_string()));
    // nothing at an empty or unknown path
    let (l1, i1) = get_file_link_and_metadata(&map, "").unwrap();
    assert!(l1.is_none() && i1.is_none());
    let (l2, i2) = get_file_link_and_metadata(&map, "/zzz").unwrap();
    assert!(l2.is_none() && i2.is_none());
}

#[test]
fn add_or_update_records_the_change() {
    let mut map = FilesMap::new();
    let mut processed: Vec<(String, FilesMapChange)> = Vec::new();
    let ok = add_or_update_file_item(
        "a.txt",
        "/docs/a.txt",
        Ok(file_record("safe://a")),
        false,
        &mut map,
        &mut processed,
    );
    assert!(ok);
    assert!(map.get("/docs/a.txt").is_some());
    assert!(processed.last().unwrap().1.is_added());

    let ok2 = add_or_update_file_item(
        "a.txt",
        "/docs/a.txt",
        Ok(file_record("safe://a2")),
        true,
        &mut map,
        &mut processed,
    );
    assert!(ok2);
    assert!(processed.last().unwrap().1.is_updated());

    let failed = add_or_update_file_item(
        "b.txt",
        "/docs/b.txt",
        Err("disk on fire".to_string()),
        false,
        &mut map,
        &mut processed,
    );
    assert!(!failed);
    assert!(map.get("/docs/b.txt").is_none());
    assert!(!processed.last().unwrap().1.is_success());
}
