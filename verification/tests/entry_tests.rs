use fs_indexer::entry::{RawEntry, RawKind, RawMeta, needs_checksum, process_entry};
use fs_indexer::fs_node::NodeType;

fn meta() -> RawMeta {
    RawMeta {
        size: 2,
        uid: 1000,
        gid: 100,
        permissions: 0o100644,
        inode: 99,
        nlinks: 1,
        created: Some(1600000000),
        modified: Some(1600000005),
    }
}

#[test]
fn file_entry_gets_the_computed_checksum_and_metadata() {
    let raw = RawEntry {
        path: "/a/f1.txt".to_string(),
        kind: RawKind::File,
        meta: Some(meta()),
        link_target: None,
    };
    assert!(needs_checksum(&raw));
    let n = process_entry(&raw, "c22b5f9178342609428d6f51b2c5af4c0bde6a42".to_string());
    assert_eq!(n.node_type, NodeType::File);
    assert_eq!(n.name, "/a/f1.txt");
    assert_eq!(n.path, "/a/f1.txt");
    assert_eq!(n.parent_path, "/a");
    assert_eq!(n.size, 2);
    assert_eq!(n.uid, 1000);
    assert_eq!(n.gid, 100);
    assert_eq!(n.permissions, 0o100644);
    assert_eq!(n.inode, 99);
    assert_eq!(n.nlinks, 1);
    assert_eq!(n.creation_date, 1600000000);
    assert_eq!(n.modified_date, 1600000005);
    assert_eq!(n.sha1_checksum, "c22b5f9178342609428d6f51b2c5af4c0bde6a42");
    assert_eq!(n.links_to, "");
    assert_eq!(n.id, 0);
    assert_eq!(n.parent_id, 0);
}

#[test]
fn symlink_entry_keeps_target_text_and_no_checksum() {
    let raw = RawEntry {
        path: "/a/broken_link".to_string(),
        kind: RawKind::Symlink,
        meta: Some(meta()),
        link_target: Some("missing_target".to_string()),
    };
    assert!(!needs_checksum(&raw));
    let n = process_entry(&raw, "ignored".to_string());
    assert_eq!(n.node_type, NodeType::Symlink);
    assert_eq!(n.links_to, "missing_target");
    assert_eq!(n.sha1_checksum, "");
}

#[test]
fn unresolved_symlink_target_degrades_to_empty() {
    let raw = RawEntry {
        path: "/a/broken_link".to_string(),
        kind: RawKind::Symlink,
        meta: None,
        link_target: None,
    };
    let n = process_entry(&raw, String::new());
    assert_eq!(n.node_type, NodeType::Symlink);
    assert_eq!(n.links_to, "");
}

#[test]
fn directory_entry_has_empty_checksum_and_independent_metadata() {
    let raw = RawEntry {
        path: "/a/sub".to_string(),
        kind: RawKind::Directory,
        meta: Some(RawMeta { created: None, modified: Some(12), ..meta() }),
        link_target: None,
    };
    let n = process_entry(&raw, String::new());
    assert_eq!(n.node_type, NodeType::Directory);
    assert_eq!(n.sha1_checksum, "");
    assert_eq!(n.links_to, "");
    assert_eq!(n.size, 2);
    assert_eq!(n.creation_date, 0);
    assert_eq!(n.modified_date, 12);
}

#[test]
fn unreadable_metadata_zeroes_every_metadata_field() {
    let raw = RawEntry {
        path: "/a/f1.txt".to_string(),
        kind: RawKind::File,
        meta: None,
        link_target: None,
    };
    let n = process_entry(&raw, "ERR".to_string());
    assert_eq!(n.size, 0);
    assert_eq!(n.uid, 0);
    assert_eq!(n.gid, 0);
    assert_eq!(n.permissions, 0);
    assert_eq!(n.inode, 0);
    assert_eq!(n.nlinks, 0);
    assert_eq!(n.creation_date, 0);
    assert_eq!(n.modified_date, 0);
    assert_eq!(n.sha1_checksum, "ERR");
}

#[test]
fn unreadable_type_keeps_its_own_classification() {
    let raw = RawEntry {
        path: "/a/odd".to_string(),
        kind: RawKind::Unknown,
        meta: None,
        link_target: None,
    };
    let n = process_entry(&raw, String::new());
    assert_eq!(n.node_type, NodeType::Error);
    assert_eq!(n.node_type.value(), 4);
    assert_eq!(n.sha1_checksum, "");
}

#[test]
fn other_type_classifies_as_other() {
    let raw = RawEntry {
        path: "/dev/null0".to_string(),
        kind: RawKind::Other,
        meta: Some(meta()),
        link_target: None,
    };
    let n = process_entry(&raw, String::new());
    assert_eq!(n.node_type, NodeType::Other);
    assert_eq!(n.node_type.value(), 3);
    assert_eq!(n.sha1_checksum, "");
}
