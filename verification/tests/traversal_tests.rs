use fs_indexer::checksum::checksum_of_chunks;
use fs_indexer::entry::{RawEntry, RawKind, RawMeta};
use fs_indexer::fs_node::NodeType;
use fs_indexer::traversal::{FsEvent, TraversalEngine, depth_first_indexer};

fn meta(size: i64) -> RawMeta {
    RawMeta {
        size,
        uid: 1000,
        gid: 100,
        permissions: 0o100644,
        inode: 7,
        nlinks: 1,
        created: Some(1600000000),
        modified: Some(1600000001),
    }
}

fn file_entry(path: &str, content: &[u8]) -> FsEvent {
    FsEvent::Entry {
        raw: RawEntry {
            path: path.to_string(),
            kind: RawKind::File,
            meta: Some(meta(content.len() as i64)),
            link_target: None,
        },
        checksum: checksum_of_chunks(&vec![content.to_vec()]),
    }
}

fn dir_entry(path: &str) -> FsEvent {
    FsEvent::Entry {
        raw: RawEntry {
            path: path.to_string(),
            kind: RawKind::Directory,
            meta: Some(meta(0)),
            link_target: None,
        },
        checksum: String::new(),
    }
}

fn symlink_entry(path: &str, target: &str) -> FsEvent {
    FsEvent::Entry {
        raw: RawEntry {
            path: path.to_string(),
            kind: RawKind::Symlink,
            meta: Some(meta(0)),
            link_target: Some(target.to_string()),
        },
        checksum: String::new(),
    }
}

#[test]
fn engine_appends_one_record_per_entry_and_tracks_levels() {
    let mut engine = TraversalEngine::begin("/a".to_string());
    assert!(engine.is_active());
    assert_eq!(engine.current_dir().as_str(), "/a");

    let raw = RawEntry {
        path: "/a/sub".to_string(),
        kind: RawKind::Directory,
        meta: Some(meta(0)),
        link_target: None,
    };
    let descend = engine.on_entry(&raw, String::new());
    assert!(descend);
    engine.on_descended("/a/sub".to_string());
    assert_eq!(engine.current_dir().as_str(), "/a/sub");
    engine.on_dir_exhausted();
    assert_eq!(engine.current_dir().as_str(), "/a");
    engine.on_dir_exhausted();
    assert!(!engine.is_active());

    let records = engine.into_records();
    assert_eq!(records.len(), 1);
    assert_eq!(records[0].path, "/a/sub");
    assert_eq!(records[0].node_type, NodeType::Directory);
}

#[test]
fn unreadable_subdirectory_costs_no_sibling_its_record() {
    // /a holds f1.txt, an unreadable subdirectory, and f2.txt: the failed
    // descent and a failed child enumeration leave every other record in
    // place, and the run is not aborted.
    let events = vec![
        file_entry("/a/f1.txt", b"hi"),
        dir_entry("/a/locked"),
        FsEvent::DescendFailed,
        FsEvent::EntryError,
        file_entry("/a/f2.txt", b""),
        FsEvent::DirExhausted,
    ];
    let records = depth_first_indexer("/a".to_string(), events);
    assert_eq!(records.len(), 3);
    assert_eq!(records[0].path, "/a/f1.txt");
    assert_eq!(records[1].path, "/a/locked");
    assert_eq!(records[2].path, "/a/f2.txt");
}

#[test]
fn end_to_end_tree_yields_exactly_four_records() {
    // Tree: /a/{f1.txt:"hi", sub/f2.txt:"", broken_link -> missing_target}.
    let events = vec![
        file_entry("/a/f1.txt", b"hi"),
        dir_entry("/a/sub"),
        FsEvent::Descended { dir_path: "/a/sub".to_string() },
        file_entry("/a/sub/f2.txt", b""),
        FsEvent::DirExhausted,
        symlink_entry("/a/broken_link", "missing_target"),
        FsEvent::DirExhausted,
    ];
    let records = depth_first_indexer("/a".to_string(), events);
    assert_eq!(records.len(), 4);

    let f1 = &records[0];
    assert_eq!(f1.path, "/a/f1.txt");
    assert_eq!(f1.node_type, NodeType::File);
    assert_eq!(f1.sha1_checksum, "c22b5f9178342609428d6f51b2c5af4c0bde6a42");
    assert_eq!(f1.parent_path, "/a");

    let sub = &records[1];
    assert_eq!(sub.path, "/a/sub");
    assert_eq!(sub.node_type, NodeType::Directory);
    assert_eq!(sub.sha1_checksum, "");

    let f2 = &records[2];
    assert_eq!(f2.path, "/a/sub/f2.txt");
    assert_eq!(f2.node_type, NodeType::File);
    assert_eq!(f2.sha1_checksum, "da39a3ee5e6b4b0d3255bfef95601890afd80709");
    assert_eq!(f2.parent_path, "/a/sub");

    let link = &records[3];
    assert_eq!(link.path, "/a/broken_link");
    assert_eq!(link.node_type, NodeType::Symlink);
    assert_eq!(link.links_to, "missing_target");
    assert_eq!(link.sha1_checksum, "");
    assert_eq!(link.parent_path, "/a");
}

#[test]
fn deep_descent_and_return_visits_every_level() {
    let events = vec![
        dir_entry("/a/b"),
        FsEvent::Descended { dir_path: "/a/b".to_string() },
        dir_entry("/a/b/c"),
        FsEvent::Descended { dir_path: "/a/b/c".to_string() },
        file_entry("/a/b/c/leaf", b"hi"),
        FsEvent::DirExhausted,
        FsEvent::DirExhausted,
        file_entry("/a/tail", b""),
        FsEvent::DirExhausted,
    ];
    let records = depth_first_indexer("/a".to_string(), events);
    assert_eq!(records.len(), 4);
    assert_eq!(records[2].path, "/a/b/c/leaf");
    assert_eq!(records[2].parent_path, "/a/b/c");
    assert_eq!(records[3].path, "/a/tail");
}
