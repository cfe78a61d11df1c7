use fs_indexer::fs_node::{FsNode, NodeType, SqlValue};

#[test]
fn node_type_codes_are_stable() {
    assert_eq!(NodeType::File.value(), 0);
    assert_eq!(NodeType::Directory.value(), 1);
    assert_eq!(NodeType::Symlink.value(), 2);
    assert_eq!(NodeType::Other.value(), 3);
    assert_eq!(NodeType::Error.value(), 4);
}

#[test]
fn fresh_node_is_all_defaults() {
    let n = FsNode::new();
    assert_eq!(n.id, 0);
    assert_eq!(n.node_type, NodeType::File);
    assert_eq!(n.name, "");
    assert_eq!(n.size, 0);
    assert_eq!(n.uid, 0);
    assert_eq!(n.gid, 0);
    assert_eq!(n.permissions, 0);
    assert_eq!(n.creation_date, 0);
    assert_eq!(n.modified_date, 0);
    assert_eq!(n.path, "");
    assert_eq!(n.parent_path, "");
    assert_eq!(n.sha1_checksum, "");
    assert_eq!(n.links_to, "");
    assert_eq!(n.inode, 0);
    assert_eq!(n.nlinks, 0);
    assert_eq!(n.parent_id, 0);
}

fn int_of(v: &SqlValue) -> i64 {
    match v {
        SqlValue::Int(i) => *i,
        SqlValue::Text(t) => panic!("expected an integer column, got text {:?}", t),
    }
}

fn text_of(v: &SqlValue) -> &str {
    match v {
        SqlValue::Text(t) => t.as_str(),
        SqlValue::Int(i) => panic!("expected a text column, got integer {}", i),
    }
}

#[test]
fn row_serializes_all_fourteen_columns_in_order() {
    let mut n = FsNode::new();
    n.node_type = NodeType::Symlink;
    n.name = "/a/broken_link".to_string();
    n.size = 14;
    n.uid = 1000;
    n.gid = 100;
    n.permissions = 0o120777;
    n.creation_date = 1500000000;
    n.modified_date = 1500000001;
    n.path = "/a/broken_link".to_string();
    n.parent_path = "/a".to_string();
    n.sha1_checksum = "".to_string();
    n.links_to = "missing_target".to_string();
    n.inode = 42;
    n.nlinks = 1;
    n.parent_id = 7;

    let row = n.to_row();
    assert_eq!(row.len(), 14);
    assert_eq!(int_of(&row[0]), 2);
    assert_eq!(text_of(&row[1]), "/a/broken_link");
    assert_eq!(int_of(&row[2]), 14);
    assert_eq!(int_of(&row[3]), 1000);
    assert_eq!(int_of(&row[4]), 100);
    assert_eq!(int_of(&row[5]), 0o120777);
    assert_eq!(int_of(&row[6]), 1500000000);
    assert_eq!(int_of(&row[7]), 1500000001);
    assert_eq!(text_of(&row[8]), "/a/broken_link");
    assert_eq!(text_of(&row[9]), "");
    assert_eq!(text_of(&row[10]), "missing_target");
    assert_eq!(int_of(&row[11]), 42);
    assert_eq!(int_of(&row[12]), 1);
    assert_eq!(int_of(&row[13]), 7);
}
