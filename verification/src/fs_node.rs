//! The canonical record type produced for each indexed filesystem object,
//! and its serialized row form for the persistence boundary.

use vstd::prelude::*;

verus! {

/// Classification of one filesystem object. Each variant maps to a stable
/// integer code used at the storage boundary; the codes must never be
/// renumbered. `Error` records an entry whose type could not be read at all,
/// so that this information is not silently folded into `Other`.
#[derive(Clone, Copy, Debug, PartialEq, Eq, Structural)]
pub enum NodeType {
    File,
    Directory,
    Symlink,
    Other,
    Error,
}

/// The stable integer code of each node type.
pub open spec fn node_type_code(t: NodeType) -> i32 {
    match t {
        NodeType::File => 0,
        NodeType::Directory => 1,
        NodeType::Symlink => 2,
        NodeType::Other => 3,
        NodeType::Error => 4,
    }
}

impl NodeType {
    /// The stable integer code of this node type, as persisted.
    pub fn value(&self) -> (code: i32)
        ensures
            code == node_type_code(*self),
    {
        match self {
            NodeType::File => 0,
            NodeType::Directory => 1,
            NodeType::Symlink => 2,
            NodeType::Other => 3,
            NodeType::Error => 4,
        }
    }
}

impl Default for NodeType {
    fn default() -> (t: Self)
        ensures
            t == NodeType::File,
    {
        NodeType::File
    }
}

/// One indexed filesystem object. Constructed once during entry processing
/// and immutable afterwards; `id` and `parent_id` are left unset (zero) for
/// the persistence layer to assign and repair.
#[derive(Debug)]
pub struct FsNode {
    pub id: i64,
    pub node_type: NodeType,
    /// The entry's full path as encountered (not just the basename).
    pub name: String,
    pub size: i64,
    pub uid: u32,
    pub gid: u32,
    pub permissions: u32,
    /// Seconds since the Unix epoch; zero if unreadable or unsupported.
    pub creation_date: i64,
    /// Seconds since the Unix epoch; zero if unreadable or unsupported.
    pub modified_date: i64,
    /// Absolute path of the object.
    pub path: String,
    /// Absolute path of the immediate parent directory; empty for a
    /// filesystem root.
    pub parent_path: String,
    /// 40-character lowercase hex digest for regular files; empty for
    /// non-file types; the literal sentinel `"ERR"` when the checksum could
    /// not be computed.
    pub sha1_checksum: String,
    /// Symlink target text; populated only for symlink nodes; empty on
    /// resolution failure.
    pub links_to: String,
    pub inode: i64,
    pub nlinks: i64,
    pub parent_id: i64,
}

/// Everything in a fresh record is zero, empty, or the default node type.
pub open spec fn is_default_node(n: FsNode) -> bool {
    &&& n.id == 0
    &&& n.node_type == NodeType::File
    &&& n.name@ == Seq::<char>::empty()
    &&& n.size == 0
    &&& n.uid == 0
    &&& n.gid == 0
    &&& n.permissions == 0
    &&& n.creation_date == 0
    &&& n.modified_date == 0
    &&& n.path@ == Seq::<char>::empty()
    &&& n.parent_path@ == Seq::<char>::empty()
    &&& n.sha1_checksum@ == Seq::<char>::empty()
    &&& n.links_to@ == Seq::<char>::empty()
    &&& n.inode == 0
    &&& n.nlinks == 0
    &&& n.parent_id == 0
}

impl Default for FsNode {
    fn default() -> (n: Self)
        ensures
            is_default_node(n),
    {
        FsNode {
            id: 0,
            node_type: NodeType::File,
            name: String::new(),
            size: 0,
            uid: 0,
            gid: 0,
            permissions: 0,
            creation_date: 0,
            modified_date: 0,
            path: String::new(),
            parent_path: String::new(),
            sha1_checksum: String::new(),
            links_to: String::new(),
            inode: 0,
            nlinks: 0,
            parent_id: 0,
        }
    }
}

impl FsNode {
    /// A fresh record with every field zeroed or empty.
    pub fn new() -> (n: FsNode)
        ensures
            is_default_node(n),
    {
        FsNode::default()
    }

    /// The record serialized for the storage boundary: the fourteen column
    /// values of one inserted row, in column order, with `node_type` encoded
    /// as its stable integer code. `id` is assigned by the store and
    /// `parent_path` is only the key the store later repairs `parent_id`
    /// from, so neither is a column.
    pub fn to_row(&self) -> (row: Vec<SqlValue>)
        ensures
            row@.len() == 14,
            row@[0] == SqlValue::Int(node_type_code(self.node_type) as i64),
            (row@[1] matches SqlValue::Text(s) && s@ == self.name@),
            row@[2] == SqlValue::Int(self.size),
            row@[3] == SqlValue::Int(self.uid as i64),
            row@[4] == SqlValue::Int(self.gid as i64),
            row@[5] == SqlValue::Int(self.permissions as i64),
            row@[6] == SqlValue::Int(self.creation_date),
            row@[7] == SqlValue::Int(self.modified_date),
            (row@[8] matches SqlValue::Text(s) && s@ == self.path@),
            (row@[9] matches SqlValue::Text(s) && s@ == self.sha1_checksum@),
            (row@[10] matches SqlValue::Text(s) && s@ == self.links_to@),
            row@[11] == SqlValue::Int(self.inode),
            row@[12] == SqlValue::Int(self.nlinks),
            row@[13] == SqlValue::Int(self.parent_id),
    {
        let mut row: Vec<SqlValue> = Vec::new();
        row.push(SqlValue::Int(self.node_type.value() as i64));
        row.push(SqlValue::Text(self.name.clone()));
        row.push(SqlValue::Int(self.size));
        row.push(SqlValue::Int(self.uid as i64));
        row.push(SqlValue::Int(self.gid as i64));
        row.push(SqlValue::Int(self.permissions as i64));
        row.push(SqlValue::Int(self.creation_date));
        row.push(SqlValue::Int(self.modified_date));
        row.push(SqlValue::Text(self.path.clone()));
        row.push(SqlValue::Text(self.sha1_checksum.clone()));
        row.push(SqlValue::Text(self.links_to.clone()));
        row.push(SqlValue::Int(self.inode));
        row.push(SqlValue::Int(self.nlinks));
        row.push(SqlValue::Int(self.parent_id));
        row
    }
}

/// One SQL column value of a serialized record.
#[derive(Debug)]
pub enum SqlValue {
    Int(i64),
    Text(String),
}

} // verus!
