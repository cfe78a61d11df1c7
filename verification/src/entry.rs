//! Converting one raw directory entry, plus whatever OS metadata could be
//! read for it, into a canonical `FsNode` record. Every fault the driver
//! observed degrades to a default or sentinel field value; a successfully
//! enumerated entry always yields exactly one best-effort record.

use vstd::prelude::*;
use crate::fs_node::{FsNode, NodeType};
use crate::paths::{path_is_absolute, parent_of, parent_dir};

verus! {

/// The file type the OS reported for an entry, or `Unknown` when the type
/// could not be read at all.
#[derive(Clone, Copy, Debug, PartialEq, Eq, Structural)]
pub enum RawKind {
    Directory,
    File,
    Symlink,
    Other,
    Unknown,
}

/// OS metadata for one entry, already reduced to plain values by the
/// driver. A date is `None` when it was unreadable or unsupported.
#[derive(Clone, Copy, Debug)]
pub struct RawMeta {
    pub size: i64,
    pub uid: u32,
    pub gid: u32,
    pub permissions: u32,
    pub inode: i64,
    pub nlinks: i64,
    pub created: Option<u64>,
    pub modified: Option<u64>,
}

/// One raw directory entry as the driver observed it: the entry's absolute
/// path, its reported type, its metadata (`None` when the metadata read
/// failed as a whole), and the resolved symlink target (`None` when the
/// entry is no symlink or resolution failed).
#[derive(Debug)]
pub struct RawEntry {
    pub path: String,
    pub kind: RawKind,
    pub meta: Option<RawMeta>,
    pub link_target: Option<String>,
}

/// How a reported file type classifies: an unreadable type keeps its own
/// variant rather than being folded into `Other`.
pub open spec fn kind_node_type(k: RawKind) -> NodeType {
    match k {
        RawKind::Directory => NodeType::Directory,
        RawKind::File => NodeType::File,
        RawKind::Symlink => NodeType::Symlink,
        RawKind::Other => NodeType::Other,
        RawKind::Unknown => NodeType::Error,
    }
}

/// Seconds since the epoch as stored: zero when the date was unreadable or
/// does not fit the stored signed range.
pub open spec fn date_secs(d: Option<u64>) -> i64 {
    match d {
        Option::None => 0,
        Option::Some(s) => if s <= i64::MAX { s as i64 } else { 0 },
    }
}

/// The record that entry processing owes for `raw`, where `checksum` is the
/// digest the caller computed for a regular file's content (ignored for any
/// other node type). Field by field:
/// identifiers unset, the full path in both `name` and `path`, the parent
/// derived from the path, each metadata field taken from `raw.meta` or
/// zeroed, the link target only on symlinks, the checksum only on files.
pub open spec fn is_record_for(n: FsNode, raw: RawEntry, checksum: Seq<char>) -> bool {
    &&& n.id == 0
    &&& n.parent_id == 0
    &&& n.node_type == kind_node_type(raw.kind)
    &&& n.name@ == raw.path@
    &&& n.path@ == raw.path@
    &&& n.parent_path@ == parent_of(raw.path@)
    &&& match raw.meta {
        Option::Some(m) => {
            &&& n.size == m.size
            &&& n.uid == m.uid
            &&& n.gid == m.gid
            &&& n.permissions == m.permissions
            &&& n.inode == m.inode
            &&& n.nlinks == m.nlinks
            &&& n.creation_date == date_secs(m.created)
            &&& n.modified_date == date_secs(m.modified)
        },
        Option::None => {
            &&& n.size == 0
            &&& n.uid == 0
            &&& n.gid == 0
            &&& n.permissions == 0
            &&& n.inode == 0
            &&& n.nlinks == 0
            &&& n.creation_date == 0
            &&& n.modified_date == 0
        },
    }
    &&& n.links_to@ == (if kind_node_type(raw.kind) == NodeType::Symlink {
        match raw.link_target {
            Option::Some(t) => t@,
            Option::None => Seq::<char>::empty(),
        }
    } else {
        Seq::<char>::empty()
    })
    &&& n.sha1_checksum@ == (if kind_node_type(raw.kind) == NodeType::File {
        checksum
    } else {
        Seq::<char>::empty()
    })
}

/// Whether a checksum must be computed before processing this entry: only
/// regular files carry one.
pub fn needs_checksum(raw: &RawEntry) -> (r: bool)
    ensures
        r == (kind_node_type(raw.kind) == NodeType::File),
{
    match raw.kind {
        RawKind::File => true,
        _ => false,
    }
}

fn classify(k: RawKind) -> (t: NodeType)
    ensures
        t == kind_node_type(k),
{
    match k {
        RawKind::Directory => NodeType::Directory,
        RawKind::File => NodeType::File,
        RawKind::Symlink => NodeType::Symlink,
        RawKind::Other => NodeType::Other,
        RawKind::Unknown => NodeType::Error,
    }
}

fn date_field(d: &Option<u64>) -> (r: i64)
    ensures
        r == date_secs(*d),
{
    match d {
        Option::None => 0,
        Option::Some(s) => {
            if *s <= i64::MAX as u64 {
                *s as i64
            } else {
                0
            }
        },
    }
}

/// Law: the data model's own invariants hold of every produced record — a
/// checksum can be non-empty only on a regular file, and a link target only
/// on a symlink; the store-assigned identifiers are always left unset.
pub proof fn lemma_record_invariants(n: FsNode, raw: RawEntry, checksum: Seq<char>)
    requires
        is_record_for(n, raw, checksum),
    ensures
        n.node_type != NodeType::File ==> n.sha1_checksum@.len() == 0,
        n.node_type != NodeType::Symlink ==> n.links_to@.len() == 0,
        n.id == 0 && n.parent_id == 0,
{
}

/// Builds the canonical record for one enumerated entry. Never fails: every
/// fault the driver already observed (missing metadata, unresolved symlink,
/// uncomputable checksum) is carried in `raw` and `checksum` and degrades to
/// the documented default or sentinel value. The entry's path must be
/// absolute; a relative path is a caller error, not a recoverable state.
pub fn process_entry(raw: &RawEntry, checksum: String) -> (n: FsNode)
    requires
        path_is_absolute(raw.path@),
    ensures
        is_record_for(n, *raw, checksum@),
{
    let mut n = FsNode::new();
    n.node_type = classify(raw.kind);
    n.name = raw.path.clone();
    n.path = raw.path.clone();
    n.parent_path = parent_dir(raw.path.as_str());
    match &raw.meta {
        Option::Some(m) => {
            n.size = m.size;
            n.uid = m.uid;
            n.gid = m.gid;
            n.permissions = m.permissions;
            n.inode = m.inode;
            n.nlinks = m.nlinks;
            n.creation_date = date_field(&m.created);
            n.modified_date = date_field(&m.modified);
        },
        Option::None => {},
    }
    match n.node_type {
        NodeType::Symlink => {
            match &raw.link_target {
                Option::Some(t) => {
                    n.links_to = t.clone();
                },
                Option::None => {},
            }
        },
        _ => {},
    }
    match n.node_type {
        NodeType::File => {
            n.sha1_checksum = checksum;
        },
        _ => {},
    }
    n
}

} // verus!
