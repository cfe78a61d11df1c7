//! A filesystem indexing engine: given root directories, it enumerates every
//! reachable filesystem object, extracts OS-level metadata, computes a content
//! checksum for regular files, and emits a structured inventory of records.
//!
//! The engine itself performs no I/O: traversal and checksum computation are
//! state machines driven by events that an outer driver feeds in, so the
//! decision logic here is verified for every possible sequence of filesystem
//! outcomes.

pub mod checksum;
pub mod entry;
pub mod fs_node;
pub mod paths;
pub mod traversal;
