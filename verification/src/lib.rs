//! An in-memory union filesystem: a read-only layer scanned from a directory
//! tree, and one writable layer per terminal session that shadows it.

pub mod attr;
pub mod node;
pub mod state;
pub mod clone;
pub mod lookup;
pub mod readdir;
pub mod write;
pub mod create;
pub mod remove;
pub mod rename;
pub mod path;
pub mod scan;
pub mod handed;
pub mod preservation;
pub mod laws;
pub mod checks;
pub mod walk;
