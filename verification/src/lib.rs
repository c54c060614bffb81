//! An in-memory hierarchical filesystem core: a slot-reusing object pool,
//! reference-counted file and directory records, and the namespace
//! operations (lookup, create, mkdir, read, write, getattr, setattr,
//! readdir, unlink, rmdir, forget) over them.
//!
//! The protocol layer that decodes kernel requests and encodes replies is a
//! separate collaborator; this crate works on plain values only.

pub mod bytes;
pub mod error;
pub mod file_entry;
pub mod file_io;
pub mod fs;
pub mod inode;
pub mod perm;
pub mod pool;
