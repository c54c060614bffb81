use vstd::prelude::*;

verus! {

/// Error taxonomy surfaced by the filesystem core. The protocol layer maps
/// each variant to the kernel's error-number space.
#[derive(Clone, Copy, Debug, PartialEq, Eq, Structural)]
pub enum FsError {
    /// An identifier or name does not resolve to a live record, or a record
    /// of the wrong kind was addressed.
    NotFound,
    /// A requested object kind is not one of the supported kinds.
    Unsupported,
    /// Malformed permission bits or another structurally invalid field.
    InvalidInput,
    /// Buffer growth cannot be satisfied, or a reference count is full.
    OutOfMemory,
    /// The name is already present in the directory's child list.
    AlreadyExists,
}

} // verus!
