use vstd::prelude::*;

use crate::error::FsError;

verus! {

/// Mask of the file-kind bits within a mode word.
pub const MODE_KIND_MASK: u32 = 0o170000;

/// Mask of the permission bits a record stores.
pub const PERM_BITS_MASK: u32 = 0o777;

/// A flat permission bitmask. The core only stores and reports it; there is
/// no access-control enforcement.
#[derive(Clone, Copy, Debug, PartialEq, Eq, Structural)]
pub struct FsPerm {
    pub bits: u32,
}

impl FsPerm {
    /// A permission set is well formed when it holds permission bits only.
    pub open spec fn wf(self) -> bool {
        self.bits & !PERM_BITS_MASK == 0
    }

    /// A mode word yields a permission set iff, outside the kind bits, it
    /// holds permission bits only.
    pub open spec fn parses(val: u32) -> bool {
        val & !(MODE_KIND_MASK | PERM_BITS_MASK) == 0
    }

    /// Extracts the permission bits of a mode word; rejects a word with any
    /// bit that is neither a kind bit nor a permission bit.
    pub fn try_from_mode(val: u32) -> (r: Result<FsPerm, FsError>)
        ensures
            Self::parses(val) ==> r == Ok::<FsPerm, FsError>((FsPerm { bits: val & PERM_BITS_MASK })),
            !Self::parses(val) ==> r == Err::<FsPerm, FsError>(FsError::InvalidInput),
            r matches Ok(p) ==> p.wf(),
    {
        if val & !(MODE_KIND_MASK | PERM_BITS_MASK) == 0 {
            let bits = val & PERM_BITS_MASK;
            proof {
                assert(bits & !PERM_BITS_MASK == 0) by (bit_vector)
                    requires bits == val & PERM_BITS_MASK;
            }
            Ok(FsPerm { bits })
        } else {
            Err(FsError::InvalidInput)
        }
    }

    /// The default permissions of a fresh directory.
    pub fn dir() -> (r: FsPerm)
        ensures
            r.bits == 0o755u32,
            r.wf(),
    {
        proof {
            assert(0o755u32 & !PERM_BITS_MASK == 0) by (bit_vector);
        }
        FsPerm { bits: 0o755 }
    }

    /// The default permissions of a fresh file.
    pub fn file() -> (r: FsPerm)
        ensures
            r.bits == 0o644u32,
            r.wf(),
    {
        proof {
            assert(0o644u32 & !PERM_BITS_MASK == 0) by (bit_vector);
        }
        FsPerm { bits: 0o644 }
    }

    /// The raw permission bits.
    pub fn bits(&self) -> (r: u32)
        ensures
            r == self.bits,
    {
        self.bits
    }
}

/// The owning user/group pair of a record.
#[derive(Clone, Copy, Debug, PartialEq, Eq, Structural)]
pub struct FsOwner {
    pub uid: u32,
    pub gid: u32,
}

impl FsOwner {
    pub fn new(uid: u32, gid: u32) -> (r: FsOwner)
        ensures
            r.uid == uid,
            r.gid == gid,
    {
        FsOwner { uid, gid }
    }
}

impl Default for FsOwner {
    /// The owner recorded when the caller supplies none.
    fn default() -> (r: FsOwner)
        ensures
            r.uid == 1000,
            r.gid == 100,
    {
        FsOwner { uid: 1000, gid: 100 }
    }
}

} // verus!
