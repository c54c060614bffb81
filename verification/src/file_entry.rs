use vstd::prelude::*;

use crate::error::FsError;
use crate::inode::Inode;
use crate::perm::MODE_KIND_MASK;

verus! {

/// File-kind bits of a mode word, one constant per known kind.
pub const KIND_REG: u32 = 0o100000;
pub const KIND_DIR: u32 = 0o040000;
pub const KIND_CHR: u32 = 0o020000;
pub const KIND_BLK: u32 = 0o060000;
pub const KIND_FIFO: u32 = 0o010000;
pub const KIND_LNK: u32 = 0o120000;
pub const KIND_SOCK: u32 = 0o140000;

/// The kind of an object record. Only regular files and directories can be
/// stored; the other kinds exist so every kind bit pattern has a name.
#[derive(Clone, Copy, Debug, PartialEq, Eq, Structural)]
pub enum FsType {
    REG,
    DIR,
    CHR,
    BLK,
    FIFO,
    LNK,
    SOCK,
}

impl FsType {
    /// The kind bits this kind occupies in a mode word.
    pub open spec fn spec_bits(self) -> u32 {
        match self {
            FsType::REG => KIND_REG,
            FsType::DIR => KIND_DIR,
            FsType::CHR => KIND_CHR,
            FsType::BLK => KIND_BLK,
            FsType::FIFO => KIND_FIFO,
            FsType::LNK => KIND_LNK,
            FsType::SOCK => KIND_SOCK,
        }
    }

    pub fn bits(&self) -> (r: u32)
        ensures
            r == self.spec_bits(),
    {
        match self {
            FsType::REG => KIND_REG,
            FsType::DIR => KIND_DIR,
            FsType::CHR => KIND_CHR,
            FsType::BLK => KIND_BLK,
            FsType::FIFO => KIND_FIFO,
            FsType::LNK => KIND_LNK,
            FsType::SOCK => KIND_SOCK,
        }
    }

    /// Reads the kind out of a mode word. A mode whose kind bits name
    /// anything but a regular file or a directory is unsupported.
    pub fn try_from_mode(val: u32) -> (r: Result<FsType, FsError>)
        ensures
            val & MODE_KIND_MASK == KIND_REG ==> r == Ok::<FsType, FsError>(FsType::REG),
            val & MODE_KIND_MASK == KIND_DIR ==> r == Ok::<FsType, FsError>(FsType::DIR),
            val & MODE_KIND_MASK != KIND_REG && val & MODE_KIND_MASK != KIND_DIR
                ==> r == Err::<FsType, FsError>(FsError::Unsupported),
    {
        let kind = val & MODE_KIND_MASK;
        if kind == KIND_REG {
            Ok(FsType::REG)
        } else if kind == KIND_DIR {
            Ok(FsType::DIR)
        } else {
            Err(FsError::Unsupported)
        }
    }
}

/// The payload of an object record, set at creation and of fixed kind
/// thereafter: a resizable byte buffer for a file, an ordered child list of
/// (identifier, name) pairs for a directory.
#[derive(Debug)]
pub enum FsEntry {
    File(Vec<u8>),
    Dir(Vec<(Inode, Vec<u8>)>),
}

impl FsEntry {
    /// A fresh, empty directory payload.
    pub fn dir() -> (r: FsEntry)
        ensures
            r matches FsEntry::Dir(c) && c@.len() == 0,
    {
        FsEntry::Dir(Vec::new())
    }

    /// A fresh, empty file payload.
    pub fn file() -> (r: FsEntry)
        ensures
            r matches FsEntry::File(d) && d@.len() == 0,
    {
        FsEntry::File(Vec::new())
    }

    /// The empty payload matching a kind; only files and directories are
    /// supported.
    pub fn try_from_type(mode: FsType) -> (r: Result<FsEntry, FsError>)
        ensures
            mode == FsType::REG ==> (r matches Ok(e) && e matches FsEntry::File(d) && d@.len() == 0),
            mode == FsType::DIR ==> (r matches Ok(e) && e matches FsEntry::Dir(c) && c@.len() == 0),
            mode != FsType::REG && mode != FsType::DIR ==> (r matches Err(e) && e == FsError::Unsupported),
    {
        match mode {
            FsType::REG => Ok(FsEntry::file()),
            FsType::DIR => Ok(FsEntry::dir()),
            _ => Err(FsError::Unsupported),
        }
    }
}

} // verus!
