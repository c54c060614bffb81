use vstd::prelude::*;

use crate::bytes::copy_bytes;
use crate::error::FsError;
use crate::file_entry::{FsEntry, FsType, KIND_DIR, KIND_REG};
use crate::perm::{FsOwner, FsPerm, MODE_KIND_MASK, PERM_BITS_MASK};

verus! {

/// An object identifier: a numeric handle indexing a slot of the object
/// pool. Not globally unique over the pool's lifetime; a slot's identifier
/// is reused once its record is removed and the slot reallocated.
#[derive(Clone, Copy, Debug, PartialEq, Eq, Hash, Structural)]
pub struct Inode(pub u64);

/// The block size every record reports.
pub const STAT_BLKSIZE: u32 = 16384;

/// The attributes of a record, as reported to the protocol layer, which
/// encodes them into the kernel's stat shape.
#[derive(Clone, Copy, Debug, PartialEq, Eq, Structural)]
pub struct FileStat {
    pub ino: u64,
    pub mode: u32,
    pub uid: u32,
    pub gid: u32,
    pub size: u64,
    pub blocks: u64,
    pub blksize: u32,
}

/// What `lookup` and `create` hand back: the identifier and the attributes
/// of the record found or made.
#[derive(Debug)]
pub struct EntryOut {
    pub ino: Inode,
    pub attr: FileStat,
}

/// One directory-listing entry: the child's identifier, the position to
/// resume after it, and the child record's own name bytes.
#[derive(Debug)]
pub struct DirEntryOut {
    pub ino: Inode,
    pub offset: u64,
    pub name: Vec<u8>,
}

/// The per-file/per-directory state: reference count, name, ownership,
/// permission bits, and the payload.
#[derive(Debug)]
pub struct InodeInfo {
    /// Count of outstanding kernel lookups; starts at 1 on creation and is
    /// decremented only by the forget protocol.
    pub refs: u64,
    /// The raw name bytes the record was created under; used only for
    /// directory-entry reporting, never for lookup.
    pub name: Vec<u8>,
    pub perm: FsPerm,
    pub owner: FsOwner,
    pub entry: FsEntry,
}

impl InodeInfo {
    pub open spec fn is_file(&self) -> bool {
        match self.entry {
            FsEntry::File(_) => true,
            FsEntry::Dir(_) => false,
        }
    }

    pub open spec fn is_dir(&self) -> bool {
        match self.entry {
            FsEntry::File(_) => false,
            FsEntry::Dir(_) => true,
        }
    }

    /// The byte contents of a file record; empty for a directory.
    pub open spec fn file_bytes(&self) -> Seq<u8> {
        match self.entry {
            FsEntry::File(d) => d@,
            FsEntry::Dir(_) => Seq::empty(),
        }
    }

    /// The ordered child list of a directory record; empty for a file.
    pub open spec fn child_seq(&self) -> Seq<(Inode, Vec<u8>)> {
        match self.entry {
            FsEntry::File(_) => Seq::empty(),
            FsEntry::Dir(c) => c@,
        }
    }

    /// The reported size: the byte-buffer length for a file, 0 for a
    /// directory. Length is authoritative; nothing else defines size.
    pub open spec fn spec_size(&self) -> u64 {
        self.file_bytes().len() as u64
    }

    pub open spec fn spec_file_type(&self) -> FsType {
        if self.is_file() {
            FsType::REG
        } else {
            FsType::DIR
        }
    }

    /// The full mode word: kind bits joined with permission bits.
    pub open spec fn spec_mode(&self) -> u32 {
        self.spec_file_type().spec_bits() | self.perm.bits
    }

    /// The attributes this record reports under a given identifier.
    pub open spec fn spec_stat(&self, ino: Inode) -> FileStat {
        FileStat {
            ino: ino.0,
            mode: self.spec_mode(),
            uid: self.owner.uid,
            gid: self.owner.gid,
            size: self.spec_size(),
            blocks: self.spec_size() / 512,
            blksize: STAT_BLKSIZE,
        }
    }

    /// What a record fresh from `create` holds: one reference, the creation
    /// name, the mode's permission bits and kind, the creator as owner, and
    /// an empty payload.
    pub open spec fn created(&self, name: Seq<u8>, mode: u32, owner: FsOwner) -> bool {
        &&& self.refs == 1
        &&& self.name@ == name
        &&& self.perm.bits == mode & PERM_BITS_MASK
        &&& self.owner == owner
        &&& (mode & MODE_KIND_MASK == KIND_REG ==> self.is_file() && self.file_bytes().len() == 0)
        &&& (mode & MODE_KIND_MASK == KIND_DIR ==> self.is_dir() && self.child_seq().len() == 0)
    }

    /// The record `b` agrees with this record in every field, except that
    /// its payload is a directory list holding exactly `ch`.
    pub open spec fn with_child_seq(&self, b: InodeInfo, ch: Seq<(Inode, Vec<u8>)>) -> bool {
        &&& b.is_dir()
        &&& b.child_seq() == ch
        &&& b.refs == self.refs
        &&& b.name@ == self.name@
        &&& b.perm == self.perm
        &&& b.owner == self.owner
    }

    /// The record `b` agrees with this record in every field, except that
    /// its payload is a file buffer holding exactly `data`.
    pub open spec fn with_file_bytes(&self, b: InodeInfo, data: Seq<u8>) -> bool {
        &&& b.is_file()
        &&& b.file_bytes() == data
        &&& b.refs == self.refs
        &&& b.name@ == self.name@
        &&& b.perm == self.perm
        &&& b.owner == self.owner
    }

    /// The record `b` agrees with this record in every field, except that
    /// one (identifier, name) pair was appended to its child list.
    pub open spec fn with_child_appended(&self, b: InodeInfo, ino: Inode, name: Seq<u8>) -> bool {
        &&& self.is_dir()
        &&& b.is_dir()
        &&& b.child_seq().len() == self.child_seq().len() + 1
        &&& b.child_seq().take(self.child_seq().len() as int) == self.child_seq()
        &&& b.child_seq().last().0 == ino
        &&& b.child_seq().last().1@ == name
        &&& b.refs == self.refs
        &&& b.name@ == self.name@
        &&& b.perm == self.perm
        &&& b.owner == self.owner
    }

    /// The record `b` agrees with this record, payload included, except
    /// that its reference count is `refs`.
    pub open spec fn with_refs(&self, b: InodeInfo, refs: u64) -> bool {
        &&& b.refs == refs
        &&& b.name@ == self.name@
        &&& b.perm == self.perm
        &&& b.owner == self.owner
        &&& b.is_file() == self.is_file()
        &&& b.file_bytes() == self.file_bytes()
        &&& b.child_seq() == self.child_seq()
    }

    /// Makes the record for a `create` request: permission bits are
    /// validated first, then the kind; the record starts with one reference
    /// and an empty payload.
    pub fn create(name: &[u8], owner: FsOwner, mode: u32) -> (r: Result<InodeInfo, FsError>)
        ensures
            !FsPerm::parses(mode) ==> (r matches Err(e) && e == FsError::InvalidInput),
            FsPerm::parses(mode) && mode & MODE_KIND_MASK != KIND_REG && mode & MODE_KIND_MASK
                != KIND_DIR ==> (r matches Err(e) && e == FsError::Unsupported),
            FsPerm::parses(mode) && (mode & MODE_KIND_MASK == KIND_REG || mode & MODE_KIND_MASK
                == KIND_DIR) ==> (r matches Ok(i) && i.created(name@, mode, owner)),
    {
        let perm = match FsPerm::try_from_mode(mode) {
            Ok(p) => p,
            Err(e) => {
                return Err(e);
            },
        };
        let kind = match FsType::try_from_mode(mode) {
            Ok(k) => k,
            Err(e) => {
                return Err(e);
            },
        };
        let entry = match FsEntry::try_from_type(kind) {
            Ok(en) => en,
            Err(e) => {
                return Err(e);
            },
        };
        Ok(InodeInfo { refs: 1, name: copy_bytes(name), perm, owner, entry })
    }

    /// A fresh file record under default permissions and owner; rejects a
    /// name holding a NUL byte, which could not cross the wire.
    pub fn file(name: &[u8]) -> (r: Result<InodeInfo, FsError>)
        ensures
            (exists|j: int| 0 <= j < name@.len() && name@[j] == 0u8) ==> (r matches Err(e) && e
                == FsError::InvalidInput),
            (forall|j: int| 0 <= j < name@.len() ==> name@[j] != 0u8) ==> (r matches Ok(i) && {
                &&& i.refs == 1
                &&& i.name@ == name@
                &&& i.perm.bits == 0o644u32
                &&& i.owner == (FsOwner { uid: 1000, gid: 100 })
                &&& i.is_file()
                &&& i.file_bytes().len() == 0
            }),
    {
        if contains_nul(name) {
            return Err(FsError::InvalidInput);
        }
        Ok(
            InodeInfo {
                refs: 1,
                name: copy_bytes(name),
                perm: FsPerm::file(),
                owner: FsOwner::new(1000, 100),
                entry: FsEntry::file(),
            },
        )
    }

    /// A fresh directory record under default permissions and owner;
    /// rejects a name holding a NUL byte.
    pub fn dir(name: &[u8]) -> (r: Result<InodeInfo, FsError>)
        ensures
            (exists|j: int| 0 <= j < name@.len() && name@[j] == 0u8) ==> (r matches Err(e) && e
                == FsError::InvalidInput),
            (forall|j: int| 0 <= j < name@.len() ==> name@[j] != 0u8) ==> (r matches Ok(i) && {
                &&& i.refs == 1
                &&& i.name@ == name@
                &&& i.perm.bits == 0o755u32
                &&& i.owner == (FsOwner { uid: 1000, gid: 100 })
                &&& i.is_dir()
                &&& i.child_seq().len() == 0
            }),
    {
        if contains_nul(name) {
            return Err(FsError::InvalidInput);
        }
        Ok(
            InodeInfo {
                refs: 1,
                name: copy_bytes(name),
                perm: FsPerm::dir(),
                owner: FsOwner::new(1000, 100),
                entry: FsEntry::dir(),
            },
        )
    }

    /// The always-invalid placeholder stored in slot 0: zero references, no
    /// name, an empty file payload.
    pub fn empty() -> (r: InodeInfo)
        ensures
            r.refs == 0,
            r.name@.len() == 0,
            r.perm.bits == 0o644u32,
            r.owner == (FsOwner { uid: 1000, gid: 100 }),
            r.is_file(),
            r.file_bytes().len() == 0,
    {
        InodeInfo {
            refs: 0,
            name: Vec::new(),
            perm: FsPerm::file(),
            owner: FsOwner::new(1000, 100),
            entry: FsEntry::file(),
        }
    }

    /// Adds one outstanding lookup. Fails only when the count is full, and
    /// then changes nothing.
    pub fn refinc(&mut self) -> (r: Result<(), FsError>)
        ensures
            old(self).refs < u64::MAX ==> (r matches Ok(_) && *final(self) == (InodeInfo {
                refs: (old(self).refs + 1) as u64,
                ..*old(self)
            })),
            old(self).refs == u64::MAX ==> (r matches Err(e) && e == FsError::OutOfMemory
                && *final(self) == *old(self)),
    {
        if self.refs == u64::MAX {
            return Err(FsError::OutOfMemory);
        }
        self.refs = self.refs + 1;
        Ok(())
    }

    /// Takes `count` forgets off the reference count. Returns true exactly
    /// when the count reaches or crosses zero, at which point the record is
    /// eligible for removal; the count never underflows below zero.
    pub fn refsub(&mut self, count: u64) -> (removed: bool)
        ensures
            removed == (old(self).refs <= count),
            removed ==> *final(self) == (InodeInfo { refs: 0u64, ..*old(self) }),
            !removed ==> *final(self) == (InodeInfo {
                refs: (old(self).refs - count) as u64,
                ..*old(self)
            }),
    {
        if self.refs <= count {
            self.refs = 0;
            true
        } else {
            self.refs = self.refs - count;
            false
        }
    }

    pub fn file_type(&self) -> (r: FsType)
        ensures
            r == self.spec_file_type(),
    {
        match &self.entry {
            FsEntry::File(_) => FsType::REG,
            FsEntry::Dir(_) => FsType::DIR,
        }
    }

    /// The full mode word: kind bits joined with permission bits.
    pub fn st_mode(&self) -> (r: u32)
        ensures
            r == self.spec_mode(),
    {
        self.file_type().bits() | self.perm.bits()
    }

    /// The attributes this record reports under the given identifier.
    pub fn stat64(&self, ino: Inode) -> (r: FileStat)
        ensures
            r == self.spec_stat(ino),
    {
        let size: u64 = match &self.entry {
            FsEntry::File(d) => d.len() as u64,
            FsEntry::Dir(_) => 0,
        };
        FileStat {
            ino: ino.0,
            mode: self.st_mode(),
            uid: self.owner.uid,
            gid: self.owner.gid,
            size,
            blocks: size / 512,
            blksize: STAT_BLKSIZE,
        }
    }

    /// The identifier/attribute pair reported for this record.
    pub fn get_entry(&self, ino: Inode) -> (r: EntryOut)
        ensures
            r.ino == ino,
            r.attr == self.spec_stat(ino),
    {
        EntryOut { ino, attr: self.stat64(ino) }
    }

    /// The directory-listing entry reporting this record at a position.
    pub fn get_direntry(&self, ino: Inode, off: u64) -> (r: DirEntryOut)
        ensures
            r.ino == ino,
            r.offset == off,
            r.name@ == self.name@,
    {
        DirEntryOut { ino, offset: off, name: copy_bytes(self.name.as_slice()) }
    }

    /// Appends a (identifier, name) pair to a directory's child list; fails
    /// on a file record and then changes nothing.
    pub fn add_child(&mut self, ino: Inode, name: &[u8]) -> (r: Result<(), FsError>)
        ensures
            old(self).is_dir() ==> (r matches Ok(_) && {
                &&& final(self).is_dir()
                &&& final(self).child_seq().len() == old(self).child_seq().len() + 1
                &&& final(self).child_seq().take(old(self).child_seq().len() as int) == old(
                    self,
                ).child_seq()
                &&& final(self).child_seq().last().0 == ino
                &&& final(self).child_seq().last().1@ == name@
                &&& final(self).refs == old(self).refs
                &&& final(self).name@ == old(self).name@
                &&& final(self).perm == old(self).perm
                &&& final(self).owner == old(self).owner
            }),
            !old(self).is_dir() ==> (r matches Err(e) && e == FsError::NotFound && *final(self)
                == *old(self)),
    {
        let copied = copy_bytes(name);
        match &mut self.entry {
            FsEntry::Dir(ch) => {
                ch.push((ino, copied));
                proof {
                    assert(final(self).child_seq().take(old(self).child_seq().len() as int) =~= old(
                        self,
                    ).child_seq());
                }
                Ok(())
            },
            FsEntry::File(_) => Err(FsError::NotFound),
        }
    }

    /// Read access to a directory's child list; fails on a file record.
    pub fn children(&self) -> (r: Result<&Vec<(Inode, Vec<u8>)>, FsError>)
        ensures
            self.is_dir() ==> (r matches Ok(c) && c@ == self.child_seq()),
            !self.is_dir() ==> (r matches Err(e) && e == FsError::NotFound),
    {
        match &self.entry {
            FsEntry::Dir(ch) => Ok(ch),
            FsEntry::File(_) => Err(FsError::NotFound),
        }
    }

    /// Read access to a file's byte buffer; fails on a directory record.
    pub fn file_data(&self) -> (r: Result<&Vec<u8>, FsError>)
        ensures
            self.is_file() ==> (r matches Ok(d) && d@ == self.file_bytes()),
            !self.is_file() ==> (r matches Err(e) && e == FsError::NotFound),
    {
        match &self.entry {
            FsEntry::File(d) => Ok(d),
            FsEntry::Dir(_) => Err(FsError::NotFound),
        }
    }
}

/// Whether a name holds a NUL byte anywhere.
pub fn contains_nul(name: &[u8]) -> (r: bool)
    ensures
        r == exists|j: int| 0 <= j < name@.len() && name@[j] == 0u8,
{
    let mut i: usize = 0;
    while i < name.len()
        invariant
            0 <= i <= name@.len(),
            forall|j: int| 0 <= j < i ==> name@[j] != 0u8,
        decreases name@.len() - i,
    {
        if name[i] == 0 {
            return true;
        }
        i += 1;
    }
    false
}

} // verus!
