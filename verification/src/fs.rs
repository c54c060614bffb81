use vstd::prelude::*;

use crate::bytes::copy_bytes;
use crate::error::FsError;
use crate::file_entry::{FsEntry, KIND_DIR, KIND_REG};
use crate::file_io::{read_bytes, read_slice, write_bytes, write_into};
use crate::inode::{DirEntryOut, EntryOut, FileStat, Inode, InodeInfo};
use crate::perm::{FsOwner, FsPerm, MODE_KIND_MASK};
use crate::pool::{find_child, first_match, has_name, live, swap_removed, FsFiles};

verus! {

/// The root directory's identifier; it is created at startup, is always a
/// directory, and is never removed.
pub const ROOT_INODE: u64 = 1;

/// Whether some pair of a child list carries the identifier.
pub open spec fn in_children(ch: Seq<(Inode, Vec<u8>)>, ino: Inode) -> bool {
    exists|i: int| 0 <= i < ch.len() && ch[i].0 == ino
}

/// A child list is consistent with a pool when no two pairs share a name
/// and every identifier in it names a live record.
pub open spec fn children_ok(m: Map<int, InodeInfo>, ch: Seq<(Inode, Vec<u8>)>) -> bool {
    &&& forall|i: int, j: int|
        #![trigger ch[i].1, ch[j].1]
        0 <= i < j < ch.len() ==> ch[i].1@ != ch[j].1@
    &&& forall|i: int| 0 <= i < ch.len() ==> live(m, #[trigger] ch[i].0)
}

/// Directory consistency over a whole pool: every directory's child list
/// is consistent.
pub open spec fn dirs_consistent(m: Map<int, InodeInfo>) -> bool {
    forall|k: int|
        #[trigger] m.dom().contains(k) && m[k].is_dir() ==> children_ok(m, m[k].child_seq())
}

/// The namespace invariant: slot 0 holds the reserved placeholder, the
/// root directory lives at identifier 1 and is a directory, and every
/// directory's child list is consistent.
pub open spec fn fs_wf(m: Map<int, InodeInfo>) -> bool {
    &&& dirs_consistent(m)
    &&& m.dom().contains(0)
    &&& m.dom().contains(ROOT_INODE as int)
    &&& m[ROOT_INODE as int].is_dir()
}

/// No directory of the pool references the identifier.
pub open spec fn unreferenced(m: Map<int, InodeInfo>, ino: Inode) -> bool {
    forall|k: int|
        m.dom().contains(k) && m[k].is_dir() ==> !in_children(#[trigger] m[k].child_seq(), ino)
}

/// The two pools agree everywhere except possibly at key `k`, and hold the
/// same keys.
pub open spec fn same_except(m1: Map<int, InodeInfo>, m2: Map<int, InodeInfo>, k: int) -> bool {
    &&& m2.dom() == m1.dom()
    &&& forall|j: int|
        #![trigger m2[j]]
        m1.dom().contains(j) && j != k ==> m2[j] == m1[j]
}

/// Storing a record whose child list is consistent keeps every directory
/// consistent: the pool's domain can only grow, so liveness is preserved.
proof fn lemma_consistent_store(m: Map<int, InodeInfo>, k: int, v: InodeInfo)
    requires
        dirs_consistent(m),
        v.is_dir() ==> children_ok(m.insert(k, v), v.child_seq()),
    ensures
        dirs_consistent(m.insert(k, v)),
{
    let m2 = m.insert(k, v);
    assert forall|k2: int| m2.dom().contains(k2) && m2[k2].is_dir() implies children_ok(
        m2,
        m2[k2].child_seq(),
    ) by {
        if k2 != k {
            assert(m.dom().contains(k2) && m[k2] == m2[k2]);
            assert(children_ok(m, m[k2].child_seq()));
            assert forall|i: int| 0 <= i < m2[k2].child_seq().len() implies live(
                m2,
                m2[k2].child_seq()[i].0,
            ) by {
                assert(live(m, m[k2].child_seq()[i].0));
            }
        }
    }
}

/// Removing an identifier that no directory references keeps every
/// remaining directory consistent.
proof fn lemma_consistent_remove(m: Map<int, InodeInfo>, ino: Inode)
    requires
        dirs_consistent(m),
        unreferenced(m, ino),
    ensures
        dirs_consistent(m.remove(ino.0 as int)),
{
    let m2 = m.remove(ino.0 as int);
    assert forall|k2: int| m2.dom().contains(k2) && m2[k2].is_dir() implies children_ok(
        m2,
        m2[k2].child_seq(),
    ) by {
        assert(m.dom().contains(k2) && m[k2] == m2[k2]);
        assert(children_ok(m, m[k2].child_seq()));
        assert(!in_children(m[k2].child_seq(), ino));
        assert forall|i: int| 0 <= i < m2[k2].child_seq().len() implies live(
            m2,
            m2[k2].child_seq()[i].0,
        ) by {
            let c = m[k2].child_seq()[i].0;
            assert(live(m, c));
            assert(c != ino);
            assert(c.0 as int != ino.0 as int);
        }
    }
}

/// Swap-removing one pair of a consistent child list leaves it consistent:
/// every remaining pair already stood in the list.
proof fn lemma_children_ok_swap_remove(m: Map<int, InodeInfo>, ch: Seq<(Inode, Vec<u8>)>, k: int)
    requires
        children_ok(m, ch),
        0 <= k < ch.len(),
    ensures
        children_ok(m, swap_removed(ch, k)),
{
    let ch2 = swap_removed(ch, k);
    assert(ch2.len() == ch.len() - 1);
    assert forall|i: int| 0 <= i < ch2.len() implies #[trigger] ch2[i] == ch[orig_index(
        ch.len() as int,
        k,
        i,
    )] by {}
    assert forall|i: int, j: int|
        #![trigger ch2[i].1, ch2[j].1]
        0 <= i < j < ch2.len() implies ch2[i].1@ != ch2[j].1@ by {
        let oi = orig_index(ch.len() as int, k, i);
        let oj = orig_index(ch.len() as int, k, j);
        assert(ch2[i] == ch[oi]);
        assert(ch2[j] == ch[oj]);
        assert(oi != oj);
    }
    assert forall|i: int| 0 <= i < ch2.len() implies live(m, #[trigger] ch2[i].0) by {
        let oi = orig_index(ch.len() as int, k, i);
        assert(ch2[i] == ch[oi]);
        assert(live(m, ch[oi].0));
    }
}

/// Where a pair of the swap-removed list stood before the removal: pairs
/// keep their place, except that the last pair moved into place `k`.
spec fn orig_index(len: int, k: int, i: int) -> int {
    if i == k {
        len - 1
    } else {
        i
    }
}

/// The in-memory filesystem: the namespace engine over the object pool.
/// The protocol layer serializes operations; every operation here runs to
/// completion and returns a definite result.
#[derive(Debug)]
pub struct SlabFs {
    pub files: FsFiles,
}

impl SlabFs {
    /// The pool this namespace works over.
    pub open spec fn pool(&self) -> Map<int, InodeInfo> {
        self.files@
    }

    /// A fresh namespace: slot 0 holds the reserved placeholder record and
    /// slot 1 the root directory, named "/", with one reference.
    pub fn new() -> (r: SlabFs)
        ensures
            fs_wf(r.pool()),
            r.pool().dom() =~= set![0int, 1int],
            r.pool()[0].refs == 0,
            r.pool()[1].is_dir(),
            r.pool()[1].child_seq().len() == 0,
            r.pool()[1].refs == 1,
            r.pool()[1].name@ == seq![47u8],
    {
        let mut files = FsFiles::new();
        let i0 = files.insert(InodeInfo::empty());
        let mut root_name: Vec<u8> = Vec::new();
        root_name.push(47);
        let root = match InodeInfo::dir(root_name.as_slice()) {
            Ok(info) => info,
            Err(_) => vstd::pervasive::unreached(),
        };
        let i1 = files.insert(root);
        proof {
            assert(i0.0 == 0);
            assert(i1.0 == 1);
            let m = files@;
            assert(m.dom() =~= set![0int, 1int]);
            assert(m[1].name@ =~= seq![47u8]);
            assert forall|k: int| m.dom().contains(k) && m[k].is_dir() implies children_ok(
                m,
                m[k].child_seq(),
            ) by {
                assert(m[k].child_seq().len() == 0);
            }
        }
        SlabFs { files }
    }

    /// Stores a record directly in the pool and returns its identifier:
    /// the raw allocation step, with no linking into any directory.
    pub fn insert_entry(&mut self, info: InodeInfo) -> (ino: Inode)
        ensures
            !old(self).pool().dom().contains(ino.0 as int),
            ino.0 <= usize::MAX as u64,
            final(self).pool() == old(self).pool().insert(ino.0 as int, info),
    {
        self.files.insert(info)
    }

    /// Reports the attributes of a live record; NotFound for a stale or
    /// unknown identifier.
    pub fn getattr(&self, ino: Inode) -> (r: Result<FileStat, FsError>)
        ensures
            live(self.pool(), ino) ==> (r matches Ok(st) && st == self.pool()[ino.0 as int].spec_stat(ino)),
            !live(self.pool(), ino) ==> (r matches Err(e) && e == FsError::NotFound),
    {
        match self.files.get(ino) {
            Ok(info) => Ok(info.stat64(ino)),
            Err(e) => Err(e),
        }
    }

    /// Copies up to `size` bytes at `offset` out of a file's buffer.
    /// Reading past the end yields fewer bytes, an offset beyond the end
    /// yields none; neither is an error. NotFound unless the identifier
    /// names a live file record.
    pub fn read(&self, ino: Inode, offset: u64, size: u32) -> (r: Result<Vec<u8>, FsError>)
        ensures
            live(self.pool(), ino) && self.pool()[ino.0 as int].is_file() ==> (r matches Ok(v)
                && v@ == read_bytes(
                self.pool()[ino.0 as int].file_bytes(),
                offset as nat,
                size as nat,
            )),
            !(live(self.pool(), ino) && self.pool()[ino.0 as int].is_file()) ==> (r matches Err(e)
                && e == FsError::NotFound),
    {
        match self.files.get(ino) {
            Ok(info) => match info.file_data() {
                Ok(d) => Ok(read_slice(d.as_slice(), offset, size as usize)),
                Err(e) => Err(e),
            },
            Err(e) => Err(e),
        }
    }

    /// Writes `data` into a file's buffer at `offset`, zero-filling any
    /// gap and growing the buffer as needed; returns the full count
    /// written. NotFound unless the identifier names a live file record;
    /// OutOfMemory, changing nothing, when growth cannot be satisfied.
    pub fn write(&mut self, ino: Inode, offset: u64, data: &[u8]) -> (r: Result<usize, FsError>)
        requires
            offset as int + data@.len() <= usize::MAX as int,
        ensures
            !(live(old(self).pool(), ino) && old(self).pool()[ino.0 as int].is_file()) ==> (
            r matches Err(e) && e == FsError::NotFound && final(self).pool() == old(self).pool()),
            live(old(self).pool(), ino) && old(self).pool()[ino.0 as int].is_file() && r is Ok ==> (
            r matches Ok(n) && {
                let m0 = old(self).pool();
                let k = ino.0 as int;
                &&& n == data@.len()
                &&& m0[k].with_file_bytes(
                    final(self).pool()[k],
                    write_bytes(m0[k].file_bytes(), offset as nat, data@),
                )
                &&& same_except(m0, final(self).pool(), k)
            }),
            live(old(self).pool(), ino) && old(self).pool()[ino.0 as int].is_file() && r is Err
                ==> (r matches Err(e) && e == FsError::OutOfMemory && {
                let m0 = old(self).pool();
                let k = ino.0 as int;
                &&& m0[k].with_file_bytes(final(self).pool()[k], m0[k].file_bytes())
                &&& same_except(m0, final(self).pool(), k)
            }),
            live(old(self).pool(), ino) && old(self).pool()[ino.0 as int].is_file() && offset as int
                + data@.len() <= old(self).pool()[ino.0 as int].file_bytes().len() ==> r is Ok,
            fs_wf(old(self).pool()) ==> fs_wf(final(self).pool()),
    {
        let ghost m0 = self.pool();
        if !self.files.contains(ino) {
            return Err(FsError::NotFound);
        }
        let mut info = InodeInfo::empty();
        self.files.swap(ino, &mut info);
        let result = match &mut info.entry {
            FsEntry::File(d) => write_into(d, offset, data),
            FsEntry::Dir(_) => Err(FsError::NotFound),
        };
        let ghost i1 = info;
        self.files.swap(ino, &mut info);
        proof {
            let k = ino.0 as int;
            assert(self.pool() =~= m0.insert(k, i1));
            if !m0[k].is_file() {
                assert(i1 == m0[k]);
                assert(m0.insert(k, i1) =~= m0);
            } else {
                assert(self.pool().dom() =~= m0.dom());
                if fs_wf(m0) {
                    lemma_consistent_store(m0, k, i1);
                    assert(self.pool()[ROOT_INODE as int].is_dir());
                }
            }
        }
        result
    }

    /// Scans the parent's child list for a byte-exact name match; on a hit
    /// adds one outstanding lookup to the child and reports it. NotFound
    /// when the parent is not a live directory, the name is absent, or the
    /// matched identifier is stale; OutOfMemory when the child's reference
    /// count is full. Nothing changes on failure.
    pub fn lookup(&mut self, parent: Inode, name: &[u8]) -> (r: Result<EntryOut, FsError>)
        ensures
            !(live(old(self).pool(), parent) && old(self).pool()[parent.0 as int].is_dir()
                && has_name(old(self).pool()[parent.0 as int].child_seq(), name@)) ==> (
            r matches Err(e) && e == FsError::NotFound && *final(self) == *old(self)),
            (live(old(self).pool(), parent) && old(self).pool()[parent.0 as int].is_dir()
                && has_name(old(self).pool()[parent.0 as int].child_seq(), name@)) ==> {
                let m0 = old(self).pool();
                let ch = m0[parent.0 as int].child_seq();
                let child = ch[first_match(ch, name@)].0;
                let c = child.0 as int;
                &&& (!live(m0, child)
                    ==> (r matches Err(e) && e == FsError::NotFound && *final(self) == *old(self)))
                &&& (live(m0, child) && m0[c].refs == u64::MAX ==> (r matches Err(e) && e
                    == FsError::OutOfMemory && final(self).pool() == m0))
                &&& (live(m0, child) && m0[c].refs < u64::MAX ==> (r matches Ok(ent) && {
                    &&& ent.ino == child
                    &&& ent.attr == m0[c].spec_stat(child)
                    &&& m0[c].with_refs(final(self).pool()[c], (m0[c].refs + 1) as u64)
                    &&& same_except(m0, final(self).pool(), c)
                }))
            },
            fs_wf(old(self).pool()) ==> fs_wf(final(self).pool()),
    {
        let ghost m0 = self.pool();
        let child: Inode;
        match self.files.get(parent) {
            Ok(pinfo) => match pinfo.children() {
                Ok(ch) => match find_child(ch, name) {
                    Some((_idx, ino)) => {
                        child = ino;
                    },
                    None => {
                        return Err(FsError::NotFound);
                    },
                },
                Err(e) => {
                    return Err(e);
                },
            },
            Err(e) => {
                return Err(e);
            },
        }
        if !self.files.contains(child) {
            return Err(FsError::NotFound);
        }
        let mut cinfo = InodeInfo::empty();
        self.files.swap(child, &mut cinfo);
        let inc = cinfo.refinc();
        let result = match inc {
            Ok(_) => Ok(cinfo.get_entry(child)),
            Err(e) => Err(e),
        };
        let ghost c1 = cinfo;
        self.files.swap(child, &mut cinfo);
        proof {
            let c = child.0 as int;
            assert(self.pool() =~= m0.insert(c, c1));
            if inc is Err {
                assert(c1 == m0[c]);
                assert(m0.insert(c, c1) =~= m0);
            } else {
                assert(self.pool().dom() =~= m0.dom());
                if fs_wf(m0) {
                    lemma_consistent_store(m0, c, c1);
                    assert forall|i: int| 0 <= i < c1.child_seq().len() implies live(
                        self.pool(),
                        c1.child_seq()[i].0,
                    ) by {
                        assert(c1.child_seq() == m0[c].child_seq());
                        if m0[c].is_dir() {
                            assert(live(m0, m0[c].child_seq()[i].0));
                        }
                    }
                    assert(self.pool()[ROOT_INODE as int].is_dir());
                }
            }
        }
        result
    }

    /// Allocates a record of the kind the mode bits name, with reference
    /// count 1, and appends it to the parent's child list. Any failure
    /// leaves the pool exactly as it was: no orphan slot persists.
    pub fn create(&mut self, parent: Inode, name: &[u8], mode: u32, owner: FsOwner) -> (r: Result<
        EntryOut,
        FsError,
    >)
        ensures
            create_post(old(self).pool(), final(self).pool(), r, parent, name@, mode, owner),
            fs_wf(old(self).pool()) ==> fs_wf(final(self).pool()),
    {
        let ghost m0 = self.pool();
        let ghost p = parent.0 as int;
        let info = match InodeInfo::create(name, owner, mode) {
            Ok(i) => i,
            Err(e) => {
                return Err(e);
            },
        };
        if !self.files.contains(parent) {
            return Err(FsError::NotFound);
        }
        let mut pinfo = InodeInfo::empty();
        self.files.swap(parent, &mut pinfo);
        proof {
            crate::pool::lemma_first_match(m0[p].child_seq(), name@);
        }
        let outcome: Result<Inode, FsError> = match &mut pinfo.entry {
            FsEntry::Dir(ch) => {
                match find_child(ch, name) {
                    Some(_) => Err(FsError::AlreadyExists),
                    None => {
                        let ino = self.files.insert(info);
                        ch.push((ino, copy_bytes(name)));
                        Ok(ino)
                    },
                }
            },
            FsEntry::File(_) => Err(FsError::NotFound),
        };
        let ghost p1 = pinfo;
        self.files.swap(parent, &mut pinfo);
        match outcome {
            Ok(ino) => {
                let ghost k = ino.0 as int;
                proof {
                    assert(k != p);
                    assert(self.pool() =~= m0.insert(k, self.pool()[k]).insert(p, p1));
                    assert(self.pool().dom() =~= m0.dom().insert(k));
                    assert(p1.child_seq().take(m0[p].child_seq().len() as int) =~= m0[
                        p
                    ].child_seq());
                }
                let ent = match self.files.get(ino) {
                    Ok(ci) => ci.get_entry(ino),
                    Err(_) => vstd::pervasive::unreached(),
                };
                proof {
                    if fs_wf(m0) {
                        let minfo = m0.insert(k, self.pool()[k]);
                        lemma_consistent_store(m0, k, self.pool()[k]);
                        assert forall|i: int, j: int|
                            #![trigger p1.child_seq()[i].1, p1.child_seq()[j].1]
                            0 <= i < j < p1.child_seq().len() implies p1.child_seq()[i].1@
                            != p1.child_seq()[j].1@ by {
                            if j < p1.child_seq().len() - 1 {
                                assert(p1.child_seq()[i] == m0[p].child_seq()[i]);
                                assert(p1.child_seq()[j] == m0[p].child_seq()[j]);
                            } else {
                                assert(p1.child_seq()[i] == m0[p].child_seq()[i]);
                                assert(m0[p].child_seq()[i].1@ != name@);
                            }
                        }
                        assert forall|i: int| 0 <= i < p1.child_seq().len() implies live(
                            minfo.insert(p, p1),
                            #[trigger] p1.child_seq()[i].0,
                        ) by {
                            if i < p1.child_seq().len() - 1 {
                                assert(p1.child_seq()[i] == m0[p].child_seq()[i]);
                                assert(live(m0, m0[p].child_seq()[i].0));
                            } else {
                                assert(p1.child_seq()[i].0 == ino);
                            }
                        }
                        lemma_consistent_store(minfo, p, p1);
                        assert(self.pool() =~= minfo.insert(p, p1));
                        assert(self.pool()[ROOT_INODE as int].is_dir());
                    }
                }
                Ok(ent)
            },
            Err(e) => {
                proof {
                    assert(p1 == m0[p]);
                    assert(self.pool() =~= m0);
                }
                Err(e)
            },
        }
    }

    /// `create` with the directory kind forced onto the mode bits.
    pub fn mkdir(&mut self, parent: Inode, name: &[u8], mode: u32, owner: FsOwner) -> (r: Result<
        EntryOut,
        FsError,
    >)
        ensures
            create_post(
                old(self).pool(),
                final(self).pool(),
                r,
                parent,
                name@,
                mode | KIND_DIR,
                owner,
            ),
            fs_wf(old(self).pool()) ==> fs_wf(final(self).pool()),
    {
        self.create(parent, name, mode | KIND_DIR, owner)
    }

    /// Removes the (identifier, name) pair from the parent's child list;
    /// the child's own slot stays live until its reference count reaches
    /// zero, so an unlinked-but-still-referenced file remains readable.
    pub fn unlink(&mut self, parent: Inode, name: &[u8]) -> (r: Result<(), FsError>)
        ensures
            unlink_post(old(self).pool(), final(self).pool(), r, parent, name@),
            fs_wf(old(self).pool()) ==> fs_wf(final(self).pool()),
    {
        let ghost m0 = self.pool();
        let ghost p = parent.0 as int;
        let r = self.files.unlink_inode(parent, name);
        proof {
            if fs_wf(m0) && r is Ok {
                let ch = m0[p].child_seq();
                let k = first_match(ch, name@);
                crate::pool::lemma_first_match(ch, name@);
                let m1 = self.pool();
                assert(m1 =~= m0.insert(p, m1[p]));
                lemma_children_ok_swap_remove(m0, ch, k);
                assert forall|i: int| 0 <= i < swap_removed(ch, k).len() implies live(
                    m0.insert(p, m1[p]),
                    #[trigger] swap_removed(ch, k)[i].0,
                ) by {
                    assert(live(m0, swap_removed(ch, k)[i].0));
                }
                lemma_consistent_store(m0, p, m1[p]);
                assert(m1[ROOT_INODE as int].is_dir());
            }
        }
        r
    }

    /// Directory removal; like `unlink`, the child list entry goes and the
    /// record stays until forgotten.
    pub fn rmdir(&mut self, parent: Inode, name: &[u8]) -> (r: Result<(), FsError>)
        ensures
            unlink_post(old(self).pool(), final(self).pool(), r, parent, name@),
            fs_wf(old(self).pool()) ==> fs_wf(final(self).pool()),
    {
        self.unlink(parent, name)
    }

    /// Reads or mutates owner, permission bits and (for files) the buffer
    /// size. Every field is validated before any is applied: a failure
    /// leaves the record untouched.
    pub fn setattr(&mut self, ino: Inode, fields: SetattrFields) -> (r: Result<FileStat, FsError>)
        requires
            fields.size matches Some(s) ==> s <= usize::MAX as u64,
        ensures
            !live(old(self).pool(), ino)
                ==> (r matches Err(e) && e == FsError::NotFound
                && final(self).pool() == old(self).pool()),
            live(old(self).pool(), ino) && (fields.mode matches Some(mo) && !FsPerm::parses(mo))
                ==> (r matches Err(e) && e == FsError::InvalidInput
                && final(self).pool() == old(self).pool()),
            live(old(self).pool(), ino) && (fields.mode matches Some(mo) ==> FsPerm::parses(mo))
                && fields.size is Some && !old(self).pool()[ino.0 as int].is_file() ==> (
            r matches Err(e) && e == FsError::NotFound && final(self).pool() == old(self).pool()),
            live(old(self).pool(), ino) && (fields.mode matches Some(mo) ==> FsPerm::parses(mo)) && (
            fields.size is Some ==> old(self).pool()[ino.0 as int].is_file()) ==> (r matches Ok(st)
                && {
                let a = old(self).pool()[ino.0 as int];
                let b = final(self).pool()[ino.0 as int];
                &&& b.refs == a.refs
                &&& b.name@ == a.name@
                &&& b.owner.uid == (match fields.uid {
                    Some(u) => u,
                    None => a.owner.uid,
                })
                &&& b.owner.gid == (match fields.gid {
                    Some(g) => g,
                    None => a.owner.gid,
                })
                &&& b.perm.bits == (match fields.mode {
                    Some(mo) => mo & crate::perm::PERM_BITS_MASK,
                    None => a.perm.bits,
                })
                &&& b.is_file() == a.is_file()
                &&& b.child_seq() == a.child_seq()
                &&& b.file_bytes() == (match fields.size {
                    Some(s2) => crate::file_io::resize_bytes(a.file_bytes(), s2 as nat),
                    None => a.file_bytes(),
                })
                &&& same_except(old(self).pool(), final(self).pool(), ino.0 as int)
                &&& st == b.spec_stat(ino)
            }),
            fs_wf(old(self).pool()) ==> fs_wf(final(self).pool()),
    {
        let ghost m0 = self.pool();
        let ghost k = ino.0 as int;
        if !self.files.contains(ino) {
            return Err(FsError::NotFound);
        }
        let newperm: Option<FsPerm> = match fields.mode {
            Some(mo) => match FsPerm::try_from_mode(mo) {
                Ok(pp) => Some(pp),
                Err(e) => {
                    return Err(e);
                },
            },
            None => None,
        };
        let isf = match self.files.get(ino) {
            Ok(info) => info.file_data().is_ok(),
            Err(_) => vstd::pervasive::unreached(),
        };
        if fields.size.is_some() && !isf {
            return Err(FsError::NotFound);
        }
        let mut info = InodeInfo::empty();
        self.files.swap(ino, &mut info);
        if let Some(u) = fields.uid {
            info.owner.uid = u;
        }
        if let Some(g) = fields.gid {
            info.owner.gid = g;
        }
        if let Some(pp) = newperm {
            info.perm = pp;
        }
        if let Some(s) = fields.size {
            match &mut info.entry {
                FsEntry::File(d) => {
                    crate::file_io::resize_zero(d, s as usize);
                },
                FsEntry::Dir(_) => {
                    proof {
                        assert(false);
                    }
                },
            }
        }
        let st = info.stat64(ino);
        let ghost i1 = info;
        self.files.swap(ino, &mut info);
        proof {
            assert(self.pool() =~= m0.insert(k, i1));
            assert(self.pool().dom() =~= m0.dom());
            if fs_wf(m0) {
                assert forall|i: int| 0 <= i < i1.child_seq().len() implies live(
                    m0.insert(k, i1),
                    #[trigger] i1.child_seq()[i].0,
                ) by {
                    assert(i1.child_seq() == m0[k].child_seq());
                    if m0[k].is_dir() {
                        assert(live(m0, m0[k].child_seq()[i].0));
                    }
                }
                lemma_consistent_store(m0, k, i1);
                assert(self.pool()[ROOT_INODE as int].is_dir());
            }
        }
        Ok(st)
    }

    /// Produces directory entries from the child list starting at
    /// `offset`, in insertion order, each reported at position index + 1,
    /// so offset 0 restarts from the beginning and offset N resumes after
    /// the Nth entry. A zero byte budget yields no entries, as the
    /// protocol layer has no room for any.
    pub fn readdir(&self, ino: Inode, size: u32, offset: u64) -> (r: Result<
        Vec<DirEntryOut>,
        FsError,
    >)
        ensures
            !(live(self.pool(), ino) && self.pool()[ino.0 as int].is_dir()) ==> (r matches Err(e)
                && e == FsError::NotFound),
            live(self.pool(), ino) && self.pool()[ino.0 as int].is_dir() && size == 0 ==> (
            r matches Ok(v) && v@.len() == 0),
            live(self.pool(), ino) && self.pool()[ino.0 as int].is_dir() && size > 0 ==> {
                let m = self.pool();
                let ch = m[ino.0 as int].child_seq();
                let start = if offset as int > ch.len() as int {
                    ch.len() as int
                } else {
                    offset as int
                };
                &&& (suffix_live(m, ch, start) ==> (r matches Ok(v) && readdir_entries_ok(
                    m,
                    ino,
                    v@,
                    start,
                )))
                &&& (!suffix_live(m, ch, start) ==> (r matches Err(e) && e == FsError::NotFound))
            },
    {
        let info = match self.files.get(ino) {
            Ok(i) => i,
            Err(e) => {
                return Err(e);
            },
        };
        let ch = match info.children() {
            Ok(c) => c,
            Err(e) => {
                return Err(e);
            },
        };
        let mut out: Vec<DirEntryOut> = Vec::new();
        if size == 0 {
            return Ok(out);
        }
        let len = ch.len();
        let start: usize = if offset >= len as u64 {
            len
        } else {
            offset as usize
        };
        let mut i: usize = start;
        while i < len
            invariant
                start <= i <= len,
                len == ch@.len(),
                ch@ == self.pool()[ino.0 as int].child_seq(),
                live(self.pool(), ino),
                self.pool()[ino.0 as int].is_dir(),
                size != 0,
                start as int == (if offset as int > ch@.len() as int {
                    ch@.len() as int
                } else {
                    offset as int
                }),
                out@.len() == i - start,
                forall|j: int|
                    #![trigger out@[j]]
                    0 <= j < out@.len() ==> out@[j].ino == ch@[start + j].0 && out@[j].offset
                        == start + j + 1 && out@[j].name@ == self.pool()[ch@[start
                        + j].0.0 as int].name@,
                forall|j: int| start <= j < i ==> live(self.pool(), #[trigger] ch@[j].0),
            decreases len - i,
        {
            let child = ch[i].0;
            let cinfo = match self.files.get(child) {
                Ok(c) => c,
                Err(_) => {
                    proof {
                        assert(!live(self.pool(), ch@[i as int].0));
                        assert(!suffix_live(
                            self.pool(),
                            self.pool()[ino.0 as int].child_seq(),
                            start as int,
                        ));
                    }
                    return Err(FsError::NotFound);
                },
            };
            let pos = (i as u64) + 1;
            out.push(cinfo.get_direntry(child, pos));
            i += 1;
        }
        Ok(out)
    }

    /// Takes `count` forgotten lookups off the record's reference count;
    /// when the count reaches or crosses zero the slot is freed and the
    /// identifier becomes reusable. An unknown identifier is tolerated
    /// silently: this operation never fails observably.
    pub fn forget(&mut self, ino: Inode, count: u64)
        ensures
            forget_step(old(self).pool(), final(self).pool(), ino, count),
            fs_wf(old(self).pool()) && (live(old(self).pool(), ino) && old(self).pool()[ino.0 as int].refs
                <= count ==> unreferenced(old(self).pool(), ino) && ino.0 != ROOT_INODE && ino.0
                != 0) ==> fs_wf(final(self).pool()),
    {
        let ghost m0 = self.pool();
        let ghost k = ino.0 as int;
        if !self.files.contains(ino) {
            return ;
        }
        let mut info = InodeInfo::empty();
        self.files.swap(ino, &mut info);
        let removed = info.refsub(count);
        let ghost i1 = info;
        self.files.swap(ino, &mut info);
        if removed {
            self.files.remove(ino);
            proof {
                assert(self.pool() =~= m0.remove(k));
                if fs_wf(m0) && unreferenced(m0, ino) && ino.0 != ROOT_INODE && ino.0 != 0 {
                    lemma_consistent_remove(m0, ino);
                    assert(self.pool()[ROOT_INODE as int].is_dir());
                }
            }
        } else {
            proof {
                assert(self.pool() =~= m0.insert(k, i1));
                assert(self.pool().dom() =~= m0.dom());
                if fs_wf(m0) {
                    assert forall|i: int| 0 <= i < i1.child_seq().len() implies live(
                        m0.insert(k, i1),
                        #[trigger] i1.child_seq()[i].0,
                    ) by {
                        assert(i1.child_seq() == m0[k].child_seq());
                        if m0[k].is_dir() {
                            assert(live(m0, m0[k].child_seq()[i].0));
                        }
                    }
                    lemma_consistent_store(m0, k, i1);
                    assert(self.pool()[ROOT_INODE as int].is_dir());
                }
            }
        }
    }

    /// Applies `forget` to each (identifier, count) pair in order, under
    /// one lock acquisition; like `forget`, it never fails observably.
    pub fn batch_forget(&mut self, requests: Vec<(Inode, u64)>)
        ensures
            forget_seq(old(self).pool(), final(self).pool(), requests@),
    {
        let ghost m0 = self.pool();
        let mut idx: usize = 0;
        proof {
            assert(requests@.take(0) =~= Seq::<(Inode, u64)>::empty());
        }
        while idx < requests.len()
            invariant
                0 <= idx <= requests@.len(),
                forget_seq(m0, self.pool(), requests@.take(idx as int)),
            decreases requests@.len() - idx,
        {
            let ghost mprev = self.pool();
            let pair = requests[idx];
            self.forget(pair.0, pair.1);
            proof {
                lemma_forget_seq_snoc(
                    m0,
                    mprev,
                    self.pool(),
                    requests@.take(idx as int),
                    requests@[idx as int],
                );
                assert(requests@.take(idx as int).push(requests@[idx as int]) =~= requests@.take(
                    idx as int + 1,
                ));
            }
            idx += 1;
        }
        proof {
            assert(requests@.take(requests@.len() as int) =~= requests@);
        }
    }
}

/// The fields a `setattr` request may carry; an absent field is left as it
/// was.
#[derive(Clone, Copy, Debug)]
pub struct SetattrFields {
    pub uid: Option<u32>,
    pub gid: Option<u32>,
    pub mode: Option<u32>,
    pub size: Option<u64>,
}

/// A mode word names a supported record kind with valid permission bits.
pub open spec fn mode_ok(mode: u32) -> bool {
    &&& FsPerm::parses(mode)
    &&& (mode & MODE_KIND_MASK == KIND_REG || mode & MODE_KIND_MASK == KIND_DIR)
}

/// What `create` leaves behind and returns: each failure comes exactly on
/// the inputs that cause it and leaves the pool unchanged; success binds a
/// fresh identifier to a fresh record and appends it to the parent.
pub open spec fn create_post(
    m0: Map<int, InodeInfo>,
    m1: Map<int, InodeInfo>,
    r: Result<EntryOut, FsError>,
    parent: Inode,
    name: Seq<u8>,
    mode: u32,
    owner: FsOwner,
) -> bool {
    &&& (!FsPerm::parses(mode) ==> (r matches Err(e) && e == FsError::InvalidInput && m1 == m0))
    &&& (FsPerm::parses(mode) && mode & MODE_KIND_MASK != KIND_REG && mode & MODE_KIND_MASK
        != KIND_DIR ==> (r matches Err(e) && e == FsError::Unsupported && m1 == m0))
    &&& (mode_ok(mode) && !(live(m0, parent) && m0[parent.0 as int].is_dir()) ==> (r matches Err(e)
        && e == FsError::NotFound && m1 == m0))
    &&& (mode_ok(mode) && live(m0, parent) && m0[parent.0 as int].is_dir() && has_name(
        m0[parent.0 as int].child_seq(),
        name,
    ) ==> (r matches Err(e) && e == FsError::AlreadyExists && m1 == m0))
    &&& (mode_ok(mode) && live(m0, parent) && m0[parent.0 as int].is_dir() && !has_name(
        m0[parent.0 as int].child_seq(),
        name,
    ) ==> (r matches Ok(ent) && {
        let k = ent.ino.0 as int;
        &&& !m0.dom().contains(k)
        &&& ent.ino.0 <= usize::MAX as u64
        &&& m1.dom() == m0.dom().insert(k)
        &&& m1[k].created(name, mode, owner)
        &&& ent.attr == m1[k].spec_stat(ent.ino)
        &&& m0[parent.0 as int].with_child_appended(m1[parent.0 as int], ent.ino, name)
        &&& (forall|j: int|
            #![trigger m1[j]]
            m0.dom().contains(j) && j != parent.0 as int ==> m1[j] == m0[j])
    }))
}

/// What `unlink` and `rmdir` leave behind and return: NotFound, changing
/// nothing, unless the parent is a live directory holding the name; on
/// success the matched pair is swap-removed from the parent's child list
/// and the child's slot is untouched.
pub open spec fn unlink_post(
    m0: Map<int, InodeInfo>,
    m1: Map<int, InodeInfo>,
    r: Result<(), FsError>,
    parent: Inode,
    name: Seq<u8>,
) -> bool {
    &&& (!(live(m0, parent) && m0[parent.0 as int].is_dir() && has_name(
        m0[parent.0 as int].child_seq(),
        name,
    )) ==> (r matches Err(e) && e == FsError::NotFound && m1 == m0))
    &&& ((live(m0, parent) && m0[parent.0 as int].is_dir() && has_name(
        m0[parent.0 as int].child_seq(),
        name,
    )) ==> (r matches Ok(u) && {
        let pold = m0[parent.0 as int];
        let k = first_match(pold.child_seq(), name);
        &&& m1.dom() == m0.dom()
        &&& pold.with_child_seq(m1[parent.0 as int], swap_removed(pold.child_seq(), k))
        &&& (forall|j: int|
            #![trigger m1[j]]
            m0.dom().contains(j) && j != parent.0 as int ==> m1[j] == m0[j])
    }))
}

/// A correct listing of a directory's children from index `start` on:
/// entry i reports child `start + i`, at position `start + i + 1`, under
/// the child record's own name.
pub open spec fn readdir_entries_ok(
    m: Map<int, InodeInfo>,
    ino: Inode,
    v: Seq<DirEntryOut>,
    start: int,
) -> bool {
    let ch = m[ino.0 as int].child_seq();
    &&& v.len() == ch.len() - start
    &&& forall|i: int|
        #![trigger v[i]]
        0 <= i < v.len() ==> v[i].ino == ch[start + i].0 && v[i].offset == start + i + 1
            && v[i].name@ == m[ch[start + i].0.0 as int].name@
}

/// Readdir pagination: a listing resumed at offset `off` is exactly the
/// tail of the full listing taken at offset 0 — its entry i agrees with
/// the full listing's entry `off + i`, position included — so readdir is
/// resumable, and repeated calls with one offset yield the same entries.
pub proof fn lemma_readdir_resumable(
    m: Map<int, InodeInfo>,
    ino: Inode,
    full: Seq<DirEntryOut>,
    resumed: Seq<DirEntryOut>,
    off: int,
)
    requires
        0 <= off <= m[ino.0 as int].child_seq().len(),
        readdir_entries_ok(m, ino, full, 0),
        readdir_entries_ok(m, ino, resumed, off),
    ensures
        resumed.len() == full.len() - off,
        forall|i: int|
            #![trigger resumed[i]]
            0 <= i < resumed.len() ==> resumed[i].ino == full[off + i].ino && resumed[i].offset
                == full[off + i].offset && resumed[i].name@ == full[off + i].name@,
{
}

/// Round trip at the engine: after a successful write of `data` at offset
/// `off` into a file record, reading `data.len()` bytes back at `off`
/// yields exactly `data`, whatever the file held before.
pub proof fn lemma_write_then_read(
    m0: Map<int, InodeInfo>,
    m1: Map<int, InodeInfo>,
    ino: Inode,
    off: nat,
    data: Seq<u8>,
)
    requires
        live(m0, ino),
        m0[ino.0 as int].is_file(),
        m0[ino.0 as int].with_file_bytes(
            m1[ino.0 as int],
            write_bytes(m0[ino.0 as int].file_bytes(), off, data),
        ),
    ensures
        read_bytes(m1[ino.0 as int].file_bytes(), off, data.len()) == data,
{
    crate::file_io::lemma_write_read_round_trip(m0[ino.0 as int].file_bytes(), off, data);
}

/// Every identifier of the child list from `start` on names a live record.
pub open spec fn suffix_live(m: Map<int, InodeInfo>, ch: Seq<(Inode, Vec<u8>)>, start: int) -> bool {
    forall|i: int| start <= i < ch.len() ==> live(m, #[trigger] ch[i].0)
}

/// One forget applied to a pool: a live record's count drops by `count`,
/// and the record leaves the pool exactly when the count reaches or
/// crosses zero; a dead identifier changes nothing.
pub open spec fn forget_step(
    m1: Map<int, InodeInfo>,
    m2: Map<int, InodeInfo>,
    ino: Inode,
    count: u64,
) -> bool {
    if live(m1, ino) {
        if m1[ino.0 as int].refs <= count {
            m2 == m1.remove(ino.0 as int)
        } else {
            &&& m1[ino.0 as int].with_refs(m2[ino.0 as int], (m1[ino.0 as int].refs - count) as u64)
            &&& same_except(m1, m2, ino.0 as int)
        }
    } else {
        m2 == m1
    }
}

/// A chain of forgets applied in order.
pub open spec fn forget_seq(
    m1: Map<int, InodeInfo>,
    m2: Map<int, InodeInfo>,
    reqs: Seq<(Inode, u64)>,
) -> bool
    decreases reqs.len(),
{
    if reqs.len() == 0 {
        m2 == m1
    } else {
        exists|mid: Map<int, InodeInfo>|
            #[trigger] forget_step(m1, mid, reqs[0].0, reqs[0].1) && forget_seq(
                mid,
                m2,
                reqs.drop_first(),
            )
    }
}

/// Identifier reuse safety, first half: a forget whose count reaches the
/// record's reference count removes it, and the identifier no longer names
/// a live record — `get` and `lookup` then reject it — until the pool
/// reallocates the slot. (The second half, that a reallocated identifier
/// never exposes the previous occupant's data, is the `created` clause of
/// `create_post`: the new record carries only what `create` was given.)
pub proof fn lemma_forgotten_identifier_dead(
    m0: Map<int, InodeInfo>,
    m1: Map<int, InodeInfo>,
    ino: Inode,
    count: u64,
)
    requires
        forget_step(m0, m1, ino, count),
        live(m0, ino),
        m0[ino.0 as int].refs <= count,
    ensures
        !live(m1, ino),
{
}

/// One event of the reference-count protocol on a single record: a lookup,
/// which grants one reference, or a forget carrying a count.
#[derive(Clone, Copy, Debug, PartialEq, Eq, Structural)]
pub enum RefEvent {
    Lookup,
    Forget(u64),
}

/// The reference count a record holds after a sequence of events,
/// mirroring the engine: a lookup adds one unless the count is full (the
/// engine refuses it then, leaving the count unchanged); a forget removes
/// the record — None — exactly when its count reaches or crosses zero;
/// events on a removed record change nothing.
pub open spec fn apply_ref_events(refs: u64, events: Seq<RefEvent>) -> Option<u64>
    decreases events.len(),
{
    if events.len() == 0 {
        Some(refs)
    } else {
        let rest = events.drop_first();
        match events[0] {
            RefEvent::Lookup => if refs < u64::MAX {
                apply_ref_events((refs + 1) as u64, rest)
            } else {
                apply_ref_events(refs, rest)
            },
            RefEvent::Forget(c) => if refs <= c {
                None
            } else {
                apply_ref_events((refs - c) as u64, rest)
            },
        }
    }
}

/// How many lookups a sequence of events grants.
pub open spec fn lookup_count(events: Seq<RefEvent>) -> int
    decreases events.len(),
{
    if events.len() == 0 {
        0
    } else {
        (match events[0] {
            RefEvent::Lookup => 1int,
            RefEvent::Forget(_) => 0int,
        }) + lookup_count(events.drop_first())
    }
}

/// The total count a sequence of events forgets.
pub open spec fn forget_total(events: Seq<RefEvent>) -> int
    decreases events.len(),
{
    if events.len() == 0 {
        0
    } else {
        (match events[0] {
            RefEvent::Lookup => 0int,
            RefEvent::Forget(c) => c as int,
        }) + forget_total(events.drop_first())
    }
}

proof fn lemma_counts_nonneg(events: Seq<RefEvent>)
    ensures
        lookup_count(events) >= 0,
        forget_total(events) >= 0,
    decreases events.len(),
{
    if events.len() > 0 {
        lemma_counts_nonneg(events.drop_first());
    }
}

/// Splitting the event counts of a non-empty prefix at its first event.
proof fn lemma_counts_take_head(s: Seq<RefEvent>, n: int)
    requires
        1 <= n <= s.len(),
    ensures
        lookup_count(s.take(n)) == lookup_count(s.drop_first().take(n - 1)) + (match s[0] {
            RefEvent::Lookup => 1int,
            RefEvent::Forget(_) => 0int,
        }),
        forget_total(s.take(n)) == forget_total(s.drop_first().take(n - 1)) + (match s[0] {
            RefEvent::Lookup => 0int,
            RefEvent::Forget(c) => c as int,
        }),
{
    assert(s.take(n).drop_first() =~= s.drop_first().take(n - 1));
    assert(s.take(n)[0] == s[0]);
}

/// Reference counting: starting from `refs0` outstanding references, after
/// any sequence of lookup and forget events on one record, the record is
/// removed exactly when the count some prefix forgets reaches the count
/// granted before it (the initial `refs0` included), and not before;
/// while the record lives, its count is the exact balance of grants over
/// forgets.
pub proof fn lemma_refcount_removal(refs0: u64, events: Seq<RefEvent>)
    requires
        1 <= refs0,
        refs0 as int + lookup_count(events) <= u64::MAX as int,
    ensures
        (apply_ref_events(refs0, events) is None) <==> (exists|n: int|
            0 <= n <= events.len() && forget_total(#[trigger] events.take(n)) >= refs0
                + lookup_count(events.take(n))),
        apply_ref_events(refs0, events) matches Some(r2) ==> r2 == refs0 + lookup_count(events)
            - forget_total(events),
    decreases events.len(),
{
    lemma_counts_nonneg(events);
    assert(events.take(0) =~= Seq::<RefEvent>::empty());
    if events.len() == 0 {
        assert forall|n: int| 0 <= n <= events.len() implies forget_total(#[trigger] events.take(n))
            < refs0 + lookup_count(events.take(n)) by {
            assert(events.take(n) =~= Seq::<RefEvent>::empty());
        }
    } else {
        let rest = events.drop_first();
        lemma_counts_nonneg(rest);
        match events[0] {
            RefEvent::Lookup => {
                assert(refs0 < u64::MAX);
                let refs1 = (refs0 + 1) as u64;
                lemma_refcount_removal(refs1, rest);
                assert forall|n: int|
                    0 <= n <= rest.len() && forget_total(#[trigger] rest.take(n)) >= refs1
                        + lookup_count(rest.take(n)) implies exists|n2: int|
                    0 <= n2 <= events.len() && forget_total(#[trigger] events.take(n2)) >= refs0
                        + lookup_count(events.take(n2)) by {
                    lemma_counts_take_head(events, n + 1);
                    assert(forget_total(events.take(n + 1)) >= refs0 + lookup_count(
                        events.take(n + 1),
                    ));
                }
                assert forall|n: int|
                    0 <= n <= events.len() && forget_total(#[trigger] events.take(n)) >= refs0
                        + lookup_count(events.take(n)) implies exists|n2: int|
                    0 <= n2 <= rest.len() && forget_total(#[trigger] rest.take(n2)) >= refs1
                        + lookup_count(rest.take(n2)) by {
                    lemma_counts_nonneg(events.take(n));
                    assert(n >= 1);
                    lemma_counts_take_head(events, n);
                    assert(forget_total(rest.take(n - 1)) >= refs1 + lookup_count(
                        rest.take(n - 1),
                    ));
                }
            },
            RefEvent::Forget(c) => {
                if refs0 <= c {
                    lemma_counts_take_head(events, 1);
                    assert(events.take(1).drop_first() =~= Seq::<RefEvent>::empty());
                    assert(forget_total(events.take(1)) == c as int);
                    assert(lookup_count(events.take(1)) == 0);
                    assert(forget_total(events.take(1)) >= refs0 + lookup_count(events.take(1)));
                } else {
                    let refs1 = (refs0 - c) as u64;
                    lemma_refcount_removal(refs1, rest);
                    assert forall|n: int|
                        0 <= n <= rest.len() && forget_total(#[trigger] rest.take(n)) >= refs1
                            + lookup_count(rest.take(n)) implies exists|n2: int|
                        0 <= n2 <= events.len() && forget_total(#[trigger] events.take(n2)) >= refs0
                            + lookup_count(events.take(n2)) by {
                        lemma_counts_take_head(events, n + 1);
                        assert(forget_total(events.take(n + 1)) >= refs0 + lookup_count(
                            events.take(n + 1),
                        ));
                    }
                    assert forall|n: int|
                        0 <= n <= events.len() && forget_total(#[trigger] events.take(n)) >= refs0
                            + lookup_count(events.take(n)) implies exists|n2: int|
                        0 <= n2 <= rest.len() && forget_total(#[trigger] rest.take(n2)) >= refs1
                            + lookup_count(rest.take(n2)) by {
                        lemma_counts_nonneg(events.take(n));
                        assert(n >= 1);
                        lemma_counts_take_head(events, n);
                        assert(forget_total(rest.take(n - 1)) >= refs1 + lookup_count(
                            rest.take(n - 1),
                        ));
                    }
                }
            },
        }
    }
}

/// Extending a chain of forgets by one step at its end.
proof fn lemma_forget_seq_snoc(
    m0: Map<int, InodeInfo>,
    m1: Map<int, InodeInfo>,
    m2: Map<int, InodeInfo>,
    reqs: Seq<(Inode, u64)>,
    x: (Inode, u64),
)
    requires
        forget_seq(m0, m1, reqs),
        forget_step(m1, m2, x.0, x.1),
    ensures
        forget_seq(m0, m2, reqs.push(x)),
    decreases reqs.len(),
{
    let extended = reqs.push(x);
    assert(extended.len() == reqs.len() + 1);
    if reqs.len() == 0 {
        assert(m1 == m0);
        assert(extended[0] == x);
        assert(extended.drop_first() =~= Seq::<(Inode, u64)>::empty());
        assert(forget_step(m0, m2, extended[0].0, extended[0].1));
        assert(forget_seq(m2, m2, extended.drop_first()));
    } else {
        let mid = choose|mid: Map<int, InodeInfo>|
            #[trigger] forget_step(m0, mid, reqs[0].0, reqs[0].1) && forget_seq(
                mid,
                m1,
                reqs.drop_first(),
            );
        lemma_forget_seq_snoc(mid, m1, m2, reqs.drop_first(), x);
        assert(extended.drop_first() =~= reqs.drop_first().push(x));
        assert(extended[0] == reqs[0]);
        assert(forget_step(m0, mid, extended[0].0, extended[0].1));
        assert(forget_seq(mid, m2, extended.drop_first()));
    }
}

} // verus!
