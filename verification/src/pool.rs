use vstd::prelude::*;

use crate::bytes::bytes_eq;
use crate::error::FsError;
use crate::file_entry::FsEntry;
use crate::inode::{Inode, InodeInfo};

verus! {

// ---------------------------------------------------------------------------
// Trusted surface of the slot-reuse container.
//
// The object pool stores its records in a `slab::Slab`, an index-addressable
// container that reuses freed slots. The slab is opaque to the verifier;
// these names and wrappers state, per method, what its source shows.
// ---------------------------------------------------------------------------

#[verifier::external_type_specification]
#[verifier::external_body]
#[verifier::reject_recursive_types(T)]
pub struct ExSlab<T>(slab::Slab<T>);

/// What the slab holds: the map from each occupied slot's key to its record.
pub uninterp spec fn slab_contents(s: slab::Slab<InodeInfo>) -> Map<int, InodeInfo>;

/// What `slab::Slab::vacant_key` returns: the key the next insertion uses.
pub uninterp spec fn slab_vacant_key(s: slab::Slab<InodeInfo>) -> int;

/// How many slots, occupied or free, the slab's backing storage holds.
pub uninterp spec fn slab_slot_count(s: slab::Slab<InodeInfo>) -> int;

/// Relies on slab::Slab::with_capacity: an empty slab; its next vacant key
/// is 0 and its backing storage holds no slots yet.
#[verifier::external_body]
fn slab_with_capacity(capacity: usize) -> (s: slab::Slab<InodeInfo>)
    ensures
        slab_contents(s).dom() == Set::<int>::empty(),
        slab_vacant_key(s) == 0,
        slab_slot_count(s) == 0,
{
    slab::Slab::with_capacity(capacity)
}

/// Relies on slab::Slab::insert: stores the value under the next vacant
/// key, which was not occupied, and returns that key. When every slot so
/// far is occupied (the vacant key equals the slot count) the storage grows
/// by one slot and the vacant key moves just past the new one.
#[verifier::external_body]
fn slab_insert(s: &mut slab::Slab<InodeInfo>, val: InodeInfo) -> (key: usize)
    ensures
        !slab_contents(*old(s)).dom().contains(key as int),
        key as int == slab_vacant_key(*old(s)),
        slab_contents(*final(s)) == slab_contents(*old(s)).insert(key as int, val),
        slab_vacant_key(*old(s)) == slab_slot_count(*old(s))
            ==> slab_slot_count(*final(s)) == slab_slot_count(*old(s)) + 1
            && slab_vacant_key(*final(s)) == key as int + 1,
        slab_vacant_key(*old(s)) < slab_slot_count(*old(s))
            ==> slab_slot_count(*final(s)) == slab_slot_count(*old(s)),
{
    s.insert(val)
}

/// Relies on slab::Slab::try_remove: takes the value under the key out, if
/// any, freeing its slot for reuse by the next insertion; an absent key
/// changes nothing.
#[verifier::external_body]
fn slab_try_remove(s: &mut slab::Slab<InodeInfo>, key: usize) -> (r: Option<InodeInfo>)
    ensures
        slab_contents(*old(s)).dom().contains(key as int)
            ==> (r matches Some(v)
            && v == slab_contents(*old(s))[key as int]
            && slab_contents(*final(s)) == slab_contents(*old(s)).remove(key as int)
            && slab_vacant_key(*final(s)) == key as int
            && slab_slot_count(*final(s)) == slab_slot_count(*old(s))),
        !slab_contents(*old(s)).dom().contains(key as int) ==> (r is None && *final(s) == *old(s)),
{
    s.try_remove(key)
}

/// Relies on slab::Slab::get: read access to the value under an occupied
/// key; None for a free or out-of-range key.
#[verifier::external_body]
fn slab_get(s: &slab::Slab<InodeInfo>, key: usize) -> (r: Option<&InodeInfo>)
    ensures
        r is Some <==> slab_contents(*s).dom().contains(key as int),
        r matches Some(v) ==> *v == slab_contents(*s)[key as int],
{
    s.get(key)
}

/// Relies on slab::Slab::contains: whether the key names an occupied slot.
#[verifier::external_body]
fn slab_contains(s: &slab::Slab<InodeInfo>, key: usize) -> (r: bool)
    ensures
        r == slab_contents(*s).dom().contains(key as int),
{
    s.contains(key)
}

/// Relies on the slab's index access, which hands out the record under an
/// occupied key; the exchange itself is core::mem::swap.
#[verifier::external_body]
fn slab_swap(s: &mut slab::Slab<InodeInfo>, key: usize, val: &mut InodeInfo)
    requires
        slab_contents(*old(s)).dom().contains(key as int),
    ensures
        *final(val) == slab_contents(*old(s))[key as int],
        slab_contents(*final(s)) == slab_contents(*old(s)).insert(key as int, *old(val)),
        slab_vacant_key(*final(s)) == slab_vacant_key(*old(s)),
        slab_slot_count(*final(s)) == slab_slot_count(*old(s)),
{
    core::mem::swap(&mut s[key], val)
}

// ---------------------------------------------------------------------------
// Child-list search.
// ---------------------------------------------------------------------------

/// The least index of a child pair carrying exactly `name`, or -1 when no
/// pair does.
pub open spec fn first_match(ch: Seq<(Inode, Vec<u8>)>, name: Seq<u8>) -> int
    decreases ch.len(),
{
    if ch.len() == 0 {
        -1
    } else if ch[0].1@ == name {
        0
    } else {
        let rest = first_match(ch.drop_first(), name);
        if rest == -1 {
            -1
        } else {
            rest + 1
        }
    }
}

/// Whether some child pair carries exactly `name`.
pub open spec fn has_name(ch: Seq<(Inode, Vec<u8>)>, name: Seq<u8>) -> bool {
    first_match(ch, name) >= 0
}

/// What `first_match` finds: -1 exactly when no pair matches; otherwise the
/// matching index with no match before it.
pub proof fn lemma_first_match(ch: Seq<(Inode, Vec<u8>)>, name: Seq<u8>)
    ensures
        first_match(ch, name) == -1 <==> (forall|j: int| 0 <= j < ch.len() ==> ch[j].1@ != name),
        first_match(ch, name) != -1 ==> {
            let k = first_match(ch, name);
            &&& 0 <= k < ch.len()
            &&& ch[k].1@ == name
            &&& forall|j: int| 0 <= j < k ==> ch[j].1@ != name
        },
    decreases ch.len(),
{
    if ch.len() == 0 {
    } else if ch[0].1@ == name {
    } else {
        lemma_first_match(ch.drop_first(), name);
        assert(forall|j: int| 0 < j < ch.len() ==> ch[j] == ch.drop_first()[j - 1]);
    }
}

/// Scans a child list for the first pair whose name matches byte for byte;
/// returns its index and identifier.
pub fn find_child(ch: &Vec<(Inode, Vec<u8>)>, name: &[u8]) -> (r: Option<(usize, Inode)>)
    ensures
        r matches Some(p) ==> {
            &&& first_match(ch@, name@) == p.0 as int
            &&& 0 <= p.0 < ch@.len()
            &&& ch@[p.0 as int].0 == p.1
            &&& ch@[p.0 as int].1@ == name@
        },
        r is None ==> first_match(ch@, name@) == -1,
{
    proof {
        lemma_first_match(ch@, name@);
    }
    let mut i: usize = 0;
    while i < ch.len()
        invariant
            0 <= i <= ch@.len(),
            forall|j: int| 0 <= j < i ==> ch@[j].1@ != name@,
            first_match(ch@, name@) == -1 <==> (forall|j: int|
                0 <= j < ch@.len() ==> ch@[j].1@ != name@),
            first_match(ch@, name@) != -1 ==> {
                let k = first_match(ch@, name@);
                &&& 0 <= k < ch@.len()
                &&& ch@[k].1@ == name@
                &&& forall|j: int| 0 <= j < k ==> ch@[j].1@ != name@
            },
        decreases ch@.len() - i,
    {
        let pair_name: &Vec<u8> = &ch[i].1;
        if bytes_eq(pair_name.as_slice(), name) {
            let ino = ch[i].0;
            return Some((i, ino));
        }
        i += 1;
    }
    None
}

/// A child list after the swap-remove of index `k`: the last pair moves
/// into place `k` and the list shortens by one.
pub open spec fn swap_removed(ch: Seq<(Inode, Vec<u8>)>, k: int) -> Seq<(Inode, Vec<u8>)> {
    ch.update(k, ch.last()).drop_last()
}

// ---------------------------------------------------------------------------
// The object pool.
// ---------------------------------------------------------------------------

/// Whether an identifier names a live (currently occupied) slot.
pub open spec fn live(m: Map<int, InodeInfo>, ino: Inode) -> bool {
    m.dom().contains(ino.0 as int) && ino.0 <= usize::MAX as u64
}

/// The object pool: index-addressable storage for records with amortized
/// O(1) allocation, O(1) deallocation, and reuse of freed slots. Viewed as
/// the map from each live identifier to its record.
#[derive(Debug)]
pub struct FsFiles {
    files: slab::Slab<InodeInfo>,
}

impl View for FsFiles {
    type V = Map<int, InodeInfo>;

    closed spec fn view(&self) -> Map<int, InodeInfo> {
        slab_contents(self.files)
    }
}

impl FsFiles {
    /// The key the next allocation will use.
    pub closed spec fn vacant_key(&self) -> int {
        slab_vacant_key(self.files)
    }

    /// How many slots the backing storage holds.
    pub closed spec fn slot_count(&self) -> int {
        slab_slot_count(self.files)
    }

    /// An empty pool.
    pub fn new() -> (r: FsFiles)
        ensures
            r@ == Map::<int, InodeInfo>::empty(),
            r.vacant_key() == 0,
            r.slot_count() == 0,
    {
        FsFiles { files: slab_with_capacity(256) }
    }

    /// Whether the identifier names a live record.
    pub fn contains(&self, ino: Inode) -> (r: bool)
        ensures
            r == live(self@, ino),
    {
        if ino.0 > usize::MAX as u64 {
            false
        } else {
            slab_contains(&self.files, ino.0 as usize)
        }
    }

    /// Read-only resolution of an identifier; NotFound when the identifier
    /// is out of range or its slot is currently free.
    pub fn get(&self, ino: Inode) -> (r: Result<&InodeInfo, FsError>)
        ensures
            live(self@, ino) ==> (r matches Ok(i) && *i == self@[ino.0 as int]),
            !live(self@, ino) ==> (r matches Err(e) && e == FsError::NotFound),
    {
        if ino.0 > usize::MAX as u64 {
            return Err(FsError::NotFound);
        }
        match slab_get(&self.files, ino.0 as usize) {
            Some(info) => Ok(info),
            None => Err(FsError::NotFound),
        }
    }

    /// Inserts a record into a free slot, reusing a freed slot when one is
    /// available, and returns the new identifier.
    pub fn insert(&mut self, info: InodeInfo) -> (ino: Inode)
        ensures
            !old(self)@.dom().contains(ino.0 as int),
            ino.0 <= usize::MAX as u64,
            ino.0 as int == old(self).vacant_key(),
            final(self)@ == old(self)@.insert(ino.0 as int, info),
            old(self).vacant_key() == old(self).slot_count() ==> {
                &&& final(self).slot_count() == old(self).slot_count() + 1
                &&& final(self).vacant_key() == ino.0 as int + 1
            },
            old(self).vacant_key() < old(self).slot_count() ==> final(self).slot_count() == old(
                self,
            ).slot_count(),
    {
        let key = slab_insert(&mut self.files, info);
        Inode(key as u64)
    }

    /// Marks the identifier's slot free; a dead identifier is tolerated and
    /// changes nothing. Subsequent resolution of the identifier fails until
    /// the slot is reallocated.
    pub fn remove(&mut self, ino: Inode)
        ensures
            live(old(self)@, ino) ==> final(self)@ == old(self)@.remove(ino.0 as int),
            !live(old(self)@, ino) ==> *final(self) == *old(self),
            final(self).slot_count() == old(self).slot_count(),
    {
        if ino.0 <= usize::MAX as u64 {
            let _removed = slab_try_remove(&mut self.files, ino.0 as usize);
        }
    }

    /// Exchanges the record under a live identifier with the caller's
    /// value.
    pub(crate) fn swap(&mut self, ino: Inode, val: &mut InodeInfo)
        requires
            live(old(self)@, ino),
        ensures
            *final(val) == old(self)@[ino.0 as int],
            final(self)@ == old(self)@.insert(ino.0 as int, *old(val)),
            final(self).vacant_key() == old(self).vacant_key(),
            final(self).slot_count() == old(self).slot_count(),
    {
        slab_swap(&mut self.files, ino.0 as usize, val)
    }

    /// Removes the (identifier, name) pair matching `name` from the
    /// parent's child list by swap-remove; the child's own slot stays until
    /// its reference count reaches zero. Fails, changing nothing, when the
    /// parent is not a live directory or the name is absent.
    pub fn unlink_inode(&mut self, parent: Inode, name: &[u8]) -> (r: Result<(), FsError>)
        ensures
            !live(old(self)@, parent)
                ==> (r matches Err(e) && e == FsError::NotFound && *final(self) == *old(self)),
            live(old(self)@, parent) && !old(self)@[parent.0 as int].is_dir()
                ==> (r matches Err(e) && e == FsError::NotFound && final(self)@ == old(self)@),
            live(old(self)@, parent) && old(self)@[parent.0 as int].is_dir()
                && !has_name(old(self)@[parent.0 as int].child_seq(), name@)
                ==> (r matches Err(e) && e == FsError::NotFound && final(self)@ == old(self)@),
            live(old(self)@, parent) && old(self)@[parent.0 as int].is_dir()
                && has_name(old(self)@[parent.0 as int].child_seq(), name@)
                ==> (r matches Ok(u) && {
                let pold = old(self)@[parent.0 as int];
                let k = first_match(pold.child_seq(), name@);
                &&& final(self)@.dom() == old(self)@.dom()
                &&& pold.with_child_seq(
                    final(self)@[parent.0 as int],
                    swap_removed(pold.child_seq(), k),
                )
                &&& forall|j: int|
                    old(self)@.dom().contains(j) && j != parent.0 as int
                        ==> final(self)@[j] == old(self)@[j]
            }),
            final(self).slot_count() == old(self).slot_count(),
            final(self).vacant_key() == old(self).vacant_key(),
    {
        if !self.contains(parent) {
            return Err(FsError::NotFound);
        }
        let ghost m0 = self@;
        let ghost p = parent.0 as int;
        let mut pinfo = InodeInfo::empty();
        let ghost placeholder = pinfo;
        self.swap(parent, &mut pinfo);
        proof {
            lemma_first_match(m0[p].child_seq(), name@);
        }
        let result = match &mut pinfo.entry {
            FsEntry::Dir(ch) => {
                match find_child(ch, name) {
                    Some((idx, _child)) => {
                        ch.swap_remove(idx);
                        Ok(())
                    },
                    None => Err(FsError::NotFound),
                }
            },
            FsEntry::File(_) => Err(FsError::NotFound),
        };
        let ghost p1 = pinfo;
        self.swap(parent, &mut pinfo);
        proof {
            assert(self@ =~= m0.insert(p, p1));
            assert(self@.dom() =~= m0.dom());
            if result is Err {
                assert(p1 == m0[p]);
                assert(m0.insert(p, p1) =~= m0);
            }
        }
        result
    }
}

} // verus!
