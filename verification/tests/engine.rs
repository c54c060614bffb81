use slabfs::error::FsError;
use slabfs::fs::{SetattrFields, SlabFs};
use slabfs::inode::{Inode, InodeInfo};
use slabfs::perm::FsOwner;

const FILE_MODE: u32 = 0o100644;

fn owner() -> FsOwner {
    FsOwner::new(1000, 100)
}

fn no_fields() -> SetattrFields {
    SetattrFields { uid: None, gid: None, mode: None, size: None }
}

#[test]
fn scenario_full_lifecycle() {
    // mkdir("/", "d") -> D; create(D, "f.txt") -> F with size 0;
    // write(F, 0, "hi") -> 2; read(F, 0, 10) -> "hi"; unlink(D, "f.txt");
    // read still works; forget(F, 1) frees the slot; getattr(F) -> NotFound.
    let mut fs = SlabFs::new();
    let root = Inode(1);
    let d = fs.mkdir(root, b"d", 0o755, owner()).unwrap();
    let f = fs.create(d.ino, b"f.txt", FILE_MODE, owner()).unwrap();
    assert_eq!(f.attr.size, 0);
    let n = fs.write(f.ino, 0, b"hi").unwrap();
    assert_eq!(n, 2);
    let back = fs.read(f.ino, 0, 10).unwrap();
    assert_eq!(back, b"hi".to_vec());
    fs.unlink(d.ino, b"f.txt").unwrap();
    let listing = fs.readdir(d.ino, 4096, 0).unwrap();
    assert!(listing.is_empty());
    // The record is only unlinked; it stays readable until forgotten.
    let still = fs.read(f.ino, 0, 10).unwrap();
    assert_eq!(still, b"hi".to_vec());
    fs.forget(f.ino, 1);
    assert_eq!(fs.getattr(f.ino).unwrap_err(), FsError::NotFound);
}

#[test]
fn write_read_round_trip() {
    let mut fs = SlabFs::new();
    let f = fs.create(Inode(1), b"buf", FILE_MODE, owner()).unwrap();
    let payload: Vec<u8> = (0..=255u8).collect();
    assert_eq!(fs.write(f.ino, 0, &payload).unwrap(), 256);
    assert_eq!(fs.read(f.ino, 0, 256).unwrap(), payload);
}

#[test]
fn write_at_offset_zero_fills_gap() {
    let mut fs = SlabFs::new();
    let f = fs.create(Inode(1), b"gap", FILE_MODE, owner()).unwrap();
    assert_eq!(fs.write(f.ino, 3, b"xy").unwrap(), 2);
    assert_eq!(fs.read(f.ino, 0, 16).unwrap(), vec![0, 0, 0, b'x', b'y']);
    // Overwriting in the middle never shortens the buffer.
    assert_eq!(fs.write(f.ino, 0, b"a").unwrap(), 1);
    assert_eq!(fs.read(f.ino, 0, 16).unwrap(), vec![b'a', 0, 0, b'x', b'y']);
}

#[test]
fn read_past_end_is_truncated_not_an_error() {
    let mut fs = SlabFs::new();
    let f = fs.create(Inode(1), b"short", FILE_MODE, owner()).unwrap();
    fs.write(f.ino, 0, b"abc").unwrap();
    assert_eq!(fs.read(f.ino, 1, 100).unwrap(), b"bc".to_vec());
    assert_eq!(fs.read(f.ino, 3, 100).unwrap(), Vec::<u8>::new());
    assert_eq!(fs.read(f.ino, 50, 100).unwrap(), Vec::<u8>::new());
}

#[test]
fn identifier_reuse_is_safe() {
    // Drive a record's count to zero; its identifier must be rejected
    // until reallocated, and the reused slot must expose only fresh state.
    let mut fs = SlabFs::new();
    let f = fs.create(Inode(1), b"old", FILE_MODE, owner()).unwrap();
    fs.write(f.ino, 0, b"secret").unwrap();
    fs.unlink(Inode(1), b"old").unwrap();
    fs.forget(f.ino, 1);
    assert_eq!(fs.getattr(f.ino).unwrap_err(), FsError::NotFound);
    assert_eq!(fs.read(f.ino, 0, 10).unwrap_err(), FsError::NotFound);
    let g = fs.create(Inode(1), b"new", FILE_MODE, owner()).unwrap();
    assert_eq!(g.ino.0, f.ino.0, "the freed slot is reused");
    assert_eq!(g.attr.size, 0, "no previous data shows through");
    assert_eq!(fs.read(g.ino, 0, 10).unwrap(), Vec::<u8>::new());
}

#[test]
fn reference_counting_drives_removal() {
    // create grants 1; each lookup grants 1 more; the record is removed
    // exactly when the forgotten total reaches the granted total.
    let mut fs = SlabFs::new();
    let f = fs.create(Inode(1), b"counted", FILE_MODE, owner()).unwrap();
    fs.lookup(Inode(1), b"counted").unwrap();
    fs.lookup(Inode(1), b"counted").unwrap();
    // 3 references granted; forgetting 2 must not remove it.
    fs.forget(f.ino, 2);
    assert!(fs.getattr(f.ino).is_ok());
    // One more reaches the balance: removed.
    fs.forget(f.ino, 1);
    assert_eq!(fs.getattr(f.ino).unwrap_err(), FsError::NotFound);
}

#[test]
fn forget_overshoot_removes_without_underflow() {
    let mut fs = SlabFs::new();
    let f = fs.create(Inode(1), b"once", FILE_MODE, owner()).unwrap();
    fs.forget(f.ino, 100);
    assert_eq!(fs.getattr(f.ino).unwrap_err(), FsError::NotFound);
    // Forgetting an already-removed identifier is tolerated silently.
    fs.forget(f.ino, 1);
    fs.forget(Inode(9999), 1);
}

#[test]
fn batch_forget_applies_each_pair() {
    let mut fs = SlabFs::new();
    let a = fs.create(Inode(1), b"a", FILE_MODE, owner()).unwrap();
    let b = fs.create(Inode(1), b"b", FILE_MODE, owner()).unwrap();
    fs.lookup(Inode(1), b"b").unwrap();
    fs.batch_forget(vec![(a.ino, 1), (b.ino, 1), (Inode(777), 5)]);
    assert_eq!(fs.getattr(a.ino).unwrap_err(), FsError::NotFound);
    assert!(fs.getattr(b.ino).is_ok(), "one reference is still outstanding");
    fs.batch_forget(vec![(b.ino, 1)]);
    assert_eq!(fs.getattr(b.ino).unwrap_err(), FsError::NotFound);
}

#[test]
fn directory_consistency_under_mixed_operations() {
    let mut fs = SlabFs::new();
    let d = fs.mkdir(Inode(1), b"dir", 0o755, owner()).unwrap();
    fs.create(d.ino, b"one", FILE_MODE, owner()).unwrap();
    fs.create(d.ino, b"two", FILE_MODE, owner()).unwrap();
    fs.mkdir(d.ino, b"sub", 0o700, owner()).unwrap();
    fs.unlink(d.ino, b"one").unwrap();
    fs.create(d.ino, b"three", FILE_MODE, owner()).unwrap();
    let listing = fs.readdir(d.ino, 4096, 0).unwrap();
    assert_eq!(listing.len(), 3);
    // Every listed identifier resolves to a live record, and no two
    // entries share a name.
    for e in &listing {
        assert!(fs.getattr(e.ino).is_ok());
    }
    for i in 0..listing.len() {
        for j in 0..i {
            assert_ne!(listing[i].name, listing[j].name);
        }
    }
}

#[test]
fn duplicate_name_is_rejected() {
    let mut fs = SlabFs::new();
    fs.create(Inode(1), b"same", FILE_MODE, owner()).unwrap();
    let err = fs.create(Inode(1), b"same", FILE_MODE, owner()).unwrap_err();
    assert_eq!(err, FsError::AlreadyExists);
    let err = fs.mkdir(Inode(1), b"same", 0o755, owner()).unwrap_err();
    assert_eq!(err, FsError::AlreadyExists);
}

#[test]
fn readdir_pagination_is_resumable() {
    let mut fs = SlabFs::new();
    let d = fs.mkdir(Inode(1), b"paged", 0o755, owner()).unwrap();
    let names: [&[u8]; 4] = [b"e0", b"e1", b"e2", b"e3"];
    for n in names {
        fs.create(d.ino, n, FILE_MODE, owner()).unwrap();
    }
    let all = fs.readdir(d.ino, 4096, 0).unwrap();
    assert_eq!(all.len(), 4);
    for (i, e) in all.iter().enumerate() {
        assert_eq!(e.name, names[i].to_vec(), "creation order is kept");
        assert_eq!(e.offset, i as u64 + 1, "position is index + 1");
    }
    // Resuming at offset N yields the same entries from index N on.
    let tail = fs.readdir(d.ino, 4096, 2).unwrap();
    assert_eq!(tail.len(), 2);
    assert_eq!(tail[0].name, all[2].name);
    assert_eq!(tail[0].ino.0, all[2].ino.0);
    assert_eq!(tail[0].offset, 3);
    assert_eq!(tail[1].name, all[3].name);
    // The same offset yields the same entries again.
    let again = fs.readdir(d.ino, 4096, 2).unwrap();
    assert_eq!(again.len(), 2);
    assert_eq!(again[0].name, tail[0].name);
    // An offset at or past the end yields no entries; a zero byte budget
    // yields none either.
    assert!(fs.readdir(d.ino, 4096, 4).unwrap().is_empty());
    assert!(fs.readdir(d.ino, 4096, 100).unwrap().is_empty());
    assert!(fs.readdir(d.ino, 0, 0).unwrap().is_empty());
}

#[test]
fn create_rollback_leaves_no_orphan() {
    let mut fs = SlabFs::new();
    let dead = Inode(555);
    let err = fs.create(dead, b"orphan", FILE_MODE, owner()).unwrap_err();
    assert_eq!(err, FsError::NotFound);
    // The pool is unchanged: the next allocation takes the same slot it
    // would have taken had the failed create never happened.
    let a = fs.create(Inode(1), b"first", FILE_MODE, owner()).unwrap();
    assert_eq!(a.ino.0, 2, "slot 2 is the first free slot after the root");
}

#[test]
fn create_error_cases() {
    let mut fs = SlabFs::new();
    // A mode bit outside the kind and permission masks: InvalidInput.
    let err = fs.create(Inode(1), b"f", 0o104644, owner()).unwrap_err();
    assert_eq!(err, FsError::InvalidInput);
    // A character-device kind: Unsupported.
    let err = fs.create(Inode(1), b"f", 0o020644, owner()).unwrap_err();
    assert_eq!(err, FsError::Unsupported);
    // A file as parent: NotFound.
    let f = fs.create(Inode(1), b"plain", FILE_MODE, owner()).unwrap();
    let err = fs.create(f.ino, b"child", FILE_MODE, owner()).unwrap_err();
    assert_eq!(err, FsError::NotFound);
}

#[test]
fn lookup_matches_exact_bytes_and_increments() {
    let mut fs = SlabFs::new();
    let f = fs.create(Inode(1), b"File.TXT", FILE_MODE, owner()).unwrap();
    let hit = fs.lookup(Inode(1), b"File.TXT").unwrap();
    assert_eq!(hit.ino.0, f.ino.0);
    assert_eq!(hit.attr.mode, 0o100644);
    // No case folding, no normalization.
    assert_eq!(fs.lookup(Inode(1), b"file.txt").unwrap_err(), FsError::NotFound);
    assert_eq!(fs.lookup(Inode(1), b"File.TX").unwrap_err(), FsError::NotFound);
    // The lookup granted a second reference: one forget keeps it alive.
    fs.unlink(Inode(1), b"File.TXT").unwrap();
    fs.forget(f.ino, 1);
    assert!(fs.getattr(f.ino).is_ok());
    fs.forget(f.ino, 1);
    assert_eq!(fs.getattr(f.ino).unwrap_err(), FsError::NotFound);
}

#[test]
fn getattr_reports_stored_attributes() {
    let mut fs = SlabFs::new();
    let f = fs.create(Inode(1), b"attrs", 0o100640, FsOwner::new(42, 7)).unwrap();
    fs.write(f.ino, 0, &[9u8; 1024]).unwrap();
    let st = fs.getattr(f.ino).unwrap();
    assert_eq!(st.ino, f.ino.0);
    assert_eq!(st.mode, 0o100640);
    assert_eq!(st.uid, 42);
    assert_eq!(st.gid, 7);
    assert_eq!(st.size, 1024);
    assert_eq!(st.blocks, 2, "1024 bytes over 512-byte blocks");
    assert_eq!(st.blksize, 16384);
    let root = fs.getattr(Inode(1)).unwrap();
    assert_eq!(root.mode, 0o040755);
    assert_eq!(root.size, 0, "directories report size 0");
}

#[test]
fn setattr_updates_and_validates_first() {
    let mut fs = SlabFs::new();
    let f = fs.create(Inode(1), b"mut", FILE_MODE, owner()).unwrap();
    fs.write(f.ino, 0, b"0123456789").unwrap();
    let st = fs
        .setattr(
            f.ino,
            SetattrFields { uid: Some(5), gid: Some(6), mode: Some(0o100600), size: Some(4) },
        )
        .unwrap();
    assert_eq!(st.uid, 5);
    assert_eq!(st.gid, 6);
    assert_eq!(st.mode, 0o100600);
    assert_eq!(st.size, 4);
    assert_eq!(fs.read(f.ino, 0, 100).unwrap(), b"0123".to_vec());
    // Extension zero-fills.
    let st = fs.setattr(f.ino, SetattrFields { size: Some(6), ..no_fields() }).unwrap();
    assert_eq!(st.size, 6);
    assert_eq!(fs.read(f.ino, 0, 100).unwrap(), vec![b'0', b'1', b'2', b'3', 0, 0]);
    // An invalid mode is rejected before anything is applied.
    let err = fs
        .setattr(f.ino, SetattrFields { uid: Some(99), mode: Some(0o7777), ..no_fields() })
        .unwrap_err();
    assert_eq!(err, FsError::InvalidInput);
    let st = fs.getattr(f.ino).unwrap();
    assert_eq!(st.uid, 5, "the uid stayed untouched after the failure");
    // Setting a size on a directory: NotFound, nothing applied.
    let err = fs
        .setattr(Inode(1), SetattrFields { gid: Some(3), size: Some(1), ..no_fields() })
        .unwrap_err();
    assert_eq!(err, FsError::NotFound);
    assert_eq!(fs.getattr(Inode(1)).unwrap().gid, 100);
    // An unknown identifier: NotFound.
    let err = fs.setattr(Inode(888), no_fields()).unwrap_err();
    assert_eq!(err, FsError::NotFound);
}

#[test]
fn wrong_kind_access_is_not_found() {
    let mut fs = SlabFs::new();
    let d = fs.mkdir(Inode(1), b"d", 0o755, owner()).unwrap();
    let f = fs.create(Inode(1), b"f", FILE_MODE, owner()).unwrap();
    assert_eq!(fs.read(d.ino, 0, 1).unwrap_err(), FsError::NotFound);
    assert_eq!(fs.write(d.ino, 0, b"x").unwrap_err(), FsError::NotFound);
    assert_eq!(fs.readdir(f.ino, 4096, 0).unwrap_err(), FsError::NotFound);
    assert_eq!(fs.lookup(f.ino, b"x").unwrap_err(), FsError::NotFound);
    assert_eq!(fs.unlink(f.ino, b"x").unwrap_err(), FsError::NotFound);
}

#[test]
fn unlink_absent_name_is_not_found() {
    let mut fs = SlabFs::new();
    let d = fs.mkdir(Inode(1), b"d", 0o755, owner()).unwrap();
    assert_eq!(fs.unlink(d.ino, b"ghost").unwrap_err(), FsError::NotFound);
    assert_eq!(fs.rmdir(Inode(1), b"ghost").unwrap_err(), FsError::NotFound);
    assert_eq!(fs.unlink(Inode(444), b"x").unwrap_err(), FsError::NotFound);
}

#[test]
fn rmdir_unlinks_directory_entry() {
    let mut fs = SlabFs::new();
    let d = fs.mkdir(Inode(1), b"doomed", 0o755, owner()).unwrap();
    fs.rmdir(Inode(1), b"doomed").unwrap();
    assert!(fs.readdir(Inode(1), 4096, 0).unwrap().is_empty());
    // The record itself stays until its reference is forgotten.
    assert!(fs.getattr(d.ino).is_ok());
    fs.forget(d.ino, 1);
    assert_eq!(fs.getattr(d.ino).unwrap_err(), FsError::NotFound);
}

#[test]
fn root_directory_is_present_at_startup() {
    let fs = SlabFs::new();
    let st = fs.getattr(Inode(1)).unwrap();
    assert_eq!(st.ino, 1);
    assert_eq!(st.mode & 0o170000, 0o040000, "the root is a directory");
    // Slot 0 is the reserved placeholder, never a valid file target.
    assert!(fs.getattr(Inode(0)).is_ok(), "slot 0 exists as a record");
    assert_eq!(fs.readdir(Inode(0), 4096, 0).unwrap_err(), FsError::NotFound);
}

#[test]
fn full_reference_count_refuses_lookup() {
    let mut fs = SlabFs::new();
    let mut rec = InodeInfo::file(b"full").unwrap();
    rec.refs = u64::MAX;
    let ino = fs.insert_entry(rec);
    let mut root = InodeInfo::dir(b"r2").unwrap();
    root.add_child(ino, b"full").unwrap();
    let d = fs.insert_entry(root);
    let err = fs.lookup(d, b"full").unwrap_err();
    assert_eq!(err, FsError::OutOfMemory);
    // Nothing changed: the record is still there with its count intact.
    assert!(fs.getattr(ino).is_ok());
}

#[test]
fn stale_child_resolves_to_not_found() {
    // A child list entry whose identifier no longer names a live record is
    // reported as NotFound, for lookup and for listing alike.
    let mut fs = SlabFs::new();
    let mut d = InodeInfo::dir(b"d").unwrap();
    d.add_child(Inode(999), b"ghost").unwrap();
    let di = fs.insert_entry(d);
    assert_eq!(fs.lookup(di, b"ghost").unwrap_err(), FsError::NotFound);
    assert_eq!(fs.readdir(di, 4096, 0).unwrap_err(), FsError::NotFound);
}
