use slabfs::bytes::{bytes_eq, copy_bytes};
use slabfs::error::FsError;
use slabfs::file_entry::{FsEntry, FsType};
use slabfs::file_io::{FileReader, FileWriter};
use slabfs::inode::{Inode, InodeInfo};
use slabfs::perm::{FsOwner, FsPerm};
use slabfs::pool::FsFiles;

#[test]
fn perm_parses_and_masks() {
    let p = FsPerm::try_from_mode(0o100644).unwrap();
    assert_eq!(p.bits(), 0o644, "kind bits are masked out");
    let p = FsPerm::try_from_mode(0o040777).unwrap();
    assert_eq!(p.bits(), 0o777);
    // A set-id or sticky bit is outside the stored permission set.
    assert_eq!(FsPerm::try_from_mode(0o104644).unwrap_err(), FsError::InvalidInput);
    assert_eq!(FsPerm::try_from_mode(0o001644).unwrap_err(), FsError::InvalidInput);
    assert_eq!(FsPerm::dir().bits(), 0o755);
    assert_eq!(FsPerm::file().bits(), 0o644);
}

#[test]
fn owner_holds_ids() {
    let o = FsOwner::new(12, 34);
    assert_eq!(o.uid, 12);
    assert_eq!(o.gid, 34);
    let d = FsOwner::default();
    assert_eq!(d.uid, 1000);
    assert_eq!(d.gid, 100);
}

#[test]
fn fstype_bits_and_parse() {
    assert_eq!(FsType::REG.bits(), 0o100000);
    assert_eq!(FsType::DIR.bits(), 0o040000);
    assert_eq!(FsType::LNK.bits(), 0o120000);
    assert!(matches!(FsType::try_from_mode(0o100644), Ok(FsType::REG)));
    assert!(matches!(FsType::try_from_mode(0o040755), Ok(FsType::DIR)));
    assert_eq!(FsType::try_from_mode(0o120777).unwrap_err(), FsError::Unsupported);
}

#[test]
fn fsentry_constructors_are_empty() {
    assert!(matches!(FsEntry::file(), FsEntry::File(d) if d.is_empty()));
    assert!(matches!(FsEntry::dir(), FsEntry::Dir(c) if c.is_empty()));
    assert!(matches!(FsEntry::try_from_type(FsType::REG), Ok(FsEntry::File(_))));
    assert!(matches!(FsEntry::try_from_type(FsType::DIR), Ok(FsEntry::Dir(_))));
    assert_eq!(FsEntry::try_from_type(FsType::SOCK).unwrap_err(), FsError::Unsupported);
}

#[test]
fn record_constructors() {
    let f = InodeInfo::file(b"notes").unwrap();
    assert_eq!(f.refs, 1);
    assert_eq!(f.name, b"notes".to_vec());
    assert_eq!(f.perm.bits(), 0o644);
    assert!(matches!(f.entry, FsEntry::File(_)));
    let d = InodeInfo::dir(b"docs").unwrap();
    assert_eq!(d.perm.bits(), 0o755);
    assert!(matches!(d.entry, FsEntry::Dir(_)));
    // A NUL byte cannot cross the wire in a name.
    assert_eq!(InodeInfo::file(b"bad\0name").unwrap_err(), FsError::InvalidInput);
    assert_eq!(InodeInfo::dir(b"\0").unwrap_err(), FsError::InvalidInput);
    let e = InodeInfo::empty();
    assert_eq!(e.refs, 0);
    assert!(e.name.is_empty());
}

#[test]
fn record_refcount_protocol() {
    let mut f = InodeInfo::file(b"r").unwrap();
    f.refinc().unwrap();
    f.refinc().unwrap();
    assert_eq!(f.refs, 3);
    assert!(!f.refsub(2), "two of three references: kept");
    assert!(f.refsub(1), "the balance is reached: removed");
    let mut g = InodeInfo::file(b"g").unwrap();
    assert!(g.refsub(100), "overshoot removes without underflow");
    assert_eq!(g.refs, 0);
}

#[test]
fn record_stat_and_mode() {
    let mut f = InodeInfo::file(b"s").unwrap();
    assert_eq!(f.st_mode(), 0o100644);
    let st = f.stat64(Inode(7));
    assert_eq!(st.ino, 7);
    assert_eq!(st.size, 0);
    if let FsEntry::File(d) = &mut f.entry {
        d.extend_from_slice(&[1u8; 600]);
    }
    let st = f.stat64(Inode(7));
    assert_eq!(st.size, 600);
    assert_eq!(st.blocks, 1);
    let ent = f.get_entry(Inode(7));
    assert_eq!(ent.ino.0, 7);
    assert_eq!(ent.attr.mode, 0o100644);
    let de = f.get_direntry(Inode(7), 3);
    assert_eq!(de.ino.0, 7);
    assert_eq!(de.offset, 3);
    assert_eq!(de.name, b"s".to_vec());
}

#[test]
fn record_children_access() {
    let mut d = InodeInfo::dir(b"d").unwrap();
    d.add_child(Inode(5), b"kid").unwrap();
    d.add_child(Inode(6), b"kid2").unwrap();
    let ch = d.children().unwrap();
    assert_eq!(ch.len(), 2);
    assert_eq!(ch[0], (Inode(5), b"kid".to_vec()));
    let mut f = InodeInfo::file(b"f").unwrap();
    assert_eq!(f.add_child(Inode(5), b"kid").unwrap_err(), FsError::NotFound);
    assert_eq!(f.children().unwrap_err(), FsError::NotFound);
    assert!(f.file_data().unwrap().is_empty());
    assert_eq!(d.file_data().unwrap_err(), FsError::NotFound);
}

#[test]
fn pool_allocates_resolves_and_reuses() {
    let mut files = FsFiles::new();
    let a = files.insert(InodeInfo::file(b"a").unwrap());
    let b = files.insert(InodeInfo::file(b"b").unwrap());
    assert_eq!(a.0, 0);
    assert_eq!(b.0, 1);
    assert_eq!(files.get(a).unwrap().name, b"a".to_vec());
    assert!(files.contains(b));
    files.remove(a);
    assert!(!files.contains(a));
    assert!(matches!(files.get(a), Err(FsError::NotFound)));
    // A freed slot is reused by the next allocation.
    let c = files.insert(InodeInfo::file(b"c").unwrap());
    assert_eq!(c.0, a.0);
    assert_eq!(files.get(c).unwrap().name, b"c".to_vec());
    // Removing a dead identifier is tolerated.
    files.remove(Inode(50));
    assert!(files.get(Inode(50)).is_err());
}

#[test]
fn pool_unlink_inode_by_name() {
    let mut files = FsFiles::new();
    let mut d = InodeInfo::dir(b"d").unwrap();
    d.add_child(Inode(10), b"x").unwrap();
    d.add_child(Inode(11), b"y").unwrap();
    let di = files.insert(d);
    files.unlink_inode(di, b"x").unwrap();
    let ch = files.get(di).unwrap().children().unwrap();
    assert_eq!(ch.len(), 1);
    assert_eq!(ch[0].1, b"y".to_vec());
    assert_eq!(files.unlink_inode(di, b"x").unwrap_err(), FsError::NotFound);
    assert_eq!(files.unlink_inode(Inode(99), b"x").unwrap_err(), FsError::NotFound);
}

#[test]
fn writer_cursor_and_growth() {
    let w = FileWriter::new(Vec::new());
    assert_eq!(w.pos, 0);
    let mut w = FileWriter::new(b"base".to_vec());
    assert_eq!(w.write_at(6, b"xy").unwrap(), 2);
    assert_eq!(w.pos, 0, "an absolute write leaves the cursor alone");
    assert_eq!(w.write_next(b"AB").unwrap(), 2);
    assert_eq!(w.pos, 2, "a sequential write advances the cursor");
    assert_eq!(w.write_next(b"C").unwrap(), 1);
    let data = w.into_data();
    assert_eq!(data, vec![b'A', b'B', b'C', b'e', 0, 0, b'x', b'y']);
}

#[test]
fn reader_cursor_and_bounds() {
    let r = FileReader::new(b"hello world".to_vec());
    assert_eq!(r.read_at(6, 5), b"world".to_vec());
    assert_eq!(r.read_at(6, 50), b"world".to_vec());
    assert_eq!(r.read_at(50, 5), Vec::<u8>::new());
    let mut r = FileReader::new(b"abcdef".to_vec());
    assert_eq!(r.read_next(2), b"ab".to_vec());
    assert_eq!(r.read_next(3), b"cde".to_vec());
    assert_eq!(r.read_next(10), b"f".to_vec());
    assert_eq!(r.read_next(10), Vec::<u8>::new());
    assert_eq!(r.into_data(), b"abcdef".to_vec());
}

#[test]
fn byte_helpers() {
    assert!(bytes_eq(b"same", b"same"));
    assert!(!bytes_eq(b"same", b"Same"));
    assert!(!bytes_eq(b"same", b"sam"));
    assert!(bytes_eq(b"", b""));
    let c = copy_bytes(b"dup");
    assert_eq!(c, b"dup".to_vec());
}
