use qrfs::disk::{Disk, INODE_FOOTPRINT};
use qrfs::fs::QrFS;
use qrfs::inode::{FileKind, Timespec};
use qrfs::FsError;

fn name(s: &str) -> Vec<char> {
    s.chars().collect()
}

fn now() -> Timespec {
    Timespec { sec: 1_700_000_000, nsec: 42 }
}

fn fresh() -> QrFS {
    QrFS::new(String::from("mnt"), now())
}

/// A tiny arena: three inode slots (the allocator scans two), seven blocks.
fn tiny() -> QrFS {
    let block_size = 3 * INODE_FOOTPRINT;
    let disk = Disk::new(String::from("mnt"), 8 * block_size, block_size, now());
    QrFS { disk }
}

#[test]
fn errno_values() {
    assert_eq!(FsError::NoEntry.errno(), 2);
    assert_eq!(FsError::InputOutput.errno(), 5);
    assert_eq!(FsError::IsDirectory.errno(), 21);
    assert_eq!(FsError::NoSpace.errno(), 28);
    assert_eq!(FsError::NotImplemented.errno(), 38);
}

#[test]
fn fresh_mount_readdir_lists_dots() {
    let fs = fresh();
    let entries = fs.readdir(1, 0, 0).unwrap();
    assert_eq!(entries.len(), 2);
    assert_eq!(entries[0].ino, 1);
    assert_eq!(entries[0].name, name("."));
    assert_eq!(entries[0].kind, FileKind::Directory);
    assert_eq!(entries[1].ino, 1);
    assert_eq!(entries[1].name, name(".."));
    assert_eq!(entries[1].kind, FileKind::Directory);
}

#[test]
fn readdir_nonzero_offset_is_empty() {
    let fs = fresh();
    let entries = fs.readdir(1, 0, 2).unwrap();
    assert_eq!(entries.len(), 0);
}

#[test]
fn mkdir_then_lookup() {
    let mut fs = fresh();
    let attr = fs.mkdir(1, &name("a"), 0o755, now()).unwrap();
    assert_eq!(attr.ino, 2);
    assert_eq!(attr.kind, FileKind::Directory);
    let found = fs.lookup(1, &name("a")).unwrap();
    assert_eq!(found.ino, 2);
    assert_eq!(found.kind, FileKind::Directory);
}

#[test]
fn create_write_read_getattr() {
    let mut fs = fresh();
    fs.mkdir(1, &name("a"), 0o755, now()).unwrap();
    let (attr, fh) = fs.create(1, &name("f"), 0o755, 0, now()).unwrap();
    assert_eq!(attr.ino, 3);
    assert_eq!(fh, 3);
    assert_eq!(attr.kind, FileKind::RegularFile);
    assert_eq!(attr.size, 0);
    let written = fs.write(3, 3, 0, vec![0x68, 0x69], 0).unwrap();
    assert_eq!(written, 2);
    assert_eq!(fs.read(3, 3, 0, 10).unwrap().as_slice(), &[0x68, 0x69]);
    assert_eq!(fs.getattr(3).unwrap().size, 2);
}

#[test]
fn create_without_mkdir_takes_lowest_ino() {
    let mut fs = fresh();
    let (attr, _) = fs.create(1, &name("f"), 0o755, 0, now()).unwrap();
    assert_eq!(attr.ino, 2);
}

#[test]
fn create_unlink_create_reuses_slot() {
    let mut fs = fresh();
    let (attr, _) = fs.create(1, &name("f"), 0o755, 0, now()).unwrap();
    assert_eq!(attr.ino, 2);
    fs.unlink(1, &name("f")).unwrap();
    let (attr2, _) = fs.create(1, &name("g"), 0o755, 0, now()).unwrap();
    assert_eq!(attr2.ino, 2);
}

#[test]
fn create_inside_subdirectory() {
    let mut fs = fresh();
    let dir = fs.mkdir(1, &name("d"), 0o755, now()).unwrap();
    let parent = fs.lookup(1, &name("d")).unwrap().ino;
    assert_eq!(parent, dir.ino);
    let (attr, _) = fs.create(parent, &name("x"), 0o755, 0, now()).unwrap();
    assert_eq!(attr.ino, 3);
    let found = fs.lookup(parent, &name("x")).unwrap();
    assert_eq!(found.ino, 3);
    assert_eq!(found.kind, FileKind::RegularFile);
    // The child is listed under `d`, not under the root.
    assert!(fs.lookup(1, &name("x")).is_err());
}

#[test]
fn full_reference_array_replies_eio() {
    let mut fs = fresh();
    for i in 0..128 {
        let n: Vec<char> = format!("f{}", i).chars().collect();
        fs.create(1, &n, 0o755, 0, now()).unwrap();
    }
    let err = fs.create(1, &name("overflow"), 0o755, 0, now()).unwrap_err();
    assert_eq!(err, FsError::InputOutput);
    assert_eq!(err.errno(), 5);
}

#[test]
fn no_inode_slot_replies_enospc() {
    let mut fs = tiny();
    // Slots: root at 1; the scan covers slots 1 and 2 of 3, minus the last.
    fs.create(1, &name("a"), 0o755, 0, now()).unwrap();
    let err = fs.create(1, &name("b"), 0o755, 0, now()).unwrap_err();
    assert_eq!(err, FsError::NoSpace);
    assert_eq!(err.errno(), 28);
}

#[test]
fn mkdir_no_inode_slot_replies_enospc() {
    let mut fs = tiny();
    fs.mkdir(1, &name("a"), 0o755, now()).unwrap();
    let err = fs.mkdir(1, &name("b"), 0o755, now()).unwrap_err();
    assert_eq!(err, FsError::NoSpace);
}

#[test]
fn unlink_directory_replies_eisdir() {
    let mut fs = fresh();
    fs.mkdir(1, &name("d"), 0o755, now()).unwrap();
    let err = fs.unlink(1, &name("d")).unwrap_err();
    assert_eq!(err, FsError::IsDirectory);
    assert_eq!(err.errno(), 21);
    // The directory is still there.
    assert!(fs.lookup(1, &name("d")).is_ok());
}

#[test]
fn unlink_missing_replies_eio() {
    let mut fs = fresh();
    let err = fs.unlink(1, &name("ghost")).unwrap_err();
    assert_eq!(err, FsError::InputOutput);
}

#[test]
fn rmdir_missing_replies_eio() {
    let mut fs = fresh();
    let err = fs.rmdir(1, &name("ghost")).unwrap_err();
    assert_eq!(err, FsError::InputOutput);
}

#[test]
fn lookup_missing_replies_enoent() {
    let fs = fresh();
    let err = fs.lookup(1, &name("nope")).unwrap_err();
    assert_eq!(err, FsError::NoEntry);
    assert_eq!(err.errno(), 2);
}

#[test]
fn readdir_dots_come_before_children() {
    let mut fs = fresh();
    fs.mkdir(1, &name("a"), 0o755, now()).unwrap();
    fs.create(1, &name("b"), 0o755, 0, now()).unwrap();
    let entries = fs.readdir(1, 0, 0).unwrap();
    assert_eq!(entries.len(), 4);
    assert_eq!(entries[0].name, name("."));
    assert_eq!(entries[1].name, name(".."));
    assert_eq!(entries[2].name, name("a"));
    assert_eq!(entries[2].ino, 2);
    assert_eq!(entries[2].kind, FileKind::Directory);
    assert_eq!(entries[3].name, name("b"));
    assert_eq!(entries[3].ino, 3);
    assert_eq!(entries[3].kind, FileKind::RegularFile);
    // Offsets are a strictly increasing cursor.
    for (k, e) in entries.iter().enumerate() {
        assert_eq!(e.offset, k as i64 + 1);
    }
}

#[test]
fn readdir_missing_replies_enoent() {
    let fs = fresh();
    assert_eq!(fs.readdir(9, 0, 0).unwrap_err(), FsError::NoEntry);
}

#[test]
fn getattr_missing_replies_enoent() {
    let fs = fresh();
    assert_eq!(fs.getattr(7).unwrap_err(), FsError::NoEntry);
}

#[test]
fn open_existing_and_missing() {
    let mut fs = fresh();
    fs.create(1, &name("f"), 0o755, 0, now()).unwrap();
    assert_eq!(fs.open(2, 0x8000).unwrap(), (2, 0x8000));
    assert_eq!(fs.open(5, 0).unwrap_err(), FsError::NotImplemented);
}

#[test]
fn fsync_replies_enosys() {
    let fs = fresh();
    let err = fs.fsync(1, 0, true).unwrap_err();
    assert_eq!(err, FsError::NotImplemented);
    assert_eq!(err.errno(), 38);
}

#[test]
fn read_of_directory_replies_eio() {
    let fs = fresh();
    assert_eq!(fs.read(1, 0, 0, 0).unwrap_err(), FsError::InputOutput);
}

#[test]
fn write_replaces_whole_content() {
    let mut fs = fresh();
    fs.create(1, &name("f"), 0o755, 0, now()).unwrap();
    fs.write(2, 2, 0, vec![1, 2, 3, 4], 0).unwrap();
    // A later write at a non-zero offset still replaces everything.
    fs.write(2, 2, 3, vec![9], 0).unwrap();
    assert_eq!(fs.read(2, 2, 0, 100).unwrap().as_slice(), &[9]);
    assert_eq!(fs.getattr(2).unwrap().size, 1);
}

#[test]
fn write_missing_replies_enoent() {
    let mut fs = fresh();
    assert_eq!(fs.write(4, 4, 0, vec![1], 0).unwrap_err(), FsError::NoEntry);
}

#[test]
fn setattr_updates_only_given_fields() {
    let mut fs = fresh();
    let (attr, _) = fs.create(1, &name("f"), 0o755, 0, now()).unwrap();
    let later = Timespec { sec: 1_800_000_000, nsec: 0 };
    let updated = fs
        .setattr(
            2,
            Some(0o600),
            Some(1000),
            Some(1000),
            Some(77),
            Some(later),
            None,
            None,
            None,
            None,
            None,
            Some(4),
        )
        .unwrap();
    assert_eq!(updated.size, 77);
    assert_eq!(updated.uid, 1000);
    assert_eq!(updated.gid, 1000);
    assert_eq!(updated.atime, later);
    assert_eq!(updated.flags, 4);
    // Untouched fields keep their old values; mode is accepted but ignored.
    assert_eq!(updated.mtime, attr.mtime);
    assert_eq!(updated.perm, attr.perm);
    assert_eq!(updated.kind, FileKind::RegularFile);
    assert_eq!(fs.getattr(2).unwrap().size, 77);
}

#[test]
fn setattr_missing_replies_enoent() {
    let mut fs = fresh();
    let err = fs
        .setattr(9, None, None, None, None, None, None, None, None, None, None, None)
        .unwrap_err();
    assert_eq!(err, FsError::NoEntry);
}

#[test]
fn root_attributes() {
    let fs = fresh();
    let root = fs.getattr(1).unwrap();
    assert_eq!(root.ino, 1);
    assert_eq!(root.kind, FileKind::Directory);
    assert_eq!(root.perm, 0o755);
}

#[test]
fn find_allocators_first_fit() {
    let fs = fresh();
    assert_eq!(fs.disk.find_ino_available(), Some(2));
    assert_eq!(fs.disk.find_index_of_empty_memory_block(), Some(0));
    assert_eq!(fs.disk.find_index_of_empty_reference_in_inode(1), Some(0));
}

#[test]
fn rmdir_orphans_children() {
    let mut fs = fresh();
    let d = fs.mkdir(1, &name("d"), 0o755, now()).unwrap();
    fs.create(d.ino, &name("x"), 0o755, 0, now()).unwrap();
    fs.rmdir(1, &name("d")).unwrap();
    // The directory itself is gone; its child inode remains, unreferenced.
    assert!(fs.lookup(1, &name("d")).is_err());
    assert!(fs.getattr(3).is_ok());
}

#[test]
fn write_empty_content() {
    let mut fs = fresh();
    fs.create(1, &name("f"), 0o755, 0, now()).unwrap();
    fs.write(2, 2, 0, vec![1, 2, 3], 0).unwrap();
    let written = fs.write(2, 2, 0, vec![], 0).unwrap();
    assert_eq!(written, 0);
    assert_eq!(fs.read(2, 2, 0, 0).unwrap().len(), 0);
    assert_eq!(fs.getattr(2).unwrap().size, 0);
}

#[test]
fn write_block_sized_content() {
    let mut fs = tiny();
    fs.create(1, &name("big"), 0o755, 0, now()).unwrap();
    let data = vec![0xabu8; fs.disk.block_size];
    let written = fs.write(2, 2, 0, data.clone(), 0).unwrap();
    assert_eq!(written as usize, fs.disk.block_size);
    assert_eq!(fs.read(2, 2, 0, 0).unwrap(), &data);
}

#[test]
fn widest_name_fits() {
    let mut fs = fresh();
    let long: Vec<char> = std::iter::repeat('x').take(64).collect();
    let (attr, _) = fs.create(1, &long, 0o755, 0, now()).unwrap();
    assert_eq!(fs.lookup(1, &long).unwrap().ino, attr.ino);
    let entries = fs.readdir(1, 0, 0).unwrap();
    assert_eq!(entries[2].name, long);
}

#[test]
fn similar_names_stay_distinct() {
    let mut fs = fresh();
    fs.create(1, &name("a"), 0o755, 0, now()).unwrap();
    fs.create(1, &name("ab"), 0o755, 0, now()).unwrap();
    fs.create(1, &name("ba"), 0o755, 0, now()).unwrap();
    assert_eq!(fs.lookup(1, &name("a")).unwrap().ino, 2);
    assert_eq!(fs.lookup(1, &name("ab")).unwrap().ino, 3);
    assert_eq!(fs.lookup(1, &name("ba")).unwrap().ino, 4);
    assert!(fs.lookup(1, &name("b")).is_err());
}
