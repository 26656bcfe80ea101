use qrfs::codec::{decode_memory_blocks, decode_super_block, encode_memory_blocks, encode_super_block};
use qrfs::disk::Disk;
use qrfs::fs::QrFS;
use qrfs::inode::Timespec;

fn name(s: &str) -> Vec<char> {
    s.chars().collect()
}

fn now() -> Timespec {
    Timespec { sec: 1_700_000_000, nsec: 42 }
}

fn populated() -> QrFS {
    let mut fs = QrFS::new(String::from("mnt"), now());
    fs.mkdir(1, &name("docs"), 0o755, now()).unwrap();
    fs.create(1, &name("hello.txt"), 0o755, 0, now()).unwrap();
    fs.write(3, 3, 0, b"hello world".to_vec(), 0).unwrap();
    fs.create(2, &name("inner"), 0o755, 0, now()).unwrap();
    fs.write(4, 4, 0, vec![0, 1, 2, 254, 255], 0).unwrap();
    fs
}

#[test]
fn create_unlink_restores_snapshot_bytes() {
    let mut fs = populated();
    let (inodes_before, blocks_before) = fs.disk.write_to_disk();
    fs.create(1, &name("temp"), 0o755, 0, now()).unwrap();
    fs.unlink(1, &name("temp")).unwrap();
    let (inodes_after, blocks_after) = fs.disk.write_to_disk();
    assert_eq!(inodes_before, inodes_after);
    assert_eq!(blocks_before, blocks_after);
}

#[test]
fn mkdir_rmdir_restores_snapshot_bytes() {
    let mut fs = populated();
    let (inodes_before, blocks_before) = fs.disk.write_to_disk();
    fs.mkdir(1, &name("temp"), 0o755, now()).unwrap();
    fs.rmdir(1, &name("temp")).unwrap();
    let (inodes_after, blocks_after) = fs.disk.write_to_disk();
    assert_eq!(inodes_before, inodes_after);
    assert_eq!(blocks_before, blocks_after);
}

#[test]
fn serialize_deserialize_serialize_is_byte_identical() {
    let fs = populated();
    let (inode_stream, block_stream) = fs.disk.write_to_disk();
    let decoded_sb = decode_super_block(&inode_stream).unwrap();
    let decoded_mb = decode_memory_blocks(&block_stream).unwrap();
    let inode_stream2 = encode_super_block(&decoded_sb);
    let block_stream2 = encode_memory_blocks(&decoded_mb);
    assert_eq!(inode_stream, inode_stream2);
    assert_eq!(block_stream, block_stream2);
}

#[test]
fn remount_preserves_observable_state() {
    let fs = populated();
    let (inode_stream, block_stream) = fs.disk.write_to_disk();
    let decoded_sb = decode_super_block(&inode_stream).unwrap();
    let decoded_mb = decode_memory_blocks(&block_stream).unwrap();
    let disk2 = Disk::from_snapshot(
        String::from("mnt"),
        1024 * 1024 * 1024,
        fs.disk.block_size,
        decoded_sb,
        decoded_mb,
    )
    .unwrap();
    let fs2 = QrFS { disk: disk2 };

    // Directory contents are preserved.
    let listing1 = fs.readdir(1, 0, 0).unwrap();
    let listing2 = fs2.readdir(1, 0, 0).unwrap();
    assert_eq!(listing1.len(), listing2.len());
    for (a, b) in listing1.iter().zip(listing2.iter()) {
        assert_eq!(a.ino, b.ino);
        assert_eq!(a.name, b.name);
        assert_eq!(a.kind, b.kind);
    }
    // File bytes and attributes are preserved.
    assert_eq!(fs.read(3, 3, 0, 0).unwrap(), fs2.read(3, 3, 0, 0).unwrap());
    assert_eq!(fs.read(4, 4, 0, 0).unwrap(), fs2.read(4, 4, 0, 0).unwrap());
    for ino in 1..=4u64 {
        let a = fs.getattr(ino).unwrap();
        let b = fs2.getattr(ino).unwrap();
        assert_eq!(a, b);
    }
    // The re-mounted arena still resolves names.
    assert_eq!(fs2.lookup(1, &name("hello.txt")).unwrap().ino, 3);
    assert_eq!(fs2.lookup(2, &name("inner")).unwrap().ino, 4);
}

#[test]
fn shrunk_arena_is_refused() {
    let fs = populated();
    let (inode_stream, block_stream) = fs.disk.write_to_disk();
    let decoded_sb = decode_super_block(&inode_stream).unwrap();
    let decoded_mb = decode_memory_blocks(&block_stream).unwrap();
    // A target arena with fewer blocks than the snapshot carries.
    let r = Disk::from_snapshot(
        String::from("mnt"),
        2 * fs.disk.block_size,
        fs.disk.block_size,
        decoded_sb,
        decoded_mb,
    );
    assert!(r.is_none());
}

#[test]
fn decode_rejects_truncated_stream() {
    let fs = populated();
    let (inode_stream, block_stream) = fs.disk.write_to_disk();
    let mut cut = inode_stream.clone();
    cut.pop();
    assert!(decode_super_block(&cut).is_none());
    let mut cut2 = block_stream.clone();
    cut2.pop();
    assert!(decode_memory_blocks(&cut2).is_none());
}

#[test]
fn decode_rejects_trailing_garbage() {
    let fs = populated();
    let (inode_stream, _) = fs.disk.write_to_disk();
    let mut long = inode_stream.clone();
    long.push(0);
    assert!(decode_super_block(&long).is_none());
}

#[test]
fn fresh_disk_streams_are_self_describing() {
    let disk = Disk::new(
        String::from("mnt"),
        8 * 3 * qrfs::disk::INODE_FOOTPRINT,
        3 * qrfs::disk::INODE_FOOTPRINT,
        now(),
    );
    let (inode_stream, block_stream) = disk.write_to_disk();
    // Length prefixes: 3 inode slots, 7 blocks.
    assert_eq!(&inode_stream[0..8], &[3, 0, 0, 0, 0, 0, 0, 0]);
    assert_eq!(&block_stream[0..8], &[7, 0, 0, 0, 0, 0, 0, 0]);
    // Root present, every other slot and every block empty.
    assert_eq!(inode_stream.len(), 8 + (1 + qrfs::disk::INODE_FOOTPRINT) + 1 + 1);
    assert_eq!(block_stream.len(), 8 + 7);
    let decoded = decode_super_block(&inode_stream).unwrap();
    assert_eq!(decoded.len(), 3);
    assert!(decoded[0].is_some());
    assert!(decoded[1].is_none());
    assert!(decoded[2].is_none());
}

#[test]
fn unicode_names_survive_remount() {
    let mut fs = QrFS::new(String::from("mnt"), now());
    let exotic = name("caf\u{e9}-\u{2713}-\u{1f4c1}");
    fs.mkdir(1, &exotic, 0o755, now()).unwrap();
    let (inode_stream, block_stream) = fs.disk.write_to_disk();
    let decoded_sb = decode_super_block(&inode_stream).unwrap();
    let decoded_mb = decode_memory_blocks(&block_stream).unwrap();
    let disk2 = Disk::from_snapshot(
        String::from("mnt"),
        1024 * 1024 * 1024,
        fs.disk.block_size,
        decoded_sb,
        decoded_mb,
    )
    .unwrap();
    let fs2 = QrFS { disk: disk2 };
    assert_eq!(fs2.lookup(1, &exotic).unwrap().ino, 2);
    assert_eq!(fs2.readdir(1, 0, 0).unwrap()[2].name, exotic);
}
