use dbfs2::error::DbfsError;
use dbfs2::layout::{
    decode_superblock, dir_bucket_name, encode_superblock, from_be32, from_be64, inode_key,
    to_be32, to_be64, unwrap_record, wrap_record, INODES_BUCKET, KEY_BLOCK_SIZE,
    KEY_CONTINUE_NUMBER, KEY_DISK_SIZE, KEY_MAGIC, RECORD_VERSION, SUPER_BLOCK_BUCKET,
};
use dbfs2::fstype::DbfsFsType;
use dbfs2::log_manager::{whole_transfer, BlockDevice, LogManager};
use dbfs2::models::{DbfsTimeSpec, Extent, InodeMetadata};
use dbfs2::tx_engine::record_write;
use dbfs2::wal::frame_bytes;
use dbfs2::mem::{MemStorage, RamDisk};
use dbfs2::models::{
    file_type_of, mode_is_dir, mode_is_symlink, mode_of, DbfsFileType, NAME_MAX, ROOT_INO,
};
use dbfs2::names::{name_order, NameOrder};
use dbfs2::store::{MetaStore, SuperBlockRecord};
use dbfs2::wal::{WalStorage, WriteAheadLog};
use dbfs2::operation::TransactionOperation;

#[test]
fn numbers_are_stored_big_endian() {
    assert_eq!(to_be64(0x0102_0304_0506_0708), vec![1, 2, 3, 4, 5, 6, 7, 8]);
    assert_eq!(to_be32(0x4442_4653), b"DBFS".to_vec());
    assert_eq!(from_be64(&[0, 0, 0, 0, 0, 0, 1, 2]), Some(258));
    assert_eq!(from_be32(&[0, 0, 1, 0]), Some(256));
    assert_eq!(from_be64(&[1, 2, 3]), None);
    assert_eq!(from_be32(&[1, 2, 3, 4, 5]), None);
    assert_eq!(inode_key(1), vec![0, 0, 0, 0, 0, 0, 0, 1]);
    assert_eq!(from_be64(&inode_key(u64::MAX)), Some(u64::MAX));
}

#[test]
fn bucket_names_and_keys() {
    assert_eq!(dir_bucket_name(1), b"dir_1".to_vec());
    assert_eq!(dir_bucket_name(0), b"dir_0".to_vec());
    assert_eq!(dir_bucket_name(1234567890), b"dir_1234567890".to_vec());
    assert_eq!(dir_bucket_name(u64::MAX), b"dir_18446744073709551615".to_vec());
    assert_eq!((INODES_BUCKET, SUPER_BLOCK_BUCKET), ("inodes", "super_blk"));
    assert_eq!(
        (KEY_MAGIC, KEY_BLOCK_SIZE, KEY_DISK_SIZE, KEY_CONTINUE_NUMBER),
        ("magic", "blk_size", "disk_size", "continue_number")
    );
    assert_eq!((ROOT_INO, NAME_MAX), (1, 255));
}

#[test]
fn superblock_fields_round_trip() {
    let sb = SuperBlockRecord { magic: 0x4442_4653, block_size: 4096, disk_size: 1 << 26, continue_number: 17 };
    let fields = encode_superblock(sb);
    assert_eq!(fields.magic, b"DBFS".to_vec());
    assert_eq!(fields.block_size, vec![0, 0, 0x10, 0]);
    assert_eq!(fields.disk_size, vec![0, 0, 0, 0, 4, 0, 0, 0]);
    assert_eq!(fields.continue_number, vec![0, 0, 0, 0, 0, 0, 0, 17]);
    assert_eq!(decode_superblock(&fields), Some(sb));
    let mut short = encode_superblock(sb);
    short.disk_size.pop();
    assert_eq!(decode_superblock(&short), None);
}

#[test]
fn records_carry_their_version() {
    assert_eq!(RECORD_VERSION, 1);
    assert_eq!(wrap_record(b"{}"), vec![1, b'{', b'}']);
    assert_eq!(unwrap_record(&[1, 9, 8]), Some(vec![9, 8]));
    assert_eq!(unwrap_record(&[1]), Some(vec![]));
    assert_eq!(unwrap_record(&[2, 9, 8]), None);
    assert_eq!(unwrap_record(&[]), None);
}

#[test]
fn modes_and_types() {
    assert_eq!(mode_of(DbfsFileType::File, 0o644), 0o100644);
    assert_eq!(mode_of(DbfsFileType::Dir, 0o755), 0o040755);
    assert_eq!(mode_of(DbfsFileType::Symlink, 0o777), 0o120777);
    assert_eq!(mode_of(DbfsFileType::CharDevice, 0), 0o020000);
    assert_eq!(mode_of(DbfsFileType::BlockDevice, 0o170000), 0o060000);
    assert_eq!(mode_of(DbfsFileType::Fifo, 0o7777), 0o017777);
    assert_eq!(mode_of(DbfsFileType::Socket, 1), 0o140001);
    for ty in [
        DbfsFileType::File,
        DbfsFileType::Dir,
        DbfsFileType::Symlink,
        DbfsFileType::CharDevice,
        DbfsFileType::BlockDevice,
        DbfsFileType::Fifo,
        DbfsFileType::Socket,
    ] {
        assert_eq!(file_type_of(mode_of(ty, 0o640)), ty);
    }
    assert_eq!(file_type_of(0o644), DbfsFileType::File);
    assert!(mode_is_dir(0o040000) && !mode_is_dir(0o100000));
    assert!(mode_is_symlink(0o120777) && !mode_is_symlink(0o040777));
}

#[test]
fn names_compare_in_byte_order() {
    assert_eq!(name_order(b"a", b"b"), NameOrder::Less);
    assert_eq!(name_order(b"b", b"a"), NameOrder::Greater);
    assert_eq!(name_order(b"ab", b"ab"), NameOrder::Equal);
    assert_eq!(name_order(b"ab", b"abc"), NameOrder::Less);
    assert_eq!(name_order(b"", b"\0"), NameOrder::Less);
    assert_eq!(name_order(b"Z", b"a"), NameOrder::Less);
    assert_eq!(name_order(&[0xFF], b"a"), NameOrder::Greater);
    assert_eq!(name_order(b"", b""), NameOrder::Equal);
}

#[test]
fn ram_disk_reads_and_writes_within_its_size() {
    let mut disk = RamDisk::new(8);
    assert_eq!(disk.size(), 8);
    assert_eq!(disk.write_at(6, b"abcd"), Ok(2));
    assert_eq!(disk.write_at(8, b"x"), Ok(0));
    assert_eq!(disk.bytes(), &vec![0, 0, 0, 0, 0, 0, b'a', b'b']);
    let mut buf = [9u8; 4];
    assert_eq!(disk.read_at(5, &mut buf), Ok(3));
    assert_eq!(buf, [0, b'a', b'b', 9]);
    assert_eq!(disk.read_at(9, &mut buf), Ok(0));
    assert_eq!(disk.flush(), Ok(()));

    let mut log = LogManager::new(RamDisk::from_bytes(vec![1u8; 6]), 2);
    assert_eq!(log.capacity(), 6);
    assert_eq!(log.append_data(b"xyz"), Ok(2));
    assert_eq!(log.append_data(b"xy"), Err(DbfsError::IoError));
    assert_eq!(log.append_data(b"w"), Ok(5));
    assert_eq!(log.append_data(b""), Ok(6));
    let mut buf = [0u8; 4];
    assert_eq!(log.read_data(2, &mut buf), Ok(4));
    assert_eq!(&buf, b"xyzw");
    assert_eq!(log.read_data(3, &mut buf), Err(DbfsError::IoError));
}

#[test]
fn mem_storage_grows_and_is_cut_back() {
    let mut storage = MemStorage::new();
    assert_eq!(storage.write(2, b"ab"), Ok(()));
    assert_eq!(storage.bytes(), &vec![0, 0, b'a', b'b']);
    assert_eq!(storage.write(1, b"xy"), Ok(()));
    assert_eq!(storage.bytes(), &vec![0, b'x', b'y', b'b']);
    let mut buf = [0u8; 2];
    assert_eq!(storage.read(2, &mut buf), Ok(()));
    assert_eq!(&buf, b"yb");
    assert_eq!(storage.read(3, &mut buf), Err(DbfsError::IoError));
    assert_eq!(buf, *b"yb");
    assert_eq!(storage.truncate(5), Err(DbfsError::IoError));
    assert_eq!(storage.truncate(1), Ok(()));
    assert_eq!(storage.bytes(), &vec![0]);
    assert_eq!(storage.flush(), Ok(()));

    let mut wal = WriteAheadLog::new();
    wal.set_storage(MemStorage::from_bytes(vec![0u8; 3]));
    assert_eq!(wal.recover().unwrap().len(), 0);
    assert_eq!(wal.append(1, TransactionOperation::Truncate { ino: 2, length: 3 }), Ok(()));
    assert_eq!(wal.recover().unwrap().len(), 1);
    wal.clear_txn(1);
    assert_eq!(wal.recover().unwrap().len(), 0);
}

#[test]
fn store_keeps_directories_in_order() {
    let mut store = MetaStore::new();
    assert_eq!(store.superblock(), None);
    store.dir_put(4, b"b", 10);
    store.dir_put(4, b"a", 11);
    store.dir_put(4, b"b", 12);
    assert_eq!(store.dir_len(4), Some(2));
    assert_eq!(store.dir_len(5), None);
    assert_eq!(store.dir_get(4, b"b"), Some(12));
    assert_eq!(store.dir_nth(4, 0).map(|e| (e.name, e.ino)), Some((b"a".to_vec(), 11)));
    assert!(store.dir_nth(4, 2).is_none());
    assert_eq!(store.dir_remove(4, b"a"), Some(11));
    assert_eq!(store.dir_remove(4, b"a"), None);
    assert_eq!(store.dir_remove(9, b"a"), None);
    assert!(store.has_dir(4) && !store.has_dir(9));
    assert!(store.dir_delete(4) && !store.dir_delete(4));
    assert_eq!(store.max_ino(), 0);
    assert_eq!(store.inode_count(), 0);
    assert_eq!(store.log_end(100), Some(100));
    assert!(store.extents_within(0));
    assert!(!store.remove_inode(3));
}

#[test]
fn outside_results_are_judged() {
    assert_eq!(whole_transfer(Ok(4), 4), Ok(4));
    assert_eq!(whole_transfer(Ok(3), 4), Err(DbfsError::IoError));
    assert_eq!(whole_transfer(Ok(5), 4), Err(DbfsError::IoError));
    assert_eq!(whole_transfer(Err(DbfsError::NoSys), 4), Err(DbfsError::IoError));
    assert_eq!(whole_transfer(Ok(0), 0), Ok(0));

    assert_eq!(frame_bytes(b"abc"), vec![3, 0, 0, 0, b'a', b'b', b'c']);
    assert_eq!(frame_bytes(&[7u8; 258])[..4], [2, 1, 0, 0]);

    let zero = DbfsTimeSpec { sec: 0, nsec: 0 };
    let later = DbfsTimeSpec { sec: 9, nsec: 1 };
    let mut meta = InodeMetadata {
        ino: 2,
        size: 10,
        mode: 0o100644,
        nlink: 1,
        uid: 0,
        gid: 0,
        atime: zero,
        mtime: zero,
        ctime: zero,
        extents: Vec::new(),
        symlink_target: Vec::new(),
    };
    let inside = Extent { logical_off: 2, physical_ptr: 100, len: 4, crc: 5 };
    record_write(&mut meta, inside, later);
    assert_eq!((meta.size, meta.mtime, meta.ctime), (10, later, zero));
    let beyond = Extent { logical_off: 8, physical_ptr: 104, len: 4, crc: 6 };
    record_write(&mut meta, beyond, later);
    assert_eq!(meta.size, 12);
    assert_eq!(meta.extents, vec![inside, beyond]);
}

#[test]
fn mount_without_device_is_refused() {
    let fs = DbfsFsType::new("dbfs.db".to_string());
    let now = DbfsTimeSpec { sec: 1, nsec: 2 };
    let none = fs.mount_device(None::<RamDisk>, MetaStore::new(), None::<MemStorage>, now);
    assert!(matches!(none, Err(DbfsError::Invalid)));
    let mut ctx = fs
        .mount_device(Some(RamDisk::new(33 << 20)), MetaStore::new(), Some(MemStorage::new()), now)
        .unwrap();
    let ino = ctx.create(1, b"f", DbfsFileType::File, 0, 0, 0o644, now).unwrap();
    assert_eq!(ctx.write_at(ino, 0, b"Hello, DBFS!", now), Ok(12));
    let mut buf = [0u8; 32];
    assert_eq!(ctx.read_at(ino, 0, &mut buf), Ok(12));
    assert_eq!(&buf[..12], b"Hello, DBFS!");
}
