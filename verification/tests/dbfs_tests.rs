use std::sync::{Arc, Mutex};

use dbfs2::error::{DbfsError, DbfsResult};
use dbfs2::fs::{
    dbfs_create, dbfs_get_attr, dbfs_link, dbfs_lookup, dbfs_read, dbfs_readdir, dbfs_readlink,
    dbfs_remove, dbfs_rename, dbfs_rmdir, dbfs_set_attr, dbfs_symlink, dbfs_truncate, dbfs_unlink,
    dbfs_write, DbfsSetAttr,
};
use dbfs2::fs_common::{
    dbfs_common_root_inode, dbfs_common_statfs, dbfs_common_umount, dbfs_statfs,
};
use dbfs2::fstype::{DbfsFsType, DummyFsType, FsContext, DB_RESERVED_SIZE};
use dbfs2::log_manager::{BlockDevice, LogManager};
use dbfs2::models::{DbfsFileType, DbfsTimeSpec, Extent, InodeMetadata};
use dbfs2::operation::TransactionOperation;
use dbfs2::store::{MetaStore, SuperBlockRecord, DBFS_MAGIC};
use dbfs2::transaction::{Transaction, TransactionManager};
use dbfs2::tx_engine::TransactionEngine;
use dbfs2::wal::{decode_entry, encode_entry, WalStorage, WriteAheadLog};

const MIB: usize = 1024 * 1024;

fn now() -> DbfsTimeSpec {
    DbfsTimeSpec { sec: 1_700_000_000, nsec: 7 }
}

struct RamDisk {
    data: Vec<u8>,
    fail_flush: Arc<Mutex<bool>>,
}

impl RamDisk {
    fn new(size: usize) -> Self {
        Self { data: vec![0u8; size], fail_flush: Arc::new(Mutex::new(false)) }
    }
}

impl BlockDevice for RamDisk {
    fn read_at(&self, pos: u64, buf: &mut [u8]) -> DbfsResult<usize> {
        let pos = pos as usize;
        if pos >= self.data.len() {
            return Ok(0);
        }
        let end = core::cmp::min(pos + buf.len(), self.data.len());
        let len = end - pos;
        buf[..len].copy_from_slice(&self.data[pos..end]);
        Ok(len)
    }

    fn write_at(&mut self, pos: u64, buf: &[u8]) -> DbfsResult<usize> {
        let pos = pos as usize;
        if pos >= self.data.len() {
            return Ok(0);
        }
        let end = core::cmp::min(pos + buf.len(), self.data.len());
        let len = end - pos;
        self.data[pos..end].copy_from_slice(&buf[..len]);
        Ok(len)
    }

    fn size(&self) -> u64 {
        self.data.len() as u64
    }

    fn flush(&mut self) -> DbfsResult<()> {
        if *self.fail_flush.lock().unwrap() {
            Err(DbfsError::IoError)
        } else {
            Ok(())
        }
    }
}

#[derive(Clone)]
struct MockStorage {
    data: Arc<Mutex<Vec<u8>>>,
    written: Arc<Mutex<usize>>,
}

impl MockStorage {
    fn new() -> Self {
        Self { data: Arc::new(Mutex::new(Vec::new())), written: Arc::new(Mutex::new(0)) }
    }
}

impl WalStorage for MockStorage {
    fn write(&mut self, offset: u64, data: &[u8]) -> DbfsResult<()> {
        let mut storage = self.data.lock().unwrap();
        let end = offset as usize + data.len();
        if end > storage.len() {
            storage.resize(end, 0);
        }
        storage[offset as usize..end].copy_from_slice(data);
        *self.written.lock().unwrap() += data.len();
        Ok(())
    }

    fn read(&self, offset: u64, buf: &mut [u8]) -> DbfsResult<()> {
        let storage = self.data.lock().unwrap();
        if offset as usize + buf.len() > storage.len() {
            return Err(DbfsError::IoError);
        }
        buf.copy_from_slice(&storage[offset as usize..offset as usize + buf.len()]);
        Ok(())
    }

    fn truncate(&mut self, length: u64) -> DbfsResult<()> {
        let mut storage = self.data.lock().unwrap();
        storage.truncate(length as usize);
        Ok(())
    }

    fn flush(&mut self) -> DbfsResult<()> {
        Ok(())
    }
}

fn mount_fresh(size: usize) -> FsContext<RamDisk, MockStorage> {
    DbfsFsType::new("dbfs.db".to_string())
        .mount(RamDisk::new(size), MetaStore::new(), None, now())
        .expect("Mount failed")
}

fn file_record(ino: u64) -> InodeMetadata {
    InodeMetadata {
        ino,
        size: 0,
        mode: 0o100644,
        nlink: 1,
        uid: 0,
        gid: 0,
        atime: now(),
        mtime: now(),
        ctime: now(),
        extents: Vec::new(),
        symlink_target: Vec::new(),
    }
}

fn engine_with_file(ino: u64) -> TransactionEngine<RamDisk> {
    let mut engine = TransactionEngine::new(MetaStore::new(), LogManager::new(RamDisk::new(4096), 0));
    engine.insert_metadata(&file_record(ino)).expect("insert failed");
    engine
}

fn list_names(engine: &TransactionEngine<RamDisk>, ino: u64) -> Vec<Vec<u8>> {
    let mut names = Vec::new();
    let mut idx = 0;
    while let Some(entry) = dbfs_readdir(engine, ino, idx).expect("Readdir failed") {
        names.push(entry.name);
        idx += 1;
    }
    names
}

#[test]
fn test_transaction_recovery() {
    let mut tm = TransactionManager::new();
    let storage = MockStorage::new();
    tm.set_wal_storage(storage.clone());
    let mut engine = engine_with_file(1);

    let mut txn = tm.begin_transaction();
    txn.record(TransactionOperation::Write { ino: 1, offset: 0, data: b"Recovery Data".to_vec() });

    tm.commit_into_wal_only(txn).expect("WAL write failed");
    assert_eq!(dbfs_get_attr(&engine, 1).unwrap().size, 0);

    let replayed = tm.replay(&mut engine, now()).expect("Replay failed");
    assert_eq!(replayed, 1);
    let mut buf = [0u8; 13];
    assert_eq!(dbfs_read(&engine, 1, &mut buf, 0), Ok(13));
    assert_eq!(&buf, b"Recovery Data");
}

#[test]
fn test_transaction_atomicity() {
    let mut tm = TransactionManager::new();
    let storage = MockStorage::new();
    tm.set_wal_storage(storage.clone());
    let mut engine = engine_with_file(1);

    let mut txn = tm.begin_transaction();
    txn.record(TransactionOperation::Write { ino: 1, offset: 0, data: b"Atomicity Test".to_vec() });

    tm.commit(txn, &mut engine, now()).expect("Commit failed");

    assert!(*storage.written.lock().unwrap() > 0);
    assert_eq!(storage.data.lock().unwrap().len(), 0);
    let mut buf = [0u8; 14];
    assert_eq!(dbfs_read(&engine, 1, &mut buf, 0), Ok(14));
    assert_eq!(&buf, b"Atomicity Test");
}

#[test]
fn test_rollback_safety() {
    let mut tm = TransactionManager::<MockStorage>::new();
    let mut txn = tm.begin_transaction();
    txn.record(TransactionOperation::Write {
        ino: 1,
        offset: 0,
        data: b"Should not persist".to_vec(),
    });

    tm.rollback(txn);
}

#[test]
fn test_dbfs_vfs_basic() {
    let mut ctx = mount_fresh(64 * 1024 * 1024);
    let root = ctx.root_inode();

    ctx.mkdir(root, b"test_dir", 0, 0, 0o755, now()).expect("Mkdir failed");

    let dir = dbfs_lookup(&ctx.engine, root, b"test_dir").expect("Lookup dir failed");
    assert_eq!(dbfs_get_attr(&ctx.engine, dir).unwrap().kind, DbfsFileType::Dir);

    ctx.create(dir, b"test_file.txt", DbfsFileType::File, 0, 0, 0o644, now())
        .expect("Create file failed");

    let file = dbfs_lookup(&ctx.engine, dir, b"test_file.txt").expect("Lookup file failed");
    let test_data = b"Hello DBFS-T via VFS!";
    dbfs_write(&mut ctx.engine, file, test_data, 0, now()).expect("Write file failed");

    let mut read_buf = [0u8; 32];
    let n = dbfs_read(&ctx.engine, file, &mut read_buf, 0).expect("Read file failed");
    assert_eq!(n, test_data.len());
    assert_eq!(&read_buf[..n], test_data);

    let entries = list_names(&ctx.engine, dir);
    assert!(entries.contains(&b".".to_vec()));
    assert!(entries.contains(&b"..".to_vec()));
    assert!(entries.contains(&b"test_file.txt".to_vec()));

    ctx.truncate(file, 5, now()).expect("Truncate failed");
    assert_eq!(dbfs_get_attr(&ctx.engine, file).unwrap().size, 5);
    let mut read_buf_small = [0u8; 10];
    let n = dbfs_read(&ctx.engine, file, &mut read_buf_small, 0).expect("Read truncated file failed");
    assert_eq!(n, 5);
    assert_eq!(&read_buf_small[..n], b"Hello");
}

#[test]
fn hello_world_on_a_fresh_device() {
    let mut ctx = mount_fresh(64 * MIB);
    assert_eq!(dbfs_create(&mut ctx.engine, 1, b"hello", DbfsFileType::File, 0, 0, 0o644, now()), Ok(2));
    assert_eq!(dbfs_write(&mut ctx.engine, 2, b"Hello, DBFS!", 0, now()), Ok(12));
    let mut buf = [0xAAu8; 32];
    assert_eq!(dbfs_read(&ctx.engine, 2, &mut buf, 0), Ok(12));
    assert_eq!(&buf[..12], b"Hello, DBFS!");
    assert_eq!(buf[12], 0xAA);
    assert_eq!(dbfs_get_attr(&ctx.engine, 2).unwrap().size, 12);
    assert_eq!(ctx.engine.log_cursor(), DB_RESERVED_SIZE + 12);
}

#[test]
fn directory_round_trip() {
    let mut ctx = mount_fresh(33 * MIB);
    assert_eq!(ctx.mkdir(1, b"d", 0, 0, 0o755, now()), Ok(2));
    assert_eq!(ctx.create(2, b"f", DbfsFileType::File, 0, 0, 0o644, now()), Ok(3));
    assert_eq!(list_names(&ctx.engine, 1), vec![b".".to_vec(), b"..".to_vec(), b"d".to_vec()]);
    assert_eq!(list_names(&ctx.engine, 2), vec![b".".to_vec(), b"..".to_vec(), b"f".to_vec()]);
    assert_eq!(ctx.rmdir(1, b"d", now()), Err(DbfsError::NotEmpty));
    assert_eq!(ctx.unlink(2, b"f", now()), Ok(()));
    assert_eq!(ctx.rmdir(1, b"d", now()), Ok(()));
    assert_eq!(dbfs_lookup(&ctx.engine, 1, b"d"), Err(DbfsError::NoEntry));
    assert_eq!(dbfs_get_attr(&ctx.engine, 2), Err(DbfsError::NoEntry));
    assert_eq!(dbfs_get_attr(&ctx.engine, 1).unwrap().hard_links, 2);
}

#[test]
fn overlapping_writes_newest_wins() {
    let mut ctx = mount_fresh(33 * MIB);
    assert_eq!(ctx.create(1, b"x", DbfsFileType::File, 0, 0, 0o644, now()), Ok(2));
    assert_eq!(dbfs_write(&mut ctx.engine, 2, b"AAAA", 0, now()), Ok(4));
    assert_eq!(dbfs_write(&mut ctx.engine, 2, b"BB", 2, now()), Ok(2));
    let mut buf = [0u8; 4];
    assert_eq!(dbfs_read(&ctx.engine, 2, &mut buf, 0), Ok(4));
    assert_eq!(&buf, b"AABB");
    assert_eq!(dbfs_get_attr(&ctx.engine, 2).unwrap().size, 4);
}

#[test]
fn same_offset_second_write_is_read() {
    let mut ctx = mount_fresh(33 * MIB);
    let ino = ctx.create(1, b"x", DbfsFileType::File, 0, 0, 0o644, now()).unwrap();
    dbfs_write(&mut ctx.engine, ino, b"first", 0, now()).unwrap();
    dbfs_write(&mut ctx.engine, ino, b"again", 0, now()).unwrap();
    let mut buf = [0u8; 5];
    assert_eq!(dbfs_read(&ctx.engine, ino, &mut buf, 0), Ok(5));
    assert_eq!(&buf, b"again");
}

#[test]
fn crash_before_commit_leaves_file_as_it_was() {
    let fs = DbfsFsType::new("dbfs.db".to_string());
    let device = RamDisk::new(33 * MIB);
    let power = device.fail_flush.clone();
    let mut ctx = fs.mount(device, MetaStore::new(), None::<MockStorage>, now()).unwrap();
    let ino = ctx.create(1, b"x", DbfsFileType::File, 0, 0, 0o644, now()).unwrap();
    assert_eq!(ctx.write_at(ino, 0, b"before", now()), Ok(6));

    *power.lock().unwrap() = true;
    assert_eq!(ctx.write_at(ino, 0, b"LOST!!", now()), Err(DbfsError::IoError));
    assert_eq!(ctx.write_at(ino, 6, b"more", now()), Err(DbfsError::IoError));
    assert_eq!(ctx.get_attr(ino).unwrap().size, 6);
    assert_eq!(ctx.engine.log_cursor(), DB_RESERVED_SIZE + 6 + 6 + 4);
    *power.lock().unwrap() = false;

    let (engine, _tm) = ctx.unmount();
    let (store, log) = engine.into_parts();
    let ctx = fs.mount(log.into_device(), store, None::<MockStorage>, now()).unwrap();
    assert_eq!(ctx.engine.log_cursor(), DB_RESERVED_SIZE + 6);
    assert_eq!(ctx.get_attr(ino).unwrap().size, 6);
    let mut buf = [0u8; 16];
    assert_eq!(ctx.read_at(ino, 0, &mut buf), Ok(6));
    assert_eq!(&buf[..6], b"before");
    assert_eq!(ctx.read_at(ino, 6, &mut buf), Ok(0));
    assert_eq!(ctx.engine.get_metadata(ino).unwrap().extents.len(), 1);
}

#[test]
fn crash_mid_rename_is_replayed_on_mount() {
    let storage = MockStorage::new();
    let fs = DbfsFsType::new("dbfs.db".to_string());
    let mut ctx = fs
        .mount(RamDisk::new(33 * MIB), MetaStore::new(), Some(storage.clone()), now())
        .expect("Mount failed");
    let ino = ctx.create(1, b"a", DbfsFileType::File, 0, 0, 0o644, now()).unwrap();

    let mut txn = ctx.tm.begin_transaction();
    txn.record(TransactionOperation::Rename {
        old_parent_ino: 1,
        old_name: b"a".to_vec(),
        new_parent_ino: 1,
        new_name: b"b".to_vec(),
    });
    ctx.tm.commit_into_wal_only(txn).expect("WAL write failed");
    assert!(storage.data.lock().unwrap().len() > 0);
    assert_eq!(dbfs_lookup(&ctx.engine, 1, b"a"), Ok(ino));

    let FsContext { mut engine, tm, .. } = ctx;
    drop(tm);
    let mut tm = TransactionManager::new();
    tm.set_wal_storage(storage.clone());
    assert_eq!(tm.replay(&mut engine, now()), Ok(1));

    assert_eq!(dbfs_lookup(&engine, 1, b"a"), Err(DbfsError::NoEntry));
    assert_eq!(dbfs_lookup(&engine, 1, b"b"), Ok(ino));
    assert_eq!(storage.data.lock().unwrap().len(), 0);

    assert_eq!(tm.replay(&mut engine, now()), Ok(0));
    assert_eq!(dbfs_lookup(&engine, 1, b"b"), Ok(ino));
}

#[test]
fn truncate_keeps_prefix_and_clears_tail() {
    let mut ctx = mount_fresh(33 * MIB);
    let ino = ctx.create(1, b"big", DbfsFileType::File, 0, 0, 0o644, now()).unwrap();
    let data: Vec<u8> = (0..4096u32).map(|i| (i % 251) as u8 + 1).collect();
    assert_eq!(dbfs_write(&mut ctx.engine, ino, &data, 0, now()), Ok(4096));
    let whole = ctx.engine.get_metadata(ino).unwrap().extents[0];
    assert_eq!(ctx.engine.check_extent(&whole), Ok(true));
    assert_eq!(dbfs_truncate(&mut ctx.engine, ino, 4096, now()), Ok(()));
    assert_eq!(ctx.engine.get_metadata(ino).unwrap().extents, vec![whole]);
    assert_eq!(dbfs_truncate(&mut ctx.engine, ino, 10, now()), Ok(()));
    assert_eq!(dbfs_get_attr(&ctx.engine, ino).unwrap().size, 10);
    let mut buf = vec![0u8; 4096];
    assert_eq!(dbfs_read(&ctx.engine, ino, &mut buf, 0), Ok(10));
    assert_eq!(&buf[..10], &data[..10]);

    let meta = ctx.engine.get_metadata(ino).unwrap();
    assert_eq!(meta.extents.len(), 1);
    assert_eq!(meta.extents[0].len, 10);
    assert_eq!(meta.extents[0].crc, dbfs2::log_manager::crc32(&data));
    assert_eq!(ctx.engine.check_extent(&meta.extents[0]), Ok(false));
    let beyond = Extent { physical_ptr: 33 * MIB as u64 - 1, len: 2, ..whole };
    assert_eq!(ctx.engine.check_extent(&beyond), Ok(false));

    assert_eq!(dbfs_truncate(&mut ctx.engine, ino, 20, now()), Ok(()));
    let mut buf = vec![7u8; 32];
    assert_eq!(dbfs_read(&ctx.engine, ino, &mut buf, 0), Ok(20));
    assert_eq!(&buf[..10], &data[..10]);
    assert_eq!(&buf[10..20], &[0u8; 10]);
    assert_eq!(buf[20], 7);
}

#[test]
fn read_fills_holes_with_zeros() {
    let mut ctx = mount_fresh(33 * MIB);
    let ino = ctx.create(1, b"sparse", DbfsFileType::File, 0, 0, 0o644, now()).unwrap();
    assert_eq!(dbfs_write(&mut ctx.engine, ino, b"xy", 6, now()), Ok(2));
    assert_eq!(dbfs_get_attr(&ctx.engine, ino).unwrap().size, 8);
    let mut buf = [1u8; 8];
    assert_eq!(dbfs_read(&ctx.engine, ino, &mut buf, 0), Ok(8));
    assert_eq!(&buf, b"\0\0\0\0\0\0xy");
    let mut tail = [1u8; 8];
    assert_eq!(dbfs_read(&ctx.engine, ino, &mut tail, 7), Ok(1));
    assert_eq!(tail[0], b'y');
    assert_eq!(dbfs_read(&ctx.engine, ino, &mut tail, 8), Ok(0));
}

#[test]
fn write_records_extent_with_checksum() {
    let mut ctx = mount_fresh(33 * MIB);
    let ino = ctx.create(1, b"f", DbfsFileType::File, 0, 0, 0o644, now()).unwrap();
    let later = DbfsTimeSpec { sec: 1_700_000_100, nsec: 1 };
    dbfs_write(&mut ctx.engine, ino, b"123456789", 100, later).unwrap();
    let meta = ctx.engine.get_metadata(ino).unwrap();
    assert_eq!(
        meta.extents,
        vec![Extent {
            logical_off: 100,
            physical_ptr: DB_RESERVED_SIZE,
            len: 9,
            crc: 0xCBF4_3926
        }]
    );
    assert_eq!(meta.size, 109);
    assert_eq!(meta.mtime, later);
    assert_eq!(meta.ctime, now());
}

#[test]
fn write_errors() {
    let mut ctx = mount_fresh(33 * MIB);
    let ino = ctx.create(1, b"f", DbfsFileType::File, 0, 0, 0o644, now()).unwrap();
    assert_eq!(dbfs_write(&mut ctx.engine, 99, b"x", 0, now()), Err(DbfsError::NoEntry));
    assert_eq!(dbfs_write(&mut ctx.engine, 1, b"x", 0, now()), Err(DbfsError::IsDir));
    assert_eq!(dbfs_write(&mut ctx.engine, ino, b"xy", u64::MAX - 1, now()), Err(DbfsError::Invalid));
    let too_big = vec![0u8; MIB + 1];
    assert_eq!(dbfs_write(&mut ctx.engine, ino, &too_big, 0, now()), Err(DbfsError::IoError));
    assert_eq!(dbfs_get_attr(&ctx.engine, ino).unwrap().size, 0);
    assert_eq!(ctx.engine.log_cursor(), DB_RESERVED_SIZE);
    assert_eq!(dbfs_read(&ctx.engine, 99, &mut [0u8; 1], 0), Err(DbfsError::NoEntry));
    assert_eq!(dbfs_read(&ctx.engine, 1, &mut [0u8; 1], 0), Err(DbfsError::IsDir));
    assert_eq!(dbfs_truncate(&mut ctx.engine, 99, 0, now()), Err(DbfsError::NoEntry));
    assert_eq!(dbfs_truncate(&mut ctx.engine, 1, 0, now()), Err(DbfsError::IsDir));
}

#[test]
fn create_then_lookup_then_unlink() {
    let mut ctx = mount_fresh(33 * MIB);
    let ino = dbfs_create(&mut ctx.engine, 1, b"n", DbfsFileType::File, 5, 6, 0o600, now()).unwrap();
    assert_eq!(ino, 2);
    assert_eq!(dbfs_lookup(&ctx.engine, 1, b"n"), Ok(ino));
    let attr = dbfs_get_attr(&ctx.engine, ino).unwrap();
    assert_eq!(attr.mode, 0o100600);
    assert_eq!(attr.kind, DbfsFileType::File);
    assert_eq!((attr.uid, attr.gid, attr.hard_links, attr.size), (5, 6, 1, 0));
    assert_eq!(attr.ctime, now());
    assert_eq!(
        dbfs_create(&mut ctx.engine, 1, b"n", DbfsFileType::File, 0, 0, 0o644, now()),
        Err(DbfsError::EExist)
    );
    assert_eq!(dbfs_unlink(&mut ctx.engine, 1, b"n", now()), Ok(()));
    assert_eq!(dbfs_lookup(&ctx.engine, 1, b"n"), Err(DbfsError::NoEntry));
    assert_eq!(dbfs_get_attr(&ctx.engine, ino), Err(DbfsError::NoEntry));
    assert_eq!(dbfs_unlink(&mut ctx.engine, 1, b"n", now()), Err(DbfsError::NoEntry));
}

#[test]
fn create_errors() {
    let mut ctx = mount_fresh(33 * MIB);
    let file = dbfs_create(&mut ctx.engine, 1, b"f", DbfsFileType::File, 0, 0, 0o644, now()).unwrap();
    let long = vec![b'a'; 256];
    let longest = vec![b'a'; 255];
    assert_eq!(dbfs_create(&mut ctx.engine, 1, b"", DbfsFileType::File, 0, 0, 0, now()), Err(DbfsError::Invalid));
    assert_eq!(dbfs_create(&mut ctx.engine, 1, b".", DbfsFileType::File, 0, 0, 0, now()), Err(DbfsError::EExist));
    assert_eq!(dbfs_create(&mut ctx.engine, 1, b"..", DbfsFileType::Dir, 0, 0, 0, now()), Err(DbfsError::EExist));
    assert_eq!(dbfs_symlink(&mut ctx.engine, 1, b".", b"t", 0, 0, now()), Err(DbfsError::EExist));
    assert_eq!(dbfs_symlink(&mut ctx.engine, 1, b"..", b"t", 0, 0, now()), Err(DbfsError::EExist));
    assert_eq!(dbfs_symlink(&mut ctx.engine, 1, b"", b"t", 0, 0, now()), Err(DbfsError::Invalid));
    assert_eq!(dbfs_get_attr(&ctx.engine, 1).unwrap().hard_links, 2);
    assert_eq!(ctx.engine.allocate_inode(0o100644), Ok(3));
    assert_eq!(ctx.engine.delete_inode(3), Ok(()));
    assert_eq!(dbfs_create(&mut ctx.engine, 1, &long, DbfsFileType::File, 0, 0, 0, now()), Err(DbfsError::Invalid));
    assert_eq!(dbfs_create(&mut ctx.engine, 77, b"x", DbfsFileType::File, 0, 0, 0, now()), Err(DbfsError::NoEntry));
    assert_eq!(dbfs_create(&mut ctx.engine, file, b"x", DbfsFileType::File, 0, 0, 0, now()), Err(DbfsError::NotDir));
    assert_eq!(dbfs_create(&mut ctx.engine, 1, &longest, DbfsFileType::Fifo, 0, 0, 0o644, now()), Ok(3));
    assert_eq!(dbfs_get_attr(&ctx.engine, 3).unwrap().kind, DbfsFileType::Fifo);
    assert_eq!(dbfs_lookup(&ctx.engine, file, b"x"), Err(DbfsError::NotDir));
    assert_eq!(dbfs_lookup(&ctx.engine, 77, b"x"), Err(DbfsError::NoEntry));
}

#[test]
fn mkdir_links_and_entries() {
    let mut ctx = mount_fresh(33 * MIB);
    let d = dbfs_create(&mut ctx.engine, 1, b"d", DbfsFileType::Dir, 0, 0, 0o755, now()).unwrap();
    assert_eq!(dbfs_get_attr(&ctx.engine, 1).unwrap().hard_links, 3);
    let attr = dbfs_get_attr(&ctx.engine, d).unwrap();
    assert_eq!(attr.hard_links, 2);
    assert_eq!(attr.mode, 0o040755);
    assert_eq!(dbfs_lookup(&ctx.engine, d, b"."), Ok(d));
    assert_eq!(dbfs_lookup(&ctx.engine, d, b".."), Ok(1));
    assert_eq!(dbfs_unlink(&mut ctx.engine, 1, b"d", now()), Err(DbfsError::IsDir));
    assert_eq!(dbfs_unlink(&mut ctx.engine, d, b".", now()), Err(DbfsError::IsDir));
    assert_eq!(dbfs_unlink(&mut ctx.engine, d, b"", now()), Err(DbfsError::Invalid));
}

#[test]
fn rmdir_guard() {
    let mut ctx = mount_fresh(33 * MIB);
    let d = dbfs_create(&mut ctx.engine, 1, b"d", DbfsFileType::Dir, 0, 0, 0o755, now()).unwrap();
    let f = dbfs_create(&mut ctx.engine, 1, b"f", DbfsFileType::File, 0, 0, 0o644, now()).unwrap();
    dbfs_create(&mut ctx.engine, d, b"!", DbfsFileType::File, 0, 0, 0o644, now()).unwrap();
    assert_eq!(dbfs_rmdir(&mut ctx.engine, 1, b"d"), Err(DbfsError::NotEmpty));
    assert_eq!(dbfs_rmdir(&mut ctx.engine, 1, b"f"), Err(DbfsError::NotDir));
    assert_eq!(dbfs_rmdir(&mut ctx.engine, 1, b"zz"), Err(DbfsError::NoEntry));
    assert_eq!(dbfs_rmdir(&mut ctx.engine, 1, b".."), Err(DbfsError::NotEmpty));
    assert_eq!(dbfs_rmdir(&mut ctx.engine, d, b"."), Err(DbfsError::NotEmpty));
    assert_eq!(dbfs_rmdir(&mut ctx.engine, d, b".."), Err(DbfsError::NotEmpty));
    assert_eq!(list_names(&ctx.engine, d), vec![b"!".to_vec(), b".".to_vec(), b"..".to_vec()]);
    assert_eq!(dbfs_rmdir(&mut ctx.engine, f, b"x"), Err(DbfsError::NotDir));
    assert_eq!(dbfs_unlink(&mut ctx.engine, d, b"!", now()), Ok(()));
    assert_eq!(dbfs_rmdir(&mut ctx.engine, d, b"."), Err(DbfsError::Invalid));
    assert_eq!(dbfs_rmdir(&mut ctx.engine, 1, b"d"), Ok(()));
    assert_eq!(dbfs_get_attr(&ctx.engine, 1).unwrap().hard_links, 2);
    assert_eq!(list_names(&ctx.engine, 1), vec![b".".to_vec(), b"..".to_vec(), b"f".to_vec()]);
}

#[test]
fn readdir_lists_in_byte_order() {
    let mut ctx = mount_fresh(33 * MIB);
    for name in [&b"zeta"[..], b"alpha", b"!", b"alphabet", b"Beta"] {
        dbfs_create(&mut ctx.engine, 1, name, DbfsFileType::File, 0, 0, 0o644, now()).unwrap();
    }
    let d = dbfs_create(&mut ctx.engine, 1, b"dir", DbfsFileType::Dir, 0, 0, 0o755, now()).unwrap();
    assert_eq!(
        list_names(&ctx.engine, 1),
        vec![
            b"!".to_vec(),
            b".".to_vec(),
            b"..".to_vec(),
            b"Beta".to_vec(),
            b"alpha".to_vec(),
            b"alphabet".to_vec(),
            b"dir".to_vec(),
            b"zeta".to_vec()
        ]
    );
    let entry = dbfs_readdir(&ctx.engine, 1, 6).unwrap().unwrap();
    assert_eq!((entry.ino, entry.ty), (d, DbfsFileType::Dir));
    let entry = dbfs_readdir(&ctx.engine, 1, 0).unwrap().unwrap();
    assert_eq!((entry.ino, entry.ty), (4, DbfsFileType::File));
    assert!(dbfs_readdir(&ctx.engine, 1, 8).unwrap().is_none());
    assert!(matches!(dbfs_readdir(&ctx.engine, 2, 0), Err(DbfsError::NotDir)));
    assert!(matches!(dbfs_readdir(&ctx.engine, 99, 0), Err(DbfsError::NoEntry)));
}

#[test]
fn rename_within_and_across_directories() {
    let mut ctx = mount_fresh(33 * MIB);
    let a = dbfs_create(&mut ctx.engine, 1, b"a", DbfsFileType::File, 0, 0, 0o644, now()).unwrap();
    let d = dbfs_create(&mut ctx.engine, 1, b"d", DbfsFileType::Dir, 0, 0, 0o755, now()).unwrap();
    let e = dbfs_create(&mut ctx.engine, 1, b"e", DbfsFileType::Dir, 0, 0, 0o755, now()).unwrap();
    assert_eq!(dbfs_rename(&mut ctx.engine, 1, b"a", 1, b"b", 0, now()), Ok(()));
    assert_eq!(dbfs_lookup(&ctx.engine, 1, b"a"), Err(DbfsError::NoEntry));
    assert_eq!(dbfs_lookup(&ctx.engine, 1, b"b"), Ok(a));
    assert_eq!(dbfs_rename(&mut ctx.engine, 1, b"a", 1, b"c", 0, now()), Err(DbfsError::NoEntry));
    assert_eq!(dbfs_rename(&mut ctx.engine, 1, b"b", 1, b"b", 0, now()), Ok(()));
    assert_eq!(dbfs_rename(&mut ctx.engine, 1, b"b", d, b"b", 0, now()), Ok(()));
    assert_eq!(dbfs_lookup(&ctx.engine, d, b"b"), Ok(a));
    assert_eq!(dbfs_get_attr(&ctx.engine, 1).unwrap().hard_links, 4);

    assert_eq!(dbfs_rename(&mut ctx.engine, 1, b"e", d, b"e", 0, now()), Ok(()));
    assert_eq!(dbfs_lookup(&ctx.engine, e, b".."), Ok(d));
    assert_eq!(dbfs_get_attr(&ctx.engine, 1).unwrap().hard_links, 3);
    assert_eq!(dbfs_get_attr(&ctx.engine, d).unwrap().hard_links, 3);
    assert_eq!(dbfs_rename(&mut ctx.engine, 1, b"d", d, b"self", 0, now()), Err(DbfsError::Invalid));
    assert_eq!(dbfs_rename(&mut ctx.engine, 1, b".", 1, b"x", 0, now()), Err(DbfsError::Invalid));
    assert_eq!(dbfs_rename(&mut ctx.engine, 9, b"x", 1, b"y", 0, now()), Err(DbfsError::NoEntry));
}

#[test]
fn rename_replaces_a_taken_name() {
    let mut ctx = mount_fresh(33 * MIB);
    let later = DbfsTimeSpec { sec: 1_800_000_000, nsec: 0 };
    let x = dbfs_create(&mut ctx.engine, 1, b"x", DbfsFileType::File, 0, 0, 0o644, now()).unwrap();
    let y = dbfs_create(&mut ctx.engine, 1, b"y", DbfsFileType::File, 0, 0, 0o644, now()).unwrap();
    dbfs_write(&mut ctx.engine, x, b"from x", 0, now()).unwrap();
    assert_eq!(dbfs_link(&mut ctx.engine, 1, b"y2", y, now()), Ok(y));

    assert_eq!(dbfs_rename(&mut ctx.engine, 1, b"x", 1, b"y", 0, later), Ok(()));
    assert_eq!(dbfs_lookup(&ctx.engine, 1, b"x"), Err(DbfsError::NoEntry));
    assert_eq!(dbfs_lookup(&ctx.engine, 1, b"y"), Ok(x));
    let moved = dbfs_get_attr(&ctx.engine, x).unwrap();
    assert_eq!((moved.hard_links, moved.size, moved.ctime), (1, 6, now()));
    let displaced = dbfs_get_attr(&ctx.engine, y).unwrap();
    assert_eq!((displaced.hard_links, displaced.ctime), (1, later));

    assert_eq!(dbfs_rename(&mut ctx.engine, 1, b"y", 1, b"y2", 0, later), Ok(()));
    assert_eq!(dbfs_lookup(&ctx.engine, 1, b"y2"), Ok(x));
    assert_eq!(dbfs_get_attr(&ctx.engine, y), Err(DbfsError::NoEntry));
    assert_eq!(list_names(&ctx.engine, 1), vec![b".".to_vec(), b"..".to_vec(), b"y2".to_vec()]);

    assert_eq!(dbfs_link(&mut ctx.engine, 1, b"twin", x, now()), Ok(x));
    assert_eq!(dbfs_rename(&mut ctx.engine, 1, b"twin", 1, b"y2", 0, later), Ok(()));
    assert_eq!(dbfs_lookup(&ctx.engine, 1, b"twin"), Err(DbfsError::NoEntry));
    assert_eq!(dbfs_lookup(&ctx.engine, 1, b"y2"), Ok(x));
    assert_eq!(dbfs_get_attr(&ctx.engine, x).unwrap().hard_links, 1);

    let full = dbfs_create(&mut ctx.engine, 1, b"full", DbfsFileType::Dir, 0, 0, 0o755, now()).unwrap();
    let empty = dbfs_create(&mut ctx.engine, 1, b"empty", DbfsFileType::Dir, 0, 0, 0o755, now()).unwrap();
    dbfs_create(&mut ctx.engine, full, b"child", DbfsFileType::File, 0, 0, 0o644, now()).unwrap();
    assert_eq!(dbfs_rename(&mut ctx.engine, 1, b"y2", 1, b"full", 0, later), Err(DbfsError::NotEmpty));
    assert_eq!(dbfs_lookup(&ctx.engine, 1, b"y2"), Ok(x));
    assert_eq!(dbfs_lookup(&ctx.engine, 1, b"full"), Ok(full));
    assert_eq!(dbfs_get_attr(&ctx.engine, 1).unwrap().hard_links, 4);
    assert_eq!(dbfs_rename(&mut ctx.engine, 1, b"full", 1, b"empty", 0, later), Ok(()));
    assert_eq!(dbfs_lookup(&ctx.engine, 1, b"empty"), Ok(full));
    assert_eq!(dbfs_get_attr(&ctx.engine, empty), Err(DbfsError::NoEntry));
    assert_eq!(dbfs_get_attr(&ctx.engine, 1).unwrap().hard_links, 3);
    assert_eq!(dbfs_lookup(&ctx.engine, full, b"child").is_ok(), true);
}

#[test]
fn link_and_unlink_count_links() {
    let mut ctx = mount_fresh(33 * MIB);
    let f = dbfs_create(&mut ctx.engine, 1, b"f", DbfsFileType::File, 0, 0, 0o644, now()).unwrap();
    let d = dbfs_create(&mut ctx.engine, 1, b"d", DbfsFileType::Dir, 0, 0, 0o755, now()).unwrap();
    assert_eq!(dbfs_link(&mut ctx.engine, d, b"g", f, now()), Ok(f));
    assert_eq!(dbfs_get_attr(&ctx.engine, f).unwrap().hard_links, 2);
    assert_eq!(dbfs_link(&mut ctx.engine, d, b"g", f, now()), Err(DbfsError::EExist));
    assert_eq!(dbfs_link(&mut ctx.engine, d, b"h", d, now()), Err(DbfsError::IsDir));
    assert_eq!(dbfs_link(&mut ctx.engine, d, b"h", 99, now()), Err(DbfsError::NoEntry));
    assert_eq!(dbfs_link(&mut ctx.engine, f, b"h", f, now()), Err(DbfsError::NotDir));
    assert_eq!(dbfs_unlink(&mut ctx.engine, 1, b"f", now()), Ok(()));
    assert_eq!(dbfs_get_attr(&ctx.engine, f).unwrap().hard_links, 1);
    assert_eq!(dbfs_lookup(&ctx.engine, d, b"g"), Ok(f));
    assert_eq!(dbfs_remove(&mut ctx.engine, d, b"g", now()), Ok(()));
    assert_eq!(dbfs_get_attr(&ctx.engine, f), Err(DbfsError::NoEntry));
    assert_eq!(dbfs_remove(&mut ctx.engine, 1, b"d", now()), Ok(()));
    assert_eq!(dbfs_get_attr(&ctx.engine, d), Err(DbfsError::NoEntry));
}

#[test]
fn symlink_and_readlink() {
    let mut ctx = mount_fresh(33 * MIB);
    let f = dbfs_create(&mut ctx.engine, 1, b"f", DbfsFileType::File, 0, 0, 0o644, now()).unwrap();
    let s = dbfs_symlink(&mut ctx.engine, 1, b"s", b"/target/path", 3, 4, now()).unwrap();
    let attr = dbfs_get_attr(&ctx.engine, s).unwrap();
    assert_eq!(attr.kind, DbfsFileType::Symlink);
    assert_eq!(attr.mode, 0o120777);
    assert_eq!(attr.size, 12);
    let mut buf = [b'#'; 16];
    assert_eq!(dbfs_readlink(&ctx.engine, s, &mut buf), Ok(12));
    assert_eq!(&buf, b"/target/path####");
    let mut short = [0u8; 4];
    assert_eq!(dbfs_readlink(&ctx.engine, s, &mut short), Ok(4));
    assert_eq!(&short, b"/tar");
    assert_eq!(dbfs_readlink(&ctx.engine, f, &mut buf), Err(DbfsError::NoSys));
    assert_eq!(dbfs_readlink(&ctx.engine, 99, &mut buf), Err(DbfsError::NoEntry));
    assert_eq!(dbfs_symlink(&mut ctx.engine, 1, b"s", b"x", 0, 0, now()), Err(DbfsError::EExist));
}

#[test]
fn reapplying_an_operation_changes_nothing() {
    let mut ctx = mount_fresh(33 * MIB);
    let op = TransactionOperation::Mkdir { parent_ino: 1, name: b"d".to_vec(), uid: 0, gid: 0, perm: 0o755 };
    assert_eq!(op.apply(&mut ctx.engine, now()), Ok(()));
    assert_eq!(op.apply(&mut ctx.engine, now()), Err(DbfsError::EExist));
    assert_eq!(list_names(&ctx.engine, 1), vec![b".".to_vec(), b"..".to_vec(), b"d".to_vec()]);
    assert_eq!(dbfs_get_attr(&ctx.engine, 1).unwrap().hard_links, 3);

    let op = TransactionOperation::Delete { parent_ino: 1, name: b"d".to_vec() };
    assert_eq!(op.apply(&mut ctx.engine, now()), Ok(()));
    assert_eq!(op.apply(&mut ctx.engine, now()), Err(DbfsError::NoEntry));

    let create = TransactionOperation::Create {
        parent_ino: 1,
        name: b"f".to_vec(),
        uid: 1,
        gid: 2,
        perm: 0o640,
        dev: None,
        file_type: DbfsFileType::File,
    };
    assert_eq!(create.apply(&mut ctx.engine, now()), Ok(()));
    let ino = dbfs_lookup(&ctx.engine, 1, b"f").unwrap();
    dbfs_write(&mut ctx.engine, ino, b"0123456789", 0, now()).unwrap();
    let cut = TransactionOperation::Truncate { ino, length: 4 };
    assert_eq!(cut.apply(&mut ctx.engine, now()), Ok(()));
    let once = ctx.engine.get_metadata(ino).unwrap();
    assert_eq!(cut.apply(&mut ctx.engine, now()), Ok(()));
    let twice = ctx.engine.get_metadata(ino).unwrap();
    assert_eq!((once.size, once.extents.clone()), (twice.size, twice.extents));
    assert_eq!(once.size, 4);

    let write = TransactionOperation::Write { ino, offset: 2, data: b"wxyz".to_vec() };
    assert_eq!(write.apply(&mut ctx.engine, now()), Ok(()));
    let mut first = [0u8; 8];
    assert_eq!(dbfs_read(&ctx.engine, ino, &mut first, 0), Ok(6));
    assert_eq!(write.apply(&mut ctx.engine, now()), Ok(()));
    let mut second = [0u8; 8];
    assert_eq!(dbfs_read(&ctx.engine, ino, &mut second, 0), Ok(6));
    assert_eq!(first, second);
    assert_eq!(&second[..6], b"01wxyz");

    let rename = TransactionOperation::Rename {
        old_parent_ino: 1,
        old_name: b"f".to_vec(),
        new_parent_ino: 1,
        new_name: b"g".to_vec(),
    };
    assert_eq!(rename.apply(&mut ctx.engine, now()), Ok(()));
    assert_eq!(rename.apply(&mut ctx.engine, now()), Err(DbfsError::NoEntry));
    assert_eq!(dbfs_lookup(&ctx.engine, 1, b"g"), Ok(ino));
    assert_eq!(list_names(&ctx.engine, 1), vec![b".".to_vec(), b"..".to_vec(), b"g".to_vec()]);
}

#[test]
fn wal_frames_and_recovery() {
    let storage = MockStorage::new();
    let mut wal = WriteAheadLog::new();
    wal.set_storage(storage.clone());
    let op = TransactionOperation::Truncate { ino: 3, length: 9 };
    assert_eq!(wal.append(7, op), Ok(()));
    {
        let bytes = storage.data.lock().unwrap();
        assert_eq!(bytes.len(), 4 + 69);
        assert_eq!(&bytes[..4], &69u32.to_le_bytes());
        assert_eq!(&bytes[4..12], &7u64.to_le_bytes());
        assert_eq!(bytes[12], 6);
        assert_eq!(&bytes[13..21], &3u64.to_le_bytes());
        assert_eq!(&bytes[21..29], &9u64.to_le_bytes());
    }
    let rename = TransactionOperation::Rename {
        old_parent_ino: 1,
        old_name: b"old".to_vec(),
        new_parent_ino: 2,
        new_name: b"newer".to_vec(),
    };
    assert_eq!(wal.append(8, rename), Ok(()));
    assert_eq!(wal.flush(), Ok(()));
    assert_eq!(storage.data.lock().unwrap().len(), 73 + 4 + 69 + 8);

    let mut fresh = WriteAheadLog::new();
    fresh.set_storage(storage.clone());
    let found = fresh.recover().unwrap();
    assert_eq!(found.len(), 2);
    assert_eq!(found[0].txn_id, 7);
    assert!(matches!(found[0].operation, TransactionOperation::Truncate { ino: 3, length: 9 }));
    assert_eq!(found[1].txn_id, 8);
    match &found[1].operation {
        TransactionOperation::Rename { old_parent_ino, old_name, new_parent_ino, new_name } => {
            assert_eq!((*old_parent_ino, *new_parent_ino), (1, 2));
            assert_eq!((old_name.as_slice(), new_name.as_slice()), (&b"old"[..], &b"newer"[..]));
        }
        other => panic!("unexpected operation {:?}", other),
    }

    storage.data.lock().unwrap().truncate(73 + 4 + 30);
    let mut torn = WriteAheadLog::new();
    torn.set_storage(storage.clone());
    assert_eq!(torn.recover().unwrap().len(), 1);
    assert_eq!(torn.append(9, TransactionOperation::Truncate { ino: 1, length: 0 }), Ok(()));
    assert_eq!(storage.data.lock().unwrap().len(), 73 + 73);

    wal.clear_txn(7);
    assert_eq!(storage.data.lock().unwrap().len(), 146);
    wal.clear_txn(8);
    assert_eq!(storage.data.lock().unwrap().len(), 0);
    assert_eq!(wal.checkpoint(), Ok(()));
}

#[test]
fn wal_entry_codec_round_trip() {
    let ops = vec![
        TransactionOperation::Write { ino: 5, offset: 1 << 40, data: vec![1, 2, 3] },
        TransactionOperation::Create {
            parent_ino: 1,
            name: b"node".to_vec(),
            uid: 1000,
            gid: 100,
            perm: 0o600,
            dev: Some(0x0801),
            file_type: DbfsFileType::BlockDevice,
        },
        TransactionOperation::Delete { parent_ino: 4, name: b"gone".to_vec() },
        TransactionOperation::Mkdir { parent_ino: 1, name: b"d".to_vec(), uid: 0, gid: 0, perm: 0o755 },
    ];
    for (i, op) in ops.iter().enumerate() {
        let bytes = encode_entry(i as u64, op).expect("fits a frame");
        let back = decode_entry(&bytes).expect("decodes");
        assert_eq!(back.txn_id, i as u64);
        assert_eq!(format!("{:?}", back.operation), format!("{:?}", op));
    }
    assert!(decode_entry(&[0u8; 68]).is_none());
    let mut bad_tag = encode_entry(1, &ops[2]).unwrap();
    bad_tag[8] = 99;
    assert!(decode_entry(&bad_tag).is_none());
    let huge = TransactionOperation::Write { ino: 1, offset: 0, data: vec![0u8; MIB] };
    assert!(encode_entry(1, &huge).is_none());
    let mut wal = WriteAheadLog::<MockStorage>::new();
    assert_eq!(wal.append(1, huge), Err(DbfsError::Invalid));
}

#[test]
fn transactions_are_numbered_from_one() {
    let mut tm = TransactionManager::<MockStorage>::new();
    assert_eq!(tm.begin_transaction().id, 1);
    assert_eq!(tm.begin_transaction().id, 2);
    let mut txn = Transaction::new(40);
    txn.record(TransactionOperation::Truncate { ino: 1, length: 0 });
    assert_eq!((txn.id, txn.ops.len()), (40, 1));
}

#[test]
fn commit_stops_at_first_failure() {
    let storage = MockStorage::new();
    let mut ctx = DbfsFsType::new("dbfs.db".to_string())
        .mount(RamDisk::new(33 * MIB), MetaStore::new(), Some(storage.clone()), now())
        .unwrap();
    let mut txn = ctx.tm.begin_transaction();
    txn.record(TransactionOperation::Mkdir { parent_ino: 1, name: b"a".to_vec(), uid: 0, gid: 0, perm: 0o755 });
    txn.record(TransactionOperation::Delete { parent_ino: 1, name: b"missing".to_vec() });
    txn.record(TransactionOperation::Mkdir { parent_ino: 1, name: b"b".to_vec(), uid: 0, gid: 0, perm: 0o755 });
    assert_eq!(ctx.tm.commit(txn, &mut ctx.engine, now()), Err(DbfsError::NoEntry));
    assert_eq!(dbfs_lookup(&ctx.engine, 1, b"a"), Ok(2));
    assert_eq!(dbfs_lookup(&ctx.engine, 1, b"b"), Err(DbfsError::NoEntry));
    assert_eq!(storage.data.lock().unwrap().len(), 0);
}

#[test]
fn mount_formats_and_refuses() {
    let fs = DbfsFsType::new("/tmp/demo.db".to_string());
    assert_eq!(fs.fs_name(), "dbfs");
    assert_eq!(fs.db_path(), "/tmp/demo.db");
    assert_eq!(DummyFsType { name: "other".to_string() }.fs_name(), "other");

    let small = fs.mount(RamDisk::new(4096), MetaStore::new(), None::<MockStorage>, now());
    assert!(matches!(small, Err(DbfsError::Invalid)));

    let mut wrong = MetaStore::new();
    wrong.set_superblock(SuperBlockRecord { magic: 1, block_size: 4096, disk_size: 0, continue_number: 2 });
    assert!(matches!(
        fs.mount(RamDisk::new(32 * MIB), wrong, None::<MockStorage>, now()),
        Err(DbfsError::Invalid)
    ));

    let ctx = fs.mount(RamDisk::new(32 * MIB), MetaStore::new(), None::<MockStorage>, now()).unwrap();
    let sb = ctx.engine.store().superblock().unwrap();
    assert_eq!(
        sb,
        SuperBlockRecord {
            magic: 0x4442_4653,
            block_size: 4096,
            disk_size: 32 * MIB as u64,
            continue_number: 2
        }
    );
    assert_eq!(DBFS_MAGIC, 0x4442_4653);
    let root = dbfs_get_attr(&ctx.engine, 1).unwrap();
    assert_eq!((root.mode, root.hard_links, root.kind), (0o040755, 2, DbfsFileType::Dir));
    assert_eq!(list_names(&ctx.engine, 1), vec![b".".to_vec(), b"..".to_vec()]);
    assert_eq!(dbfs_lookup(&ctx.engine, 1, b".."), Ok(1));
    assert_eq!(ctx.engine.log_cursor(), 32 * MIB as u64);
}

#[test]
fn remount_finds_data_and_cursor() {
    let fs = DbfsFsType::new("dbfs.db".to_string());
    let mut ctx = fs.mount(RamDisk::new(33 * MIB), MetaStore::new(), None::<MockStorage>, now()).unwrap();
    let ino = ctx.create(1, b"keep", DbfsFileType::File, 0, 0, 0o644, now()).unwrap();
    dbfs_write(&mut ctx.engine, ino, b"persisted", 0, now()).unwrap();
    assert_eq!(ctx.sync_fs(true), Ok(()));
    let sb = ctx.engine.store().superblock().unwrap();
    assert_eq!(sb.continue_number, 3);

    let (engine, _tm) = ctx.unmount();
    let (store, log) = engine.into_parts();
    assert!(TransactionEngine::consistent(&store, &log));
    let ctx = fs.mount(log.into_device(), store, None::<MockStorage>, now()).unwrap();
    assert_eq!(ctx.engine.log_cursor(), DB_RESERVED_SIZE + 9);
    assert_eq!(ctx.lookup(1, b"keep"), Ok(ino));
    let mut buf = [0u8; 9];
    assert_eq!(dbfs_read(&ctx.engine, ino, &mut buf, 0), Ok(9));
    assert_eq!(&buf, b"persisted");

    let mut beyond = MetaStore::new();
    beyond.set_superblock(sb);
    let mut far = file_record(2);
    far.extents.push(Extent { logical_off: 0, physical_ptr: 33 * MIB as u64, len: 1, crc: 0 });
    beyond.put_inode(far);
    assert!(!TransactionEngine::consistent(&beyond, &LogManager::new(RamDisk::new(33 * MIB), 33 * MIB as u64)));
    assert!(matches!(
        fs.mount(RamDisk::new(33 * MIB), beyond, None::<MockStorage>, now()),
        Err(DbfsError::Invalid)
    ));
}

#[test]
fn engine_primitives() {
    let mut ctx = mount_fresh(33 * MIB);
    assert_eq!(ctx.engine.allocate_inode(0o100644), Ok(2));
    assert_eq!(ctx.engine.allocate_inode(0o100644), Ok(3));
    assert_eq!(ctx.engine.delete_inode(3), Ok(()));
    assert_eq!(ctx.engine.allocate_inode(0o100644), Ok(3));
    assert_eq!(ctx.engine.delete_inode(9), Err(DbfsError::NoEntry));
    assert_eq!(ctx.engine.add_dentry(1, b"two", 2), Ok(()));
    assert_eq!(ctx.engine.lookup_dentry(1, b"two"), Ok(2));
    assert_eq!(ctx.engine.lookup_dentry(1, b"three"), Err(DbfsError::NoEntry));
    assert_eq!(ctx.engine.lookup_dentry(5, b"two"), Err(DbfsError::NoEntry));
    assert_eq!(ctx.engine.list_dentries(1, 2), Ok(Some((b"two".to_vec(), 2))));
    assert_eq!(ctx.engine.list_dentries(1, 3), Ok(None));
    assert_eq!(ctx.engine.list_dentries(8, 0), Ok(None));
    assert_eq!(ctx.engine.delete_dentry(1, b"two"), Ok(()));
    assert_eq!(ctx.engine.delete_dentry(1, b"two"), Err(DbfsError::NoEntry));

    let mut meta = ctx.engine.get_metadata(2).unwrap();
    assert_eq!((meta.nlink, meta.size, meta.mode), (1, 0, 0o100644));
    meta.nlink = 4;
    assert_eq!(ctx.engine.update_metadata(&meta), Ok(()));
    assert_eq!(ctx.engine.get_metadata(2).unwrap().nlink, 4);
    meta.extents.push(Extent { logical_off: 0, physical_ptr: DB_RESERVED_SIZE, len: 1, crc: 0 });
    assert_eq!(ctx.engine.update_metadata(&meta), Err(DbfsError::Invalid));
    meta.ino = 50;
    assert_eq!(ctx.engine.update_metadata(&meta), Err(DbfsError::NoEntry));
    assert!(matches!(ctx.engine.get_metadata(50), Err(DbfsError::NoEntry)));

    assert_eq!(ctx.engine.write_file_transactional(2, 3, b"abc", now()), Ok(()));
    let meta = ctx.engine.get_metadata(2).unwrap();
    let mut buf = [1u8; 8];
    assert_eq!(ctx.engine.read_from_log(&meta, 0, &mut buf), Ok(6));
    assert_eq!(&buf, b"\0\0\0abc\x01\x01");
    assert_eq!(ctx.engine.read_file(2, 4, &mut buf), Ok(2));
    assert_eq!(&buf[..2], b"bc");
    assert_eq!(ctx.engine.truncate_file(2, 4, now()), Ok(()));
    assert_eq!(ctx.engine.get_metadata(2).unwrap().extents[0].len, 1);
    assert_eq!(ctx.engine.truncate_file(2, 3, now()), Ok(()));
    assert_eq!(ctx.engine.get_metadata(2).unwrap().extents.len(), 0);
    assert_eq!(ctx.engine.truncate_file(77, 3, now()), Err(DbfsError::NoEntry));
    assert_eq!(ctx.engine.write_file_transactional(77, 0, b"abc", now()), Err(DbfsError::NoEntry));
    assert_eq!(
        ctx.engine.write_file_transactional(77, u64::MAX, b"abc", now()),
        Err(DbfsError::NoEntry)
    );
    assert_eq!(
        ctx.engine.write_file_transactional(2, u64::MAX, b"abc", now()),
        Err(DbfsError::Invalid)
    );
}

#[test]
fn root_inode_and_statistics() {
    let mut engine = TransactionEngine::new(MetaStore::new(), LogManager::new(RamDisk::new(8192), 4096));
    let made = DbfsTimeSpec { sec: 11, nsec: 12 };
    assert_eq!(dbfs_common_root_inode(&mut engine, 10, 20, made), Ok(1));
    let attr = dbfs_get_attr(&engine, 1).unwrap();
    assert_eq!((attr.uid, attr.gid, attr.hard_links, attr.mode), (10, 20, 2, 0o040755));
    assert_eq!(attr.atime, made);
    assert_eq!(dbfs_common_root_inode(&mut engine, 1, 2, now()), Ok(1));
    assert_eq!(dbfs_get_attr(&engine, 1).unwrap().uid, 10);
    assert_eq!(dbfs_common_umount(), Ok(()));

    let stat = dbfs_common_statfs(100, 40, 7, 3, 512).unwrap();
    assert_eq!((stat.f_bsize, stat.f_frsize, stat.f_blocks, stat.f_bfree, stat.f_bavail), (512, 512, 100, 40, 40));
    assert_eq!((stat.f_files, stat.f_ffree, stat.f_favail), (7, 3, 3));
    assert_eq!((stat.f_fsid, stat.f_flag, stat.f_namemax), (0x4442_4653, 0, 255));

    let stat = dbfs_statfs(&engine).unwrap();
    assert_eq!((stat.f_bsize, stat.f_blocks, stat.f_bfree, stat.f_files), (4096, 2, 1, 1));
}

#[test]
fn set_attr_changes_what_is_given() {
    let mut ctx = mount_fresh(33 * MIB);
    let ino = ctx.create(1, b"f", DbfsFileType::File, 1, 2, 0o644, now()).unwrap();
    ctx.write_at(ino, 0, b"0123456789", now()).unwrap();
    let later = DbfsTimeSpec { sec: 1_800_000_000, nsec: 0 };
    let touched = DbfsTimeSpec { sec: 5, nsec: 6 };
    let attr = DbfsSetAttr {
        mode: Some(0o040700),
        uid: Some(9),
        gid: None,
        size: Some(3),
        atime: Some(touched),
        mtime: None,
    };
    assert_eq!(ctx.set_attr(ino, attr, later), Ok(()));
    let got = ctx.get_attr(ino).unwrap();
    assert_eq!(got.mode, 0o100700);
    assert_eq!((got.uid, got.gid, got.size), (9, 2, 3));
    assert_eq!((got.atime, got.mtime, got.ctime), (touched, later, later));
    let mut buf = [0u8; 8];
    assert_eq!(ctx.read_at(ino, 0, &mut buf), Ok(3));
    assert_eq!(&buf[..3], b"012");

    let none = DbfsSetAttr { mode: None, uid: None, gid: None, size: None, atime: None, mtime: None };
    assert_eq!(dbfs_set_attr(&mut ctx.engine, 77, none, later), Err(DbfsError::NoEntry));
    let sized = DbfsSetAttr { size: Some(1), ..none };
    assert_eq!(dbfs_set_attr(&mut ctx.engine, 1, sized, later), Err(DbfsError::IsDir));
    assert_eq!(dbfs_set_attr(&mut ctx.engine, 1, none, later), Ok(()));
    assert_eq!(ctx.get_attr(1).unwrap().ctime, later);
}

#[test]
fn mounted_surface_and_statistics() {
    let storage = MockStorage::new();
    let mut ctx = DbfsFsType::new("dbfs.db".to_string())
        .mount(RamDisk::new(33 * MIB), MetaStore::new(), Some(storage.clone()), now())
        .unwrap();
    assert_eq!(ctx.replayed, 0);
    assert_eq!(ctx.root_inode(), 1);
    let d = ctx.mkdir(1, b"d", 0, 0, 0o755, now()).unwrap();
    let f = ctx.create(d, b"f", DbfsFileType::File, 0, 0, 0o644, now()).unwrap();
    assert_eq!(ctx.link(1, b"hard", f, now()), Ok(f));
    let s = ctx.symlink(1, b"soft", b"d/f", 0, 0, now()).unwrap();
    assert_eq!(ctx.lookup(1, b"soft"), Ok(s));
    let mut target = [0u8; 8];
    assert_eq!(ctx.readlink(s, &mut target), Ok(3));
    assert_eq!(&target[..3], b"d/f");
    assert_eq!(ctx.rename(d, b"f", 1, b"moved", 0, now()), Ok(()));
    assert_eq!(ctx.lookup(1, b"moved"), Ok(f));
    assert_eq!(ctx.write_at(f, 0, &[7u8; 5000], now()), Ok(5000));
    let entry = ctx.readdir(1, 2).unwrap().unwrap();
    assert_eq!((entry.name.as_slice(), entry.ino, entry.ty), (&b"d"[..], d, DbfsFileType::Dir));
    assert_eq!(ctx.unlink(1, b"d", now()), Err(DbfsError::IsDir));
    assert_eq!(ctx.rmdir(1, b"moved", now()), Err(DbfsError::NotDir));
    assert_eq!(ctx.rmdir(1, b"d", now()), Ok(()));
    assert_eq!(ctx.truncate(f, 4096, now()), Ok(()));
    assert_eq!(storage.data.lock().unwrap().len(), 0);
    assert!(*storage.written.lock().unwrap() > 0);

    let stat = ctx.stat_fs().unwrap();
    assert_eq!(stat.f_bsize, 4096);
    assert_eq!(stat.f_blocks, 33 * 256);
    assert_eq!(stat.f_bfree, (MIB as u64 - 5000) / 4096);
    assert_eq!(stat.f_files, 3);

    let (engine, tm) = ctx.unmount();
    assert_eq!(engine.store().superblock().unwrap().continue_number, 5);
    assert_eq!(tm.rollback(Transaction::new(1)), ());
    let mut numbers = engine.store().inode_numbers();
    numbers.sort();
    assert_eq!(numbers, vec![1, f, s]);
    assert_eq!(engine.store().dir_numbers(), vec![1]);
}

#[test]
fn logged_operations_take_transaction_numbers() {
    let mut ctx = mount_fresh(33 * MIB);
    assert_eq!(ctx.create(1, b"f", DbfsFileType::File, 0, 0, 0o644, now()), Ok(2));
    assert_eq!(ctx.mkdir(1, b"d", 0, 0, 0o755, now()), Ok(3));
    assert_eq!(ctx.unlink(1, b"d", now()), Err(DbfsError::IsDir));
    assert_eq!(ctx.rmdir(1, b"f", now()), Err(DbfsError::NotDir));
    assert_eq!(ctx.rename(1, b"f", 1, b"g", 0, now()), Ok(()));
    assert_eq!(ctx.truncate(2, 9, now()), Ok(()));
    assert_eq!(ctx.rmdir(1, b"d", now()), Ok(()));
    assert_eq!(ctx.unlink(1, b"g", now()), Ok(()));
    assert_eq!(ctx.tm.begin_transaction().id, 7);

    let huge = vec![b'n'; 2 * MIB];
    assert_eq!(ctx.create(1, &huge, DbfsFileType::File, 0, 0, 0o644, now()), Err(DbfsError::Invalid));
    assert_eq!(ctx.rename(1, &huge, 1, b"x", 0, now()), Err(DbfsError::Invalid));
    assert_eq!(ctx.unlink(1, &huge, now()), Err(DbfsError::Invalid));
    assert_eq!(ctx.tm.begin_transaction().id, 11);
    assert_eq!(list_names(&ctx.engine, 1), vec![b".".to_vec(), b"..".to_vec()]);
}
