//! Mounting: a device and a metadata store become a file system, formatted
//! where the store is new and recovered where a log was left.

use vstd::prelude::*;
use crate::codec::HEADER_LEN;
use crate::error::{DbfsError, DbfsResult};
use crate::fs::{
    create_spec, dbfs_get_attr, dbfs_link, dbfs_lookup, dbfs_read, dbfs_readdir, dbfs_readlink,
    dbfs_rmdir, dbfs_set_attr, dbfs_symlink, dbfs_unlink, dbfs_write, get_attr_spec, link_spec,
    lookup_spec, names_dir, read_outcome, readdir_outcome, readlink_outcome, rename_spec,
    rmdir_spec, set_attr_spec, truncate_spec, unlink_spec, write_outcome, DbfsAttr, DbfsDirEntry,
    DbfsSetAttr, SYMLINK_PERM,
};
use crate::fs_common::{
    block_size_of, dbfs_common_root_inode, dbfs_statfs, root_spec, DbfsFsStat,
    DEFAULT_BLOCK_SIZE,
};
use crate::laws::law_create_then_lookup;
use crate::log_manager::{BlockDevice, LogManager};
use crate::models::{copy_bytes, extents_ok, mode_is_dir, DbfsFileType, DbfsTimeSpec, ROOT_INO};

use crate::operation::{payload_len, TransactionOperation};
use crate::store::{MetaStore, StoreView, SuperBlockRecord, DBFS_MAGIC};
use crate::transaction::{
    is_replay_outcome, is_replay_trace, next_after, TransactionManager,
};
use crate::tx_engine::{FsView, TransactionEngine};
use crate::wal::{without_txn, EntryView, WalStorage};

verus! {

/// The part of the device that is kept for the pages of the metadata store:
/// 32 MiB. The data log begins behind it.
pub const DB_RESERVED_SIZE: u64 = 0x200_0000;

/// The superblock of a store that was formatted for a device of `disk_size`
/// bytes.
pub open spec fn fresh_superblock(disk_size: u64) -> SuperBlockRecord {
    SuperBlockRecord {
        magic: DBFS_MAGIC,
        block_size: DEFAULT_BLOCK_SIZE,
        disk_size,
        continue_number: 2,
    }
}

/// A store as formatting leaves it: a superblock, and a root directory made
/// at `now` that holds `.` and `..`.
pub open spec fn formatted_store(disk_size: u64, now: DbfsTimeSpec) -> StoreView {
    root_spec(
        StoreView {
            inodes: Map::empty(),
            dirs: Map::empty(),
            sb: Some(fresh_superblock(disk_size)),
        },
        0,
        0,
        now,
    )
}

/// The store that a mount works on: the given one where it is formatted,
/// with a root directory made at `now` where it has none; a newly formatted
/// one where it is not.
pub open spec fn mounted_store(v: StoreView, disk_size: u64, now: DbfsTimeSpec) -> StoreView {
    if v.sb is Some {
        root_spec(v, 0, 0, now)
    } else {
        formatted_store(disk_size, now)
    }
}

/// Why a store cannot be mounted on a device of `disk_size` bytes, if it
/// cannot: the device is smaller than the part kept for the metadata store;
/// or the store is formatted, and its superblock does not carry the file
/// system's identifier or one of its extents ends beyond the device.
pub open spec fn mount_refused(v: StoreView, disk_size: u64) -> bool {
    ||| disk_size < DB_RESERVED_SIZE
    ||| v.sb is Some && v.sb.unwrap().magic != DBFS_MAGIC
    ||| v.sb is Some && !v.extents_within(disk_size)
}

/// `cursor` is where the data log of `v` goes on: the least offset, at or
/// behind the part kept for the metadata store, below which every extent
/// lies.
pub open spec fn is_log_cursor(v: StoreView, cursor: u64) -> bool {
    &&& cursor >= DB_RESERVED_SIZE
    &&& v.extents_within(cursor)
    &&& cursor == DB_RESERVED_SIZE || !v.extents_within((cursor - 1) as u64)
}

/// The bytes of the storage that a mount is given for its write-ahead log,
/// if it is given one.
pub open spec fn wal_bytes<S: WalStorage>(wal_storage: Option<S>) -> Option<Seq<u8>> {
    match wal_storage {
        Some(w) => Some(w.contents()),
        None => None,
    }
}

/// Whether the storage that a mount is given for its write-ahead log is a
/// dependable one.
pub open spec fn wal_dependable<S: WalStorage>(wal_storage: Option<S>) -> bool {
    match wal_storage {
        Some(w) => w.dependable(),
        None => false,
    }
}

/// The capacity of the storage that a mount is given for its write-ahead
/// log.
pub open spec fn wal_capacity<S: WalStorage>(wal_storage: Option<S>) -> nat {
    match wal_storage {
        Some(w) => w.capacity(),
        None => 0,
    }
}

/// How a mount arrives at the state `post`: it starts from the store that
/// `mounted_store` gives, the bytes of the device and the cursor that
/// `is_log_cursor` singles out, and replays `entries` from the write-ahead
/// log that it was given.
pub open spec fn is_mount_outcome(
    v: StoreView,
    device: Seq<u8>,
    device_dependable: bool,
    wal: Option<Seq<u8>>,
    dependable: bool,
    cursor: u64,
    entries: Seq<EntryView>,
    states: Seq<FsView>,
    results: Seq<Result<(), DbfsError>>,
    post: FsView,
    replayed: usize,
    now: DbfsTimeSpec,
) -> bool {
    &&& replayed == entries.len()
    &&& is_log_cursor(mounted_store(v, device.len() as u64, now), cursor)
    &&& is_replay_outcome(
        wal,
        dependable,
        entries,
        states,
        results,
        FsView {
            store: mounted_store(v, device.len() as u64, now),
            log: device,
            cursor,
            dependable: device_dependable,
        },
        post,
        now,
    )
}

/// How the manager `after` a logged operation stands to the manager `before`
/// it: the operation took the next transaction number, its entries have
/// left the log again, and the log has its storage as before. Where no
/// entry awaits its checkpoint, a dependable storage is left empty, with the
/// next frame going to its start.
pub open spec fn logged_one<S: WalStorage>(
    before: TransactionManager<S>,
    after: TransactionManager<S>,
) -> bool {
    &&& after.next_id() == next_after(before.next_id())
    &&& after.log().pending() == without_txn(before.log().pending(), before.next_id())
    &&& after.log().stored() is Some <==> before.log().stored() is Some
    &&& after.log().dependable() == before.log().dependable()
    &&& after.log().capacity() == before.log().capacity()
    &&& after.log().pending().len() == 0 && before.log().dependable() ==> after.log().stored()
        == Some(Seq::<u8>::empty()) && after.log().end() == 0
}

/// The result `r` is that of a logged operation whose log could not be
/// written: the storing of the `need` bytes of its frame may fail, as
/// `WriteAheadLog::may_fail` says, the result is an `IoError`, and the file
/// system is as it was. A log without storage never gives this result, nor
/// does a log on a dependable storage that has room for the frame.
pub open spec fn storage_failed<S: WalStorage, T>(
    tm: TransactionManager<S>,
    need: nat,
    pre: FsView,
    post: FsView,
    r: Result<T, DbfsError>,
) -> bool {
    &&& tm.log().may_fail(need)
    &&& r matches Err(e) && e == DbfsError::IoError
    &&& post == pre
}

/// The state after a sync: the superblock's `continue_number` is the number
/// that the next inode gets, or the largest number where none is left. A
/// store without superblock stays as it is, and nothing else changes.
pub open spec fn synced(v: FsView) -> FsView {
    match v.store.sb {
        Some(sb) => FsView {
            store: StoreView {
                sb: Some(
                    SuperBlockRecord {
                        continue_number: if v.store.next_ino() <= u64::MAX {
                            v.store.next_ino() as u64
                        } else {
                            u64::MAX
                        },
                        ..sb
                    },
                ),
                ..v.store
            },
            ..v
        },
        None => v,
    }
}

/// The bytes that the frame of an operation takes in the log whose byte
/// strings have `strings` bytes in all: four for the length, the header, and
/// the strings.
pub open spec fn frame_need(strings: nat) -> nat {
    4 + HEADER_LEN as nat + strings
}

/// A mounted file system: the transaction engine and the transaction
/// manager, which every operation is handed.
pub struct FsContext<D: BlockDevice, S: WalStorage> {
    pub engine: TransactionEngine<D>,
    pub tm: TransactionManager<S>,
    /// How many entries of the write-ahead log the mount found and replayed.
    pub replayed: usize,
}

impl<D: BlockDevice, S: WalStorage> FsContext<D, S> {
    /// The file system is in order: its engine and its manager are.
    pub open spec fn wf(&self) -> bool {
        self.engine.wf() && self.tm.wf()
    }

    /// The number of the root directory's inode: 1.
    pub fn root_inode(&self) -> (ino: u64)
        ensures
            ino == ROOT_INO,
    {
        ROOT_INO
    }

    /// Persists the number that the next inode gets as the superblock's
    /// `continue_number`. Where no number is left the largest one is
    /// recorded. A store without superblock stays as it is. `synced` states
    /// the result.
    pub fn sync_fs(&mut self, _wait: bool) -> (r: DbfsResult<()>)
        requires
            old(self).wf(),
        ensures
            final(self).wf(),
            r is Ok,
            final(self).tm == old(self).tm,
            final(self).replayed == old(self).replayed,
            final(self).engine@ == synced(old(self).engine@),
            final(self).engine.durable_log() == old(self).engine.durable_log(),
    {
        match self.engine.store().superblock() {
            Some(sb) => {
                let max = self.engine.store().max_ino();
                let after: u64 = if max >= 1 {
                    if max == u64::MAX {
                        u64::MAX
                    } else {
                        max + 1
                    }
                } else {
                    2
                };
                let next = if sb.continue_number > after {
                    sb.continue_number
                } else {
                    after
                };
                self.engine.set_superblock(SuperBlockRecord { continue_number: next, ..sb });
            },
            None => {},
        }
        Ok(())
    }

    /// Ends the use of the file system: syncs it, as `sync_fs` does, and
    /// hands back the engine, in the state that `synced` gives, and the
    /// manager as it was.
    pub fn unmount(self) -> (r: (TransactionEngine<D>, TransactionManager<S>))
        requires
            self.wf(),
        ensures
            r.0.wf(),
            r.1.wf(),
            r.1 == self.tm,
            r.0@ == synced(self.engine@),
            r.0.durable_log() == self.engine.durable_log(),
    {
        let mut ctx = self;
        let _ = ctx.sync_fs(true);
        let FsContext { engine, tm, replayed: _ } = ctx;
        (engine, tm)
    }

    /// Looks `name` up in directory `parent`, as `dbfs_lookup` does.
    pub fn lookup(&self, parent: u64, name: &[u8]) -> (r: DbfsResult<u64>)
        requires
            self.wf(),
        ensures
            r == lookup_spec(self.engine@.store, parent, name@),
    {
        dbfs_lookup(&self.engine, parent, name)
    }

    /// The attributes of inode `ino`, as `dbfs_get_attr` gives them.
    pub fn get_attr(&self, ino: u64) -> (r: DbfsResult<DbfsAttr>)
        requires
            self.wf(),
        ensures
            r == get_attr_spec(self.engine@.store, ino),
    {
        dbfs_get_attr(&self.engine, ino)
    }

    /// Sets attributes of inode `ino`, as `dbfs_set_attr` does.
    pub fn set_attr(&mut self, ino: u64, attr: DbfsSetAttr, now: DbfsTimeSpec) -> (r: DbfsResult<()>)
        requires
            old(self).wf(),
        ensures
            final(self).wf(),
            final(self).tm == old(self).tm,
            final(self).engine@.log == old(self).engine@.log,
            final(self).engine@.cursor == old(self).engine@.cursor,
            final(self).engine@.dependable == old(self).engine@.dependable,
            match set_attr_spec(old(self).engine@.store, ino, attr, now) {
                Ok(store) => r is Ok && final(self).engine@.store == store,
                Err(e) => r == Err::<(), DbfsError>(e) && final(self).engine@ == old(self).engine@,
            },
    {
        dbfs_set_attr(&mut self.engine, ino, attr, now)
    }

    /// The entry at place `index` of directory `ino`, as `dbfs_readdir`
    /// gives it.
    pub fn readdir(&self, ino: u64, index: usize) -> (r: DbfsResult<Option<DbfsDirEntry>>)
        requires
            self.wf(),
        ensures
            readdir_outcome(self.engine@.store, ino, index, r),
    {
        dbfs_readdir(&self.engine, ino, index)
    }

    /// Reads the file of inode `ino` from `offset` on into the front of
    /// `buf`, as `dbfs_read` does.
    pub fn read_at(&self, ino: u64, offset: u64, buf: &mut [u8]) -> (r: DbfsResult<usize>)
        requires
            self.wf(),
        ensures
            read_outcome(self.engine@, ino, offset, old(buf)@, final(buf)@, r),
    {
        dbfs_read(&self.engine, ino, buf, offset)
    }

    /// Writes `buf` into the file of inode `ino` at `offset`, as
    /// `dbfs_write` does: the payload is stored and made durable, then the
    /// inode is changed in one step, so that with success the device would
    /// hold the whole data log after a loss of power. No write-ahead log is
    /// needed for that.
    pub fn write_at(&mut self, ino: u64, offset: u64, buf: &[u8], now: DbfsTimeSpec) -> (r: DbfsResult<
        usize,
    >)
        requires
            old(self).wf(),
        ensures
            final(self).wf(),
            final(self).tm == old(self).tm,
            r matches Ok(n) ==> n == buf@.len(),
            r is Ok ==> final(self).engine.durable_log() == final(self).engine@.log,
            write_outcome(
                old(self).engine@,
                final(self).engine@,
                ino,
                offset,
                buf@,
                now,
                match r {
                    Ok(_) => Ok(()),
                    Err(e) => Err(e),
                },
            ),
    {
        dbfs_write(&mut self.engine, ino, buf, offset, now)
    }

    /// Copies the target of the symbolic link `ino` into the front of
    /// `buf`, as `dbfs_readlink` does.
    pub fn readlink(&self, ino: u64, buf: &mut [u8]) -> (r: DbfsResult<usize>)
        requires
            self.wf(),
        ensures
            readlink_outcome(self.engine@.store, ino, old(buf)@, final(buf)@, r),
    {
        dbfs_readlink(&self.engine, ino, buf)
    }

    /// Creates a symbolic link called `name` in directory `parent` that
    /// points to `target`, as `dbfs_symlink` does.
    pub fn symlink(
        &mut self,
        parent: u64,
        name: &[u8],
        target: &[u8],
        uid: u32,
        gid: u32,
        now: DbfsTimeSpec,
    ) -> (r: DbfsResult<u64>)
        requires
            old(self).wf(),
        ensures
            final(self).wf(),
            final(self).tm == old(self).tm,
            final(self).engine@.log == old(self).engine@.log,
            final(self).engine@.cursor == old(self).engine@.cursor,
            final(self).engine@.dependable == old(self).engine@.dependable,
            match create_spec(
                old(self).engine@.store,
                parent,
                name@,
                DbfsFileType::Symlink,
                uid,
                gid,
                SYMLINK_PERM,
                now,
                target@,
            ) {
                Ok((store, ino)) => r == Ok::<u64, DbfsError>(ino) && final(self).engine@.store
                    == store,
                Err(e) => r == Err::<u64, DbfsError>(e) && final(self).engine@ == old(self).engine@,
            },
    {
        dbfs_symlink(&mut self.engine, parent, name, target, uid, gid, now)
    }

    /// Gives inode `src` the further name `name` in directory `new_parent`,
    /// as `dbfs_link` does.
    pub fn link(&mut self, new_parent: u64, name: &[u8], src: u64, now: DbfsTimeSpec) -> (r: DbfsResult<
        u64,
    >)
        requires
            old(self).wf(),
        ensures
            final(self).wf(),
            final(self).tm == old(self).tm,
            final(self).engine@.log == old(self).engine@.log,
            final(self).engine@.cursor == old(self).engine@.cursor,
            final(self).engine@.dependable == old(self).engine@.dependable,
            match link_spec(old(self).engine@.store, new_parent, name@, src, now) {
                Ok(store) => r == Ok::<u64, DbfsError>(src) && final(self).engine@.store == store,
                Err(e) => r == Err::<u64, DbfsError>(e) && final(self).engine@ == old(self).engine@,
            },
    {
        dbfs_link(&mut self.engine, new_parent, name, src, now)
    }

    /// The statistics of the file system, as `dbfs_statfs` gives them.
    pub fn stat_fs(&self) -> (r: DbfsResult<DbfsFsStat>)
        requires
            self.wf(),
        ensures
            r matches Ok(stat) && {
                &&& stat.f_bsize == block_size_of(self.engine@.store)
                &&& stat.f_blocks == self.engine@.log.len() / stat.f_bsize as nat
                &&& stat.f_bfree == (self.engine@.log.len() - self.engine@.cursor)
                    / stat.f_bsize as int
                &&& stat.f_files == self.engine@.store.inodes.dom().len()
            },
    {
        dbfs_statfs(&self.engine)
    }

    /// Creates a file of type `file_type` called `name` in directory
    /// `parent` as a logged transaction, which takes the next transaction
    /// number, and returns the number of the new inode. `create_spec` states
    /// the result for every input; only where the storing in the log may
    /// fail and does, as `storage_failed` says, the result is an `IoError`
    /// instead and the file system stays as it was.
    pub fn create(
        &mut self,
        parent: u64,
        name: &[u8],
        file_type: DbfsFileType,
        uid: u32,
        gid: u32,
        perm: u32,
        now: DbfsTimeSpec,
    ) -> (r: DbfsResult<u64>)
        requires
            old(self).wf(),
        ensures
            final(self).wf(),
            final(self).replayed == old(self).replayed,
            logged_one(old(self).tm, final(self).tm),
            final(self).engine@.log == old(self).engine@.log,
            final(self).engine@.cursor == old(self).engine@.cursor,
            final(self).engine@.dependable == old(self).engine@.dependable,
            storage_failed(
                old(self).tm,
                frame_need(name@.len()),
                old(self).engine@,
                final(self).engine@,
                r,
            )
                || match create_spec(
                old(self).engine@.store,
                parent,
                name@,
                file_type,
                uid,
                gid,
                perm,
                now,
                Seq::<u8>::empty(),
            ) {
                Ok((store, ino)) => r == Ok::<u64, DbfsError>(ino) && final(self).engine@.store
                    == store,
                Err(e) => r == Err::<u64, DbfsError>(e) && final(self).engine@ == old(self).engine@,
            },
    {
        let op = TransactionOperation::Create {
            parent_ino: parent,
            name: copy_bytes(name),
            uid,
            gid,
            perm,
            dev: None,
            file_type,
        };
        proof {
            old(self).engine.lemma_wf();
            if create_spec(
                old(self).engine@.store,
                parent,
                name@,
                file_type,
                uid,
                gid,
                perm,
                now,
                Seq::<u8>::empty(),
            ) is Ok {
                law_create_then_lookup(
                    old(self).engine@.store,
                    parent,
                    name@,
                    file_type,
                    uid,
                    gid,
                    perm,
                    now,
                    Seq::<u8>::empty(),
                );
            }
            assert(payload_len(op@) == HEADER_LEN + name@.len());
        }
        match self.tm.run(op, &mut self.engine, now) {
            Ok(()) => dbfs_lookup(&self.engine, parent, name),
            Err(e) => Err(e),
        }
    }

    /// Creates a directory called `name` in directory `parent` as a logged
    /// transaction, which takes the next transaction number, and returns the
    /// number of the new inode. `create_spec` states the result for every
    /// input; only where the storing in the log may fail and does, the
    /// result is an `IoError` instead and the file system stays as it was.
    pub fn mkdir(
        &mut self,
        parent: u64,
        name: &[u8],
        uid: u32,
        gid: u32,
        perm: u32,
        now: DbfsTimeSpec,
    ) -> (r: DbfsResult<u64>)
        requires
            old(self).wf(),
        ensures
            final(self).wf(),
            final(self).replayed == old(self).replayed,
            logged_one(old(self).tm, final(self).tm),
            final(self).engine@.log == old(self).engine@.log,
            final(self).engine@.cursor == old(self).engine@.cursor,
            final(self).engine@.dependable == old(self).engine@.dependable,
            storage_failed(
                old(self).tm,
                frame_need(name@.len()),
                old(self).engine@,
                final(self).engine@,
                r,
            )
                || match create_spec(
                old(self).engine@.store,
                parent,
                name@,
                DbfsFileType::Dir,
                uid,
                gid,
                perm,
                now,
                Seq::<u8>::empty(),
            ) {
                Ok((store, ino)) => r == Ok::<u64, DbfsError>(ino) && final(self).engine@.store
                    == store,
                Err(e) => r == Err::<u64, DbfsError>(e) && final(self).engine@ == old(self).engine@,
            },
    {
        let op = TransactionOperation::Mkdir {
            parent_ino: parent,
            name: copy_bytes(name),
            uid,
            gid,
            perm,
        };
        proof {
            old(self).engine.lemma_wf();
            if create_spec(
                old(self).engine@.store,
                parent,
                name@,
                DbfsFileType::Dir,
                uid,
                gid,
                perm,
                now,
                Seq::<u8>::empty(),
            ) is Ok {
                law_create_then_lookup(
                    old(self).engine@.store,
                    parent,
                    name@,
                    DbfsFileType::Dir,
                    uid,
                    gid,
                    perm,
                    now,
                    Seq::<u8>::empty(),
                );
            }
            assert(payload_len(op@) == HEADER_LEN + name@.len());
        }
        match self.tm.run(op, &mut self.engine, now) {
            Ok(()) => dbfs_lookup(&self.engine, parent, name),
            Err(e) => Err(e),
        }
    }

    fn names_directory(&self, parent: u64, name: &[u8]) -> (r: bool)
        requires
            self.wf(),
        ensures
            r == names_dir(self.engine@.store, parent, name@),
    {
        match dbfs_lookup(&self.engine, parent, name) {
            Ok(ino) => match self.engine.get_metadata(ino) {
                Ok(m) => mode_is_dir(m.mode),
                Err(_) => false,
            },
            Err(_) => false,
        }
    }

    /// Removes the name `name` from directory `parent`. A name that names a
    /// directory is refused at once, as `dbfs_unlink` refuses it, and no
    /// transaction is begun. Every other name is removed as a logged
    /// transaction, which takes the next transaction number: `unlink_spec`
    /// states the result for every input; only where the storing in the log
    /// may fail and does, as `storage_failed` says, the result is an `IoError` instead and the
    /// file system stays as it was.
    pub fn unlink(&mut self, parent: u64, name: &[u8], now: DbfsTimeSpec) -> (r: DbfsResult<()>)
        requires
            old(self).wf(),
        ensures
            final(self).wf(),
            final(self).replayed == old(self).replayed,
            if names_dir(old(self).engine@.store, parent, name@) {
                final(self).tm == old(self).tm
            } else {
                logged_one(old(self).tm, final(self).tm)
            },
            final(self).engine@.log == old(self).engine@.log,
            final(self).engine@.cursor == old(self).engine@.cursor,
            final(self).engine@.dependable == old(self).engine@.dependable,
            (!names_dir(old(self).engine@.store, parent, name@) && storage_failed(
                old(self).tm,
                frame_need(name@.len()),
                old(self).engine@,
                final(self).engine@,
                r,
            )) || match unlink_spec(old(self).engine@.store, parent, name@, now) {
                Ok(store) => r is Ok && final(self).engine@.store == store,
                Err(e) => r == Err::<(), DbfsError>(e) && final(self).engine@ == old(self).engine@,
            },
    {
        if self.names_directory(parent, name) {
            return dbfs_unlink(&mut self.engine, parent, name, now);
        }
        let op = TransactionOperation::Delete { parent_ino: parent, name: copy_bytes(name) };
        proof {
            assert(payload_len(op@) == HEADER_LEN + name@.len());
        }
        self.tm.run(op, &mut self.engine, now)
    }

    /// Removes the empty directory called `name` from directory `parent`. A
    /// name that names no directory is refused at once, as `dbfs_rmdir`
    /// refuses it, and no transaction is begun. A directory is removed as a
    /// logged transaction, which takes the next transaction number:
    /// `rmdir_spec` states the result for every input; only where the
    /// storing in the log may fail and does, as `storage_failed` says, the
    /// result is an `IoError` instead and the file system stays as it was.
    pub fn rmdir(&mut self, parent: u64, name: &[u8], now: DbfsTimeSpec) -> (r: DbfsResult<()>)
        requires
            old(self).wf(),
        ensures
            final(self).wf(),
            final(self).replayed == old(self).replayed,
            if names_dir(old(self).engine@.store, parent, name@) {
                logged_one(old(self).tm, final(self).tm)
            } else {
                final(self).tm == old(self).tm
            },
            final(self).engine@.log == old(self).engine@.log,
            final(self).engine@.cursor == old(self).engine@.cursor,
            final(self).engine@.dependable == old(self).engine@.dependable,
            (names_dir(old(self).engine@.store, parent, name@) && storage_failed(
                old(self).tm,
                frame_need(name@.len()),
                old(self).engine@,
                final(self).engine@,
                r,
            )) || match rmdir_spec(old(self).engine@.store, parent, name@) {
                Ok(store) => r is Ok && final(self).engine@.store == store,
                Err(e) => r == Err::<(), DbfsError>(e) && final(self).engine@ == old(self).engine@,
            },
    {
        if !self.names_directory(parent, name) {
            return dbfs_rmdir(&mut self.engine, parent, name);
        }
        let op = TransactionOperation::Delete { parent_ino: parent, name: copy_bytes(name) };
        proof {
            assert(payload_len(op@) == HEADER_LEN + name@.len());
        }
        self.tm.run(op, &mut self.engine, now)
    }

    /// Moves the entry `old_name` of `old_parent` to `new_name` in
    /// `new_parent`, replacing what `new_name` named, as a logged
    /// transaction, which takes the next transaction number. `rename_spec` states the result for every input;
    /// only where the storing in the log may fail and does, the result
    /// is an `IoError` instead and the file system stays as it was. The
    /// flags are not interpreted.
    pub fn rename(
        &mut self,
        old_parent: u64,
        old_name: &[u8],
        new_parent: u64,
        new_name: &[u8],
        _flags: u32,
        now: DbfsTimeSpec,
    ) -> (r: DbfsResult<()>)
        requires
            old(self).wf(),
        ensures
            final(self).wf(),
            final(self).replayed == old(self).replayed,
            logged_one(old(self).tm, final(self).tm),
            final(self).engine@.log == old(self).engine@.log,
            final(self).engine@.cursor == old(self).engine@.cursor,
            final(self).engine@.dependable == old(self).engine@.dependable,
            storage_failed(
                old(self).tm,
                frame_need(old_name@.len() + new_name@.len()),
                old(self).engine@,
                final(self).engine@,
                r,
            )
                || match rename_spec(
                old(self).engine@.store,
                old_parent,
                old_name@,
                new_parent,
                new_name@,
                now,
            ) {
                Ok(store) => r is Ok && final(self).engine@.store == store,
                Err(e) => r == Err::<(), DbfsError>(e) && final(self).engine@ == old(self).engine@,
            },
    {
        let op = TransactionOperation::Rename {
            old_parent_ino: old_parent,
            old_name: copy_bytes(old_name),
            new_parent_ino: new_parent,
            new_name: copy_bytes(new_name),
        };
        proof {
            assert(payload_len(op@) == HEADER_LEN + old_name@.len() + new_name@.len());
        }
        self.tm.run(op, &mut self.engine, now)
    }

    /// Sets the file of inode `ino` to `size` bytes as a logged transaction,
    /// which takes the next transaction number. `truncate_spec` states the
    /// result for every input; only where the storing in the log may fail and
    /// does, as `storage_failed` says, the result is an `IoError` instead and the file system
    /// stays as it was.
    pub fn truncate(&mut self, ino: u64, size: u64, now: DbfsTimeSpec) -> (r: DbfsResult<()>)
        requires
            old(self).wf(),
        ensures
            final(self).wf(),
            final(self).replayed == old(self).replayed,
            logged_one(old(self).tm, final(self).tm),
            final(self).engine@.log == old(self).engine@.log,
            final(self).engine@.cursor == old(self).engine@.cursor,
            final(self).engine@.dependable == old(self).engine@.dependable,
            storage_failed(
                old(self).tm,
                frame_need(0),
                old(self).engine@,
                final(self).engine@,
                r,
            )
                || match truncate_spec(old(self).engine@.store, ino, size, now) {
                Ok(store) => r is Ok && final(self).engine@.store == store,
                Err(e) => r == Err::<(), DbfsError>(e) && final(self).engine@ == old(self).engine@,
            },
    {
        let op = TransactionOperation::Truncate { ino, length: size };
        proof {
            assert(payload_len(op@) == HEADER_LEN as nat);
        }
        self.tm.run(op, &mut self.engine, now)
    }
}

/// The result `r` is that of mounting the store `v` on a device that holds
/// `device`, with the storage `wal_storage` for the write-ahead log.
///
/// A device holds no more than the 64-bit offsets address. The mount is
/// refused, as `Invalid`, exactly where `mount_refused` says so. Otherwise
/// the file system is in order, its device is the one given, the manager
/// begins with transaction 1 and no entry awaiting its checkpoint, the log
/// has the storage given, empty after the checkpoint or, where that failed
/// on a storage that is not dependable, as it was, and the state is what
/// `is_mount_outcome` says.
pub open spec fn is_mount_result<D: BlockDevice, S: WalStorage>(
    v: StoreView,
    device: Seq<u8>,
    device_dependable: bool,
    wal_storage: Option<S>,
    now: DbfsTimeSpec,
    r: Result<FsContext<D, S>, DbfsError>,
) -> bool {
    &&& device.len() <= u64::MAX
    &&& r is Err <==> mount_refused(v, device.len() as u64)
    &&& r matches Err(e) ==> e == DbfsError::Invalid
    &&& r matches Ok(ctx) ==> {
        &&& ctx.wf()
        &&& ctx.engine@.log.len() == device.len()
        &&& ctx.engine@.dependable == device_dependable
        &&& ctx.tm.next_id() == 1
        &&& ctx.tm.log().pending() == Seq::<EntryView>::empty()
        &&& ctx.tm.log().stored() is Some <==> wal_storage is Some
        &&& ctx.tm.log().dependable() == wal_dependable(wal_storage)
        &&& ctx.tm.log().capacity() == wal_capacity(wal_storage)
        &&& ctx.tm.log().stored() == wal_bytes(wal_storage) || (ctx.tm.log().stored() == Some(
            Seq::<u8>::empty(),
        ) && ctx.tm.log().end() == 0)
        &&& wal_dependable(wal_storage) ==> ctx.tm.log().stored() == Some(Seq::<u8>::empty())
            && ctx.tm.log().end() == 0
        &&& exists|
            cursor: u64,
            entries: Seq<EntryView>,
            states: Seq<FsView>,
            results: Seq<Result<(), DbfsError>>,
        | #[trigger]
            is_mount_outcome(
                v,
                device,
                device_dependable,
                wal_bytes(wal_storage),
                wal_dependable(wal_storage),
                cursor,
                entries,
                states,
                results,
                ctx.engine@,
                ctx.replayed,
                now,
            )
    }
}

/// The file-system type: what a host registers in order to mount file
/// systems of this kind.
pub struct DbfsFsType {
    db_path: String,
}

impl DbfsFsType {
    /// The path of the database that the file systems of this type keep
    /// their metadata in.
    pub closed spec fn path(&self) -> Seq<char> {
        self.db_path@
    }

    /// A file-system type for the database at `db_path`.
    pub fn new(db_path: String) -> (fs: Self)
        ensures
            fs.path() == db_path@,
    {
        Self { db_path }
    }

    /// The path of the database.
    pub fn db_path(&self) -> (path: &String)
        ensures
            path@ == self.path(),
    {
        &self.db_path
    }

    /// The name of the file-system type: `dbfs`.
    pub fn fs_name(&self) -> (name: String)
        ensures
            name@ == "dbfs"@,
    {
        "dbfs".to_owned()
    }

    /// Mounts a file system: `store` holds its metadata and `device` its
    /// data log; `wal_storage`, where there is one, holds the write-ahead
    /// log that the last use left.
    ///
    /// The mount is refused as `Invalid` exactly where `mount_refused` says
    /// so. A store without superblock is formatted: it is given one, and a
    /// root directory made at `now`; a formatted store that has lost its
    /// root is given a new one. The data log goes on at the least
    /// offset, at or behind the part kept for the metadata store, below
    /// which every extent lies. Then the write-ahead log is replayed, as
    /// `TransactionManager::replay` does it, and checkpointed: the storage
    /// of the log is left empty, or, where it is not dependable and its
    /// checkpoint failed, as it was.
    pub fn mount<D: BlockDevice, S: WalStorage>(
        &self,
        device: D,
        store: MetaStore,
        wal_storage: Option<S>,
        now: DbfsTimeSpec,
    ) -> (r: DbfsResult<FsContext<D, S>>)
        requires
            store.wf(),
        ensures
            is_mount_result(store@, device.contents(), device.dependable(), wal_storage, now, r),
    {
        let disk_size = device.size();
        if disk_size < DB_RESERVED_SIZE {
            return Err(DbfsError::Invalid);
        }
        let ghost given_view = store@;
        let formatted = store.superblock();
        let mut store = store;
        match formatted {
            Some(sb) => {
                if sb.magic != DBFS_MAGIC {
                    return Err(DbfsError::Invalid);
                }
            },
            None => {
                store = MetaStore::new();
                store.set_superblock(
                    SuperBlockRecord {
                        magic: DBFS_MAGIC,
                        block_size: DEFAULT_BLOCK_SIZE,
                        disk_size,
                        continue_number: 2,
                    },
                );
            },
        }
        let ghost given = store@;
        proof {
            if formatted is None {
                assert(given.extents_within(disk_size));
                assert(given.extents_within((DB_RESERVED_SIZE - 1) as u64));
            }
        }
        let cursor = match store.log_end(DB_RESERVED_SIZE) {
            Some(end) => end,
            None => {
                return Err(DbfsError::Invalid);
            },
        };
        proof {
            if formatted is None && cursor > DB_RESERVED_SIZE {
                TransactionEngine::<D>::lemma_extents_below(
                    given,
                    (DB_RESERVED_SIZE - 1) as u64,
                    (cursor - 1) as u64,
                );
            }
        }
        if cursor > disk_size {
            proof {
                if given.extents_within(disk_size) {
                    TransactionEngine::<D>::lemma_extents_below(
                        given,
                        disk_size,
                        (cursor - 1) as u64,
                    );
                }
            }
            return Err(DbfsError::Invalid);
        }
        proof {
            TransactionEngine::<D>::lemma_extents_below(given, cursor, disk_size);
        }
        let mut engine = TransactionEngine::new(store, LogManager::new(device, cursor));
        let _ = dbfs_common_root_inode(&mut engine, 0, 0, now);
        let ghost start = engine@;
        let ghost wal = wal_bytes(wal_storage);
        let ghost dependable = wal_dependable(wal_storage);
        proof {
            assert(start.store == mounted_store(given_view, disk_size, now));
            assert(start == (FsView {
                store: mounted_store(given_view, disk_size, now),
                log: device.contents(),
                cursor,
                dependable: device.dependable(),
            }));
            assert(is_log_cursor(start.store, cursor)) by {
                engine.lemma_wf();
                if cursor > DB_RESERVED_SIZE && start.store.extents_within((cursor - 1) as u64) {
                    assert forall|k: u64| given.inodes.contains_key(k) implies extents_ok(
                        #[trigger] given.inodes[k].extents,
                        (cursor - 1) as u64,
                    ) by {
                        assert(start.store.inodes.contains_key(k));
                        assert(start.store.inodes[k] == given.inodes[k]);
                    }
                }
            }
        }
        let mut tm: TransactionManager<S> = TransactionManager::new();
        let mut replayed: usize = 0;
        match wal_storage {
            Some(w) => {
                tm.set_wal_storage(w);
                let found = tm.replay(&mut engine, now);
                replayed = match found {
                    Ok(n) => n,
                    Err(_) => 0,
                };
                proof {
                    let (entries, states, results) = choose|
                        entries: Seq<EntryView>,
                        states: Seq<FsView>,
                        results: Seq<Result<(), DbfsError>>,
                    |
                        found matches Ok(n) && n == entries.len()
                            && #[trigger] is_replay_outcome(
                            wal,
                            dependable,
                            entries,
                            states,
                            results,
                            start,
                            engine@,
                            now,
                        );
                    assert(is_mount_outcome(
                        given_view,
                        device.contents(),
                        device.dependable(),
                        wal,
                        dependable,
                        cursor,
                        entries,
                        states,
                        results,
                        engine@,
                        replayed,
                        now,
                    ));
                }
            },
            None => {
                proof {
                    let states: Seq<FsView> = seq![start];
                    let results: Seq<Result<(), DbfsError>> = Seq::empty();
                    assert(is_replay_trace(
                        Seq::<EntryView>::empty(),
                        states,
                        results,
                        start,
                        engine@,
                        now,
                    ));
                    assert(is_mount_outcome(
                        given_view,
                        device.contents(),
                        device.dependable(),
                        wal,
                        dependable,
                        cursor,
                        Seq::<EntryView>::empty(),
                        states,
                        results,
                        engine@,
                        replayed,
                        now,
                    ));
                }
            },
        }
        let ghost reached = engine@;
        let ctx = FsContext { engine, tm, replayed };
        proof {
            assert(ctx.engine@ == reached && ctx.replayed == replayed);
        }
        Ok(ctx)
    }

    /// Mounts a file system on the device that the host names, as `mount`
    /// does. A mount without device is refused as `Invalid`.
    pub fn mount_device<D: BlockDevice, S: WalStorage>(
        &self,
        device: Option<D>,
        store: MetaStore,
        wal_storage: Option<S>,
        now: DbfsTimeSpec,
    ) -> (r: DbfsResult<FsContext<D, S>>)
        requires
            store.wf(),
        ensures
            match device {
                Some(d) => is_mount_result(
                    store@,
                    d.contents(),
                    d.dependable(),
                    wal_storage,
                    now,
                    r,
                ),
                None => r matches Err(e) && e == DbfsError::Invalid,
            },
    {
        match device {
            Some(d) => self.mount(d, store, wal_storage, now),
            None => Err(DbfsError::Invalid),
        }
    }
}

/// A file-system type that mounts nothing. It only carries a name.
pub struct DummyFsType {
    pub name: String,
}

impl DummyFsType {
    /// The name that the type carries.
    pub fn fs_name(&self) -> (name: String)
        ensures
            name@ == self.name@,
    {
        self.name.clone()
    }
}

} // verus!
