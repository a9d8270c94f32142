//! What every mounted file system needs: the root directory and the
//! file-system statistics.

use vstd::prelude::*;
use crate::error::{DbfsError, DbfsResult};
use crate::fs::{dot, dot_name, dotdot, dotdot_name};
use crate::log_manager::BlockDevice;
use crate::models::{
    make_mode, mode_of, DbfsFileType, DbfsTimeSpec, InodeMetadata, InodeView, NAME_MAX, ROOT_INO,
};
use crate::store::{StoreView, DBFS_MAGIC};
use crate::tx_engine::{FsView, TransactionEngine};

verus! {

/// The permission bits of the root directory: `rwxr-xr-x`.
pub const ROOT_PERM: u32 = 0x1ED;

/// The block size that the statistics report where the superblock names
/// none.
pub const DEFAULT_BLOCK_SIZE: u32 = 4096;

/// The statistics of a file system.
#[derive(Clone, Copy, Debug, PartialEq, Eq, Structural)]
pub struct DbfsFsStat {
    pub f_bsize: u64,
    pub f_frsize: u64,
    pub f_blocks: u64,
    pub f_bfree: u64,
    pub f_bavail: u64,
    pub f_files: u64,
    pub f_ffree: u64,
    pub f_favail: u64,
    pub f_fsid: u64,
    pub f_flag: u64,
    pub f_namemax: u64,
}

/// The record of a root directory that belongs to `uid` and `gid` and was
/// made at `ctime`: a directory with two links.
pub open spec fn root_record(uid: u32, gid: u32, ctime: DbfsTimeSpec) -> InodeView {
    InodeView {
        ino: ROOT_INO,
        size: 0,
        mode: make_mode(DbfsFileType::Dir, ROOT_PERM),
        nlink: 2,
        uid,
        gid,
        atime: ctime,
        mtime: ctime,
        ctime,
        extents: Seq::empty(),
        symlink_target: Seq::empty(),
    }
}

/// The store with a root directory: as it is where inode 1 has a record,
/// and else with the record of a new root and a directory for it that holds
/// `.` and `..`, both naming the root.
pub open spec fn root_spec(v: StoreView, uid: u32, gid: u32, ctime: DbfsTimeSpec) -> StoreView {
    if v.inodes.contains_key(ROOT_INO) {
        v
    } else {
        v.with_inode(root_record(uid, gid, ctime)).without_dir(ROOT_INO).with_dentry(
            ROOT_INO,
            dot(),
            ROOT_INO,
        ).with_dentry(ROOT_INO, dotdot(), ROOT_INO)
    }
}

/// Makes sure that the file system has a root directory, creating inode 1
/// where it has no record, and returns the root's number, which is 1.
pub fn dbfs_common_root_inode<D: BlockDevice>(
    engine: &mut TransactionEngine<D>,
    uid: u32,
    gid: u32,
    ctime: DbfsTimeSpec,
) -> (r: DbfsResult<u64>)
    requires
        old(engine).wf(),
    ensures
        final(engine).wf(),
        r == Ok::<u64, DbfsError>(ROOT_INO),
        final(engine)@ == (FsView {
            store: root_spec(old(engine)@.store, uid, gid, ctime),
            ..old(engine)@
        }),
{
    if engine.get_metadata(ROOT_INO).is_ok() {
        return Ok(ROOT_INO);
    }
    let record = InodeMetadata {
        ino: ROOT_INO,
        size: 0,
        mode: mode_of(DbfsFileType::Dir, ROOT_PERM),
        nlink: 2,
        uid,
        gid,
        atime: ctime,
        mtime: ctime,
        ctime,
        extents: Vec::new(),
        symlink_target: Vec::new(),
    };
    proof {
        assert(record@ =~= root_record(uid, gid, ctime));
    }
    let _ = engine.insert_metadata(&record);
    engine.delete_directory(ROOT_INO);
    let dot = dot_name();
    let dotdot = dotdot_name();
    let _ = engine.add_dentry(ROOT_INO, dot.as_slice(), ROOT_INO);
    let _ = engine.add_dentry(ROOT_INO, dotdot.as_slice(), ROOT_INO);
    Ok(ROOT_INO)
}

/// Ends the use of a file system. Nothing is left to do: every operation
/// was committed when it returned.
pub fn dbfs_common_umount() -> (r: DbfsResult<()>)
    ensures
        r is Ok,
{
    Ok(())
}

/// The statistics of a file system with the given numbers of blocks and of
/// files, in all and free, and the given block size.
pub fn dbfs_common_statfs(
    total_blocks: u64,
    free_blocks: u64,
    total_files: u64,
    free_files: u64,
    block_size: u32,
) -> (r: DbfsResult<DbfsFsStat>)
    ensures
        r == Ok::<DbfsFsStat, DbfsError>(
            DbfsFsStat {
                f_bsize: block_size as u64,
                f_frsize: block_size as u64,
                f_blocks: total_blocks,
                f_bfree: free_blocks,
                f_bavail: free_blocks,
                f_files: total_files,
                f_ffree: free_files,
                f_favail: free_files,
                f_fsid: DBFS_MAGIC as u64,
                f_flag: 0,
                f_namemax: NAME_MAX as u64,
            },
        ),
{
    Ok(
        DbfsFsStat {
            f_bsize: block_size as u64,
            f_frsize: block_size as u64,
            f_blocks: total_blocks,
            f_bfree: free_blocks,
            f_bavail: free_blocks,
            f_files: total_files,
            f_ffree: free_files,
            f_favail: free_files,
            f_fsid: DBFS_MAGIC as u64,
            f_flag: 0,
            f_namemax: NAME_MAX as u64,
        },
    )
}

/// The block size that the statistics of a store report: that of its
/// superblock, or 4096 where it has none or names none.
pub open spec fn block_size_of(v: StoreView) -> u32 {
    match v.sb {
        Some(sb) => if sb.block_size > 0 {
            sb.block_size
        } else {
            DEFAULT_BLOCK_SIZE
        },
        None => DEFAULT_BLOCK_SIZE,
    }
}

/// The statistics of the file system on `engine`: the device in blocks, the
/// blocks between the cursor of the data log and the end of the device as
/// free, and the number of inodes as the number of files.
pub fn dbfs_statfs<D: BlockDevice>(engine: &TransactionEngine<D>) -> (r: DbfsResult<DbfsFsStat>)
    requires
        engine.wf(),
    ensures
        r matches Ok(stat) && {
            &&& stat.f_bsize == block_size_of(engine@.store)
            &&& stat.f_frsize == stat.f_bsize
            &&& stat.f_blocks == engine@.log.len() / stat.f_bsize as nat
            &&& stat.f_bfree == (engine@.log.len() - engine@.cursor) / stat.f_bsize as int
            &&& stat.f_bavail == stat.f_bfree
            &&& stat.f_files == engine@.store.inodes.dom().len()
            &&& stat.f_ffree == 0
            &&& stat.f_favail == 0
            &&& stat.f_fsid == DBFS_MAGIC
            &&& stat.f_flag == 0
            &&& stat.f_namemax == NAME_MAX
        },
{
    let block_size: u32 = match engine.store().superblock() {
        Some(sb) => if sb.block_size > 0 {
            sb.block_size
        } else {
            DEFAULT_BLOCK_SIZE
        },
        None => DEFAULT_BLOCK_SIZE,
    };
    proof {
        engine.lemma_wf();
    }
    let size = engine.device_size();
    let cursor = engine.log_cursor();
    let files = engine.store().inode_count();
    dbfs_common_statfs(
        size / block_size as u64,
        (size - cursor) / block_size as u64,
        files as u64,
        0,
        block_size,
    )
}

} // verus!
