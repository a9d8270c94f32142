//! The transaction engine: every change of a file's contents is first stored
//! in the data log and only then recorded in the file's inode.

use vstd::prelude::*;
use crate::bytes::{overlay, zero_prefix};
use crate::error::{DbfsError, DbfsResult};
use crate::log_manager::{crc32, crc32_spec, BlockDevice, LogManager};
use crate::models::{
    check_extents, extent_ok, extents_ok, DbfsTimeSpec, Extent, InodeMetadata, InodeView,
};
use crate::names::Dentry;
use crate::store::{MetaStore, StoreView};

verus! {

/// What the engine holds, as a mathematical value: the metadata store, the
/// bytes of the device, the cursor of the data log, and whether the device
/// is dependable.
pub struct FsView {
    pub store: StoreView,
    pub log: Seq<u8>,
    pub cursor: u64,
    /// Whether the device is a dependable one: whether it does what it is
    /// asked wherever that lies within its size.
    pub dependable: bool,
}

impl FsView {
    /// The state is in order: the directories are in byte order, every
    /// record is filed under its own number, the cursor is on the device, and
    /// no inode refers to log bytes at or above the cursor.
    pub open spec fn wf(self) -> bool {
        &&& self.store.dirs_sorted()
        &&& self.store.inos_match()
        &&& self.cursor <= self.log.len()
        &&& self.store.extents_within(self.cursor)
    }
}

/// The extent maps the file offset `p`.
pub open spec fn extent_covers(e: Extent, p: int) -> bool {
    e.logical_off <= p < e.logical_off + e.len
}

/// The byte of a file at offset `p`: that of the latest extent that maps
/// `p`, and zero where none does.
pub open spec fn file_byte(extents: Seq<Extent>, log: Seq<u8>, p: int) -> u8
    decreases extents.len(),
{
    if extents.len() == 0 {
        0u8
    } else if extent_covers(extents.last(), p) {
        log[extents.last().physical_ptr + (p - extents.last().logical_off)]
    } else {
        file_byte(extents.drop_last(), log, p)
    }
}

/// The `n` bytes of a file from offset `offset` on.
pub open spec fn file_bytes(extents: Seq<Extent>, log: Seq<u8>, offset: int, n: nat) -> Seq<u8> {
    Seq::new(n, |i: int| file_byte(extents, log, offset + i))
}

/// How many bytes a read of `want` bytes at `offset` yields from a file of
/// `size` bytes.
pub open spec fn read_len(size: u64, offset: u64, want: nat) -> nat {
    if offset >= size {
        0
    } else if want <= size - offset {
        want
    } else {
        (size - offset) as nat
    }
}

/// The checksum of `e` is that of the bytes that it refers to in `log`.
pub open spec fn checksum_holds(log: Seq<u8>, e: Extent) -> bool {
    e.physical_ptr + e.len <= log.len() && crc32_spec(
        log.subrange(e.physical_ptr as int, e.physical_ptr + e.len),
    ) == e.crc
}

/// The record of a newly allocated inode.
pub open spec fn new_inode(ino: u64, mode: u32) -> InodeView {
    let zero = DbfsTimeSpec { sec: 0, nsec: 0 };
    InodeView {
        ino,
        size: 0,
        mode,
        nlink: 1,
        uid: 0,
        gid: 0,
        atime: zero,
        mtime: zero,
        ctime: zero,
        extents: Seq::empty(),
        symlink_target: Seq::empty(),
    }
}

/// The record of a file that has gained the extent `e` at the time `now`:
/// the extent is the last of its extents, its size reaches at least to the
/// end of the extent, and its modification time is `now`.
pub open spec fn with_extent(m: InodeView, e: Extent, now: DbfsTimeSpec) -> InodeView {
    InodeView {
        size: if m.size >= e.logical_off + e.len {
            m.size
        } else {
            (e.logical_off + e.len) as u64
        },
        mtime: now,
        extents: m.extents.push(e),
        ..m
    }
}

/// The record of a file after `data` was written at `offset` and stored in
/// the log at `ptr`.
pub open spec fn written_inode(
    m: InodeView,
    offset: u64,
    ptr: u64,
    data: Seq<u8>,
    now: DbfsTimeSpec,
) -> InodeView {
    with_extent(
        m,
        Extent {
            logical_off: offset,
            physical_ptr: ptr,
            len: data.len() as u64,
            crc: crc32_spec(data),
        },
        now,
    )
}

/// Records in `meta` that the file has gained `extent` at the time `now`:
/// what the engine does to an inode once the payload of a write lies in the
/// data log at the place that the log manager returned.
pub fn record_write(meta: &mut InodeMetadata, extent: Extent, now: DbfsTimeSpec)
    requires
        extent.logical_off + extent.len <= u64::MAX,
    ensures
        final(meta)@ == with_extent(old(meta)@, extent, now),
{
    meta.extents.push(extent);
    let end = extent.logical_off + extent.len;
    if meta.size < end {
        meta.size = end;
    }
    meta.mtime = now;
    proof {
        assert(meta@ =~= with_extent(old(meta)@, extent, now));
    }
}

/// The extent cut off at file offset `new_size`. Its checksum stays that of
/// the payload as it was written.
pub open spec fn clip_extent(e: Extent, new_size: u64) -> Extent {
    if e.logical_off + e.len > new_size {
        Extent { len: (new_size - e.logical_off) as u64, ..e }
    } else {
        e
    }
}

/// The extents of a file cut down to `new_size` bytes: those that begin at
/// or after `new_size` are left out, one that reaches across it is cut off
/// there.
pub open spec fn truncate_extents(extents: Seq<Extent>, new_size: u64) -> Seq<Extent>
    decreases extents.len(),
{
    if extents.len() == 0 {
        Seq::empty()
    } else if extents.last().logical_off < new_size {
        truncate_extents(extents.drop_last(), new_size).push(clip_extent(extents.last(), new_size))
    } else {
        truncate_extents(extents.drop_last(), new_size)
    }
}

/// The record of a file after it was set to `new_size` bytes.
pub open spec fn truncated_inode(m: InodeView, new_size: u64, now: DbfsTimeSpec) -> InodeView {
    InodeView { size: new_size, mtime: now, extents: truncate_extents(m.extents, new_size), ..m }
}

/// Cutting extents down keeps them below the same limit of the log.
pub proof fn lemma_truncate_extents_ok(extents: Seq<Extent>, new_size: u64, limit: u64)
    requires
        extents_ok(extents, limit),
    ensures
        extents_ok(truncate_extents(extents, new_size), limit),
    decreases extents.len(),
{
    if extents.len() > 0 {
        let rest = extents.drop_last();
        assert forall|i: int| 0 <= i < rest.len() implies extent_ok(#[trigger] rest[i], limit) by {
            assert(rest[i] == extents[i]);
        }
        lemma_truncate_extents_ok(rest, new_size, limit);
        assert(extent_ok(extents[extents.len() - 1], limit));
    }
}

/// The error that refuses a write to inode `ino` before anything is stored,
/// if one does: `NoEntry` without a record, `Invalid` where the write would
/// end beyond the largest offset.
pub open spec fn engine_write_refusal(v: StoreView, ino: u64, offset: u64, len: nat) -> Option<
    DbfsError,
> {
    if !v.inodes.contains_key(ino) {
        Some(DbfsError::NoEntry)
    } else if offset + len > u64::MAX {
        Some(DbfsError::Invalid)
    } else {
        None
    }
}

/// How the state `post` after a write of `data` at `offset` into inode `ino`
/// stands to the state `pre` before it, given the error `refusal` that
/// refuses the write, if one does, and the write's result.
///
/// The device keeps its size, the cursor never moves back, and no byte below
/// the old cursor changes. A refused write changes nothing. A write that is
/// not refused succeeds wherever the device is dependable and the payload
/// fits between the cursor and the end of the device; where it fails, the
/// result is an `IoError` and the metadata are as they were. A write that
/// succeeds has stored `data` at the old cursor, moved the cursor past it,
/// and given the inode the record that `written_inode` states.
pub open spec fn write_effect(
    pre: FsView,
    post: FsView,
    ino: u64,
    offset: u64,
    data: Seq<u8>,
    now: DbfsTimeSpec,
    refusal: Option<DbfsError>,
    r: Result<(), DbfsError>,
) -> bool {
    &&& post.log.len() == pre.log.len()
    &&& post.dependable == pre.dependable
    &&& post.cursor >= pre.cursor
    &&& forall|i: int| 0 <= i < pre.cursor ==> post.log[i] == pre.log[i]
    &&& match refusal {
        Some(e) => r == Err::<(), DbfsError>(e) && post == pre,
        None => match r {
            Ok(()) => {
                &&& post.cursor == pre.cursor + data.len()
                &&& post.log.subrange(pre.cursor as int, post.cursor as int) == data
                &&& post.store == pre.store.with_inode(
                    written_inode(pre.store.inodes[ino], offset, pre.cursor, data, now),
                )
            },
            Err(e) => {
                &&& e == DbfsError::IoError
                &&& post.store == pre.store
                &&& !pre.dependable || pre.cursor + data.len() > pre.log.len()
            },
        },
    }
    &&& refusal is None && pre.cursor + data.len() > pre.log.len() ==> r is Err
}

/// The transaction engine: the metadata store and the data log.
pub struct TransactionEngine<D: BlockDevice> {
    store: MetaStore,
    log_manager: LogManager<D>,
}

impl<D: BlockDevice> View for TransactionEngine<D> {
    type V = FsView;

    closed spec fn view(&self) -> FsView {
        FsView {
            store: self.store@,
            log: self.log_manager.bytes(),
            cursor: self.log_manager.cursor(),
            dependable: self.log_manager.dependable(),
        }
    }
}

impl<D: BlockDevice> TransactionEngine<D> {
    /// The engine is in order: its store is well formed and its state is.
    pub closed spec fn wf(&self) -> bool {
        self.store.wf() && self@.wf()
    }

    /// The bytes that the device would hold after a loss of power.
    pub closed spec fn durable_log(&self) -> Seq<u8> {
        self.log_manager.durable()
    }

    /// The state of an engine that is in order is in order.
    pub proof fn lemma_wf(&self)
        requires
            self.wf(),
        ensures
            self@.wf(),
    {
    }

    /// Tells whether `store` and `log_manager` fit together: the cursor is on
    /// the device and every extent lies below it.
    pub fn consistent(store: &MetaStore, log_manager: &LogManager<D>) -> (ok: bool)
        requires
            store.wf(),
        ensures
            ok == (log_manager.cursor() <= log_manager.bytes().len() && store@.extents_within(
                log_manager.cursor(),
            )),
    {
        log_manager.next_append_pos() <= log_manager.capacity() && store.extents_within(
            log_manager.next_append_pos(),
        )
    }

    /// An engine on a store and a log that fit together.
    pub fn new(store: MetaStore, log_manager: LogManager<D>) -> (engine: Self)
        requires
            store.wf(),
            log_manager.cursor() <= log_manager.bytes().len(),
            store@.extents_within(log_manager.cursor()),
        ensures
            engine.wf(),
            engine.durable_log() == log_manager.durable(),
            engine@ == (FsView {
                store: store@,
                log: log_manager.bytes(),
                cursor: log_manager.cursor(),
                dependable: log_manager.dependable(),
            }),
    {
        proof {
            store.lemma_dirs_sorted();
        }
        Self { store, log_manager }
    }

    /// Takes the engine apart into its store and its data log, which fit
    /// together as `new` asks.
    pub fn into_parts(self) -> (parts: (MetaStore, LogManager<D>))
        requires
            self.wf(),
        ensures
            parts.0.wf(),
            parts.0@ == self@.store,
            parts.1.bytes() == self@.log,
            parts.1.durable() == self.durable_log(),
            parts.1.dependable() == self@.dependable,
            parts.1.cursor() == self@.cursor,
            parts.1.cursor() <= parts.1.bytes().len(),
            parts.0@.extents_within(parts.1.cursor()),
    {
        (self.store, self.log_manager)
    }

    /// The metadata store.
    pub fn store(&self) -> (store: &MetaStore)
        requires
            self.wf(),
        ensures
            store.wf(),
            store@ == self@.store,
    {
        &self.store
    }

    /// The offset at which the next payload goes into the data log.
    pub fn log_cursor(&self) -> (pos: u64)
        ensures
            pos == self@.cursor,
    {
        self.log_manager.next_append_pos()
    }

    /// The size of the device.
    pub fn device_size(&self) -> (size: u64)
        ensures
            size == self@.log.len(),
    {
        self.log_manager.capacity()
    }

    /// Writes the superblock.
    pub fn set_superblock(&mut self, sb: crate::store::SuperBlockRecord)
        requires
            old(self).wf(),
        ensures
            final(self).wf(),
            final(self).durable_log() == old(self).durable_log(),
            final(self)@ == (FsView {
                store: StoreView { sb: Some(sb), ..old(self)@.store },
                ..old(self)@
            }),
    {
        self.store.set_superblock(sb);
    }

    /// Stores `data` in the data log, makes it durable, and then records it
    /// in inode `ino` as the file's bytes from `offset` on: a new extent, the
    /// size raised to the end of the write where it was below, the
    /// modification time set to `now`. With success the device would hold
    /// the whole data log after a loss of power, so that no inode refers to
    /// bytes that are not durable.
    ///
    /// A write to an inode without record is refused as `NoEntry`, and one
    /// whose end would pass the largest offset as `Invalid`, before anything
    /// is stored. `write_effect` states the result for every input: on a
    /// dependable device a write that is not refused succeeds wherever the
    /// payload fits between the cursor and the end of the device. In every
    /// case of failure the metadata stay as they were, and no byte of the
    /// log below the old cursor ever changes.
    pub fn write_file_transactional(
        &mut self,
        ino: u64,
        offset: u64,
        data: &[u8],
        now: DbfsTimeSpec,
    ) -> (r: DbfsResult<()>)
        requires
            old(self).wf(),
        ensures
            final(self).wf(),
            write_effect(
                old(self)@,
                final(self)@,
                ino,
                offset,
                data@,
                now,
                engine_write_refusal(old(self)@.store, ino, offset, data@.len()),
                r,
            ),
            r is Ok ==> final(self).durable_log() == final(self)@.log,
    {
        if self.store.get_inode(ino).is_none() {
            return Err(DbfsError::NoEntry);
        }
        if data.len() as u64 > u64::MAX - offset {
            return Err(DbfsError::Invalid);
        }
        let (ptr, crc) = match self.log_manager.append_checksummed(data) {
            Ok(placed) => placed,
            Err(_) => {
                return Err(DbfsError::IoError);
            },
        };
        proof {
            Self::lemma_extents_below(old(self)@.store, old(self)@.cursor, self@.cursor);
        }
        match self.log_manager.flush() {
            Ok(()) => {},
            Err(_) => {
                return Err(DbfsError::IoError);
            },
        }
        proof {
            assert(self@.log.subrange(ptr as int, ptr + data@.len()) == data@);
        }
        let mut meta = match self.store.get_inode(ino) {
            Some(m) => m.duplicate(),
            None => {
                return Err(DbfsError::NoEntry);
            },
        };
        let extent = Extent { logical_off: offset, physical_ptr: ptr, len: data.len() as u64, crc };
        record_write(&mut meta, extent, now);
        proof {
            assert(meta@ =~= written_inode(old(self)@.store.inodes[ino], offset, ptr, data@, now));
            assert(extents_ok(meta@.extents, self@.cursor)) by {
                assert(extents_ok(old(self)@.store.inodes[ino].extents, self@.cursor));
            }
        }
        let ghost cursor = self@.cursor;
        let ghost before = self@.store;
        self.store.put_inode(meta);
        proof {
            self.store.lemma_dirs_sorted();
            assert forall|k: u64| self@.store.inodes.contains_key(k) implies extents_ok(
                #[trigger] self@.store.inodes[k].extents,
                cursor,
            ) by {
                if k != ino {
                    assert(before.inodes.contains_key(k));
                }
            }
        }
        Ok(())
    }

    /// Extents that lie below one limit of the log lie below every higher one.
    pub proof fn lemma_extents_below(store: StoreView, low: u64, high: u64)
        requires
            store.extents_within(low),
            low <= high,
        ensures
            store.extents_within(high),
    {
        assert forall|k: u64| store.inodes.contains_key(k) implies extents_ok(
            #[trigger] store.inodes[k].extents,
            high,
        ) by {
            let s = store.inodes[k].extents;
            assert(extents_ok(s, low));
            assert forall|i: int| 0 <= i < s.len() implies extent_ok(#[trigger] s[i], high) by {
                assert(extent_ok(s[i], low));
            }
        }
    }

    /// Reads the file of inode `ino` from `offset` on into the front of
    /// `buf`: see `read_from_log`. `NoEntry` where the inode has no record;
    /// on a dependable device the read of a file that has one succeeds.
    pub fn read_file(&self, ino: u64, offset: u64, buf: &mut [u8]) -> (r: DbfsResult<usize>)
        requires
            self.wf(),
        ensures
            final(buf)@.len() == old(buf)@.len(),
            match r {
                Ok(n) => {
                    &&& self@.store.inodes.contains_key(ino)
                    &&& n == read_len(self@.store.inodes[ino].size, offset, old(buf)@.len())
                    &&& final(buf)@.take(n as int) == file_bytes(
                        self@.store.inodes[ino].extents,
                        self@.log,
                        offset as int,
                        n as nat,
                    )
                    &&& final(buf)@.skip(n as int) == old(buf)@.skip(n as int)
                },
                Err(e) => {
                    &&& e == DbfsError::NoEntry || e == DbfsError::IoError
                    &&& e == DbfsError::NoEntry <==> !self@.store.inodes.contains_key(ino)
                },
            },
            self@.store.inodes.contains_key(ino) && (self@.dependable || read_len(
                self@.store.inodes[ino].size,
                offset,
                old(buf)@.len(),
            ) == 0) ==> r is Ok,
    {
        match self.store.get_inode(ino) {
            Some(meta) => {
                proof {
                    assert(extents_ok(self@.store.inodes[ino].extents, self@.cursor));
                }
                self.read_from_log(meta, offset, buf)
            },
            None => Err(DbfsError::NoEntry),
        }
    }

    /// Reads the file that `meta` describes from `offset` on into the front
    /// of `buf` and returns how many bytes were read: as many as `buf` holds,
    /// or as the file has from `offset` to its size, whichever is less. Each
    /// byte is that of the latest extent that maps its offset, and zero where
    /// none does. The rest of `buf` stays as it was.
    ///
    /// The read fails with an `IoError` only where the device fails or an
    /// extent reaches beyond it: on a dependable device, with extents that
    /// lie below the cursor of the log, it succeeds. The checksums of the
    /// extents are not examined: an extent that a truncation cut off still
    /// carries the checksum of its whole payload.
    pub fn read_from_log(&self, meta: &InodeMetadata, offset: u64, buf: &mut [u8]) -> (r:
        DbfsResult<usize>)
        ensures
            final(buf)@.len() == old(buf)@.len(),
            match r {
                Ok(n) => {
                    &&& n == read_len(meta.size, offset, old(buf)@.len())
                    &&& final(buf)@.take(n as int) == file_bytes(
                        meta@.extents,
                        self@.log,
                        offset as int,
                        n as nat,
                    )
                    &&& final(buf)@.skip(n as int) == old(buf)@.skip(n as int)
                },
                Err(e) => e == DbfsError::IoError,
            },
            read_len(meta.size, offset, old(buf)@.len()) == 0 ==> r is Ok,
            self@.dependable && self@.cursor <= self@.log.len() && extents_ok(
                meta@.extents,
                self@.cursor,
            ) ==> r is Ok,
    {
        if offset >= meta.size {
            proof {
                assert(buf@.take(0) =~= file_bytes(meta@.extents, self@.log, offset as int, 0));
            }
            return Ok(0);
        }
        let avail: u64 = meta.size - offset;
        let total = buf.len();
        let n: usize = if total as u64 <= avail {
            total
        } else {
            avail as usize
        };
        if n == 0 {
            proof {
                assert(buf@.take(0) =~= file_bytes(meta@.extents, self@.log, offset as int, 0));
            }
            return Ok(0);
        }
        zero_prefix(buf, n);
        let req_end: u64 = offset + n as u64;
        let ghost log = self@.log;
        let ghost extents = meta@.extents;
        let mut k: usize = 0;
        while k < meta.extents.len()
            invariant
                k <= meta.extents.len(),
                extents == meta@.extents,
                log == self@.log,
                0 < n <= total,
                total == buf@.len(),
                total == old(buf)@.len(),
                req_end == offset + n,
                req_end <= meta.size,
                forall|i: int|
                    0 <= i < n ==> buf@[i] == file_byte(extents.take(k as int), log, offset + i),
                forall|i: int| n <= i < total ==> buf@[i] == old(buf)@[i],
            decreases meta.extents.len() - k,
        {
            let e = meta.extents[k];
            proof {
                assert(extents.take(k + 1).last() == e);
                assert(extents.take(k + 1).drop_last() =~= extents.take(k as int));
            }
            if e.len > 0 && e.logical_off < req_end {
                let e_end: u64 = if e.len > u64::MAX - e.logical_off {
                    u64::MAX
                } else {
                    e.logical_off + e.len
                };
                if e_end > offset {
                    let start: u64 = if e.logical_off > offset {
                        e.logical_off
                    } else {
                        offset
                    };
                    let end: u64 = if e_end < req_end {
                        e_end
                    } else {
                        req_end
                    };
                    let skip: u64 = start - e.logical_off;
                    let count: usize = (end - start) as usize;
                    let at: usize = (start - offset) as usize;
                    if skip > u64::MAX - e.physical_ptr {
                        return Err(DbfsError::IoError);
                    }
                    let pos: u64 = e.physical_ptr + skip;
                    let mut piece: Vec<u8> = vec![0u8; count];
                    match self.log_manager.read_data(pos, piece.as_mut_slice()) {
                        Ok(_) => {},
                        Err(_) => {
                            return Err(DbfsError::IoError);
                        },
                    }
                    let ghost prior = buf@;
                    overlay(buf, at, piece.as_slice());
                    proof {
                        assert forall|i: int| 0 <= i < n implies buf@[i] == file_byte(
                            extents.take(k + 1),
                            log,
                            offset + i,
                        ) by {
                            if at <= i < at + count {
                                assert(extent_covers(e, offset + i));
                                assert(piece@[i - at] == log[pos + (i - at)]);
                            } else {
                                assert(!extent_covers(e, offset + i));
                                assert(buf@[i] == prior[i]);
                            }
                        }
                    }
                } else {
                    proof {
                        assert forall|i: int| 0 <= i < n implies buf@[i] == file_byte(
                            extents.take(k + 1),
                            log,
                            offset + i,
                        ) by {
                            assert(!extent_covers(e, offset + i));
                        }
                    }
                }
            } else {
                proof {
                    assert forall|i: int| 0 <= i < n implies buf@[i] == file_byte(
                        extents.take(k + 1),
                        log,
                        offset + i,
                    ) by {
                        assert(!extent_covers(e, offset + i));
                    }
                }
            }
            k = k + 1;
        }
        proof {
            assert(extents.take(k as int) =~= extents);
            assert(buf@.take(n as int) =~= file_bytes(extents, log, offset as int, n as nat));
            assert(buf@.skip(n as int) =~= old(buf)@.skip(n as int));
        }
        Ok(n)
    }

    /// Reads the bytes that `extent` refers to and tells whether their CRC-32
    /// is the checksum that the extent carries. An extent that reaches beyond
    /// the device does not pass. An `IoError` only where the device fails,
    /// which a dependable one does not, or the extent is longer than memory
    /// can address. An
    /// extent that a truncation has cut off carries the checksum of its
    /// whole payload, and so passes only by chance.
    pub fn check_extent(&self, extent: &Extent) -> (r: DbfsResult<bool>)
        ensures
            match r {
                Ok(holds) => holds == checksum_holds(self@.log, *extent),
                Err(e) => e == DbfsError::IoError && extent.physical_ptr + extent.len
                    <= self@.log.len() && (!self@.dependable || extent.len > usize::MAX),
            },
    {
        let size = self.log_manager.capacity();
        if extent.len > size || extent.physical_ptr > size - extent.len {
            return Ok(false);
        }
        if extent.len > usize::MAX as u64 {
            return Err(DbfsError::IoError);
        }
        let mut piece: Vec<u8> = vec![0u8; extent.len as usize];
        match self.log_manager.read_data(extent.physical_ptr, piece.as_mut_slice()) {
            Ok(_) => {},
            Err(e) => {
                return Err(e);
            },
        }
        proof {
            if extent.len == 0 {
                assert(piece@ =~= self@.log.subrange(
                    extent.physical_ptr as int,
                    extent.physical_ptr + extent.len,
                ));
            }
        }
        Ok(crc32(piece.as_slice()) == extent.crc)
    }

    /// Gives inode numbers out: creates the record of a new inode of mode
    /// `mode`, with one link, no bytes and no extents, and returns its
    /// number. That is one more than the largest number in use, at least 2,
    /// and at least the superblock's `continue_number`. Where no such number
    /// is left the result is an `IoError`.
    pub fn allocate_inode(&mut self, mode: u32) -> (r: DbfsResult<u64>)
        requires
            old(self).wf(),
        ensures
            final(self).wf(),
            match r {
                Ok(ino) => {
                    &&& ino == old(self)@.store.next_ino()
                    &&& !old(self)@.store.inodes.contains_key(ino)
                    &&& final(self)@ == (FsView {
                        store: old(self)@.store.with_inode(new_inode(ino, mode)),
                        ..old(self)@
                    })
                },
                Err(e) => {
                    &&& e == DbfsError::IoError
                    &&& old(self)@.store.next_ino() > u64::MAX
                    &&& final(self)@ == old(self)@
                },
            },
    {
        let max = self.store.max_ino();
        let after: u64 = if max >= 1 {
            if max == u64::MAX {
                return Err(DbfsError::IoError);
            }
            max + 1
        } else {
            2
        };
        let ino: u64 = match self.store.superblock() {
            Some(sb) => if sb.continue_number > after {
                sb.continue_number
            } else {
                after
            },
            None => after,
        };
        let zero = DbfsTimeSpec { sec: 0, nsec: 0 };
        let meta = InodeMetadata {
            ino,
            size: 0,
            mode,
            nlink: 1,
            uid: 0,
            gid: 0,
            atime: zero,
            mtime: zero,
            ctime: zero,
            extents: Vec::new(),
            symlink_target: Vec::new(),
        };
        proof {
            assert(meta@ =~= new_inode(ino, mode));
        }
        let ghost cursor = self@.cursor;
        let ghost before = self@.store;
        self.store.put_inode(meta);
        proof {
            self.store.lemma_dirs_sorted();
            assert forall|k: u64| self@.store.inodes.contains_key(k) implies extents_ok(
                #[trigger] self@.store.inodes[k].extents,
                cursor,
            ) by {
                if k != ino {
                    assert(before.inodes.contains_key(k));
                }
            }
        }
        Ok(ino)
    }

    /// Files `meta` as the record of an inode that has none yet. `EExist`
    /// where inode `meta.ino` has a record; `Invalid` where an extent of
    /// `meta` reaches to or above the cursor of the log, or maps file offsets
    /// beyond the largest one. On failure nothing changes.
    pub fn insert_metadata(&mut self, meta: &InodeMetadata) -> (r: DbfsResult<()>)
        requires
            old(self).wf(),
        ensures
            final(self).wf(),
            match r {
                Ok(()) => final(self)@ == (FsView {
                    store: old(self)@.store.with_inode(meta@),
                    ..old(self)@
                }),
                Err(e) => final(self)@ == old(self)@,
            },
            r == (if old(self)@.store.inodes.contains_key(meta.ino) {
                Err::<(), DbfsError>(DbfsError::EExist)
            } else if !extents_ok(meta@.extents, old(self)@.cursor) {
                Err::<(), DbfsError>(DbfsError::Invalid)
            } else {
                Ok::<(), DbfsError>(())
            }),
    {
        if self.store.get_inode(meta.ino).is_some() {
            return Err(DbfsError::EExist);
        }
        if !check_extents(&meta.extents, self.log_manager.next_append_pos()) {
            return Err(DbfsError::Invalid);
        }
        let ghost cursor = self@.cursor;
        let ghost before = self@.store;
        self.store.put_inode(meta.duplicate());
        proof {
            self.store.lemma_dirs_sorted();
            assert forall|k: u64| self@.store.inodes.contains_key(k) implies extents_ok(
                #[trigger] self@.store.inodes[k].extents,
                cursor,
            ) by {
                if k != meta.ino {
                    assert(before.inodes.contains_key(k));
                }
            }
        }
        Ok(())
    }

    /// Deletes directory `ino` with all its entries, where there is one.
    pub fn delete_directory(&mut self, ino: u64)
        requires
            old(self).wf(),
        ensures
            final(self).wf(),
            final(self)@ == (FsView { store: old(self)@.store.without_dir(ino), ..old(self)@ }),
    {
        let _ = self.store.dir_delete(ino);
        proof {
            self.store.lemma_dirs_sorted();
        }
    }

    /// Sets the entry `name` of directory `parent_ino` to `child_ino`. The
    /// directory comes into being where it did not exist.
    pub fn add_dentry(&mut self, parent_ino: u64, name: &[u8], child_ino: u64) -> (r: DbfsResult<
        (),
    >)
        requires
            old(self).wf(),
        ensures
            final(self).wf(),
            r is Ok,
            final(self)@ == (FsView {
                store: old(self)@.store.with_dentry(parent_ino, name@, child_ino),
                ..old(self)@
            }),
    {
        self.store.dir_put(parent_ino, name, child_ino);
        proof {
            self.store.lemma_dirs_sorted();
        }
        Ok(())
    }

    /// The inode that `name` names in directory `parent_ino`; `NoEntry` where
    /// the directory or the name is missing.
    pub fn lookup_dentry(&self, parent_ino: u64, name: &[u8]) -> (r: DbfsResult<u64>)
        requires
            self.wf(),
        ensures
            match r {
                Ok(ino) => self@.store.lookup(parent_ino, name@) == Some(ino),
                Err(e) => e == DbfsError::NoEntry && self@.store.lookup(parent_ino, name@) is None,
            },
    {
        match self.store.dir_get(parent_ino, name) {
            Some(ino) => Ok(ino),
            None => Err(DbfsError::NoEntry),
        }
    }

    /// The entry at place `start_index` of directory `parent_ino`, counted in
    /// byte order of the names, as its name and inode number; `None` where
    /// the directory is missing or has no more than `start_index` entries.
    pub fn list_dentries(&self, parent_ino: u64, start_index: usize) -> (r: DbfsResult<
        Option<(Vec<u8>, u64)>,
    >)
        requires
            self.wf(),
        ensures
            r is Ok,
            r matches Ok(found) && (found is Some <==> start_index < self@.store.entries(
                parent_ino,
            ).len()),
            r matches Ok(Some(e)) ==> e.0@ == self@.store.entries(parent_ino)[start_index as int].name
                && e.1 == self@.store.entries(parent_ino)[start_index as int].ino,
    {
        match self.store.dir_nth(parent_ino, start_index) {
            Some(entry) => {
                let Dentry { name, ino } = entry;
                Ok(Some((name, ino)))
            },
            None => Ok(None),
        }
    }

    /// Takes the entry `name` out of directory `parent_ino`; `NoEntry`, and
    /// no change, where the directory or the name is missing.
    pub fn delete_dentry(&mut self, parent_ino: u64, name: &[u8]) -> (r: DbfsResult<()>)
        requires
            old(self).wf(),
        ensures
            final(self).wf(),
            match r {
                Ok(()) => {
                    &&& old(self)@.store.lookup(parent_ino, name@) is Some
                    &&& final(self)@ == (FsView {
                        store: old(self)@.store.without_dentry(parent_ino, name@),
                        ..old(self)@
                    })
                },
                Err(e) => {
                    &&& e == DbfsError::NoEntry
                    &&& old(self)@.store.lookup(parent_ino, name@) is None
                    &&& final(self)@ == old(self)@
                },
            },
    {
        let removed = self.store.dir_remove(parent_ino, name);
        proof {
            self.store.lemma_dirs_sorted();
        }
        match removed {
            Some(_) => Ok(()),
            None => Err(DbfsError::NoEntry),
        }
    }

    /// Deletes the record of inode `ino` and, where it has one, its
    /// directory; `NoEntry`, and no change, where the inode has no record.
    pub fn delete_inode(&mut self, ino: u64) -> (r: DbfsResult<()>)
        requires
            old(self).wf(),
        ensures
            final(self).wf(),
            match r {
                Ok(()) => {
                    &&& old(self)@.store.inodes.contains_key(ino)
                    &&& final(self)@ == (FsView {
                        store: old(self)@.store.without_inode(ino).without_dir(ino),
                        ..old(self)@
                    })
                },
                Err(e) => {
                    &&& e == DbfsError::NoEntry
                    &&& !old(self)@.store.inodes.contains_key(ino)
                    &&& final(self)@ == old(self)@
                },
            },
    {
        if !self.store.remove_inode(ino) {
            proof {
                assert(self@.store.inodes =~= old(self)@.store.inodes);
            }
            return Err(DbfsError::NoEntry);
        }
        let _ = self.store.dir_delete(ino);
        proof {
            self.store.lemma_dirs_sorted();
        }
        Ok(())
    }

    /// Replaces the record of inode `meta.ino` by `meta`. `NoEntry` where the
    /// inode has no record; `Invalid` where an extent of `meta` reaches to or
    /// above the cursor of the log, or maps file offsets beyond the largest
    /// one. On failure nothing changes.
    pub fn update_metadata(&mut self, meta: &InodeMetadata) -> (r: DbfsResult<()>)
        requires
            old(self).wf(),
        ensures
            final(self).wf(),
            match r {
                Ok(()) => final(self)@ == (FsView {
                    store: old(self)@.store.with_inode(meta@),
                    ..old(self)@
                }),
                Err(e) => final(self)@ == old(self)@,
            },
            r == (if !old(self)@.store.inodes.contains_key(meta.ino) {
                Err::<(), DbfsError>(DbfsError::NoEntry)
            } else if !extents_ok(meta@.extents, old(self)@.cursor) {
                Err::<(), DbfsError>(DbfsError::Invalid)
            } else {
                Ok::<(), DbfsError>(())
            }),
    {
        if self.store.get_inode(meta.ino).is_none() {
            return Err(DbfsError::NoEntry);
        }
        if !check_extents(&meta.extents, self.log_manager.next_append_pos()) {
            return Err(DbfsError::Invalid);
        }
        let ghost cursor = self@.cursor;
        let ghost before = self@.store;
        self.store.put_inode(meta.duplicate());
        proof {
            self.store.lemma_dirs_sorted();
            assert forall|k: u64| self@.store.inodes.contains_key(k) implies extents_ok(
                #[trigger] self@.store.inodes[k].extents,
                cursor,
            ) by {
                if k != meta.ino {
                    assert(before.inodes.contains_key(k));
                }
            }
        }
        Ok(())
    }

    /// The record of inode `ino`; `NoEntry` where it has none.
    pub fn get_metadata(&self, ino: u64) -> (r: DbfsResult<InodeMetadata>)
        requires
            self.wf(),
        ensures
            match r {
                Ok(m) => self@.store.inodes.contains_key(ino) && m@ == self@.store.inodes[ino]
                    && m.ino == ino,
                Err(e) => e == DbfsError::NoEntry && !self@.store.inodes.contains_key(ino),
            },
    {
        match self.store.get_inode(ino) {
            Some(m) => Ok(m.duplicate()),
            None => Err(DbfsError::NoEntry),
        }
    }

    /// Sets the file of inode `ino` to `new_size` bytes and its modification
    /// time to `now`. Extents that begin at or after `new_size` leave the
    /// inode; one that reaches across it is cut off there and keeps its
    /// checksum. `NoEntry`, and no change, where the inode has no record.
    pub fn truncate_file(&mut self, ino: u64, new_size: u64, now: DbfsTimeSpec) -> (r: DbfsResult<
        (),
    >)
        requires
            old(self).wf(),
        ensures
            final(self).wf(),
            match r {
                Ok(()) => {
                    &&& old(self)@.store.inodes.contains_key(ino)
                    &&& final(self)@ == (FsView {
                        store: old(self)@.store.with_inode(
                            truncated_inode(old(self)@.store.inodes[ino], new_size, now),
                        ),
                        ..old(self)@
                    })
                },
                Err(e) => {
                    &&& e == DbfsError::NoEntry
                    &&& !old(self)@.store.inodes.contains_key(ino)
                    &&& final(self)@ == old(self)@
                },
            },
    {
        let mut meta = match self.store.get_inode(ino) {
            Some(m) => m.duplicate(),
            None => {
                return Err(DbfsError::NoEntry);
            },
        };
        let ghost extents = meta@.extents;
        let mut kept: Vec<Extent> = Vec::new();
        let mut k: usize = 0;
        while k < meta.extents.len()
            invariant
                k <= meta.extents.len(),
                extents == meta@.extents,
                kept@ == truncate_extents(extents.take(k as int), new_size),
            decreases meta.extents.len() - k,
        {
            let mut e = meta.extents[k];
            proof {
                assert(extents.take(k + 1).last() == e);
                assert(extents.take(k + 1).drop_last() =~= extents.take(k as int));
            }
            if e.logical_off < new_size {
                if e.len > new_size - e.logical_off {
                    e.len = new_size - e.logical_off;
                }
                kept.push(e);
            }
            k = k + 1;
        }
        proof {
            assert(extents.take(k as int) =~= extents);
            lemma_truncate_extents_ok(extents, new_size, self@.cursor);
        }
        meta.extents = kept;
        meta.size = new_size;
        meta.mtime = now;
        proof {
            assert(meta@ =~= truncated_inode(old(self)@.store.inodes[ino], new_size, now));
        }
        let ghost cursor = self@.cursor;
        let ghost before = self@.store;
        self.store.put_inode(meta);
        proof {
            self.store.lemma_dirs_sorted();
            assert forall|k: u64| self@.store.inodes.contains_key(k) implies extents_ok(
                #[trigger] self@.store.inodes[k].extents,
                cursor,
            ) by {
                if k != ino {
                    assert(before.inodes.contains_key(k));
                }
            }
        }
        Ok(())
    }
}

} // verus!
