//! The write-ahead log: logical operations are framed, stored and made
//! durable before they are applied, and read back after a crash.

use vstd::prelude::*;
use vstd::bytes::{
    lemma_auto_spec_u32_to_from_le_bytes, spec_u32_from_le_bytes, spec_u32_to_le_bytes,
    u32_from_le_bytes, u32_to_le_bytes,
};
use crate::bytes::append_bytes;
use crate::codec::{
    decode_record, encode_record, lemma_encoded_len, lemma_raw_round_trip, HEADER_LEN,
};
use crate::error::{DbfsError, DbfsResult};
use crate::operation::{
    decode_op, encode_op, first_len, lemma_op_round_trip, raw_of, OpView, TransactionOperation,
};

verus! {

/// The largest payload that a frame may carry: 1 MiB.
pub const FRAME_MAX: u32 = 0x10_0000;

/// One recorded operation: the transaction that it belongs to and what it
/// does.
#[derive(Debug)]
pub struct WalEntry {
    pub txn_id: u64,
    pub operation: TransactionOperation,
}

/// A recorded operation as a mathematical value.
pub struct EntryView {
    pub txn_id: u64,
    pub operation: OpView,
}

impl View for WalEntry {
    type V = EntryView;

    open spec fn view(&self) -> EntryView {
        EntryView { txn_id: self.txn_id, operation: self.operation@ }
    }
}

/// The entries of a list as mathematical values.
pub open spec fn entries_view(entries: Seq<WalEntry>) -> Seq<EntryView> {
    entries.map_values(|e: WalEntry| e@)
}

/// Where the log is kept: a growing string of bytes that can be cut back.
pub trait WalStorage {
    /// The bytes that the storage holds. A storage that does not say what
    /// it holds is taken to hold nothing.
    open spec fn contents(&self) -> Seq<u8> {
        Seq::empty()
    }

    /// The bytes that the storage would hold after a loss of power: what has
    /// been made durable. A storage that does not say is taken to keep
    /// nothing.
    open spec fn durable(&self) -> Seq<u8> {
        Seq::empty()
    }

    /// Whether the storage does what it is asked: every read of bytes that
    /// it holds succeeds, every write that ends within its capacity, every
    /// cut to a length that it has, and every flush. A storage that
    /// promises nothing says no.
    open spec fn dependable(&self) -> bool {
        false
    }

    /// How many bytes the storage can hold, where it is a dependable one.
    open spec fn capacity(&self) -> nat {
        0
    }

    /// Stores `data` at `offset`, growing the storage to the end of `data`
    /// where that lies beyond its length. Whatever the outcome, the storage
    /// does not shrink and no byte before `offset` changes. A dependable
    /// storage stores whatever ends within its capacity.
    fn write(&mut self, offset: u64, data: &[u8]) -> (r: DbfsResult<()>)
        ensures
            final(self).dependable() == old(self).dependable(),
            final(self).capacity() == old(self).capacity(),
            old(self).dependable() && offset + data@.len() <= old(self).capacity() ==> r is Ok,
            r is Ok && offset + data@.len() >= old(self).contents().len() ==> final(self).contents().len() == offset + data@.len(),
            r is Ok && offset + data@.len() <= old(self).contents().len() ==> final(self).contents().len() == old(self).contents().len(),
            final(self).contents().len() >= old(self).contents().len(),
            forall|i: int|
                0 <= i < offset && i < old(self).contents().len() ==> final(self).contents()[i]
                    == old(self).contents()[i],
            r is Ok ==> offset + data@.len() <= final(self).contents().len()
                && final(self).contents().subrange(offset as int, offset + data@.len()) == data@,
    ;

    /// Fills `buf` with the bytes at `offset`. Fails where they do not all
    /// lie within the storage; on a dependable storage it fails nowhere
    /// else.
    fn read(&self, offset: u64, buf: &mut [u8]) -> (r: DbfsResult<()>)
        ensures
            final(buf)@.len() == old(buf)@.len(),
            self.dependable() && offset + old(buf)@.len() <= self.contents().len() ==> r is Ok,
            r is Ok ==> offset + old(buf)@.len() <= self.contents().len() && final(buf)@
                == self.contents().subrange(offset as int, offset + old(buf)@.len()),
    ;

    /// Cuts the storage back to its first `length` bytes. On failure the
    /// storage stays as it was. A dependable storage is cut to every length
    /// that it has.
    fn truncate(&mut self, length: u64) -> (r: DbfsResult<()>)
        ensures
            final(self).dependable() == old(self).dependable(),
            final(self).capacity() == old(self).capacity(),
            old(self).dependable() && length <= old(self).contents().len() ==> r is Ok,
            match r {
                Ok(()) => final(self).contents().len() == length && forall|i: int|
                    0 <= i < length && i < old(self).contents().len() ==> final(self).contents()[i]
                        == old(self).contents()[i],
                Err(_) => final(self).contents() == old(self).contents(),
            },
    ;

    /// Makes every earlier write durable: with success the storage would
    /// hold after a loss of power what it holds now. The bytes stay as they
    /// are.
    fn flush(&mut self) -> (r: DbfsResult<()>)
        ensures
            final(self).dependable() == old(self).dependable(),
            final(self).capacity() == old(self).capacity(),
            old(self).dependable() ==> r is Ok,
            final(self).contents() == old(self).contents(),
            r is Ok ==> final(self).durable() == final(self).contents(),
    ;
}

/// The frame that carries `payload`: its length as four little-endian bytes,
/// then the payload.
pub open spec fn frame_of(payload: Seq<u8>) -> Seq<u8> {
    spec_u32_to_le_bytes(payload.len() as u32) + payload
}

/// The payload length that the four bytes of a frame's head announce, if it
/// is one that a frame may have: at least 1 and at most 1 MiB.
pub open spec fn frame_len(head: Seq<u8>) -> Option<u32> {
    let size = spec_u32_from_le_bytes(head);
    if size == 0 || size > FRAME_MAX {
        None
    } else {
        Some(size)
    }
}

/// The entry that the frame at offset `at` of `bytes` holds, with the offset
/// at which the next frame begins; `None` where no whole, well-formed frame
/// lies there.
pub open spec fn frame_at(bytes: Seq<u8>, at: int) -> Option<(EntryView, int)> {
    if at < 0 || at + 4 > bytes.len() {
        None
    } else {
        match frame_len(bytes.subrange(at, at + 4)) {
            None => None,
            Some(size) => if at + 4 + size > bytes.len() {
                None
            } else {
                match decode_op(bytes.subrange(at + 4, at + 4 + size)) {
                    Some((txn_id, operation)) => Some(
                        (EntryView { txn_id, operation }, at + 4 + size),
                    ),
                    None => None,
                }
            },
        }
    }
}

/// The entries of the frames that fill `bytes` from offset `at` to offset
/// `end` exactly; `None` where no chain of frames does.
pub open spec fn frames_between(bytes: Seq<u8>, at: int, end: int) -> Option<Seq<EntryView>>
    decreases end - at,
{
    if at >= end {
        if at == end {
            Some(Seq::empty())
        } else {
            None
        }
    } else {
        match frame_at(bytes, at) {
            Some((entry, next)) => if at < next <= end {
                match frames_between(bytes, next, end) {
                    Some(rest) => Some(seq![entry] + rest),
                    None => None,
                }
            } else {
                None
            },
            None => None,
        }
    }
}

/// The chain of frames ends at offset `end`: no further frame can be read
/// there. A log that reaches to the end of the 64-bit offsets ends there in
/// any case.
pub open spec fn chain_ends(bytes: Seq<u8>, end: int) -> bool {
    frame_at(bytes, end) is None || end + 4 + FRAME_MAX > u64::MAX
}

/// A chain of frames that ends where a further frame begins is, with that
/// frame, a chain of one entry more.
pub proof fn lemma_frames_extend(bytes: Seq<u8>, at: int, mid: int, entry: EntryView, end: int)
    requires
        0 <= at <= mid,
        frames_between(bytes, at, mid) is Some,
        frame_at(bytes, mid) == Some((entry, end)),
    ensures
        frames_between(bytes, at, end) == Some(frames_between(bytes, at, mid).unwrap().push(entry)),
    decreases mid - at,
{
    if at == mid {
        assert(frames_between(bytes, end, end) == Some(Seq::<EntryView>::empty()));
        assert(seq![entry] + Seq::<EntryView>::empty() =~= Seq::<EntryView>::empty().push(entry));
    } else {
        let (first, next) = frame_at(bytes, at).unwrap();
        lemma_frames_extend(bytes, next, mid, entry, end);
        let rest = frames_between(bytes, next, mid).unwrap();
        assert(seq![first] + rest.push(entry) =~= (seq![first] + rest).push(entry));
    }
}

/// A chain of frames depends on the bytes before its end alone.
pub proof fn lemma_frames_stable(before: Seq<u8>, after: Seq<u8>, at: int, end: int)
    requires
        0 <= at,
        end <= before.len(),
        end <= after.len(),
        forall|i: int| 0 <= i < end ==> after[i] == before[i],
        frames_between(before, at, end) is Some,
    ensures
        frames_between(after, at, end) == frames_between(before, at, end),
    decreases end - at,
{
    if at < end {
        let (first, next) = frame_at(before, at).unwrap();
        assert(after.subrange(at, at + 4) =~= before.subrange(at, at + 4));
        assert(after.subrange(at + 4, next) =~= before.subrange(at + 4, next));
        lemma_frames_stable(before, after, next, end);
    }
}

/// The frame of an encoded entry, laid at offset `at`, is read back as that
/// entry.
pub proof fn lemma_frame_round_trip(bytes: Seq<u8>, at: int, entry: EntryView)
    requires
        0 <= at,
        first_len(entry.operation) <= u32::MAX,
        encode_op(entry.txn_id, entry.operation).len() <= FRAME_MAX,
        at + 4 + encode_op(entry.txn_id, entry.operation).len() <= bytes.len(),
        bytes.subrange(at, at + 4 + encode_op(entry.txn_id, entry.operation).len()) == frame_of(
            encode_op(entry.txn_id, entry.operation),
        ),
    ensures
        frame_at(bytes, at) == Some(
            (entry, at + 4 + encode_op(entry.txn_id, entry.operation).len()),
        ),
{
    let payload = encode_op(entry.txn_id, entry.operation);
    lemma_auto_spec_u32_to_from_le_bytes();
    lemma_op_round_trip(entry.txn_id, entry.operation);
    lemma_raw_round_trip(raw_of(entry.txn_id, entry.operation));
    let frame = frame_of(payload);
    let piece = bytes.subrange(at, at + 4 + payload.len());
    assert(bytes.subrange(at, at + 4) =~= piece.subrange(0, 4));
    assert(frame.subrange(0, 4) =~= spec_u32_to_le_bytes(payload.len() as u32));
    assert(bytes.subrange(at + 4, at + 4 + payload.len()) =~= piece.subrange(
        4,
        4 + payload.len() as int,
    ));
    assert(frame.subrange(4, 4 + payload.len() as int) =~= payload);
}

/// Builds the frame that carries `payload`: its length in four
/// little-endian bytes, then the payload.
pub fn frame_bytes(payload: &[u8]) -> (frame: Vec<u8>)
    requires
        payload@.len() <= FRAME_MAX,
    ensures
        frame@ == frame_of(payload@),
        frame@.len() == 4 + payload@.len(),
{
    let mut frame = u32_to_le_bytes(payload.len() as u32);
    append_bytes(&mut frame, payload);
    proof {
        assert(frame@ =~= frame_of(payload@));
    }
    frame
}

/// Reads the payload length out of the four bytes of a frame's head.
pub fn decode_frame_len(head: &[u8]) -> (r: Option<u32>)
    requires
        head@.len() == 4,
    ensures
        r == frame_len(head@),
{
    let size = u32_from_le_bytes(head);
    if size == 0 || size > FRAME_MAX {
        None
    } else {
        Some(size)
    }
}

/// Decodes the payload of a frame.
pub fn decode_entry(payload: &[u8]) -> (r: Option<WalEntry>)
    ensures
        match r {
            Some(e) => decode_op(payload@) == Some((e.txn_id, e.operation@)),
            None => decode_op(payload@) is None,
        },
{
    match decode_record(payload) {
        Some(raw) => {
            let txn_id = raw.txn_id;
            match TransactionOperation::from_raw(raw) {
                Some(operation) => Some(WalEntry { txn_id, operation }),
                None => None,
            }
        },
        None => None,
    }
}

/// Encodes an operation of transaction `txn_id` as the payload of a frame;
/// `None` where the payload would be longer than a frame may carry.
pub fn encode_entry(txn_id: u64, operation: &TransactionOperation) -> (r: Option<Vec<u8>>)
    ensures
        match r {
            Some(payload) => payload@ == encode_op(txn_id, operation@) && payload@.len()
                <= FRAME_MAX && first_len(operation@) <= u32::MAX,
            None => encode_op(txn_id, operation@).len() > FRAME_MAX,
        },
{
    let raw = operation.to_raw(txn_id);
    proof {
        lemma_encoded_len(raw@);
    }
    let limit: usize = FRAME_MAX as usize - HEADER_LEN;
    if raw.s1.len() > limit || raw.s2.len() > limit - raw.s1.len() {
        return None;
    }
    Some(encode_record(&raw))
}

/// The entries of `entries` that do not belong to transaction `txn_id`, in
/// their order.
pub open spec fn without_txn(entries: Seq<EntryView>, txn_id: u64) -> Seq<EntryView>
    decreases entries.len(),
{
    if entries.len() == 0 {
        Seq::empty()
    } else if entries.last().txn_id == txn_id {
        without_txn(entries.drop_last(), txn_id)
    } else {
        without_txn(entries.drop_last(), txn_id).push(entries.last())
    }
}

/// The write-ahead log: the entries that await their checkpoint, the storage
/// that keeps them, and the offset at which the next frame goes.
pub struct WriteAheadLog<S: WalStorage> {
    entries: Vec<WalEntry>,
    storage: Option<S>,
    next_offset: u64,
}

impl<S: WalStorage> WriteAheadLog<S> {
    /// The entries that await their checkpoint.
    pub closed spec fn pending(&self) -> Seq<EntryView> {
        entries_view(self.entries@)
    }

    /// The bytes of the storage, if the log has one.
    pub closed spec fn stored(&self) -> Option<Seq<u8>> {
        match self.storage {
            Some(s) => Some(s.contents()),
            None => None,
        }
    }

    /// The offset at which the next frame goes.
    pub closed spec fn end(&self) -> u64 {
        self.next_offset
    }

    /// The bytes that the storage would hold after a loss of power, if the
    /// log has a storage.
    pub closed spec fn durable(&self) -> Option<Seq<u8>> {
        match self.storage {
            Some(s) => Some(s.durable()),
            None => None,
        }
    }

    /// Whether the log has a storage all of whose reads within its bounds
    /// succeed.
    pub closed spec fn dependable(&self) -> bool {
        match self.storage {
            Some(s) => s.dependable(),
            None => false,
        }
    }

    /// A log that is dependable has a storage.
    pub proof fn lemma_dependable_has_storage(&self)
        ensures
            self.dependable() ==> self.stored() is Some,
    {
    }

    /// How many bytes the storage can hold, where the log has a dependable
    /// one.
    pub closed spec fn capacity(&self) -> nat {
        match self.storage {
            Some(s) => s.capacity(),
            None => 0,
        }
    }

    /// Whether the storing of `need` more bytes in the log may fail: whether
    /// the log has a storage, and that storage is not dependable or the
    /// bytes would end beyond its capacity or beyond the 64-bit offsets. A
    /// log without storage stores nothing and so does not fail.
    pub open spec fn may_fail(&self, need: nat) -> bool {
        &&& self.stored() is Some
        &&& !self.dependable() || self.end() + need > self.capacity() || self.end() + need
            > u64::MAX
    }

    /// The log is in order: where it has a storage, the bytes before the
    /// offset of the next frame are a chain of frames.
    pub open spec fn wf(&self) -> bool {
        match self.stored() {
            Some(bytes) => self.end() <= bytes.len() && frames_between(bytes, 0, self.end() as int)
                is Some,
            None => true,
        }
    }

    /// The entries that the storage holds in frames before the offset of the
    /// next frame: those that a recovery would find at least.
    pub open spec fn logged(&self) -> Seq<EntryView> {
        match self.stored() {
            Some(bytes) => frames_between(bytes, 0, self.end() as int).unwrap(),
            None => Seq::empty(),
        }
    }

    /// A log without storage and without entries.
    pub fn new() -> (log: Self)
        ensures
            log.wf(),
            log.pending() == Seq::<EntryView>::empty(),
            log.stored() is None,
            !log.dependable(),
            log.capacity() == 0,
            log.end() == 0,
    {
        let log = Self { entries: Vec::new(), storage: None, next_offset: 0 };
        proof {
            assert(log.pending() =~= Seq::<EntryView>::empty());
        }
        log
    }

    /// Gives the log its storage. Frames go to its start from now on; what
    /// it holds is found by `recover`.
    pub fn set_storage(&mut self, storage: S)
        ensures
            final(self).wf(),
            final(self).pending() == old(self).pending(),
            final(self).stored() == Some(storage.contents()),
            final(self).durable() == Some(storage.durable()),
            final(self).dependable() == storage.dependable(),
            final(self).capacity() == storage.capacity(),
            final(self).end() == 0,
    {
        self.storage = Some(storage);
        self.next_offset = 0;
    }

    /// Records operation `op` of transaction `txn_id`: its frame is stored
    /// at the end of the log, and the entry joins those that await their
    /// checkpoint. An operation whose payload would be longer than 1 MiB is
    /// refused as `Invalid`; a failure of the storage is an `IoError`, and
    /// comes only where `may_fail` says that it may. With success the
    /// storage holds at the old end of the log the frame of the operation:
    /// the length of its bytes in four little-endian bytes, then the bytes.
    /// On failure no entry is added. In either case the bytes stored before
    /// the old end stay.
    pub fn append(&mut self, txn_id: u64, op: TransactionOperation) -> (r: DbfsResult<()>)
        requires
            old(self).wf(),
        ensures
            final(self).wf(),
            final(self).stored() is Some <==> old(self).stored() is Some,
            final(self).dependable() == old(self).dependable(),
            final(self).capacity() == old(self).capacity(),
            match r {
                Ok(()) => {
                    &&& encode_op(txn_id, op@).len() <= FRAME_MAX
                    &&& final(self).pending() == old(self).pending().push(
                        EntryView { txn_id, operation: op@ },
                    )
                    &&& old(self).stored() is Some ==> final(self).logged() == old(self).logged().push(
                        EntryView { txn_id, operation: op@ },
                    ) && final(self).end() == old(self).end() + 4 + encode_op(txn_id, op@).len()
                    &&& old(self).stored() matches Some(before) ==> {
                        let after = final(self).stored().unwrap();
                        let frame = frame_of(encode_op(txn_id, op@));
                        &&& after.subrange(
                            old(self).end() as int,
                            old(self).end() + frame.len(),
                        ) == frame
                        &&& after.len() == (if old(self).end() + frame.len() >= before.len() {
                            old(self).end() + frame.len()
                        } else {
                            before.len() as int
                        })
                    }
                    &&& old(self).stored() is None ==> final(self).end() == old(self).end()
                },
                Err(e) => {
                    &&& final(self).pending() == old(self).pending()
                    &&& final(self).logged() == old(self).logged()
                    &&& final(self).end() == old(self).end()
                    &&& e == DbfsError::Invalid || e == DbfsError::IoError
                    &&& e == DbfsError::Invalid <==> encode_op(txn_id, op@).len() > FRAME_MAX
                    &&& e == DbfsError::IoError ==> old(self).may_fail(
                        4 + encode_op(txn_id, op@).len(),
                    )
                },
            },
            old(self).stored() matches Some(before) ==> forall|i: int|
                0 <= i < old(self).end() ==> final(self).stored().unwrap()[i] == before[i],
    {
        let payload = match encode_entry(txn_id, &op) {
            Some(p) => p,
            None => {
                return Err(DbfsError::Invalid);
            },
        };
        let entry = WalEntry { txn_id, operation: op };
        let at = self.next_offset;
        match &mut self.storage {
            Some(storage) => {
                let ghost before = storage.contents();
                let frame = frame_bytes(payload.as_slice());
                if frame.len() as u64 > u64::MAX - at {
                    return Err(DbfsError::IoError);
                }
                match storage.write(at, frame.as_slice()) {
                    Ok(()) => {
                        proof {
                            let after = storage.contents();
                            lemma_frames_stable(before, after, 0, at as int);
                            assert(frame@ =~= frame_of(payload@));
                            lemma_frame_round_trip(after, at as int, entry@);
                            lemma_frames_extend(
                                after,
                                0,
                                at as int,
                                entry@,
                                at + 4 + payload@.len(),
                            );
                        }
                        self.next_offset = at + frame.len() as u64;
                    },
                    Err(_) => {
                        proof {
                            lemma_frames_stable(before, storage.contents(), 0, at as int);
                        }
                        return Err(DbfsError::IoError);
                    },
                }
            },
            None => {},
        }
        let ghost earlier = self.entries@;
        self.entries.push(entry);
        proof {
            assert(entries_view(self.entries@) =~= entries_view(earlier).push(entry@));
        }
        Ok(())
    }

    /// Makes every frame stored so far durable: with success the storage
    /// would hold after a loss of power all that it holds now, and so every
    /// entry that the log holds. Nothing else changes. A log without storage
    /// has nothing to make durable and does not fail, nor does a log on a
    /// dependable storage; a failure of the storage is an `IoError`.
    pub fn flush(&mut self) -> (r: DbfsResult<()>)
        requires
            old(self).wf(),
        ensures
            final(self).wf(),
            final(self).pending() == old(self).pending(),
            final(self).stored() == old(self).stored(),
            final(self).dependable() == old(self).dependable(),
            final(self).capacity() == old(self).capacity(),
            final(self).end() == old(self).end(),
            r is Ok ==> final(self).durable() == final(self).stored(),
            old(self).stored() is None || old(self).dependable() ==> r is Ok,
            r matches Err(e) ==> e == DbfsError::IoError,
    {
        match &mut self.storage {
            Some(storage) => match storage.flush() {
                Ok(()) => Ok(()),
                Err(_) => Err(DbfsError::IoError),
            },
            None => Ok(()),
        }
    }

    /// Reads the storage from its start, frame by frame, and returns the
    /// entries found, in their order. The reading ends at the first place
    /// where no whole, well-formed frame can be read: a frame that a crash
    /// cut short counts as absent. The next frame will go where the reading
    /// ended. The entries that await their checkpoint are not touched.
    pub fn recover(&mut self) -> (r: DbfsResult<Vec<WalEntry>>)
        ensures
            final(self).wf(),
            final(self).pending() == old(self).pending(),
            final(self).stored() == old(self).stored(),
            final(self).dependable() == old(self).dependable(),
            final(self).capacity() == old(self).capacity(),
            r is Ok,
            r matches Ok(found) && entries_view(found@) == final(self).logged(),
            final(self).dependable() ==> chain_ends(
                final(self).stored().unwrap(),
                final(self).end() as int,
            ),
    {
        let mut found: Vec<WalEntry> = Vec::new();
        let mut offset: u64 = 0;
        proof {
            assert(entries_view(found@) =~= Seq::<EntryView>::empty());
        }
        match &self.storage {
            Some(storage) => {
                let ghost bytes = storage.contents();
                loop
                    invariant
                        bytes == storage.contents(),
                        offset <= bytes.len(),
                        frames_between(bytes, 0, offset as int) == Some(entries_view(found@)),
                    ensures
                        storage.dependable() ==> chain_ends(bytes, offset as int),
                    decreases bytes.len() - offset,
                {
                    let mut head: Vec<u8> = vec![0u8; 4];
                    match storage.read(offset, head.as_mut_slice()) {
                        Ok(()) => {},
                        Err(_) => {
                            break ;
                        },
                    }
                    let size = match decode_frame_len(head.as_slice()) {
                        Some(size) => size,
                        None => {
                            break ;
                        },
                    };
                    if offset > u64::MAX - 4 - size as u64 {
                        break ;
                    }
                    let mut payload: Vec<u8> = vec![0u8; size as usize];
                    match storage.read(offset + 4, payload.as_mut_slice()) {
                        Ok(()) => {},
                        Err(_) => {
                            break ;
                        },
                    }
                    let entry = match decode_entry(payload.as_slice()) {
                        Some(entry) => entry,
                        None => {
                            break ;
                        },
                    };
                    proof {
                        assert(frame_at(bytes, offset as int) == Some(
                            (entry@, offset + 4 + size),
                        ));
                        lemma_frames_extend(bytes, 0, offset as int, entry@, offset + 4 + size);
                        assert(entries_view(found@.push(entry)) =~= entries_view(found@).push(
                            entry@,
                        ));
                    }
                    found.push(entry);
                    offset = offset + 4 + size as u64;
                }
            },
            None => {},
        }
        self.next_offset = offset;
        Ok(found)
    }

    /// Drops the entries of transaction `txn_id` from those that await their
    /// checkpoint. Once none is left the log is checkpointed; a failure of
    /// that is not reported, and leaves the storage as it was. On a
    /// dependable storage the checkpoint does not fail.
    pub fn clear_txn(&mut self, txn_id: u64)
        requires
            old(self).wf(),
        ensures
            final(self).wf(),
            final(self).pending() == without_txn(old(self).pending(), txn_id),
            final(self).stored() is Some <==> old(self).stored() is Some,
            final(self).dependable() == old(self).dependable(),
            final(self).capacity() == old(self).capacity(),
            final(self).pending().len() > 0 ==> final(self).stored() == old(self).stored()
                && final(self).end() == old(self).end(),
            final(self).pending().len() == 0 ==> (final(self).stored() == old(self).stored()
                && final(self).end() == old(self).end()) || (final(self).stored() == Some(
                Seq::<u8>::empty(),
            ) && final(self).end() == 0),
            final(self).pending().len() == 0 && old(self).dependable() ==> final(self).stored()
                == Some(Seq::<u8>::empty()) && final(self).end() == 0,
    {
        let ghost before = entries_view(self.entries@);
        let mut kept: Vec<WalEntry> = Vec::new();
        proof {
            assert(entries_view(kept@) =~= Seq::<EntryView>::empty());
            assert(before.take(0) =~= Seq::<EntryView>::empty());
        }
        let mut i: usize = 0;
        while i < self.entries.len()
            invariant
                i <= self.entries@.len(),
                before == entries_view(self.entries@),
                entries_view(kept@) == without_txn(before.take(i as int), txn_id),
            decreases self.entries@.len() - i,
        {
            let e = &self.entries[i];
            proof {
                assert(before.take(i + 1).last() == e@);
                assert(before.take(i + 1).drop_last() =~= before.take(i as int));
            }
            if e.txn_id != txn_id {
                let copy = WalEntry { txn_id: e.txn_id, operation: e.operation.duplicate() };
                proof {
                    assert(entries_view(kept@.push(copy)) =~= entries_view(kept@).push(copy@));
                }
                kept.push(copy);
            }
            i = i + 1;
        }
        proof {
            assert(before.take(i as int) =~= before);
        }
        self.entries = kept;
        if self.entries.len() == 0 {
            let _ = self.checkpoint();
        }
    }

    /// Empties the storage and sends the next frame to its start. Without a
    /// storage nothing happens. Where the storage fails the result is an
    /// `IoError` and nothing changes.
    pub fn checkpoint(&mut self) -> (r: DbfsResult<()>)
        requires
            old(self).wf(),
        ensures
            final(self).wf(),
            final(self).pending() == old(self).pending(),
            final(self).dependable() == old(self).dependable(),
            final(self).capacity() == old(self).capacity(),
            match r {
                Ok(()) => {
                    ||| old(self).stored() is None && final(self).stored() is None
                        && final(self).end() == old(self).end()
                    ||| old(self).stored() is Some && final(self).stored() == Some(
                        Seq::<u8>::empty(),
                    ) && final(self).end() == 0
                },
                Err(e) => {
                    &&& e == DbfsError::IoError
                    &&& old(self).stored() is Some
                    &&& !old(self).dependable()
                    &&& final(self).stored() == old(self).stored()
                    &&& final(self).end() == old(self).end()
                },
            },
    {
        match &mut self.storage {
            Some(storage) => match storage.truncate(0) {
                Ok(()) => {
                    proof {
                        assert(storage.contents() =~= Seq::<u8>::empty());
                    }
                    self.next_offset = 0;
                    Ok(())
                },
                Err(_) => Err(DbfsError::IoError),
            },
            None => Ok(()),
        }
    }
}

} // verus!
