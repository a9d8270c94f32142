//! The append-only data log and the checksum that guards its payloads.

use vstd::prelude::*;
use crate::error::{DbfsError, DbfsResult};

verus! {

/// One step of the reflected CRC-32 register: a single bit is shifted out and
/// the polynomial `0xEDB88320` is folded in when that bit was set.
pub open spec fn crc_shift(crc: u32) -> u32 {
    if crc & 1 != 0 {
        (crc >> 1) ^ 0xEDB8_8320u32
    } else {
        crc >> 1
    }
}

/// `n` steps of the register.
pub open spec fn crc_shifts(crc: u32, n: nat) -> u32
    decreases n,
{
    if n == 0 {
        crc
    } else {
        crc_shift(crc_shifts(crc, (n - 1) as nat))
    }
}

/// The register after one more byte of input.
pub open spec fn crc_step(crc: u32, byte: u8) -> u32 {
    crc_shifts(crc ^ (byte as u32), 8)
}

/// The register after all of `data`, starting from the seed `0xFFFFFFFF`.
pub open spec fn crc_register(data: Seq<u8>) -> u32
    decreases data.len(),
{
    if data.len() == 0 {
        0xFFFF_FFFFu32
    } else {
        crc_step(crc_register(data.drop_last()), data.last())
    }
}

/// CRC-32 of `data`: polynomial `0xEDB88320`, seed `0xFFFFFFFF`, final
/// complement.
pub open spec fn crc32_spec(data: Seq<u8>) -> u32 {
    !crc_register(data)
}

/// Computes the CRC-32 of `data`.
pub fn crc32(data: &[u8]) -> (crc: u32)
    ensures
        crc == crc32_spec(data@),
{
    let mut crc: u32 = 0xFFFF_FFFFu32;
    let mut i: usize = 0;
    while i < data.len()
        invariant
            i <= data.len(),
            crc == crc_register(data@.take(i as int)),
        decreases data.len() - i,
    {
        let ghost before = crc;
        crc = crc ^ (data[i] as u32);
        let mut k: u8 = 0;
        while k < 8
            invariant
                k <= 8,
                crc == crc_shifts(before ^ (data@[i as int] as u32), k as nat),
            decreases 8 - k,
        {
            if crc & 1 != 0 {
                crc = (crc >> 1) ^ 0xEDB8_8320u32;
            } else {
                crc = crc >> 1;
            }
            k = k + 1;
        }
        proof {
            assert(data@.take(i + 1).drop_last() =~= data@.take(i as int));
        }
        i = i + 1;
    }
    proof {
        assert(data@.take(data.len() as int) =~= data@);
    }
    !crc
}

/// A byte-addressed medium of fixed size. The file system keeps its data log
/// on one.
pub trait BlockDevice {
    /// The bytes that the device holds, from offset 0 to its size. A device
    /// that does not say what it holds is taken to hold nothing.
    open spec fn contents(&self) -> Seq<u8> {
        Seq::empty()
    }

    /// The bytes that the device would hold after a loss of power: what has
    /// been made durable. A device that does not say is taken to keep
    /// nothing.
    open spec fn durable(&self) -> Seq<u8> {
        Seq::empty()
    }

    /// Whether the device does what it is asked wherever that lies within
    /// its size: it reads and stores all the bytes, and its flush succeeds.
    /// A device that promises nothing says no.
    open spec fn dependable(&self) -> bool {
        false
    }

    /// Copies device bytes from offset `pos` on into the front of `buf` and
    /// returns how many were copied. The rest of `buf` is left alone. A
    /// dependable device fills the whole of `buf` where that lies within its
    /// size.
    fn read_at(&self, pos: u64, buf: &mut [u8]) -> (r: DbfsResult<usize>)
        ensures
            final(buf)@.len() == old(buf)@.len(),
            self.dependable() && pos + old(buf)@.len() <= self.contents().len() ==> r == Ok::<
                usize,
                DbfsError,
            >(old(buf)@.len() as usize),
            match r {
                Ok(n) => {
                    &&& n <= old(buf)@.len()
                    &&& n == 0 || pos + n <= self.contents().len()
                    &&& forall|i: int| 0 <= i < n ==> final(buf)@[i] == self.contents()[pos + i]
                    &&& forall|i: int| n <= i < old(buf)@.len() ==> final(buf)@[i] == old(buf)@[i]
                },
                Err(_) => true,
            },
    ;

    /// Stores the front of `buf` at offset `pos` and returns how many bytes
    /// were stored. Whatever the outcome, the size stays and no byte outside
    /// `[pos, pos + buf.len())` changes. A dependable device stores the whole
    /// of `buf` where that lies within its size.
    fn write_at(&mut self, pos: u64, buf: &[u8]) -> (r: DbfsResult<usize>)
        ensures
            final(self).dependable() == old(self).dependable(),
            old(self).dependable() && pos + buf@.len() <= old(self).contents().len() ==> r == Ok::<
                usize,
                DbfsError,
            >(buf@.len() as usize),
            final(self).contents().len() == old(self).contents().len(),
            forall|i: int|
                0 <= i < old(self).contents().len() && !(pos <= i < pos + buf@.len())
                    ==> final(self).contents()[i] == old(self).contents()[i],
            match r {
                Ok(n) => {
                    &&& n <= buf@.len()
                    &&& n == 0 || pos + n <= old(self).contents().len()
                    &&& forall|i: int| 0 <= i < n ==> final(self).contents()[pos + i] == buf@[i]
                },
                Err(_) => true,
            },
    ;

    /// The size of the device in bytes.
    fn size(&self) -> (s: u64)
        ensures
            s == self.contents().len(),
    ;

    /// Makes every earlier write durable: with success the device would
    /// hold after a loss of power what it holds now. The bytes stay as they
    /// are. On a dependable device it succeeds.
    fn flush(&mut self) -> (r: DbfsResult<()>)
        ensures
            final(self).dependable() == old(self).dependable(),
            old(self).dependable() ==> r is Ok,
            final(self).contents() == old(self).contents(),
            r is Ok ==> final(self).durable() == final(self).contents(),
    ;
}

/// Judges what a device returned for a transfer of `len` bytes: the
/// transfer counts only where the device reports that all of them went. A
/// smaller count, like a failure of the device, is an `IoError`.
pub fn whole_transfer(result: DbfsResult<usize>, len: usize) -> (r: DbfsResult<usize>)
    ensures
        r == (if result == Ok::<usize, DbfsError>(len) {
            Ok::<usize, DbfsError>(len)
        } else {
            Err::<usize, DbfsError>(DbfsError::IoError)
        }),
{
    match result {
        Ok(n) => {
            if n == len {
                Ok(len)
            } else {
                Err(DbfsError::IoError)
            }
        },
        Err(_) => Err(DbfsError::IoError),
    }
}

/// The append-only data log: a device and the offset at which the next
/// payload goes.
pub struct LogManager<D: BlockDevice> {
    device: D,
    next_append_pos: u64,
}

impl<D: BlockDevice> LogManager<D> {
    /// The bytes of the underlying device.
    pub closed spec fn bytes(&self) -> Seq<u8> {
        self.device.contents()
    }

    /// The offset at which the next payload will be stored.
    pub closed spec fn cursor(&self) -> u64 {
        self.next_append_pos
    }

    /// The bytes that the underlying device would hold after a loss of
    /// power.
    pub closed spec fn durable(&self) -> Seq<u8> {
        self.device.durable()
    }

    /// Whether the underlying device is a dependable one.
    pub closed spec fn dependable(&self) -> bool {
        self.device.dependable()
    }

    /// A log on `device` whose next payload goes to `next_append_pos`.
    pub fn new(device: D, next_append_pos: u64) -> (log: Self)
        ensures
            log.bytes() == device.contents(),
            log.durable() == device.durable(),
            log.dependable() == device.dependable(),
            log.cursor() == next_append_pos,
    {
        Self { device, next_append_pos }
    }

    /// How the log `after` an append of `data` stands to the log before it,
    /// given the result: the device keeps its size and no byte outside the
    /// place of the payload changes; with success the payload lies at the old
    /// cursor, which is returned, and the cursor has moved past it; a failure
    /// is an `IoError` and leaves the cursor. A payload that does not fit
    /// between the cursor and the end of the device is refused; on a
    /// dependable device every payload that fits is stored.
    pub open spec fn appended(&self, after: &Self, data: Seq<u8>, r: DbfsResult<u64>) -> bool {
        &&& after.dependable() == self.dependable()
        &&& self.dependable() && self.cursor() + data.len() <= self.bytes().len() ==> r is Ok
        &&& after.bytes().len() == self.bytes().len()
        &&& forall|i: int|
            0 <= i < self.bytes().len() && !(self.cursor() <= i < self.cursor() + data.len())
                ==> after.bytes()[i] == self.bytes()[i]
        &&& match r {
            Ok(ptr) => {
                &&& ptr == self.cursor()
                &&& after.cursor() == ptr + data.len()
                &&& ptr + data.len() <= after.bytes().len()
                &&& after.bytes().subrange(ptr as int, ptr + data.len()) == data
            },
            Err(e) => e == DbfsError::IoError && after.cursor() == self.cursor(),
        }
        &&& self.cursor() + data.len() > self.bytes().len() ==> r is Err
    }

    /// Stores `data` at the cursor and moves the cursor past it. Returns the
    /// offset at which `data` now lies. A device that stores less than all
    /// of it counts as failed. `appended` states the result.
    pub fn append_data(&mut self, data: &[u8]) -> (r: DbfsResult<u64>)
        ensures
            old(self).appended(final(self), data@, r),
    {
        let pos = self.next_append_pos;
        let size = self.device.size();
        if pos > size || data.len() as u64 > size - pos {
            return Err(DbfsError::IoError);
        }
        let written = self.device.write_at(pos, data);
        match whole_transfer(written, data.len()) {
            Ok(_) => {
                self.next_append_pos = pos + data.len() as u64;
                proof {
                    assert(self.bytes().subrange(pos as int, pos + data@.len()) =~= data@);
                }
                Ok(pos)
            },
            Err(e) => Err(e),
        }
    }

    /// Stores `data` as `append_data` does and returns, with the offset at
    /// which it lies, the CRC-32 of the payload, which the extent that
    /// refers to it will carry. Nothing but the payload goes to the device.
    pub fn append_checksummed(&mut self, data: &[u8]) -> (r: DbfsResult<(u64, u32)>)
        ensures
            old(self).appended(
                final(self),
                data@,
                match r {
                    Ok(placed) => Ok(placed.0),
                    Err(e) => Err(e),
                },
            ),
            r matches Ok(placed) ==> placed.1 == crc32_spec(data@),
    {
        let checksum = crc32(data);
        match self.append_data(data) {
            Ok(ptr) => Ok((ptr, checksum)),
            Err(e) => Err(e),
        }
    }

    /// Gives the device back.
    pub fn into_device(self) -> (device: D)
        ensures
            device.contents() == self.bytes(),
            device.durable() == self.durable(),
            device.dependable() == self.dependable(),
    {
        self.device
    }

    /// The size of the underlying device.
    pub fn capacity(&self) -> (size: u64)
        ensures
            size == self.bytes().len(),
    {
        self.device.size()
    }

    /// The offset at which the next payload will be stored.
    pub fn next_append_pos(&self) -> (pos: u64)
        ensures
            pos == self.cursor(),
    {
        self.next_append_pos
    }

    /// Fills `buf` with the bytes that lie at offset `pos`. A device that
    /// yields fewer than `buf.len()` bytes counts as failed; of an empty
    /// `buf` nothing is asked but that the device does not fail. On a
    /// dependable device every read within the device succeeds.
    pub fn read_data(&self, pos: u64, buf: &mut [u8]) -> (r: DbfsResult<usize>)
        ensures
            final(buf)@.len() == old(buf)@.len(),
            match r {
                Ok(n) => {
                    &&& n == old(buf)@.len()
                    &&& n == 0 || pos + n <= self.bytes().len()
                    &&& n > 0 ==> final(buf)@ == self.bytes().subrange(pos as int, pos + n)
                },
                Err(e) => e == DbfsError::IoError,
            },
            old(buf)@.len() > 0 && pos + old(buf)@.len() > self.bytes().len() ==> r is Err,
            self.dependable() && pos + old(buf)@.len() <= self.bytes().len() ==> r is Ok,
    {
        let read = self.device.read_at(pos, buf);
        match whole_transfer(read, buf.len()) {
            Ok(n) => {
                proof {
                    if n > 0 {
                        assert(buf@ =~= self.bytes().subrange(pos as int, pos + n));
                    }
                }
                Ok(n)
            },
            Err(e) => Err(e),
        }
    }

    /// Makes every payload stored so far durable: with success the device
    /// would hold after a loss of power all that the log holds now. The
    /// bytes and the cursor stay. A failure of the device is an `IoError`.
    pub fn flush(&mut self) -> (r: DbfsResult<()>)
        ensures
            final(self).bytes() == old(self).bytes(),
            final(self).cursor() == old(self).cursor(),
            final(self).dependable() == old(self).dependable(),
            old(self).dependable() ==> r is Ok,
            r is Ok ==> final(self).durable() == final(self).bytes(),
            r is Err ==> r == Err::<(), DbfsError>(DbfsError::IoError),
    {
        match self.device.flush() {
            Ok(()) => Ok(()),
            Err(_) => Err(DbfsError::IoError),
        }
    }
}

} // verus!
