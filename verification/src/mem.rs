//! A block device and a log storage that keep their bytes in memory: for
//! hosts without a device, and for trying the file system out.

use vstd::prelude::*;
use crate::bytes::overlay;
use crate::error::{DbfsError, DbfsResult};
use crate::log_manager::BlockDevice;
use crate::wal::WalStorage;

verus! {

/// A block device of fixed size in memory.
pub struct RamDisk {
    data: Vec<u8>,
}

impl RamDisk {
    /// A device of `size` bytes, all zero.
    pub fn new(size: usize) -> (disk: Self)
        ensures
            disk.contents() == Seq::new(size as nat, |i: int| 0u8),
    {
        let disk = Self { data: vec![0u8; size] };
        proof {
            assert(disk.data@ =~= Seq::new(size as nat, |i: int| 0u8));
        }
        disk
    }

    /// A device that holds `data`.
    pub fn from_bytes(data: Vec<u8>) -> (disk: Self)
        ensures
            disk.contents() == data@,
    {
        Self { data }
    }

    /// The bytes of the device.
    pub fn bytes(&self) -> (data: &Vec<u8>)
        ensures
            data@ == self.contents(),
    {
        &self.data
    }
}

impl BlockDevice for RamDisk {
    closed spec fn contents(&self) -> Seq<u8> {
        self.data@
    }

    closed spec fn durable(&self) -> Seq<u8> {
        self.data@
    }

    open spec fn dependable(&self) -> bool {
        true
    }

    /// Copies as many bytes as lie between `pos` and the end of the device,
    /// and as `buf` holds.
    fn read_at(&self, pos: u64, buf: &mut [u8]) -> (r: DbfsResult<usize>)
        ensures
            r is Ok,
            r matches Ok(n) && n == (if pos >= self.contents().len() {
                0
            } else if old(buf)@.len() <= self.contents().len() - pos {
                old(buf)@.len() as int
            } else {
                self.contents().len() - pos
            }),
    {
        let size = self.data.len();
        if pos >= size as u64 {
            return Ok(0);
        }
        let start = pos as usize;
        let n = if buf.len() <= size - start {
            buf.len()
        } else {
            size - start
        };
        let mut i: usize = 0;
        while i < n
            invariant
                i <= n,
                n <= buf@.len(),
                start + n <= size,
                size == self.data@.len(),
                buf@.len() == old(buf)@.len(),
                forall|j: int| 0 <= j < i ==> buf@[j] == self.data@[start + j],
                forall|j: int| i <= j < buf@.len() ==> buf@[j] == old(buf)@[j],
            decreases n - i,
        {
            buf[i] = self.data[start + i];
            i = i + 1;
        }
        Ok(n)
    }

    /// Stores as many bytes as fit between `pos` and the end of the device.
    fn write_at(&mut self, pos: u64, buf: &[u8]) -> (r: DbfsResult<usize>)
        ensures
            r is Ok,
            r matches Ok(n) && n == (if pos >= old(self).contents().len() {
                0
            } else if buf@.len() <= old(self).contents().len() - pos {
                buf@.len() as int
            } else {
                old(self).contents().len() - pos
            }),
    {
        let size = self.data.len();
        if pos >= size as u64 {
            return Ok(0);
        }
        let start = pos as usize;
        let n = if buf.len() <= size - start {
            buf.len()
        } else {
            size - start
        };
        let mut i: usize = 0;
        while i < n
            invariant
                i <= n,
                n <= buf@.len(),
                start + n <= size,
                size == self.data@.len(),
                self.data@.len() == old(self).data@.len(),
                forall|j: int| 0 <= j < i ==> self.data@[start + j] == buf@[j],
                forall|j: int|
                    0 <= j < self.data@.len() && !(start <= j < start + i) ==> self.data@[j]
                        == old(self).data@[j],
            decreases n - i,
        {
            self.data[start + i] = buf[i];
            i = i + 1;
        }
        Ok(n)
    }

    fn size(&self) -> (s: u64) {
        self.data.len() as u64
    }

    fn flush(&mut self) -> (r: DbfsResult<()>)
        ensures
            r is Ok,
    {
        Ok(())
    }
}

/// A log storage in memory.
pub struct MemStorage {
    data: Vec<u8>,
}

impl MemStorage {
    /// An empty storage.
    pub fn new() -> (storage: Self)
        ensures
            storage.contents() == Seq::<u8>::empty(),
    {
        Self { data: Vec::new() }
    }

    /// A storage that holds `data`.
    pub fn from_bytes(data: Vec<u8>) -> (storage: Self)
        ensures
            storage.contents() == data@,
    {
        Self { data }
    }

    /// The bytes of the storage.
    pub fn bytes(&self) -> (data: &Vec<u8>)
        ensures
            data@ == self.contents(),
    {
        &self.data
    }
}

impl WalStorage for MemStorage {
    closed spec fn contents(&self) -> Seq<u8> {
        self.data@
    }

    closed spec fn durable(&self) -> Seq<u8> {
        self.data@
    }

    open spec fn dependable(&self) -> bool {
        true
    }

    open spec fn capacity(&self) -> nat {
        usize::MAX as nat
    }

    /// Stores `data` at `offset`. A gap between the end of the storage and
    /// `offset` is filled with zeros. Fails where the end of the write
    /// cannot be addressed in memory, and changes nothing then.
    fn write(&mut self, offset: u64, data: &[u8]) -> (r: DbfsResult<()>)
        ensures
            r is Ok <==> offset + data@.len() <= usize::MAX,
            r is Err ==> final(self).contents() == old(self).contents(),
            r is Ok ==> final(self).contents().len() == (if offset + data@.len()
                >= old(self).contents().len() {
                offset + data@.len()
            } else {
                old(self).contents().len() as int
            }),
    {
        if offset > usize::MAX as u64 || data.len() > usize::MAX - offset as usize {
            return Err(DbfsError::IoError);
        }
        let start = offset as usize;
        let end = start + data.len();
        while self.data.len() < end
            invariant
                self.data@.len() >= old(self).data@.len(),
                forall|j: int| 0 <= j < old(self).data@.len() ==> self.data@[j] == old(self).data@[j],
                self.data@.len() <= end || self.data@.len() == old(self).data@.len(),
            decreases end - self.data@.len(),
        {
            self.data.push(0u8);
        }
        let ghost grown = self.data@;
        overlay(self.data.as_mut_slice(), start, data);
        proof {
            assert(self.data@.subrange(offset as int, offset + data@.len()) =~= data@);
        }
        Ok(())
    }

    fn read(&self, offset: u64, buf: &mut [u8]) -> (r: DbfsResult<()>)
        ensures
            r is Ok <==> offset + old(buf)@.len() <= self.contents().len(),
            r is Err ==> final(buf)@ == old(buf)@,
    {
        let size = self.data.len();
        if offset > size as u64 || buf.len() > size - offset as usize {
            return Err(DbfsError::IoError);
        }
        let start = offset as usize;
        let n = buf.len();
        let mut i: usize = 0;
        while i < n
            invariant
                i <= n,
                n == buf@.len(),
                start + n <= size,
                size == self.data@.len(),
                buf@.len() == old(buf)@.len(),
                forall|j: int| 0 <= j < i ==> buf@[j] == self.data@[start + j],
            decreases n - i,
        {
            buf[i] = self.data[start + i];
            i = i + 1;
        }
        proof {
            assert(buf@ =~= self.data@.subrange(offset as int, offset + n));
        }
        Ok(())
    }

    /// Cuts the storage back to `length` bytes. Fails where it has fewer,
    /// and changes nothing then.
    fn truncate(&mut self, length: u64) -> (r: DbfsResult<()>)
        ensures
            r is Ok <==> length <= old(self).contents().len(),
    {
        if length > self.data.len() as u64 {
            return Err(DbfsError::IoError);
        }
        self.data.truncate(length as usize);
        Ok(())
    }

    fn flush(&mut self) -> (r: DbfsResult<()>)
        ensures
            r is Ok,
    {
        Ok(())
    }
}

} // verus!
