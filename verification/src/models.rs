//! The records that the metadata store keeps: extents, timestamps and inode
//! metadata, with their mathematical views.

use vstd::prelude::*;

verus! {

/// Mask of the file-type bits of a mode.
pub const S_IFMT: u32 = 0xF000;

/// Type bits of a fifo.
pub const S_IFIFO: u32 = 0x1000;

/// Type bits of a character device.
pub const S_IFCHR: u32 = 0x2000;

/// Type bits of a directory.
pub const S_IFDIR: u32 = 0x4000;

/// Type bits of a block device.
pub const S_IFBLK: u32 = 0x6000;

/// Type bits of a regular file.
pub const S_IFREG: u32 = 0x8000;

/// Type bits of a symbolic link.
pub const S_IFLNK: u32 = 0xA000;

/// Type bits of a socket.
pub const S_IFSOCK: u32 = 0xC000;

/// Mask of the permission bits of a mode.
pub const PERM_MASK: u32 = 0x0FFF;

/// The number of the root directory's inode.
pub const ROOT_INO: u64 = 1;

/// The longest name that a directory entry may have, in bytes.
pub const NAME_MAX: usize = 255;

/// A contiguous piece of a file: `len` bytes at file offset `logical_off`,
/// stored in the data log at `physical_ptr`, with the CRC-32 that the payload
/// had when it was written.
#[derive(Clone, Copy, Debug, PartialEq, Eq, Structural)]
pub struct Extent {
    pub logical_off: u64,
    pub physical_ptr: u64,
    pub len: u64,
    pub crc: u32,
}

/// A point in time: seconds and nanoseconds.
#[derive(Clone, Copy, Debug, PartialEq, Eq, Structural)]
pub struct DbfsTimeSpec {
    pub sec: u64,
    pub nsec: u32,
}

/// The source of the timestamps: what a host lends the file system so that
/// it can tell the time. Every operation that records a time is handed the
/// time as an argument; the host reads its clock and passes on what it
/// shows.
pub trait Clock {
    /// The present time.
    fn now(&self) -> DbfsTimeSpec;
}

/// The kinds of file that an inode can be.
#[derive(Clone, Copy, Debug, PartialEq, Eq, Structural)]
pub enum DbfsFileType {
    File,
    Dir,
    Symlink,
    CharDevice,
    BlockDevice,
    Fifo,
    Socket,
}

/// The type bits that stand for `ty` in a mode.
pub open spec fn type_bits(ty: DbfsFileType) -> u32 {
    match ty {
        DbfsFileType::File => S_IFREG,
        DbfsFileType::Dir => S_IFDIR,
        DbfsFileType::Symlink => S_IFLNK,
        DbfsFileType::CharDevice => S_IFCHR,
        DbfsFileType::BlockDevice => S_IFBLK,
        DbfsFileType::Fifo => S_IFIFO,
        DbfsFileType::Socket => S_IFSOCK,
    }
}

/// The mode of a file of type `ty` with the permission bits of `perm`.
pub open spec fn make_mode(ty: DbfsFileType, perm: u32) -> u32 {
    type_bits(ty) | (perm & PERM_MASK)
}

/// Whether `mode` is that of a directory.
pub open spec fn is_dir_mode(mode: u32) -> bool {
    mode & S_IFMT == S_IFDIR
}

/// Whether `mode` is that of a symbolic link.
pub open spec fn is_symlink_mode(mode: u32) -> bool {
    mode & S_IFMT == S_IFLNK
}

/// The file type that the type bits of `mode` name; a regular file where
/// they name none.
pub open spec fn type_of_mode(mode: u32) -> DbfsFileType {
    let bits = mode & S_IFMT;
    if bits == S_IFDIR {
        DbfsFileType::Dir
    } else if bits == S_IFLNK {
        DbfsFileType::Symlink
    } else if bits == S_IFCHR {
        DbfsFileType::CharDevice
    } else if bits == S_IFBLK {
        DbfsFileType::BlockDevice
    } else if bits == S_IFIFO {
        DbfsFileType::Fifo
    } else if bits == S_IFSOCK {
        DbfsFileType::Socket
    } else {
        DbfsFileType::File
    }
}

/// The type bits of a mode built by `make_mode` are those of its type.
pub proof fn lemma_make_mode_type(ty: DbfsFileType, perm: u32)
    ensures
        make_mode(ty, perm) & S_IFMT == type_bits(ty),
        make_mode(ty, perm) & PERM_MASK == perm & PERM_MASK,
        type_of_mode(make_mode(ty, perm)) == ty,
        is_dir_mode(make_mode(ty, perm)) <==> ty == DbfsFileType::Dir,
        is_symlink_mode(make_mode(ty, perm)) <==> ty == DbfsFileType::Symlink,
{
    let p = perm;
    assert((0x1000u32 | (p & 0x0FFF)) & 0xF000 == 0x1000u32) by (bit_vector);
    assert((0x2000u32 | (p & 0x0FFF)) & 0xF000 == 0x2000u32) by (bit_vector);
    assert((0x4000u32 | (p & 0x0FFF)) & 0xF000 == 0x4000u32) by (bit_vector);
    assert((0x6000u32 | (p & 0x0FFF)) & 0xF000 == 0x6000u32) by (bit_vector);
    assert((0x8000u32 | (p & 0x0FFF)) & 0xF000 == 0x8000u32) by (bit_vector);
    assert((0xA000u32 | (p & 0x0FFF)) & 0xF000 == 0xA000u32) by (bit_vector);
    assert((0xC000u32 | (p & 0x0FFF)) & 0xF000 == 0xC000u32) by (bit_vector);
    assert((0x1000u32 | (p & 0x0FFF)) & 0x0FFF == p & 0x0FFF) by (bit_vector);
    assert((0x2000u32 | (p & 0x0FFF)) & 0x0FFF == p & 0x0FFF) by (bit_vector);
    assert((0x4000u32 | (p & 0x0FFF)) & 0x0FFF == p & 0x0FFF) by (bit_vector);
    assert((0x6000u32 | (p & 0x0FFF)) & 0x0FFF == p & 0x0FFF) by (bit_vector);
    assert((0x8000u32 | (p & 0x0FFF)) & 0x0FFF == p & 0x0FFF) by (bit_vector);
    assert((0xA000u32 | (p & 0x0FFF)) & 0x0FFF == p & 0x0FFF) by (bit_vector);
    assert((0xC000u32 | (p & 0x0FFF)) & 0x0FFF == p & 0x0FFF) by (bit_vector);
}

/// Builds the mode of a file of type `ty` with the permission bits of `perm`.
pub fn mode_of(ty: DbfsFileType, perm: u32) -> (mode: u32)
    ensures
        mode == make_mode(ty, perm),
{
    let bits = match ty {
        DbfsFileType::File => S_IFREG,
        DbfsFileType::Dir => S_IFDIR,
        DbfsFileType::Symlink => S_IFLNK,
        DbfsFileType::CharDevice => S_IFCHR,
        DbfsFileType::BlockDevice => S_IFBLK,
        DbfsFileType::Fifo => S_IFIFO,
        DbfsFileType::Socket => S_IFSOCK,
    };
    bits | (perm & PERM_MASK)
}

/// Reads the file type out of a mode.
pub fn file_type_of(mode: u32) -> (ty: DbfsFileType)
    ensures
        ty == type_of_mode(mode),
{
    let bits = mode & S_IFMT;
    if bits == S_IFDIR {
        DbfsFileType::Dir
    } else if bits == S_IFLNK {
        DbfsFileType::Symlink
    } else if bits == S_IFCHR {
        DbfsFileType::CharDevice
    } else if bits == S_IFBLK {
        DbfsFileType::BlockDevice
    } else if bits == S_IFIFO {
        DbfsFileType::Fifo
    } else if bits == S_IFSOCK {
        DbfsFileType::Socket
    } else {
        DbfsFileType::File
    }
}

/// Tells whether a mode is that of a directory.
pub fn mode_is_dir(mode: u32) -> (b: bool)
    ensures
        b == is_dir_mode(mode),
{
    mode & S_IFMT == S_IFDIR
}

/// Tells whether a mode is that of a symbolic link.
pub fn mode_is_symlink(mode: u32) -> (b: bool)
    ensures
        b == is_symlink_mode(mode),
{
    mode & S_IFMT == S_IFLNK
}

/// The metadata record of one inode.
#[derive(Debug)]
pub struct InodeMetadata {
    pub ino: u64,
    pub size: u64,
    pub mode: u32,
    pub nlink: u32,
    pub uid: u32,
    pub gid: u32,
    pub atime: DbfsTimeSpec,
    pub mtime: DbfsTimeSpec,
    pub ctime: DbfsTimeSpec,
    /// The file's index into the data log, oldest extent first.
    pub extents: Vec<Extent>,
    /// The target of a symbolic link; empty for every other type.
    pub symlink_target: Vec<u8>,
}

/// What an inode record says, as a mathematical value.
pub struct InodeView {
    pub ino: u64,
    pub size: u64,
    pub mode: u32,
    pub nlink: u32,
    pub uid: u32,
    pub gid: u32,
    pub atime: DbfsTimeSpec,
    pub mtime: DbfsTimeSpec,
    pub ctime: DbfsTimeSpec,
    pub extents: Seq<Extent>,
    pub symlink_target: Seq<u8>,
}

impl View for InodeMetadata {
    type V = InodeView;

    open spec fn view(&self) -> InodeView {
        InodeView {
            ino: self.ino,
            size: self.size,
            mode: self.mode,
            nlink: self.nlink,
            uid: self.uid,
            gid: self.gid,
            atime: self.atime,
            mtime: self.mtime,
            ctime: self.ctime,
            extents: self.extents@,
            symlink_target: self.symlink_target@,
        }
    }
}

/// Copies a vector of extents.
pub fn copy_extents(extents: &Vec<Extent>) -> (copy: Vec<Extent>)
    ensures
        copy@ == extents@,
{
    let mut copy: Vec<Extent> = Vec::new();
    let mut i: usize = 0;
    while i < extents.len()
        invariant
            i <= extents.len(),
            copy@ == extents@.take(i as int),
        decreases extents.len() - i,
    {
        copy.push(extents[i]);
        proof {
            assert(extents@.take(i + 1) =~= extents@.take(i as int).push(extents@[i as int]));
        }
        i = i + 1;
    }
    proof {
        assert(extents@.take(extents.len() as int) =~= extents@);
    }
    copy
}

/// Copies a byte string.
pub fn copy_bytes(bytes: &[u8]) -> (copy: Vec<u8>)
    ensures
        copy@ == bytes@,
{
    let mut copy: Vec<u8> = Vec::new();
    let mut i: usize = 0;
    while i < bytes.len()
        invariant
            i <= bytes.len(),
            copy@ == bytes@.take(i as int),
        decreases bytes.len() - i,
    {
        copy.push(bytes[i]);
        proof {
            assert(bytes@.take(i + 1) =~= bytes@.take(i as int).push(bytes@[i as int]));
        }
        i = i + 1;
    }
    proof {
        assert(bytes@.take(bytes.len() as int) =~= bytes@);
    }
    copy
}

/// An extent lies in the part of the data log below `limit`, and the file
/// range that it maps ends within the 64-bit offsets.
pub open spec fn extent_ok(e: Extent, limit: u64) -> bool {
    e.physical_ptr + e.len <= limit && e.logical_off + e.len <= u64::MAX
}

/// Every extent of `extents` is in order below `limit`.
pub open spec fn extents_ok(extents: Seq<Extent>, limit: u64) -> bool {
    forall|i: int| 0 <= i < extents.len() ==> extent_ok(#[trigger] extents[i], limit)
}

/// Checks that every extent lies in the data log below `limit`.
pub fn check_extents(extents: &Vec<Extent>, limit: u64) -> (ok: bool)
    ensures
        ok == extents_ok(extents@, limit),
{
    let mut i: usize = 0;
    while i < extents.len()
        invariant
            i <= extents.len(),
            forall|j: int| 0 <= j < i ==> extent_ok(#[trigger] extents@[j], limit),
        decreases extents.len() - i,
    {
        let e = extents[i];
        if e.len > limit || e.physical_ptr > limit - e.len || e.logical_off > u64::MAX - e.len {
            assert(!extent_ok(extents@[i as int], limit));
            return false;
        }
        i = i + 1;
    }
    true
}

impl InodeMetadata {
    /// A copy of the record.
    pub fn duplicate(&self) -> (copy: InodeMetadata)
        ensures
            copy@ == self@,
    {
        InodeMetadata {
            ino: self.ino,
            size: self.size,
            mode: self.mode,
            nlink: self.nlink,
            uid: self.uid,
            gid: self.gid,
            atime: self.atime,
            mtime: self.mtime,
            ctime: self.ctime,
            extents: copy_extents(&self.extents),
            symlink_target: copy_bytes(self.symlink_target.as_slice()),
        }
    }
}

} // verus!
