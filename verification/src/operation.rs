//! The logical operations that the write-ahead log records, their byte
//! format, and how each is applied to the file system.

use vstd::prelude::*;
use crate::codec::{
    decode_raw, encode_raw, lemma_encoded_len, lemma_raw_round_trip, RawRecord, RawView,
    HEADER_LEN,
};
use crate::error::{DbfsError, DbfsResult};
use crate::fs::{
    create_spec, dbfs_create, dbfs_remove, dbfs_rename, dbfs_truncate, dbfs_write, remove_spec,
    rename_spec, truncate_spec, write_outcome,
};
use crate::log_manager::BlockDevice;
use crate::models::{copy_bytes, DbfsFileType, DbfsTimeSpec};
use crate::store::StoreView;
use crate::tx_engine::{FsView, TransactionEngine};

verus! {

/// A logical operation on the file system, with all that is needed to apply
/// it again.
#[derive(Debug)]
pub enum TransactionOperation {
    /// Write `data` into the file of inode `ino` at `offset`.
    Write { ino: u64, offset: u64, data: Vec<u8> },
    /// Create a file of type `file_type` called `name` in directory
    /// `parent_ino`. The device number is recorded and not interpreted.
    Create {
        parent_ino: u64,
        name: Vec<u8>,
        uid: u32,
        gid: u32,
        perm: u32,
        dev: Option<u32>,
        file_type: DbfsFileType,
    },
    /// Remove the name `name` from directory `parent_ino`: a directory as
    /// `dbfs_rmdir` does, anything else as `dbfs_unlink` does.
    Delete { parent_ino: u64, name: Vec<u8> },
    /// Move the entry `old_name` of `old_parent_ino` to `new_name` in
    /// `new_parent_ino`.
    Rename { old_parent_ino: u64, old_name: Vec<u8>, new_parent_ino: u64, new_name: Vec<u8> },
    /// Create a directory called `name` in directory `parent_ino`.
    Mkdir { parent_ino: u64, name: Vec<u8>, uid: u32, gid: u32, perm: u32 },
    /// Set the file of inode `ino` to `length` bytes.
    Truncate { ino: u64, length: u64 },
}

/// A logical operation as a mathematical value.
pub enum OpView {
    Write { ino: u64, offset: u64, data: Seq<u8> },
    Create {
        parent_ino: u64,
        name: Seq<u8>,
        uid: u32,
        gid: u32,
        perm: u32,
        dev: Option<u32>,
        file_type: DbfsFileType,
    },
    Delete { parent_ino: u64, name: Seq<u8> },
    Rename { old_parent_ino: u64, old_name: Seq<u8>, new_parent_ino: u64, new_name: Seq<u8> },
    Mkdir { parent_ino: u64, name: Seq<u8>, uid: u32, gid: u32, perm: u32 },
    Truncate { ino: u64, length: u64 },
}

impl View for TransactionOperation {
    type V = OpView;

    open spec fn view(&self) -> OpView {
        match *self {
            TransactionOperation::Write { ino, offset, data } => OpView::Write {
                ino,
                offset,
                data: data@,
            },
            TransactionOperation::Create { parent_ino, name, uid, gid, perm, dev, file_type } => {
                OpView::Create { parent_ino, name: name@, uid, gid, perm, dev, file_type }
            },
            TransactionOperation::Delete { parent_ino, name } => OpView::Delete {
                parent_ino,
                name: name@,
            },
            TransactionOperation::Rename { old_parent_ino, old_name, new_parent_ino, new_name } => {
                OpView::Rename {
                    old_parent_ino,
                    old_name: old_name@,
                    new_parent_ino,
                    new_name: new_name@,
                }
            },
            TransactionOperation::Mkdir { parent_ino, name, uid, gid, perm } => OpView::Mkdir {
                parent_ino,
                name: name@,
                uid,
                gid,
                perm,
            },
            TransactionOperation::Truncate { ino, length } => OpView::Truncate { ino, length },
        }
    }
}

/// The tag of a write.
pub const TAG_WRITE: u8 = 1;

/// The tag of a create.
pub const TAG_CREATE: u8 = 2;

/// The tag of a delete.
pub const TAG_DELETE: u8 = 3;

/// The tag of a rename.
pub const TAG_RENAME: u8 = 4;

/// The tag of a mkdir.
pub const TAG_MKDIR: u8 = 5;

/// The tag of a truncate.
pub const TAG_TRUNCATE: u8 = 6;

/// The number that stands for a file type in a record.
pub open spec fn type_code(ty: DbfsFileType) -> u64 {
    match ty {
        DbfsFileType::File => 0,
        DbfsFileType::Dir => 1,
        DbfsFileType::Symlink => 2,
        DbfsFileType::CharDevice => 3,
        DbfsFileType::BlockDevice => 4,
        DbfsFileType::Fifo => 5,
        DbfsFileType::Socket => 6,
    }
}

/// The file type that a number stands for in a record, if it stands for one.
pub open spec fn type_of_code(code: u64) -> Option<DbfsFileType> {
    if code == 0 {
        Some(DbfsFileType::File)
    } else if code == 1 {
        Some(DbfsFileType::Dir)
    } else if code == 2 {
        Some(DbfsFileType::Symlink)
    } else if code == 3 {
        Some(DbfsFileType::CharDevice)
    } else if code == 4 {
        Some(DbfsFileType::BlockDevice)
    } else if code == 5 {
        Some(DbfsFileType::Fifo)
    } else if code == 6 {
        Some(DbfsFileType::Socket)
    } else {
        None
    }
}

/// A raw record with the given tag, numbers and byte strings.
pub open spec fn raw(
    txn_id: u64,
    tag: u8,
    n: (u64, u64, u64, u64, u64, u64, u64),
    s1: Seq<u8>,
    s2: Seq<u8>,
) -> RawView {
    RawView { txn_id, tag, n0: n.0, n1: n.1, n2: n.2, n3: n.3, n4: n.4, n5: n.5, n6: n.6, s1, s2 }
}

/// The raw record that stands for operation `op` of transaction `txn_id`.
pub open spec fn raw_of(txn_id: u64, op: OpView) -> RawView {
    match op {
        OpView::Write { ino, offset, data } => raw(
            txn_id,
            TAG_WRITE,
            (ino, offset, 0, 0, 0, 0, 0),
            data,
            Seq::empty(),
        ),
        OpView::Create { parent_ino, name, uid, gid, perm, dev, file_type } => raw(
            txn_id,
            TAG_CREATE,
            (
                parent_ino,
                uid as u64,
                gid as u64,
                perm as u64,
                if dev is Some {
                    1
                } else {
                    0
                },
                if dev is Some {
                    dev.unwrap() as u64
                } else {
                    0
                },
                type_code(file_type),
            ),
            name,
            Seq::empty(),
        ),
        OpView::Delete { parent_ino, name } => raw(
            txn_id,
            TAG_DELETE,
            (parent_ino, 0, 0, 0, 0, 0, 0),
            name,
            Seq::empty(),
        ),
        OpView::Rename { old_parent_ino, old_name, new_parent_ino, new_name } => raw(
            txn_id,
            TAG_RENAME,
            (old_parent_ino, new_parent_ino, 0, 0, 0, 0, 0),
            old_name,
            new_name,
        ),
        OpView::Mkdir { parent_ino, name, uid, gid, perm } => raw(
            txn_id,
            TAG_MKDIR,
            (parent_ino, uid as u64, gid as u64, perm as u64, 0, 0, 0),
            name,
            Seq::empty(),
        ),
        OpView::Truncate { ino, length } => raw(
            txn_id,
            TAG_TRUNCATE,
            (ino, length, 0, 0, 0, 0, 0),
            Seq::empty(),
            Seq::empty(),
        ),
    }
}

/// The operation that a raw record stands for, if it stands for one: its
/// tag is known, the numbers that stand for 32-bit values fit, and the file
/// type and the mark of a device number are among their codes.
pub open spec fn op_of(r: RawView) -> Option<OpView> {
    if r.tag == TAG_WRITE {
        Some(OpView::Write { ino: r.n0, offset: r.n1, data: r.s1 })
    } else if r.tag == TAG_CREATE {
        if r.n1 > u32::MAX || r.n2 > u32::MAX || r.n3 > u32::MAX || r.n4 > 1 || r.n5 > u32::MAX
            || type_of_code(r.n6) is None {
            None
        } else {
            Some(
                OpView::Create {
                    parent_ino: r.n0,
                    name: r.s1,
                    uid: r.n1 as u32,
                    gid: r.n2 as u32,
                    perm: r.n3 as u32,
                    dev: if r.n4 == 1 {
                        Some(r.n5 as u32)
                    } else {
                        None
                    },
                    file_type: type_of_code(r.n6).unwrap(),
                },
            )
        }
    } else if r.tag == TAG_DELETE {
        Some(OpView::Delete { parent_ino: r.n0, name: r.s1 })
    } else if r.tag == TAG_RENAME {
        Some(
            OpView::Rename {
                old_parent_ino: r.n0,
                old_name: r.s1,
                new_parent_ino: r.n1,
                new_name: r.s2,
            },
        )
    } else if r.tag == TAG_MKDIR {
        if r.n1 > u32::MAX || r.n2 > u32::MAX || r.n3 > u32::MAX {
            None
        } else {
            Some(
                OpView::Mkdir {
                    parent_ino: r.n0,
                    name: r.s1,
                    uid: r.n1 as u32,
                    gid: r.n2 as u32,
                    perm: r.n3 as u32,
                },
            )
        }
    } else if r.tag == TAG_TRUNCATE {
        Some(OpView::Truncate { ino: r.n0, length: r.n1 })
    } else {
        None
    }
}

/// The length of the first byte string of the record of `op`.
pub open spec fn first_len(op: OpView) -> nat {
    raw_of(0, op).s1.len()
}

/// The bytes that stand for operation `op` of transaction `txn_id`.
pub open spec fn encode_op(txn_id: u64, op: OpView) -> Seq<u8> {
    encode_raw(raw_of(txn_id, op))
}

/// The length of the bytes that stand for operation `op`: the header and the
/// operation's byte strings. It is the same under every transaction number.
pub open spec fn payload_len(op: OpView) -> nat {
    HEADER_LEN as nat + raw_of(0, op).s1.len() + raw_of(0, op).s2.len()
}

/// The bytes of an operation are as long as `payload_len` says.
pub proof fn lemma_payload_len(txn_id: u64, op: OpView)
    ensures
        encode_op(txn_id, op).len() == payload_len(op),
{
    lemma_encoded_len(raw_of(txn_id, op));
}

/// The transaction number and the operation that `bytes` stand for, if they
/// stand for any.
pub open spec fn decode_op(bytes: Seq<u8>) -> Option<(u64, OpView)> {
    match decode_raw(bytes) {
        Some(r) => match op_of(r) {
            Some(op) => Some((r.txn_id, op)),
            None => None,
        },
        None => None,
    }
}

/// Decoding the bytes of an operation gives the transaction number and the
/// operation back, for every operation whose first byte string is shorter
/// than 4 GiB.
pub proof fn lemma_op_round_trip(txn_id: u64, op: OpView)
    requires
        first_len(op) <= u32::MAX,
    ensures
        decode_op(encode_op(txn_id, op)) == Some((txn_id, op)),
{
    let r = raw_of(txn_id, op);
    lemma_raw_round_trip(r);
    match op {
        OpView::Rename { old_parent_ino, old_name, new_parent_ino, new_name } => {
            assert(op_of(r) == Some(op));
        },
        OpView::Create { parent_ino, name, uid, gid, perm, dev, file_type } => {
            assert(type_of_code(type_code(file_type)) == Some(file_type));
            assert(op_of(r) == Some(op));
        },
        _ => {
            assert(op_of(r) == Some(op));
        },
    }
}

/// What applying an operation other than a write does to the store.
pub open spec fn apply_spec(op: OpView, v: StoreView, now: DbfsTimeSpec) -> Result<
    StoreView,
    DbfsError,
> {
    match op {
        OpView::Write { ino, offset, data } => Ok(v),
        OpView::Create { parent_ino, name, uid, gid, perm, dev, file_type } => match create_spec(
            v,
            parent_ino,
            name,
            file_type,
            uid,
            gid,
            perm,
            now,
            Seq::empty(),
        ) {
            Ok((store, _)) => Ok(store),
            Err(e) => Err(e),
        },
        OpView::Delete { parent_ino, name } => remove_spec(v, parent_ino, name, now),
        OpView::Rename { old_parent_ino, old_name, new_parent_ino, new_name } => rename_spec(
            v,
            old_parent_ino,
            old_name,
            new_parent_ino,
            new_name,
            now,
        ),
        OpView::Mkdir { parent_ino, name, uid, gid, perm } => match create_spec(
            v,
            parent_ino,
            name,
            DbfsFileType::Dir,
            uid,
            gid,
            perm,
            now,
            Seq::empty(),
        ) {
            Ok((store, _)) => Ok(store),
            Err(e) => Err(e),
        },
        OpView::Truncate { ino, length } => truncate_spec(v, ino, length, now),
    }
}

/// How the state `post` after applying `op` stands to the state `pre` before
/// it, given the result: for a write as `write_outcome` states, for every
/// other operation as `apply_spec` states, with the data log untouched.
pub open spec fn apply_outcome(
    op: OpView,
    pre: FsView,
    post: FsView,
    now: DbfsTimeSpec,
    r: Result<(), DbfsError>,
) -> bool {
    match op {
        OpView::Write { ino, offset, data } => write_outcome(pre, post, ino, offset, data, now, r),
        _ => match apply_spec(op, pre.store, now) {
            Ok(store) => r is Ok && post == (FsView { store, ..pre }),
            Err(e) => r == Err::<(), DbfsError>(e) && post == pre,
        },
    }
}

fn code_of_type(ty: DbfsFileType) -> (code: u64)
    ensures
        code == type_code(ty),
{
    match ty {
        DbfsFileType::File => 0,
        DbfsFileType::Dir => 1,
        DbfsFileType::Symlink => 2,
        DbfsFileType::CharDevice => 3,
        DbfsFileType::BlockDevice => 4,
        DbfsFileType::Fifo => 5,
        DbfsFileType::Socket => 6,
    }
}

fn type_for_code(code: u64) -> (ty: Option<DbfsFileType>)
    ensures
        ty == type_of_code(code),
{
    if code == 0 {
        Some(DbfsFileType::File)
    } else if code == 1 {
        Some(DbfsFileType::Dir)
    } else if code == 2 {
        Some(DbfsFileType::Symlink)
    } else if code == 3 {
        Some(DbfsFileType::CharDevice)
    } else if code == 4 {
        Some(DbfsFileType::BlockDevice)
    } else if code == 5 {
        Some(DbfsFileType::Fifo)
    } else if code == 6 {
        Some(DbfsFileType::Socket)
    } else {
        None
    }
}

fn make_raw(txn_id: u64, tag: u8, n: (u64, u64, u64, u64, u64, u64, u64), s1: &[u8], s2: &[u8]) -> (r:
    RawRecord)
    ensures
        r@ == raw(txn_id, tag, n, s1@, s2@),
{
    RawRecord {
        txn_id,
        tag,
        n0: n.0,
        n1: n.1,
        n2: n.2,
        n3: n.3,
        n4: n.4,
        n5: n.5,
        n6: n.6,
        s1: copy_bytes(s1),
        s2: copy_bytes(s2),
    }
}

impl TransactionOperation {
    /// Applies the operation to the file system, with `now` as the time of
    /// every change. `apply_outcome` states the result for every operation
    /// and every state.
    pub fn apply<D: BlockDevice>(&self, engine: &mut TransactionEngine<D>, now: DbfsTimeSpec) -> (r:
        DbfsResult<()>)
        requires
            old(engine).wf(),
        ensures
            final(engine).wf(),
            apply_outcome(self@, old(engine)@, final(engine)@, now, r),
    {
        match self {
            TransactionOperation::Write { ino, offset, data } => {
                match dbfs_write(engine, *ino, data.as_slice(), *offset, now) {
                    Ok(_) => Ok(()),
                    Err(e) => Err(e),
                }
            },
            TransactionOperation::Create { parent_ino, name, uid, gid, perm, dev: _, file_type } => {
                match dbfs_create(
                    engine,
                    *parent_ino,
                    name.as_slice(),
                    *file_type,
                    *uid,
                    *gid,
                    *perm,
                    now,
                ) {
                    Ok(_) => Ok(()),
                    Err(e) => Err(e),
                }
            },
            TransactionOperation::Delete { parent_ino, name } => dbfs_remove(
                engine,
                *parent_ino,
                name.as_slice(),
                now,
            ),
            TransactionOperation::Rename { old_parent_ino, old_name, new_parent_ino, new_name } => {
                dbfs_rename(
                    engine,
                    *old_parent_ino,
                    old_name.as_slice(),
                    *new_parent_ino,
                    new_name.as_slice(),
                    0,
                    now,
                )
            },
            TransactionOperation::Mkdir { parent_ino, name, uid, gid, perm } => {
                match dbfs_create(
                    engine,
                    *parent_ino,
                    name.as_slice(),
                    DbfsFileType::Dir,
                    *uid,
                    *gid,
                    *perm,
                    now,
                ) {
                    Ok(_) => Ok(()),
                    Err(e) => Err(e),
                }
            },
            TransactionOperation::Truncate { ino, length } => dbfs_truncate(
                engine,
                *ino,
                *length,
                now,
            ),
        }
    }

    /// A copy of the operation.
    pub fn duplicate(&self) -> (copy: TransactionOperation)
        ensures
            copy@ == self@,
    {
        match self {
            TransactionOperation::Write { ino, offset, data } => TransactionOperation::Write {
                ino: *ino,
                offset: *offset,
                data: copy_bytes(data.as_slice()),
            },
            TransactionOperation::Create { parent_ino, name, uid, gid, perm, dev, file_type } => {
                TransactionOperation::Create {
                    parent_ino: *parent_ino,
                    name: copy_bytes(name.as_slice()),
                    uid: *uid,
                    gid: *gid,
                    perm: *perm,
                    dev: *dev,
                    file_type: *file_type,
                }
            },
            TransactionOperation::Delete { parent_ino, name } => TransactionOperation::Delete {
                parent_ino: *parent_ino,
                name: copy_bytes(name.as_slice()),
            },
            TransactionOperation::Rename { old_parent_ino, old_name, new_parent_ino, new_name } => {
                TransactionOperation::Rename {
                    old_parent_ino: *old_parent_ino,
                    old_name: copy_bytes(old_name.as_slice()),
                    new_parent_ino: *new_parent_ino,
                    new_name: copy_bytes(new_name.as_slice()),
                }
            },
            TransactionOperation::Mkdir { parent_ino, name, uid, gid, perm } => {
                TransactionOperation::Mkdir {
                    parent_ino: *parent_ino,
                    name: copy_bytes(name.as_slice()),
                    uid: *uid,
                    gid: *gid,
                    perm: *perm,
                }
            },
            TransactionOperation::Truncate { ino, length } => TransactionOperation::Truncate {
                ino: *ino,
                length: *length,
            },
        }
    }

    /// The raw record of the operation as part of transaction `txn_id`.
    pub fn to_raw(&self, txn_id: u64) -> (r: RawRecord)
        ensures
            r@ == raw_of(txn_id, self@),
    {
        let none: Vec<u8> = Vec::new();
        match self {
            TransactionOperation::Write { ino, offset, data } => make_raw(
                txn_id,
                TAG_WRITE,
                (*ino, *offset, 0, 0, 0, 0, 0),
                data.as_slice(),
                none.as_slice(),
            ),
            TransactionOperation::Create { parent_ino, name, uid, gid, perm, dev, file_type } => {
                let (has_dev, dev_number): (u64, u64) = match dev {
                    Some(d) => (1, *d as u64),
                    None => (0, 0),
                };
                make_raw(
                    txn_id,
                    TAG_CREATE,
                    (
                        *parent_ino,
                        *uid as u64,
                        *gid as u64,
                        *perm as u64,
                        has_dev,
                        dev_number,
                        code_of_type(*file_type),
                    ),
                    name.as_slice(),
                    none.as_slice(),
                )
            },
            TransactionOperation::Delete { parent_ino, name } => make_raw(
                txn_id,
                TAG_DELETE,
                (*parent_ino, 0, 0, 0, 0, 0, 0),
                name.as_slice(),
                none.as_slice(),
            ),
            TransactionOperation::Rename { old_parent_ino, old_name, new_parent_ino, new_name } => {
                make_raw(
                    txn_id,
                    TAG_RENAME,
                    (*old_parent_ino, *new_parent_ino, 0, 0, 0, 0, 0),
                    old_name.as_slice(),
                    new_name.as_slice(),
                )
            },
            TransactionOperation::Mkdir { parent_ino, name, uid, gid, perm } => make_raw(
                txn_id,
                TAG_MKDIR,
                (*parent_ino, *uid as u64, *gid as u64, *perm as u64, 0, 0, 0),
                name.as_slice(),
                none.as_slice(),
            ),
            TransactionOperation::Truncate { ino, length } => make_raw(
                txn_id,
                TAG_TRUNCATE,
                (*ino, *length, 0, 0, 0, 0, 0),
                none.as_slice(),
                none.as_slice(),
            ),
        }
    }

    /// The operation that a raw record stands for, if it stands for one.
    pub fn from_raw(r: RawRecord) -> (op: Option<TransactionOperation>)
        ensures
            match op {
                Some(o) => op_of(r@) == Some(o@),
                None => op_of(r@) is None,
            },
    {
        let RawRecord { txn_id: _, tag, n0, n1, n2, n3, n4, n5, n6, s1, s2 } = r;
        let max: u64 = u32::MAX as u64;
        if tag == TAG_WRITE {
            Some(TransactionOperation::Write { ino: n0, offset: n1, data: s1 })
        } else if tag == TAG_CREATE {
            if n1 > max || n2 > max || n3 > max || n4 > 1 || n5 > max {
                return None;
            }
            let file_type = match type_for_code(n6) {
                Some(ty) => ty,
                None => {
                    return None;
                },
            };
            Some(
                TransactionOperation::Create {
                    parent_ino: n0,
                    name: s1,
                    uid: n1 as u32,
                    gid: n2 as u32,
                    perm: n3 as u32,
                    dev: if n4 == 1 {
                        Some(n5 as u32)
                    } else {
                        None
                    },
                    file_type,
                },
            )
        } else if tag == TAG_DELETE {
            Some(TransactionOperation::Delete { parent_ino: n0, name: s1 })
        } else if tag == TAG_RENAME {
            Some(
                TransactionOperation::Rename {
                    old_parent_ino: n0,
                    old_name: s1,
                    new_parent_ino: n1,
                    new_name: s2,
                },
            )
        } else if tag == TAG_MKDIR {
            if n1 > max || n2 > max || n3 > max {
                return None;
            }
            Some(
                TransactionOperation::Mkdir {
                    parent_ino: n0,
                    name: s1,
                    uid: n1 as u32,
                    gid: n2 as u32,
                    perm: n3 as u32,
                },
            )
        } else if tag == TAG_TRUNCATE {
            Some(TransactionOperation::Truncate { ino: n0, length: n1 })
        } else {
            None
        }
    }
}

} // verus!
