//! The file-system operations: each is stated as a function on the state of
//! the metadata store and carried out on the transaction engine.

use vstd::prelude::*;
use crate::error::{DbfsError, DbfsResult};
use crate::log_manager::BlockDevice;
use crate::models::{
    file_type_of, is_dir_mode, is_symlink_mode, make_mode, mode_is_dir, mode_is_symlink, mode_of,
    type_of_mode, DbfsFileType, DbfsTimeSpec, InodeMetadata, InodeView, NAME_MAX, PERM_MASK,
    S_IFMT,
};
use crate::names::DentryView;
use crate::store::StoreView;
use crate::tx_engine::{
    file_bytes, read_len, truncated_inode, write_effect, FsView, TransactionEngine,
};

verus! {

/// The name `.`, under which a directory lists itself.
pub open spec fn dot() -> Seq<u8> {
    seq![0x2Eu8]
}

/// The name `..`, under which a directory lists its parent.
pub open spec fn dotdot() -> Seq<u8> {
    seq![0x2Eu8, 0x2Eu8]
}

/// A name that a directory entry may have: 1 to 255 bytes.
pub open spec fn valid_name(name: Seq<u8>) -> bool {
    1 <= name.len() <= NAME_MAX
}

/// One of the two names that every directory has from its birth.
pub open spec fn is_special(name: Seq<u8>) -> bool {
    name == dot() || name == dotdot()
}

/// A name that an entry made or removed by a caller may have.
pub open spec fn usable_name(name: Seq<u8>) -> bool {
    valid_name(name) && !is_special(name)
}

/// Tells whether `name` may be the name of an entry made or removed by a
/// caller.
pub fn name_is_usable(name: &[u8]) -> (ok: bool)
    ensures
        ok == usable_name(name@),
{
    let n = name.len();
    if n < 1 || n > NAME_MAX {
        return false;
    }
    if n == 1 && name[0] == 0x2E {
        proof {
            assert(name@ =~= dot());
        }
        return false;
    }
    if n == 2 && name[0] == 0x2E && name[1] == 0x2E {
        proof {
            assert(name@ =~= dotdot());
        }
        return false;
    }
    proof {
        if name@ == dot() {
            assert(dot().len() == 1 && dot()[0] == 0x2Eu8);
        }
        if name@ == dotdot() {
            assert(dotdot().len() == 2 && dotdot()[0] == 0x2Eu8 && dotdot()[1] == 0x2Eu8);
        }
    }
    true
}

/// Tells whether `name` has a length that a name may have.
pub fn name_is_valid(name: &[u8]) -> (ok: bool)
    ensures
        ok == valid_name(name@),
{
    name.len() >= 1 && name.len() <= NAME_MAX
}

/// Tells whether `name` is `.` or `..`.
pub fn name_is_special(name: &[u8]) -> (special: bool)
    ensures
        special == is_special(name@),
{
    let n = name.len();
    if n == 1 && name[0] == 0x2E {
        proof {
            assert(name@ =~= dot());
        }
        return true;
    }
    if n == 2 && name[0] == 0x2E && name[1] == 0x2E {
        proof {
            assert(name@ =~= dotdot());
        }
        return true;
    }
    proof {
        if name@ == dot() {
            assert(dot().len() == 1 && dot()[0] == 0x2Eu8);
        }
        if name@ == dotdot() {
            assert(dotdot().len() == 2 && dotdot()[0] == 0x2Eu8 && dotdot()[1] == 0x2Eu8);
        }
    }
    false
}

/// The bytes of the name `.`.
pub fn dot_name() -> (name: Vec<u8>)
    ensures
        name@ == dot(),
{
    let mut name: Vec<u8> = Vec::new();
    name.push(0x2E);
    proof {
        assert(name@ =~= dot());
    }
    name
}

/// The bytes of the name `..`.
pub fn dotdot_name() -> (name: Vec<u8>)
    ensures
        name@ == dotdot(),
{
    let mut name: Vec<u8> = Vec::new();
    name.push(0x2E);
    name.push(0x2E);
    proof {
        assert(name@ =~= dotdot());
    }
    name
}

/// Some entry of the directory has a name other than `.` and `..`.
pub open spec fn has_children(entries: Seq<DentryView>) -> bool {
    exists|i: int| 0 <= i < entries.len() && !is_special(#[trigger] entries[i].name)
}

/// Why inode `ino` cannot serve as a directory, if it cannot: it has no
/// record (`NoEntry`), or it is no directory (`NotDir`).
pub open spec fn dir_error(v: StoreView, ino: u64) -> Option<DbfsError> {
    if !v.inodes.contains_key(ino) {
        Some(DbfsError::NoEntry)
    } else if !is_dir_mode(v.inodes[ino].mode) || !v.dirs.contains_key(ino) {
        Some(DbfsError::NotDir)
    } else {
        None
    }
}

/// The record of inode `ino` with its link count set to `nlink`.
pub open spec fn with_nlink(v: StoreView, ino: u64, nlink: u32) -> StoreView {
    v.with_inode(InodeView { nlink, ..v.inodes[ino] })
}

/// What `dbfs_create` does to the store, and the number of the new inode.
pub open spec fn create_spec(
    v: StoreView,
    parent: u64,
    name: Seq<u8>,
    ty: DbfsFileType,
    uid: u32,
    gid: u32,
    perm: u32,
    now: DbfsTimeSpec,
    target: Seq<u8>,
) -> Result<(StoreView, u64), DbfsError> {
    if !valid_name(name) {
        Err(DbfsError::Invalid)
    } else if dir_error(v, parent) is Some {
        Err(dir_error(v, parent).unwrap())
    } else if v.lookup(parent, name) is Some {
        Err(DbfsError::EExist)
    } else if is_special(name) {
        Err(DbfsError::Invalid)
    } else if ty == DbfsFileType::Dir && v.inodes[parent].nlink == u32::MAX {
        Err(DbfsError::Invalid)
    } else if v.next_ino() > u64::MAX {
        Err(DbfsError::IoError)
    } else {
        let ino = v.next_ino() as u64;
        let record = InodeView {
            ino,
            size: target.len() as u64,
            mode: make_mode(ty, perm),
            nlink: if ty == DbfsFileType::Dir {
                2
            } else {
                1
            },
            uid,
            gid,
            atime: now,
            mtime: now,
            ctime: now,
            extents: Seq::empty(),
            symlink_target: target,
        };
        let born = v.with_inode(record);
        if ty == DbfsFileType::Dir {
            Ok(
                (
                    with_nlink(
                        born.with_dentry(ino, dot(), ino).with_dentry(ino, dotdot(), parent).with_dentry(
                            parent,
                            name,
                            ino,
                        ),
                        parent,
                        (v.inodes[parent].nlink + 1) as u32,
                    ),
                    ino,
                ),
            )
        } else {
            Ok((born.with_dentry(parent, name, ino), ino))
        }
    }
}

/// What `dbfs_unlink` does to the store.
pub open spec fn unlink_spec(v: StoreView, parent: u64, name: Seq<u8>, now: DbfsTimeSpec) -> Result<
    StoreView,
    DbfsError,
> {
    if !valid_name(name) {
        Err(DbfsError::Invalid)
    } else if dir_error(v, parent) is Some {
        Err(dir_error(v, parent).unwrap())
    } else if v.lookup(parent, name) is None {
        Err(DbfsError::NoEntry)
    } else {
        let ino = v.lookup(parent, name).unwrap();
        if v.inodes.contains_key(ino) && is_dir_mode(v.inodes[ino].mode) {
            Err(DbfsError::IsDir)
        } else if is_special(name) {
            Err(DbfsError::Invalid)
        } else if !v.inodes.contains_key(ino) {
            Ok(v.without_dentry(parent, name))
        } else if v.inodes[ino].nlink <= 1 {
            Ok(v.without_dentry(parent, name).without_inode(ino).without_dir(ino))
        } else {
            Ok(
                v.without_dentry(parent, name).with_inode(
                    InodeView {
                        nlink: (v.inodes[ino].nlink - 1) as u32,
                        ctime: now,
                        ..v.inodes[ino]
                    },
                ),
            )
        }
    }
}

/// What `dbfs_rmdir` does to the store.
pub open spec fn rmdir_spec(v: StoreView, parent: u64, name: Seq<u8>) -> Result<
    StoreView,
    DbfsError,
> {
    if !valid_name(name) {
        Err(DbfsError::Invalid)
    } else if dir_error(v, parent) is Some {
        Err(dir_error(v, parent).unwrap())
    } else if v.lookup(parent, name) is None {
        Err(DbfsError::NoEntry)
    } else {
        let ino = v.lookup(parent, name).unwrap();
        if dir_error(v, ino) is Some {
            Err(dir_error(v, ino).unwrap())
        } else if has_children(v.dirs[ino]) {
            Err(DbfsError::NotEmpty)
        } else if is_special(name) || ino == parent {
            Err(DbfsError::Invalid)
        } else {
            let gone = v.without_dentry(parent, name).without_inode(ino).without_dir(ino);
            if v.inodes[parent].nlink > 0 {
                Ok(with_nlink(gone, parent, (v.inodes[parent].nlink - 1) as u32))
            } else {
                Ok(gone)
            }
        }
    }
}

/// What `dbfs_link` does to the store.
pub open spec fn link_spec(
    v: StoreView,
    new_parent: u64,
    name: Seq<u8>,
    src: u64,
    now: DbfsTimeSpec,
) -> Result<StoreView, DbfsError> {
    if !usable_name(name) {
        Err(DbfsError::Invalid)
    } else if dir_error(v, new_parent) is Some {
        Err(dir_error(v, new_parent).unwrap())
    } else if !v.inodes.contains_key(src) {
        Err(DbfsError::NoEntry)
    } else if is_dir_mode(v.inodes[src].mode) {
        Err(DbfsError::IsDir)
    } else if v.lookup(new_parent, name) is Some {
        Err(DbfsError::EExist)
    } else if v.inodes[src].nlink == u32::MAX {
        Err(DbfsError::Invalid)
    } else {
        Ok(
            v.with_dentry(new_parent, name, src).with_inode(
                InodeView { nlink: (v.inodes[src].nlink + 1) as u32, ctime: now, ..v.inodes[src] },
            ),
        )
    }
}

/// Whether the rename moves a directory from one parent to another.
pub open spec fn moves_dir(v: StoreView, old_parent: u64, new_parent: u64, ino: u64) -> bool {
    old_parent != new_parent && dir_error(v, ino) is None
}

/// The store `s` with the entry `old_name` of `old_parent` moved to
/// `new_name` in `new_parent`. Where `moves` says that a directory changes
/// its parent, its entry `..` follows, the old parent loses a link and the
/// new one gains one.
pub open spec fn placed(
    s: StoreView,
    old_parent: u64,
    old_name: Seq<u8>,
    new_parent: u64,
    new_name: Seq<u8>,
    ino: u64,
    moves: bool,
) -> StoreView {
    let moved = s.with_dentry(new_parent, new_name, ino).without_dentry(old_parent, old_name);
    if !moves {
        moved
    } else {
        let turned = moved.with_dentry(ino, dotdot(), new_parent);
        let left = if s.inodes.contains_key(old_parent) && s.inodes[old_parent].nlink > 0 {
            with_nlink(turned, old_parent, (s.inodes[old_parent].nlink - 1) as u32)
        } else {
            turned
        };
        if s.inodes.contains_key(new_parent) && s.inodes[new_parent].nlink < u32::MAX {
            with_nlink(left, new_parent, (s.inodes[new_parent].nlink + 1) as u32)
        } else {
            left
        }
    }
}

/// What `dbfs_rename` does to the store.
///
/// A rename of an entry onto itself changes nothing. A name that is taken
/// is replaced: what it named is first removed as `remove_spec` removes it,
/// so that a file loses a link and an empty directory goes, and a directory
/// that is not empty refuses the rename (`NotEmpty`). Where the taken name
/// names the very inode that is moved, the old name is removed as
/// `unlink_spec` removes it; two names of one directory are not merged
/// (`Invalid`). A directory is not moved into itself (`Invalid`).
pub open spec fn rename_spec(
    v: StoreView,
    old_parent: u64,
    old_name: Seq<u8>,
    new_parent: u64,
    new_name: Seq<u8>,
    now: DbfsTimeSpec,
) -> Result<StoreView, DbfsError> {
    if !usable_name(old_name) || !usable_name(new_name) {
        Err(DbfsError::Invalid)
    } else if dir_error(v, old_parent) is Some {
        Err(dir_error(v, old_parent).unwrap())
    } else if v.lookup(old_parent, old_name) is None {
        Err(DbfsError::NoEntry)
    } else if dir_error(v, new_parent) is Some {
        Err(dir_error(v, new_parent).unwrap())
    } else if old_parent == new_parent && old_name == new_name {
        Ok(v)
    } else {
        let ino = v.lookup(old_parent, old_name).unwrap();
        let moves = moves_dir(v, old_parent, new_parent, ino);
        if moves && (ino == new_parent || ino == old_parent || v.inodes[new_parent].nlink
            == u32::MAX) {
            Err(DbfsError::Invalid)
        } else if v.lookup(new_parent, new_name) is None {
            Ok(placed(v, old_parent, old_name, new_parent, new_name, ino, moves))
        } else if v.lookup(new_parent, new_name) == Some(ino) {
            if dir_error(v, ino) is None {
                Err(DbfsError::Invalid)
            } else {
                unlink_spec(v, old_parent, old_name, now)
            }
        } else {
            match remove_spec(v, new_parent, new_name, now) {
                Ok(cleared) => Ok(
                    placed(cleared, old_parent, old_name, new_parent, new_name, ino, moves),
                ),
                Err(e) => Err(e),
            }
        }
    }
}

/// Taking a name out of a directory that has no such name changes nothing.
pub proof fn lemma_without_absent(s: StoreView, parent: u64, name: Seq<u8>)
    requires
        s.dirs_sorted(),
        s.lookup(parent, name) is None,
    ensures
        s.without_dentry(parent, name) == s,
{
    if s.dirs.contains_key(parent) {
        crate::names::lemma_rank_splits(s.dirs[parent], name);
        assert(s.dirs.insert(parent, s.dirs[parent]) =~= s.dirs);
    }
}

/// Whether the entry `name` of directory `parent` names a directory.
pub open spec fn names_dir(v: StoreView, parent: u64, name: Seq<u8>) -> bool {
    &&& dir_error(v, parent) is None
    &&& v.lookup(parent, name) is Some
    &&& v.inodes.contains_key(v.lookup(parent, name).unwrap())
    &&& is_dir_mode(v.inodes[v.lookup(parent, name).unwrap()].mode)
}

/// What removing the name `name` from directory `parent` does to the store:
/// what `dbfs_rmdir` does where the name is that of a directory, and what
/// `dbfs_unlink` does everywhere else.
pub open spec fn remove_spec(v: StoreView, parent: u64, name: Seq<u8>, now: DbfsTimeSpec) -> Result<
    StoreView,
    DbfsError,
> {
    if names_dir(v, parent, name) {
        rmdir_spec(v, parent, name)
    } else {
        unlink_spec(v, parent, name, now)
    }
}

/// What `dbfs_truncate` does to the store.
pub open spec fn truncate_spec(v: StoreView, ino: u64, size: u64, now: DbfsTimeSpec) -> Result<
    StoreView,
    DbfsError,
> {
    if !v.inodes.contains_key(ino) {
        Err(DbfsError::NoEntry)
    } else if is_dir_mode(v.inodes[ino].mode) {
        Err(DbfsError::IsDir)
    } else {
        Ok(v.with_inode(truncated_inode(v.inodes[ino], size, now)))
    }
}

/// The error that refuses a write before anything is stored, if one does:
/// `NoEntry` without a record, `IsDir` for a directory, `Invalid` where the
/// write would end beyond the largest offset.
pub open spec fn write_refusal(v: StoreView, ino: u64, offset: u64, len: nat) -> Option<DbfsError> {
    if !v.inodes.contains_key(ino) {
        Some(DbfsError::NoEntry)
    } else if is_dir_mode(v.inodes[ino].mode) {
        Some(DbfsError::IsDir)
    } else if offset + len > u64::MAX {
        Some(DbfsError::Invalid)
    } else {
        None
    }
}

/// How the state `post` after a `dbfs_write` of `data` at `offset` into
/// inode `ino` stands to the state `pre` before it, given the result: as
/// `write_effect` states, with the refusals of `write_refusal`.
pub open spec fn write_outcome(
    pre: FsView,
    post: FsView,
    ino: u64,
    offset: u64,
    data: Seq<u8>,
    now: DbfsTimeSpec,
    r: Result<(), DbfsError>,
) -> bool {
    write_effect(
        pre,
        post,
        ino,
        offset,
        data,
        now,
        write_refusal(pre.store, ino, offset, data.len()),
        r,
    )
}

/// The attributes of an inode.
#[derive(Clone, Copy, Debug, PartialEq, Eq, Structural)]
pub struct DbfsAttr {
    pub ino: u64,
    pub size: u64,
    pub mode: u32,
    pub kind: DbfsFileType,
    pub uid: u32,
    pub gid: u32,
    pub atime: DbfsTimeSpec,
    pub mtime: DbfsTimeSpec,
    pub ctime: DbfsTimeSpec,
    pub hard_links: u32,
}

/// The attributes that a record gives its inode.
pub open spec fn attr_of(m: InodeView) -> DbfsAttr {
    DbfsAttr {
        ino: m.ino,
        size: m.size,
        mode: m.mode,
        kind: type_of_mode(m.mode),
        uid: m.uid,
        gid: m.gid,
        atime: m.atime,
        mtime: m.mtime,
        ctime: m.ctime,
        hard_links: m.nlink,
    }
}

/// One entry of a directory as a listing shows it.
#[derive(Debug)]
pub struct DbfsDirEntry {
    pub ino: u64,
    pub ty: DbfsFileType,
    pub name: Vec<u8>,
}

/// The type that a listing shows for inode `ino`: that of its mode, and a
/// regular file where the inode has no record.
pub open spec fn listed_type(v: StoreView, ino: u64) -> DbfsFileType {
    if v.inodes.contains_key(ino) {
        type_of_mode(v.inodes[ino].mode)
    } else {
        DbfsFileType::File
    }
}

fn check_dir<D: BlockDevice>(engine: &TransactionEngine<D>, ino: u64) -> (r: DbfsResult<
    InodeMetadata,
>)
    requires
        engine.wf(),
    ensures
        match r {
            Ok(m) => dir_error(engine@.store, ino) is None && m@ == engine@.store.inodes[ino],
            Err(e) => dir_error(engine@.store, ino) == Some(e),
        },
{
    let meta = match engine.get_metadata(ino) {
        Ok(m) => m,
        Err(_) => {
            return Err(DbfsError::NoEntry);
        },
    };
    if !mode_is_dir(meta.mode) || !engine.store().has_dir(ino) {
        return Err(DbfsError::NotDir);
    }
    Ok(meta)
}

/// What `dbfs_lookup` returns: the inode that `name` names in directory
/// `parent`; `NoEntry` where the parent has no record or no entry of that
/// name, `NotDir` where the parent is no directory.
pub open spec fn lookup_spec(v: StoreView, parent: u64, name: Seq<u8>) -> Result<u64, DbfsError> {
    if dir_error(v, parent) is Some {
        Err(dir_error(v, parent).unwrap())
    } else if v.lookup(parent, name) is None {
        Err(DbfsError::NoEntry)
    } else {
        Ok(v.lookup(parent, name).unwrap())
    }
}

/// Looks `name` up in directory `parent`. `lookup_spec` states the result
/// for every input.
pub fn dbfs_lookup<D: BlockDevice>(engine: &TransactionEngine<D>, parent: u64, name: &[u8]) -> (r:
    DbfsResult<u64>)
    requires
        engine.wf(),
    ensures
        r == lookup_spec(engine@.store, parent, name@),
{
    match check_dir(engine, parent) {
        Ok(_) => {},
        Err(e) => {
            return Err(e);
        },
    }
    engine.lookup_dentry(parent, name)
}

fn create_node<D: BlockDevice>(
    engine: &mut TransactionEngine<D>,
    parent: u64,
    name: &[u8],
    file_type: DbfsFileType,
    uid: u32,
    gid: u32,
    perm: u32,
    now: DbfsTimeSpec,
    target: &[u8],
) -> (r: DbfsResult<u64>)
    requires
        old(engine).wf(),
    ensures
        final(engine).wf(),
        final(engine)@.log == old(engine)@.log,
        final(engine)@.cursor == old(engine)@.cursor,
        final(engine)@.dependable == old(engine)@.dependable,
        match create_spec(
            old(engine)@.store,
            parent,
            name@,
            file_type,
            uid,
            gid,
            perm,
            now,
            target@,
        ) {
            Ok((store, ino)) => r == Ok::<u64, DbfsError>(ino) && final(engine)@.store == store,
            Err(e) => r == Err::<u64, DbfsError>(e) && final(engine)@ == old(engine)@,
        },
{
    if !name_is_valid(name) {
        return Err(DbfsError::Invalid);
    }
    let parent_meta = match check_dir(engine, parent) {
        Ok(m) => m,
        Err(e) => {
            return Err(e);
        },
    };
    if engine.lookup_dentry(parent, name).is_ok() {
        return Err(DbfsError::EExist);
    }
    if name_is_special(name) {
        return Err(DbfsError::Invalid);
    }
    let is_dir = match file_type {
        DbfsFileType::Dir => true,
        _ => false,
    };
    if is_dir && parent_meta.nlink == u32::MAX {
        return Err(DbfsError::Invalid);
    }
    let mode = mode_of(file_type, perm);
    let ino = match engine.allocate_inode(mode) {
        Ok(ino) => ino,
        Err(e) => {
            return Err(e);
        },
    };
    let ghost v = old(engine)@.store;
    let record = InodeMetadata {
        ino,
        size: target.len() as u64,
        mode,
        nlink: if is_dir {
            2
        } else {
            1
        },
        uid,
        gid,
        atime: now,
        mtime: now,
        ctime: now,
        extents: Vec::new(),
        symlink_target: crate::models::copy_bytes(target),
    };
    let _ = engine.update_metadata(&record);
    proof {
        assert(engine@.store.inodes =~= v.with_inode(record@).inodes);
    }
    let ghost born = v.with_inode(record@);
    if is_dir {
        let dot = dot_name();
        let dotdot = dotdot_name();
        let _ = engine.add_dentry(ino, dot.as_slice(), ino);
        let _ = engine.add_dentry(ino, dotdot.as_slice(), parent);
        let _ = engine.add_dentry(parent, name, ino);
        let ghost linked = born.with_dentry(ino, dot@, ino).with_dentry(ino, dotdot@, parent).with_dentry(
            parent,
            name@,
            ino,
        );
        let mut up = parent_meta;
        up.nlink = up.nlink + 1;
        proof {
            engine.lemma_wf();
            assert(linked.inodes[parent] == v.inodes[parent]);
            assert(up@ == (InodeView {
                nlink: (v.inodes[parent].nlink + 1) as u32,
                ..v.inodes[parent]
            }));
        }
        let _ = engine.update_metadata(&up);
    } else {
        let _ = engine.add_dentry(parent, name, ino);
    }
    Ok(ino)
}

/// Creates a file, a directory or a special file called `name` in directory
/// `parent` and returns the number of its inode. A name that the directory
/// has, `.` and `..` among them, is refused as `EExist`. A directory is born with
/// the entries `.` and `..` and two links, and gives its parent one link
/// more; everything else is born with one link. `create_spec` states the
/// result for every input.
pub fn dbfs_create<D: BlockDevice>(
    engine: &mut TransactionEngine<D>,
    parent: u64,
    name: &[u8],
    file_type: DbfsFileType,
    uid: u32,
    gid: u32,
    perm: u32,
    now: DbfsTimeSpec,
) -> (r: DbfsResult<u64>)
    requires
        old(engine).wf(),
    ensures
        final(engine).wf(),
        final(engine)@.log == old(engine)@.log,
        final(engine)@.cursor == old(engine)@.cursor,
        final(engine)@.dependable == old(engine)@.dependable,
        match create_spec(
            old(engine)@.store,
            parent,
            name@,
            file_type,
            uid,
            gid,
            perm,
            now,
            Seq::<u8>::empty(),
        ) {
            Ok((store, ino)) => r == Ok::<u64, DbfsError>(ino) && final(engine)@.store == store,
            Err(e) => r == Err::<u64, DbfsError>(e) && final(engine)@ == old(engine)@,
        },
{
    let target: Vec<u8> = Vec::new();
    create_node(engine, parent, name, file_type, uid, gid, perm, now, target.as_slice())
}

/// The permission bits of a symbolic link.
pub const SYMLINK_PERM: u32 = 0x1FF;

/// Creates a symbolic link called `name` in directory `parent` that points
/// to `target`, and returns the number of its inode. The link's size is the
/// length of the target.
pub fn dbfs_symlink<D: BlockDevice>(
    engine: &mut TransactionEngine<D>,
    parent: u64,
    name: &[u8],
    target: &[u8],
    uid: u32,
    gid: u32,
    now: DbfsTimeSpec,
) -> (r: DbfsResult<u64>)
    requires
        old(engine).wf(),
    ensures
        final(engine).wf(),
        final(engine)@.log == old(engine)@.log,
        final(engine)@.cursor == old(engine)@.cursor,
        final(engine)@.dependable == old(engine)@.dependable,
        match create_spec(
            old(engine)@.store,
            parent,
            name@,
            DbfsFileType::Symlink,
            uid,
            gid,
            SYMLINK_PERM,
            now,
            target@,
        ) {
            Ok((store, ino)) => r == Ok::<u64, DbfsError>(ino) && final(engine)@.store == store,
            Err(e) => r == Err::<u64, DbfsError>(e) && final(engine)@ == old(engine)@,
        },
{
    create_node(engine, parent, name, DbfsFileType::Symlink, uid, gid, SYMLINK_PERM, now, target)
}

/// Removes the name `name` from directory `parent`. The inode that it
/// named loses one link and, with its last link, its record. Directories are
/// not unlinked (`IsDir`), and `.` and `..` are never removed (`Invalid`). An entry whose inode has no record is removed and
/// nothing else changes. `unlink_spec` states the result for every input.
pub fn dbfs_unlink<D: BlockDevice>(
    engine: &mut TransactionEngine<D>,
    parent: u64,
    name: &[u8],
    now: DbfsTimeSpec,
) -> (r: DbfsResult<()>)
    requires
        old(engine).wf(),
    ensures
        final(engine).wf(),
        final(engine)@.log == old(engine)@.log,
        final(engine)@.cursor == old(engine)@.cursor,
        final(engine)@.dependable == old(engine)@.dependable,
        match unlink_spec(old(engine)@.store, parent, name@, now) {
            Ok(store) => r is Ok && final(engine)@.store == store,
            Err(e) => r == Err::<(), DbfsError>(e) && final(engine)@ == old(engine)@,
        },
{
    if !name_is_valid(name) {
        return Err(DbfsError::Invalid);
    }
    match check_dir(engine, parent) {
        Ok(_) => {},
        Err(e) => {
            return Err(e);
        },
    }
    let ino = match engine.lookup_dentry(parent, name) {
        Ok(ino) => ino,
        Err(e) => {
            return Err(e);
        },
    };
    let special = name_is_special(name);
    let mut meta = match engine.get_metadata(ino) {
        Ok(m) => m,
        Err(_) => {
            if special {
                return Err(DbfsError::Invalid);
            }
            let _ = engine.delete_dentry(parent, name);
            return Ok(());
        },
    };
    if mode_is_dir(meta.mode) {
        return Err(DbfsError::IsDir);
    }
    if special {
        return Err(DbfsError::Invalid);
    }
    proof {
        engine.lemma_wf();
    }
    let _ = engine.delete_dentry(parent, name);
    if meta.nlink <= 1 {
        let _ = engine.delete_inode(ino);
    } else {
        meta.nlink = meta.nlink - 1;
        meta.ctime = now;
        let _ = engine.update_metadata(&meta);
    }
    Ok(())
}

fn dir_has_children<D: BlockDevice>(engine: &TransactionEngine<D>, ino: u64) -> (r: bool)
    requires
        engine.wf(),
    ensures
        r == has_children(engine@.store.entries(ino)),
{
    let ghost entries = engine@.store.entries(ino);
    let n = match engine.store().dir_len(ino) {
        Some(n) => n,
        None => 0,
    };
    let mut i: usize = 0;
    while i < n
        invariant
            engine.wf(),
            entries == engine@.store.entries(ino),
            n == entries.len(),
            i <= n,
            forall|j: int| 0 <= j < i ==> is_special(#[trigger] entries[j].name),
        decreases n - i,
    {
        match engine.list_dentries(ino, i) {
            Ok(Some(entry)) => {
                let n = entry.0.len();
                let special = (n == 1 && entry.0[0] == 0x2E) || (n == 2 && entry.0[0] == 0x2E
                    && entry.0[1] == 0x2E);
                proof {
                    if n == 1 && entry.0@[0] == 0x2Eu8 {
                        assert(entry.0@ =~= dot());
                    }
                    if n == 2 && entry.0@[0] == 0x2Eu8 && entry.0@[1] == 0x2Eu8 {
                        assert(entry.0@ =~= dotdot());
                    }
                    if entry.0@ == dot() {
                        assert(dot().len() == 1 && dot()[0] == 0x2Eu8);
                    }
                    if entry.0@ == dotdot() {
                        assert(dotdot().len() == 2 && dotdot()[0] == 0x2Eu8 && dotdot()[1]
                            == 0x2Eu8);
                    }
                }
                if !special {
                    assert(!is_special(entries[i as int].name));
                    return true;
                }
                i = i + 1;
            },
            _ => {
                return false;
            },
        }
    }
    false
}

/// Removes the empty directory called `name` from directory `parent`: its
/// entry, its record and its own directory go, and the parent loses one
/// link. `NotEmpty` where the directory has any entry other than `.` and
/// `..`, under whatever name it is reached; an empty directory reached as
/// `.` or `..`, or as an entry of itself, is not removed (`Invalid`). `rmdir_spec` states the result for every input.
pub fn dbfs_rmdir<D: BlockDevice>(engine: &mut TransactionEngine<D>, parent: u64, name: &[u8]) -> (r:
    DbfsResult<()>)
    requires
        old(engine).wf(),
    ensures
        final(engine).wf(),
        final(engine)@.log == old(engine)@.log,
        final(engine)@.cursor == old(engine)@.cursor,
        final(engine)@.dependable == old(engine)@.dependable,
        match rmdir_spec(old(engine)@.store, parent, name@) {
            Ok(store) => r is Ok && final(engine)@.store == store,
            Err(e) => r == Err::<(), DbfsError>(e) && final(engine)@ == old(engine)@,
        },
{
    if !name_is_valid(name) {
        return Err(DbfsError::Invalid);
    }
    let mut parent_meta = match check_dir(engine, parent) {
        Ok(m) => m,
        Err(e) => {
            return Err(e);
        },
    };
    let ino = match engine.lookup_dentry(parent, name) {
        Ok(ino) => ino,
        Err(e) => {
            return Err(e);
        },
    };
    match check_dir(engine, ino) {
        Ok(_) => {},
        Err(e) => {
            return Err(e);
        },
    }
    if dir_has_children(engine, ino) {
        return Err(DbfsError::NotEmpty);
    }
    if name_is_special(name) || ino == parent {
        return Err(DbfsError::Invalid);
    }
    proof {
        engine.lemma_wf();
    }
    let _ = engine.delete_dentry(parent, name);
    let _ = engine.delete_inode(ino);
    if parent_meta.nlink > 0 {
        parent_meta.nlink = parent_meta.nlink - 1;
        let _ = engine.update_metadata(&parent_meta);
    }
    Ok(())
}

/// Removes the name `name` from directory `parent`, whatever it names: a
/// directory as `dbfs_rmdir` does, anything else as `dbfs_unlink` does.
pub fn dbfs_remove<D: BlockDevice>(
    engine: &mut TransactionEngine<D>,
    parent: u64,
    name: &[u8],
    now: DbfsTimeSpec,
) -> (r: DbfsResult<()>)
    requires
        old(engine).wf(),
    ensures
        final(engine).wf(),
        final(engine)@.log == old(engine)@.log,
        final(engine)@.cursor == old(engine)@.cursor,
        final(engine)@.dependable == old(engine)@.dependable,
        match remove_spec(old(engine)@.store, parent, name@, now) {
            Ok(store) => r is Ok && final(engine)@.store == store,
            Err(e) => r == Err::<(), DbfsError>(e) && final(engine)@ == old(engine)@,
        },
{
    let is_dir = match dbfs_lookup(engine, parent, name) {
        Ok(ino) => match engine.get_metadata(ino) {
            Ok(m) => mode_is_dir(m.mode),
            Err(_) => false,
        },
        Err(_) => false,
    };
    if is_dir {
        dbfs_rmdir(engine, parent, name)
    } else {
        dbfs_unlink(engine, parent, name, now)
    }
}

/// Gives inode `src` the further name `name` in directory `new_parent` and
/// one link more, and returns `src`. Directories get no further names
/// (`IsDir`). `link_spec` states the result for every input.
pub fn dbfs_link<D: BlockDevice>(
    engine: &mut TransactionEngine<D>,
    new_parent: u64,
    name: &[u8],
    src: u64,
    now: DbfsTimeSpec,
) -> (r: DbfsResult<u64>)
    requires
        old(engine).wf(),
    ensures
        final(engine).wf(),
        final(engine)@.log == old(engine)@.log,
        final(engine)@.cursor == old(engine)@.cursor,
        final(engine)@.dependable == old(engine)@.dependable,
        match link_spec(old(engine)@.store, new_parent, name@, src, now) {
            Ok(store) => r == Ok::<u64, DbfsError>(src) && final(engine)@.store == store,
            Err(e) => r == Err::<u64, DbfsError>(e) && final(engine)@ == old(engine)@,
        },
{
    if !name_is_usable(name) {
        return Err(DbfsError::Invalid);
    }
    match check_dir(engine, new_parent) {
        Ok(_) => {},
        Err(e) => {
            return Err(e);
        },
    }
    let mut meta = match engine.get_metadata(src) {
        Ok(m) => m,
        Err(e) => {
            return Err(e);
        },
    };
    if mode_is_dir(meta.mode) {
        return Err(DbfsError::IsDir);
    }
    if engine.lookup_dentry(new_parent, name).is_ok() {
        return Err(DbfsError::EExist);
    }
    if meta.nlink == u32::MAX {
        return Err(DbfsError::Invalid);
    }
    proof {
        engine.lemma_wf();
    }
    let _ = engine.add_dentry(new_parent, name, src);
    meta.nlink = meta.nlink + 1;
    meta.ctime = now;
    let _ = engine.update_metadata(&meta);
    Ok(src)
}

/// Moves the entry `old_name` of directory `old_parent` to the name
/// `new_name` in directory `new_parent`. A name that is taken is replaced,
/// and what it named loses a link, or goes where it is an empty directory;
/// the time `now` is that of this change. Where a directory changes its
/// parent, its entry `..` follows, the old parent loses a link and the new
/// one gains one; a directory is not moved into itself (`Invalid`).
/// `rename_spec` states the result for every input. The flags are not
/// interpreted.
pub fn dbfs_rename<D: BlockDevice>(
    engine: &mut TransactionEngine<D>,
    old_parent: u64,
    old_name: &[u8],
    new_parent: u64,
    new_name: &[u8],
    _flags: u32,
    now: DbfsTimeSpec,
) -> (r: DbfsResult<()>)
    requires
        old(engine).wf(),
    ensures
        final(engine).wf(),
        final(engine)@.log == old(engine)@.log,
        final(engine)@.cursor == old(engine)@.cursor,
        final(engine)@.dependable == old(engine)@.dependable,
        match rename_spec(old(engine)@.store, old_parent, old_name@, new_parent, new_name@, now) {
            Ok(store) => r is Ok && final(engine)@.store == store,
            Err(e) => r == Err::<(), DbfsError>(e) && final(engine)@ == old(engine)@,
        },
{
    if !name_is_usable(old_name) || !name_is_usable(new_name) {
        return Err(DbfsError::Invalid);
    }
    match check_dir(engine, old_parent) {
        Ok(_) => {},
        Err(e) => {
            return Err(e);
        },
    }
    let ino = match engine.lookup_dentry(old_parent, old_name) {
        Ok(ino) => ino,
        Err(e) => {
            return Err(e);
        },
    };
    let new_meta = match check_dir(engine, new_parent) {
        Ok(m) => m,
        Err(e) => {
            return Err(e);
        },
    };
    if old_parent == new_parent {
        match crate::names::name_order(old_name, new_name) {
            crate::names::NameOrder::Equal => {
                return Ok(());
            },
            _ => {},
        }
    }
    let is_dir = check_dir(engine, ino).is_ok();
    let moves = old_parent != new_parent && is_dir;
    if moves && (ino == new_parent || ino == old_parent || new_meta.nlink == u32::MAX) {
        return Err(DbfsError::Invalid);
    }
    match engine.lookup_dentry(new_parent, new_name) {
        Ok(taken) => {
            if taken == ino {
                if is_dir {
                    return Err(DbfsError::Invalid);
                }
                return dbfs_unlink(engine, old_parent, old_name, now);
            }
            match dbfs_remove(engine, new_parent, new_name, now) {
                Ok(()) => {},
                Err(e) => {
                    return Err(e);
                },
            }
        },
        Err(_) => {},
    }
    let ghost s = engine@.store;
    let _ = engine.add_dentry(new_parent, new_name, ino);
    proof {
        engine.lemma_wf();
    }
    match engine.delete_dentry(old_parent, old_name) {
        Ok(()) => {},
        Err(_) => {
            proof {
                lemma_without_absent(engine@.store, old_parent, old_name@);
            }
        },
    }
    if moves {
        let dotdot = dotdot_name();
        let _ = engine.add_dentry(ino, dotdot.as_slice(), new_parent);
        match engine.get_metadata(old_parent) {
            Ok(mut meta) => {
                if meta.nlink > 0 {
                    meta.nlink = meta.nlink - 1;
                    proof {
                        engine.lemma_wf();
                    }
                    let _ = engine.update_metadata(&meta);
                }
            },
            Err(_) => {},
        }
        match engine.get_metadata(new_parent) {
            Ok(mut meta) => {
                if meta.nlink < u32::MAX {
                    meta.nlink = meta.nlink + 1;
                    proof {
                        engine.lemma_wf();
                        assert(engine@.store.inodes[new_parent].nlink == s.inodes[new_parent].nlink);
                    }
                    let _ = engine.update_metadata(&meta);
                }
            },
            Err(_) => {},
        }
    }
    Ok(())
}

/// What `dbfs_get_attr` returns: the attributes of inode `ino`; `NoEntry`
/// where it has no record.
pub open spec fn get_attr_spec(v: StoreView, ino: u64) -> Result<DbfsAttr, DbfsError> {
    if v.inodes.contains_key(ino) {
        Ok(attr_of(v.inodes[ino]))
    } else {
        Err(DbfsError::NoEntry)
    }
}

/// The attributes of inode `ino`. `get_attr_spec` states the result for
/// every input.
pub fn dbfs_get_attr<D: BlockDevice>(engine: &TransactionEngine<D>, ino: u64) -> (r: DbfsResult<
    DbfsAttr,
>)
    requires
        engine.wf(),
    ensures
        r == get_attr_spec(engine@.store, ino),
{
    match engine.get_metadata(ino) {
        Ok(m) => Ok(
            DbfsAttr {
                ino: m.ino,
                size: m.size,
                mode: m.mode,
                kind: file_type_of(m.mode),
                uid: m.uid,
                gid: m.gid,
                atime: m.atime,
                mtime: m.mtime,
                ctime: m.ctime,
                hard_links: m.nlink,
            },
        ),
        Err(e) => Err(e),
    }
}

/// How the result of `dbfs_readdir` stands to the store: an inode that
/// cannot serve as a directory gives its error; a directory gives the entry
/// at place `index`, counted in byte order of the names, with the type of
/// the inode that it names, and `None` past its last entry.
pub open spec fn readdir_outcome(
    v: StoreView,
    ino: u64,
    index: usize,
    r: Result<Option<DbfsDirEntry>, DbfsError>,
) -> bool {
    match r {
        Ok(found) => {
            &&& dir_error(v, ino) is None
            &&& found is Some <==> index < v.dirs[ino].len()
            &&& found matches Some(e) ==> {
                &&& e.name@ == v.dirs[ino][index as int].name
                &&& e.ino == v.dirs[ino][index as int].ino
                &&& e.ty == listed_type(v, e.ino)
            }
        },
        Err(e) => dir_error(v, ino) == Some(e),
    }
}

/// The entry at place `index` of directory `ino`. `readdir_outcome` states
/// the result for every input.
pub fn dbfs_readdir<D: BlockDevice>(engine: &TransactionEngine<D>, ino: u64, index: usize) -> (r:
    DbfsResult<Option<DbfsDirEntry>>)
    requires
        engine.wf(),
    ensures
        readdir_outcome(engine@.store, ino, index, r),
{
    match check_dir(engine, ino) {
        Ok(_) => {},
        Err(e) => {
            return Err(e);
        },
    }
    match engine.list_dentries(ino, index) {
        Ok(Some(entry)) => {
            let (name, child) = entry;
            let ty = match engine.get_metadata(child) {
                Ok(m) => file_type_of(m.mode),
                Err(_) => DbfsFileType::File,
            };
            Ok(Some(DbfsDirEntry { ino: child, ty, name }))
        },
        _ => Ok(None),
    }
}

/// The error that refuses a read before the device is asked, if one does:
/// `NoEntry` without a record, `IsDir` for a directory.
pub open spec fn read_refusal(v: StoreView, ino: u64) -> Option<DbfsError> {
    if !v.inodes.contains_key(ino) {
        Some(DbfsError::NoEntry)
    } else if is_dir_mode(v.inodes[ino].mode) {
        Some(DbfsError::IsDir)
    } else {
        None
    }
}

/// How the buffer `after` a read of inode `ino` at `offset` stands to the
/// buffer `before` it, given the read's result.
///
/// A refused read leaves the buffer. A read that is not refused succeeds on
/// a dependable device; where it fails on another, the result is an
/// `IoError`. A read that succeeds yields as many bytes as the buffer holds
/// or as the file has from `offset` to its size, whichever is less, and none
/// at or past the end; they fill the front of the buffer, each the byte of
/// the latest extent that maps its offset and zero where none does, and the
/// rest of the buffer stays. A read of no bytes does not fail.
pub open spec fn read_outcome(
    v: FsView,
    ino: u64,
    offset: u64,
    before: Seq<u8>,
    after: Seq<u8>,
    r: Result<usize, DbfsError>,
) -> bool {
    &&& after.len() == before.len()
    &&& match read_refusal(v.store, ino) {
        Some(e) => r == Err::<usize, DbfsError>(e) && after == before,
        None => match r {
            Ok(n) => {
                &&& n == read_len(v.store.inodes[ino].size, offset, before.len())
                &&& after.take(n as int) == file_bytes(
                    v.store.inodes[ino].extents,
                    v.log,
                    offset as int,
                    n as nat,
                )
                &&& after.skip(n as int) == before.skip(n as int)
            },
            Err(e) => e == DbfsError::IoError && !v.dependable && read_len(
                v.store.inodes[ino].size,
                offset,
                before.len(),
            ) > 0,
        },
    }
}

/// Reads the file of inode `ino` from `offset` on into the front of `buf`
/// and returns how many bytes were read. `read_outcome` states the result
/// for every input.
pub fn dbfs_read<D: BlockDevice>(
    engine: &TransactionEngine<D>,
    ino: u64,
    buf: &mut [u8],
    offset: u64,
) -> (r: DbfsResult<usize>)
    requires
        engine.wf(),
    ensures
        read_outcome(engine@, ino, offset, old(buf)@, final(buf)@, r),
{
    let meta = match engine.get_metadata(ino) {
        Ok(m) => m,
        Err(e) => {
            return Err(e);
        },
    };
    if mode_is_dir(meta.mode) {
        return Err(DbfsError::IsDir);
    }
    proof {
        engine.lemma_wf();
    }
    engine.read_from_log(&meta, offset, buf)
}

/// Writes `buf` into the file of inode `ino` at `offset` and returns the
/// number of bytes written, which is all of them. The payload is stored in
/// the data log and made durable before the inode refers to it. `NoEntry`
/// where the inode has no record, `IsDir` where it is a directory, `Invalid`
/// where the write would end beyond the largest offset, `IoError` where the
/// device fails or is full. On failure the metadata stay as they were.
pub fn dbfs_write<D: BlockDevice>(
    engine: &mut TransactionEngine<D>,
    ino: u64,
    buf: &[u8],
    offset: u64,
    now: DbfsTimeSpec,
) -> (r: DbfsResult<usize>)
    requires
        old(engine).wf(),
    ensures
        final(engine).wf(),
        r matches Ok(n) ==> n == buf@.len(),
        r is Ok ==> final(engine).durable_log() == final(engine)@.log,
        write_outcome(
            old(engine)@,
            final(engine)@,
            ino,
            offset,
            buf@,
            now,
            match r {
                Ok(_) => Ok(()),
                Err(e) => Err(e),
            },
        ),
{
    let meta = match engine.get_metadata(ino) {
        Ok(m) => m,
        Err(e) => {
            return Err(e);
        },
    };
    if mode_is_dir(meta.mode) {
        return Err(DbfsError::IsDir);
    }
    match engine.write_file_transactional(ino, offset, buf, now) {
        Ok(()) => Ok(buf.len()),
        Err(e) => Err(e),
    }
}

/// Sets the file of inode `ino` to `size` bytes. `NoEntry` where the inode
/// has no record, `IsDir` where it is a directory.
pub fn dbfs_truncate<D: BlockDevice>(
    engine: &mut TransactionEngine<D>,
    ino: u64,
    size: u64,
    now: DbfsTimeSpec,
) -> (r: DbfsResult<()>)
    requires
        old(engine).wf(),
    ensures
        final(engine).wf(),
        final(engine)@.log == old(engine)@.log,
        final(engine)@.cursor == old(engine)@.cursor,
        final(engine)@.dependable == old(engine)@.dependable,
        match truncate_spec(old(engine)@.store, ino, size, now) {
            Ok(store) => r is Ok && final(engine)@.store == store,
            Err(e) => r == Err::<(), DbfsError>(e) && final(engine)@ == old(engine)@,
        },
{
    let meta = match engine.get_metadata(ino) {
        Ok(m) => m,
        Err(e) => {
            return Err(e);
        },
    };
    if mode_is_dir(meta.mode) {
        return Err(DbfsError::IsDir);
    }
    match engine.truncate_file(ino, size, now) {
        Ok(()) => Ok(()),
        Err(e) => Err(e),
    }
}

/// How the buffer `after` a `dbfs_readlink` stands to the buffer `before`
/// it, given the result: `NoEntry` where the inode has no record and `NoSys`
/// where it is no symbolic link, the buffer untouched; else the whole
/// target, or as much of it as the buffer holds, in the front of the buffer,
/// and the rest of the buffer as it was.
pub open spec fn readlink_outcome(
    v: StoreView,
    ino: u64,
    before: Seq<u8>,
    after: Seq<u8>,
    r: Result<usize, DbfsError>,
) -> bool {
    &&& after.len() == before.len()
    &&& if !v.inodes.contains_key(ino) {
        r == Err::<usize, DbfsError>(DbfsError::NoEntry) && after == before
    } else if !is_symlink_mode(v.inodes[ino].mode) {
        r == Err::<usize, DbfsError>(DbfsError::NoSys) && after == before
    } else {
        let target = v.inodes[ino].symlink_target;
        let n = if target.len() <= before.len() {
            target.len()
        } else {
            before.len()
        };
        &&& r == Ok::<usize, DbfsError>(n as usize)
        &&& after.take(n as int) == target.take(n as int)
        &&& after.skip(n as int) == before.skip(n as int)
    }
}

/// Copies the target of the symbolic link `ino` into the front of `buf` and
/// returns how many bytes were copied. `readlink_outcome` states the result
/// for every input.
pub fn dbfs_readlink<D: BlockDevice>(engine: &TransactionEngine<D>, ino: u64, buf: &mut [u8]) -> (r:
    DbfsResult<usize>)
    requires
        engine.wf(),
    ensures
        readlink_outcome(engine@.store, ino, old(buf)@, final(buf)@, r),
{
    let meta = match engine.get_metadata(ino) {
        Ok(m) => m,
        Err(e) => {
            return Err(e);
        },
    };
    if !mode_is_symlink(meta.mode) {
        return Err(DbfsError::NoSys);
    }
    let n = if meta.symlink_target.len() <= buf.len() {
        meta.symlink_target.len()
    } else {
        buf.len()
    };
    let mut i: usize = 0;
    while i < n
        invariant
            i <= n,
            n <= buf@.len(),
            n <= meta.symlink_target@.len(),
            buf@.len() == old(buf)@.len(),
            forall|j: int| 0 <= j < i ==> buf@[j] == meta.symlink_target@[j],
            forall|j: int| i <= j < buf@.len() ==> buf@[j] == old(buf)@[j],
        decreases n - i,
    {
        buf[i] = meta.symlink_target[i];
        i = i + 1;
    }
    proof {
        assert(buf@.take(n as int) =~= meta.symlink_target@.take(n as int));
        assert(buf@.skip(n as int) =~= old(buf)@.skip(n as int));
    }
    Ok(n)
}

/// The attributes of an inode that a caller may set. What is `None` stays as
/// it is.
#[derive(Clone, Copy, Debug, PartialEq, Eq, Structural)]
pub struct DbfsSetAttr {
    /// New permission bits. The file type of the mode is not taken over.
    pub mode: Option<u32>,
    pub uid: Option<u32>,
    pub gid: Option<u32>,
    /// A new size, to which the file is cut down or extended.
    pub size: Option<u64>,
    pub atime: Option<DbfsTimeSpec>,
    pub mtime: Option<DbfsTimeSpec>,
}

/// A record with the attributes of `attr` set, changed at `now`: the
/// permission bits change and the file type stays; a new size changes the
/// file as a truncation does; a modification time that is given goes before
/// the one that a new size brings.
pub open spec fn with_attr(m: InodeView, attr: DbfsSetAttr, now: DbfsTimeSpec) -> InodeView {
    let sized = match attr.size {
        Some(size) => truncated_inode(m, size, now),
        None => m,
    };
    InodeView {
        mode: match attr.mode {
            Some(mode) => (m.mode & S_IFMT) | (mode & PERM_MASK),
            None => m.mode,
        },
        uid: match attr.uid {
            Some(uid) => uid,
            None => m.uid,
        },
        gid: match attr.gid {
            Some(gid) => gid,
            None => m.gid,
        },
        atime: match attr.atime {
            Some(atime) => atime,
            None => m.atime,
        },
        mtime: match attr.mtime {
            Some(mtime) => mtime,
            None => sized.mtime,
        },
        ctime: now,
        ..sized
    }
}

/// What `dbfs_set_attr` does to the store.
pub open spec fn set_attr_spec(
    v: StoreView,
    ino: u64,
    attr: DbfsSetAttr,
    now: DbfsTimeSpec,
) -> Result<StoreView, DbfsError> {
    if !v.inodes.contains_key(ino) {
        Err(DbfsError::NoEntry)
    } else if attr.size is Some && is_dir_mode(v.inodes[ino].mode) {
        Err(DbfsError::IsDir)
    } else {
        Ok(v.with_inode(with_attr(v.inodes[ino], attr, now)))
    }
}

/// Sets attributes of inode `ino`, and its change time to `now`. `NoEntry`
/// where the inode has no record, `IsDir` where a directory is to get a
/// size. `set_attr_spec` states the result for every input.
pub fn dbfs_set_attr<D: BlockDevice>(
    engine: &mut TransactionEngine<D>,
    ino: u64,
    attr: DbfsSetAttr,
    now: DbfsTimeSpec,
) -> (r: DbfsResult<()>)
    requires
        old(engine).wf(),
    ensures
        final(engine).wf(),
        final(engine)@.log == old(engine)@.log,
        final(engine)@.cursor == old(engine)@.cursor,
        final(engine)@.dependable == old(engine)@.dependable,
        match set_attr_spec(old(engine)@.store, ino, attr, now) {
            Ok(store) => r is Ok && final(engine)@.store == store,
            Err(e) => r == Err::<(), DbfsError>(e) && final(engine)@ == old(engine)@,
        },
{
    let before = match engine.get_metadata(ino) {
        Ok(m) => m,
        Err(e) => {
            return Err(e);
        },
    };
    let ghost v = old(engine)@.store;
    proof {
        engine.lemma_wf();
    }
    match attr.size {
        Some(size) => {
            if mode_is_dir(before.mode) {
                return Err(DbfsError::IsDir);
            }
            let _ = engine.truncate_file(ino, size, now);
        },
        None => {},
    }
    let mut meta = match engine.get_metadata(ino) {
        Ok(m) => m,
        Err(e) => {
            return Err(e);
        },
    };
    match attr.mode {
        Some(mode) => {
            meta.mode = (meta.mode & S_IFMT) | (mode & PERM_MASK);
        },
        None => {},
    }
    match attr.uid {
        Some(uid) => {
            meta.uid = uid;
        },
        None => {},
    }
    match attr.gid {
        Some(gid) => {
            meta.gid = gid;
        },
        None => {},
    }
    match attr.atime {
        Some(atime) => {
            meta.atime = atime;
        },
        None => {},
    }
    match attr.mtime {
        Some(mtime) => {
            meta.mtime = mtime;
        },
        None => {},
    }
    meta.ctime = now;
    proof {
        engine.lemma_wf();
        assert(meta@ =~= with_attr(v.inodes[ino], attr, now));
    }
    let _ = engine.update_metadata(&meta);
    proof {
        assert(engine@.store.inodes =~= v.with_inode(with_attr(v.inodes[ino], attr, now)).inodes);
    }
    Ok(())
}

} // verus!
