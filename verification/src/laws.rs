//! What holds of the file system as a whole, proved from the contracts of
//! its operations.

use vstd::prelude::*;
use crate::error::DbfsError;
use crate::fs::{
    create_spec, dir_error, dot, dotdot, has_children, is_special, moves_dir, read_outcome,
    remove_spec, rename_spec, rmdir_spec, unlink_spec, valid_name, write_outcome,
};
use crate::models::{
    extent_ok, extents_ok, lemma_make_mode_type, type_of_mode, DbfsFileType, DbfsTimeSpec, Extent,
};
use crate::names::{
    entry_ino, entry_name, lemma_dir_with, lemma_dir_without, lemma_sorted_unique, names_map,
    sorted_names, DentryView,
};
use crate::operation::{apply_spec, OpView};
use crate::store::StoreView;
use crate::table::{has_key, index_of, lemma_table_get};
use crate::tx_engine::{
    checksum_holds, clip_extent, extent_covers, file_byte, file_bytes, read_len, truncate_extents,
    truncated_inode, FsView,
};
use crate::wal::{chain_ends, frame_at, frame_of, frames_between, FRAME_MAX};

verus! {

/// Among inode numbers at most `bound` there is a largest one in use, or
/// none is in use.
proof fn lemma_max_below(v: StoreView, bound: u64) -> (m: u64)
    requires
        v.inos_at_most(bound),
    ensures
        v.is_max_ino(m),
    decreases bound,
{
    if bound == 0 || v.inodes.contains_key(bound) {
        bound
    } else {
        assert(v.inos_at_most((bound - 1) as u64)) by {
            assert forall|k: u64| v.inodes.contains_key(k) implies k <= bound - 1 by {
                assert(k <= bound);
            }
        }
        lemma_max_below(v, (bound - 1) as u64)
    }
}

/// The number that the next inode gets is in use by no inode.
pub proof fn lemma_next_ino_fresh(v: StoreView)
    ensures
        v.is_max_ino(v.max_ino()),
        v.next_ino() <= u64::MAX ==> !v.inodes.contains_key(v.next_ino() as u64),
        v.next_ino() >= 2,
{
    let m = lemma_max_below(v, u64::MAX);
    crate::store::lemma_max_ino(v, m);
    if v.next_ino() <= u64::MAX && v.inodes.contains_key(v.next_ino() as u64) {
        assert(v.next_ino() as u64 <= m);
    }
}

/// A byte that was written is the byte that is read: after a write of `data`
/// at `offset` has succeeded, a read of as many bytes at the same offset
/// yields all of them, and they are `data`.
pub proof fn law_write_then_read(
    pre: FsView,
    post: FsView,
    ino: u64,
    offset: u64,
    data: Seq<u8>,
    now: DbfsTimeSpec,
)
    requires
        pre.wf(),
        write_outcome(pre, post, ino, offset, data, now, Ok::<(), DbfsError>(())),
    ensures
        post.store.inodes.contains_key(ino),
        read_len(post.store.inodes[ino].size, offset, data.len()) == data.len(),
        file_bytes(post.store.inodes[ino].extents, post.log, offset as int, data.len()) == data,
{
    let extents = post.store.inodes[ino].extents;
    let last = extents.last();
    assert(last.logical_off == offset && last.len == data.len() && last.physical_ptr
        == pre.cursor);
    assert forall|i: int| 0 <= i < data.len() implies file_byte(extents, post.log, offset + i)
        == data[i] by {
        assert(extent_covers(last, offset + i));
        assert(post.log.subrange(pre.cursor as int, post.cursor as int)[i] == post.log[pre.cursor
            + i]);
    }
    assert(file_bytes(extents, post.log, offset as int, data.len()) =~= data);
}

/// On a dependable device a read after a write returns what was written:
/// after a `dbfs_write` of `data` at `offset` has succeeded, a `dbfs_read`
/// at the same offset into a buffer as long as `data` is `Ok` with the
/// length of `data`, and the buffer holds `data`.
pub proof fn law_read_returns_what_was_written(
    pre: FsView,
    post: FsView,
    ino: u64,
    offset: u64,
    data: Seq<u8>,
    now: DbfsTimeSpec,
    before: Seq<u8>,
    after: Seq<u8>,
    r: Result<usize, DbfsError>,
)
    requires
        pre.wf(),
        pre.dependable,
        write_outcome(pre, post, ino, offset, data, now, Ok::<(), DbfsError>(())),
        before.len() == data.len(),
        read_outcome(post, ino, offset, before, after, r),
    ensures
        r == Ok::<usize, DbfsError>(data.len() as usize),
        after == data,
{
    law_write_then_read(pre, post, ino, offset, data, now);
    assert(post.store.inodes[ino].mode == pre.store.inodes[ino].mode);
    assert(after.take(data.len() as int) =~= after);
}

/// The size of a file never lies below the end of a write that succeeded.
pub proof fn law_size_covers_write(
    pre: FsView,
    post: FsView,
    ino: u64,
    offset: u64,
    data: Seq<u8>,
    now: DbfsTimeSpec,
)
    requires
        pre.wf(),
        write_outcome(pre, post, ino, offset, data, now, Ok::<(), DbfsError>(())),
    ensures
        post.store.inodes[ino].size >= offset + data.len(),
        post.store.inodes[ino].size >= pre.store.inodes[ino].size,
{
}

/// The newest write wins: of two writes of equally many bytes at the same
/// offset, a read then yields the bytes of the second.
pub proof fn law_newest_wins(
    first: FsView,
    second: FsView,
    third: FsView,
    ino: u64,
    offset: u64,
    a: Seq<u8>,
    b: Seq<u8>,
    now_a: DbfsTimeSpec,
    now_b: DbfsTimeSpec,
)
    requires
        first.wf(),
        second.wf(),
        a.len() == b.len(),
        write_outcome(first, second, ino, offset, a, now_a, Ok::<(), DbfsError>(())),
        write_outcome(second, third, ino, offset, b, now_b, Ok::<(), DbfsError>(())),
    ensures
        read_len(third.store.inodes[ino].size, offset, b.len()) == b.len(),
        file_bytes(third.store.inodes[ino].extents, third.log, offset as int, b.len()) == b,
{
    law_write_then_read(second, third, ino, offset, b, now_b);
}

/// What was created is found: after `dbfs_create` or `dbfs_symlink` has
/// succeeded, a lookup of the name in the parent yields the new inode, whose
/// number was not in use before and whose type is the one asked for. A new
/// directory lists itself as `.` and its parent as `..`.
pub proof fn law_create_then_lookup(
    v: StoreView,
    parent: u64,
    name: Seq<u8>,
    ty: DbfsFileType,
    uid: u32,
    gid: u32,
    perm: u32,
    now: DbfsTimeSpec,
    target: Seq<u8>,
)
    requires
        v.dirs_sorted(),
        v.inos_match(),
        create_spec(v, parent, name, ty, uid, gid, perm, now, target) is Ok,
    ensures
        ({
            let (after, ino) = create_spec(v, parent, name, ty, uid, gid, perm, now, target)->Ok_0;
            &&& dir_error(after, parent) is None
            &&& after.lookup(parent, name) == Some(ino)
            &&& after.inodes.contains_key(ino)
            &&& !v.inodes.contains_key(ino)
            &&& type_of_mode(after.inodes[ino].mode) == ty
            &&& ty == DbfsFileType::Dir ==> dir_error(after, ino) is None && after.lookup(
                ino,
                dot(),
            ) == Some(ino) && after.lookup(ino, dotdot()) == Some(parent)
            &&& after.dirs_sorted()
            &&& after.inos_match()
        }),
{
    lemma_next_ino_fresh(v);
    lemma_make_mode_type(ty, perm);
    let (after, ino) = create_spec(v, parent, name, ty, uid, gid, perm, now, target)->Ok_0;
    lemma_dir_with(v.dirs[parent], name, ino);
    if ty == DbfsFileType::Dir {
        let born = v.with_inode(after.inodes[ino]);
        let own = born.entries(ino);
        if v.dirs.contains_key(ino) {
            assert(sorted_names(v.dirs[ino]));
        }
        lemma_dir_with(own, dot(), ino);
        lemma_dir_with(
            crate::names::dir_with(own, dot(), ino),
            dotdot(),
            parent,
        );
    }
    assert forall|k: u64| after.dirs.contains_key(k) implies sorted_names(
        #[trigger] after.dirs[k],
    ) by {
        if k != parent && k != ino {
            assert(v.dirs.contains_key(k));
        }
    }
}

/// What was unlinked is gone: after `dbfs_unlink` has succeeded, a lookup of
/// the name in the parent finds nothing.
pub proof fn law_unlink_then_lookup(v: StoreView, parent: u64, name: Seq<u8>, now: DbfsTimeSpec)
    requires
        v.dirs_sorted(),
        unlink_spec(v, parent, name, now) is Ok,
    ensures
        unlink_spec(v, parent, name, now)->Ok_0.lookup(parent, name) is None,
{
    lemma_dir_without(v.dirs[parent], name);
}

/// A directory is refused as not empty exactly where it has an entry other
/// than `.` and `..`: for every name that names a directory, `.` and `..`
/// among them.
pub proof fn law_rmdir_guard(v: StoreView, parent: u64, name: Seq<u8>)
    requires
        valid_name(name),
        dir_error(v, parent) is None,
        v.lookup(parent, name) is Some,
        dir_error(v, v.lookup(parent, name).unwrap()) is None,
    ensures
        rmdir_spec(v, parent, name) == Err::<StoreView, DbfsError>(DbfsError::NotEmpty)
            <==> has_children(v.dirs[v.lookup(parent, name).unwrap()]),
{
}

/// A directory that lists itself and its parent has an entry other than `.`
/// and `..` exactly where it has more than two entries.
pub proof fn law_children_by_count(entries: Seq<DentryView>)
    requires
        sorted_names(entries),
        names_map(entries).contains_key(dot()),
        names_map(entries).contains_key(dotdot()),
    ensures
        has_children(entries) <==> entries.len() > 2,
{
    lemma_sorted_unique(entries);
    assert(dot().len() != dotdot().len());
    if entries.len() > 2 {
        assert(entry_name()(entries[0]) != entry_name()(entries[1]));
        assert(entry_name()(entries[0]) != entry_name()(entries[2]));
        assert(entry_name()(entries[1]) != entry_name()(entries[2]));
        if is_special(entries[0].name) && is_special(entries[1].name) {
            assert(!is_special(entries[2].name));
        }
    }
    if has_children(entries) {
        let c = choose|i: int| 0 <= i < entries.len() && !is_special(#[trigger] entries[i].name);
        assert(has_key(entries, entry_name(), dot()));
        assert(has_key(entries, entry_name(), dotdot()));
        let a = index_of(entries, entry_name(), dot());
        let b = index_of(entries, entry_name(), dotdot());
        assert(entries[a].name == dot() && entries[b].name == dotdot());
        assert(a != b && a != c && b != c);
    }
}

/// The listing of a directory is complete and without repetition: the names
/// at the places `0` to the length of the directory, which `dbfs_readdir`
/// yields one by one, are all different, and they are the names that the
/// directory maps, each with the inode that it maps the name to.
pub proof fn law_readdir_complete(v: StoreView, ino: u64)
    requires
        v.dirs_sorted(),
        v.dirs.contains_key(ino),
    ensures
        forall|i: int, j: int|
            0 <= i < j < v.dirs[ino].len() ==> (#[trigger] v.dirs[ino][i]).name != (
            #[trigger] v.dirs[ino][j]).name,
        forall|i: int|
            0 <= i < v.dirs[ino].len() ==> v.lookup(ino, (#[trigger] v.dirs[ino][i]).name) == Some(
                v.dirs[ino][i].ino,
            ),
        forall|name: Seq<u8>| #[trigger]
            v.lookup(ino, name) is Some ==> exists|i: int|
                0 <= i < v.dirs[ino].len() && (#[trigger] v.dirs[ino][i]).name == name,
{
    let entries = v.dirs[ino];
    lemma_sorted_unique(entries);
    assert forall|i: int, j: int| 0 <= i < j < entries.len() implies (#[trigger] entries[i]).name
        != (#[trigger] entries[j]).name by {
        assert(entry_name()(entries[i]) != entry_name()(entries[j]));
    }
    assert forall|i: int| 0 <= i < entries.len() implies v.lookup(ino, (#[trigger] entries[i]).name)
        == Some(entries[i].ino) by {
        lemma_table_get(entries, entry_name(), entry_ino(), i);
    }
    assert forall|name: Seq<u8>| #[trigger] v.lookup(ino, name) is Some implies exists|i: int|
        0 <= i < entries.len() && (#[trigger] entries[i]).name == name by {
        assert(has_key(entries, entry_name(), name));
        let i = index_of(entries, entry_name(), name);
        assert(0 <= i < entries.len() && entries[i].name == name);
    }
}

/// A write keeps the checksums: the extent that it adds carries the CRC-32
/// of the bytes that it refers to, and every extent that was there before is
/// still there, refers to the same bytes, and has the checksum of its bytes
/// if it had it before.
pub proof fn law_write_keeps_checksums(
    pre: FsView,
    post: FsView,
    ino: u64,
    offset: u64,
    data: Seq<u8>,
    now: DbfsTimeSpec,
)
    requires
        pre.wf(),
        write_outcome(pre, post, ino, offset, data, now, Ok::<(), DbfsError>(())),
    ensures
        checksum_holds(post.log, post.store.inodes[ino].extents.last()),
        forall|k: u64, i: int|
            pre.store.inodes.contains_key(k) && 0 <= i < pre.store.inodes[k].extents.len() ==> {
                &&& post.store.inodes.contains_key(k)
                &&& #[trigger] post.store.inodes[k].extents[i] == pre.store.inodes[k].extents[i]
                &&& checksum_holds(pre.log, pre.store.inodes[k].extents[i]) ==> checksum_holds(
                    post.log,
                    pre.store.inodes[k].extents[i],
                )
            },
{
    let added = post.store.inodes[ino].extents.last();
    assert(post.log.subrange(added.physical_ptr as int, added.physical_ptr + added.len) =~= data);
    assert forall|k: u64, i: int|
        pre.store.inodes.contains_key(k) && 0 <= i < pre.store.inodes[k].extents.len() implies {
            &&& post.store.inodes.contains_key(k)
            &&& #[trigger] post.store.inodes[k].extents[i] == pre.store.inodes[k].extents[i]
            &&& checksum_holds(pre.log, pre.store.inodes[k].extents[i]) ==> checksum_holds(
                post.log,
                pre.store.inodes[k].extents[i],
            )
        } by {
        let e = pre.store.inodes[k].extents[i];
        assert(extents_ok(pre.store.inodes[k].extents, pre.cursor));
        assert(extent_ok(e, pre.cursor));
        assert(post.log.subrange(e.physical_ptr as int, e.physical_ptr + e.len)
            =~= pre.log.subrange(e.physical_ptr as int, e.physical_ptr + e.len));
    }
}

/// A truncation keeps the extents that it does not cut: every extent of the
/// file that begins before the new size and ends at or before it is among
/// the extents afterwards, as it was.
pub proof fn law_truncate_keeps_whole_extents(extents: Seq<Extent>, new_size: u64, e: Extent)
    requires
        extents.contains(e),
        e.logical_off < new_size,
        e.logical_off + e.len <= new_size,
    ensures
        truncate_extents(extents, new_size).contains(e),
    decreases extents.len(),
{
    let i = choose|i: int| 0 <= i < extents.len() && extents[i] == e;
    let rest = extents.drop_last();
    let cut = truncate_extents(extents, new_size);
    if i == extents.len() - 1 {
        assert(clip_extent(e, new_size) == e);
        assert(cut.last() == e);
    } else {
        assert(rest[i] == e);
        law_truncate_keeps_whole_extents(rest, new_size, e);
        let j = choose|j: int|
            0 <= j < truncate_extents(rest, new_size).len() && truncate_extents(rest, new_size)[j]
                == e;
        assert(cut[j] == e);
    }
}

/// A truncation changes no byte below the new size.
pub proof fn law_truncate_keeps_bytes(extents: Seq<Extent>, log: Seq<u8>, new_size: u64, p: int)
    requires
        0 <= p < new_size,
    ensures
        file_byte(truncate_extents(extents, new_size), log, p) == file_byte(extents, log, p),
    decreases extents.len(),
{
    if extents.len() > 0 {
        let rest = extents.drop_last();
        law_truncate_keeps_bytes(rest, log, new_size, p);
        let e = extents.last();
        if e.logical_off < new_size {
            let cut = truncate_extents(extents, new_size);
            assert(cut.last() == clip_extent(e, new_size));
            assert(cut.drop_last() =~= truncate_extents(rest, new_size));
            assert(extent_covers(clip_extent(e, new_size), p) == extent_covers(e, p));
        } else {
            assert(!extent_covers(e, p));
        }
    }
}

/// A truncation leaves no byte at or beyond the new size: what a later
/// extension of the file shows there is zeros.
pub proof fn law_truncate_clears_tail(extents: Seq<Extent>, log: Seq<u8>, new_size: u64, p: int)
    requires
        p >= new_size,
    ensures
        file_byte(truncate_extents(extents, new_size), log, p) == 0,
    decreases extents.len(),
{
    if extents.len() > 0 {
        let rest = extents.drop_last();
        law_truncate_clears_tail(rest, log, new_size, p);
        let e = extents.last();
        if e.logical_off < new_size {
            let cut = truncate_extents(extents, new_size);
            assert(cut.last() == clip_extent(e, new_size));
            assert(cut.drop_last() =~= truncate_extents(rest, new_size));
            assert(!extent_covers(clip_extent(e, new_size), p));
        }
    }
}

/// Cutting extents down twice at the same size is cutting them down once.
pub proof fn lemma_truncate_twice(extents: Seq<Extent>, new_size: u64)
    ensures
        truncate_extents(truncate_extents(extents, new_size), new_size) == truncate_extents(
            extents,
            new_size,
        ),
    decreases extents.len(),
{
    if extents.len() > 0 {
        let rest = extents.drop_last();
        lemma_truncate_twice(rest, new_size);
        let e = extents.last();
        if e.logical_off < new_size {
            let once = truncate_extents(extents, new_size);
            assert(once.last() == clip_extent(e, new_size));
            assert(once.drop_last() =~= truncate_extents(rest, new_size));
            assert(clip_extent(clip_extent(e, new_size), new_size) == clip_extent(e, new_size));
        }
    }
}

/// The bytes of a file depend on the data log only below the limit under
/// which its extents lie.
pub proof fn lemma_file_byte_stable(
    extents: Seq<Extent>,
    before: Seq<u8>,
    after: Seq<u8>,
    limit: u64,
    p: int,
)
    requires
        extents_ok(extents, limit),
        forall|i: int| 0 <= i < limit ==> after[i] == before[i],
    ensures
        file_byte(extents, after, p) == file_byte(extents, before, p),
    decreases extents.len(),
{
    if extents.len() > 0 {
        let rest = extents.drop_last();
        assert forall|i: int| 0 <= i < rest.len() implies extent_ok(#[trigger] rest[i], limit) by {
            assert(rest[i] == extents[i]);
        }
        lemma_file_byte_stable(rest, before, after, limit, p);
        assert(extent_ok(extents[extents.len() - 1], limit));
    }
}

/// What lies at or above the cursor of the data log is invisible: a device
/// that agrees with the data log below the cursor shows, under the same
/// metadata, every byte of every file as the data log does. So whatever a
/// crash leaves behind the cursor, a write cut short or a payload that no
/// inode came to refer to, the files are what the metadata say.
pub proof fn law_only_the_log_below_the_cursor_shows(
    state: FsView,
    device: Seq<u8>,
    file: u64,
    p: int,
)
    requires
        state.wf(),
        state.store.inodes.contains_key(file),
        forall|i: int| 0 <= i < state.cursor ==> device[i] == state.log[i],
    ensures
        file_byte(state.store.inodes[file].extents, device, p) == file_byte(
            state.store.inodes[file].extents,
            state.log,
            p,
        ),
{
    assert(extents_ok(state.store.inodes[file].extents, state.cursor));
    lemma_file_byte_stable(state.store.inodes[file].extents, state.log, device, state.cursor, p);
}

/// A write that failed shows the same files: whatever reached the data log
/// before the failure, no inode refers to it, so that every byte of every
/// file is what it was. The same holds of a payload that a crash left in the
/// log before its inode was changed.
pub proof fn law_failed_write_shows_same_files(
    pre: FsView,
    post: FsView,
    ino: u64,
    offset: u64,
    data: Seq<u8>,
    now: DbfsTimeSpec,
    e: DbfsError,
    file: u64,
    p: int,
)
    requires
        pre.wf(),
        write_outcome(pre, post, ino, offset, data, now, Err::<(), DbfsError>(e)),
        pre.store.inodes.contains_key(file),
    ensures
        post.store == pre.store,
        file_byte(post.store.inodes[file].extents, post.log, p) == file_byte(
            pre.store.inodes[file].extents,
            pre.log,
            p,
        ),
{
    assert(extents_ok(pre.store.inodes[file].extents, pre.cursor));
    lemma_file_byte_stable(pre.store.inodes[file].extents, pre.log, post.log, pre.cursor, p);
}

/// Writing the same bytes again shows the same file: where a write that
/// succeeded is repeated with success, the file has the size and, at every
/// offset, the byte that it had after the first time. This is what makes the
/// replay of a logged write harmless when it had been applied before the
/// crash.
pub proof fn law_rewrite_shows_same_file(
    first: FsView,
    second: FsView,
    third: FsView,
    ino: u64,
    offset: u64,
    data: Seq<u8>,
    now: DbfsTimeSpec,
    p: int,
)
    requires
        first.wf(),
        second.wf(),
        write_outcome(first, second, ino, offset, data, now, Ok::<(), DbfsError>(())),
        write_outcome(second, third, ino, offset, data, now, Ok::<(), DbfsError>(())),
    ensures
        third.store.inodes[ino].size == second.store.inodes[ino].size,
        third.store.inodes[ino].mtime == second.store.inodes[ino].mtime,
        file_byte(third.store.inodes[ino].extents, third.log, p) == file_byte(
            second.store.inodes[ino].extents,
            second.log,
            p,
        ),
{
    let earlier = second.store.inodes[ino].extents;
    let later = third.store.inodes[ino].extents;
    assert(later.drop_last() =~= earlier);
    assert(extents_ok(earlier, second.cursor));
    lemma_file_byte_stable(earlier, second.log, third.log, second.cursor, p);
    if extent_covers(later.last(), p) {
        assert(extent_covers(earlier.last(), p));
        let i = p - offset;
        assert(third.log.subrange(second.cursor as int, third.cursor as int)[i] == third.log[
            second.cursor + i]);
        assert(second.log.subrange(first.cursor as int, second.cursor as int)[i] == second.log[
            first.cursor + i]);
    }
}

/// Applying a logged operation again changes nothing: where an operation
/// other than a write has been applied with success, applying it once more
/// to the state that it left either fails, and so leaves that state, or
/// succeeds and leaves that state. This is what makes the replay of a log
/// entry harmless when the entry had been applied before the crash.
pub proof fn law_reapply_is_idle(op: OpView, v: StoreView, now: DbfsTimeSpec)
    requires
        v.dirs_sorted(),
        v.inos_match(),
        !(op is Write),
        apply_spec(op, v, now) is Ok,
    ensures
        apply_spec(op, apply_spec(op, v, now)->Ok_0, now) is Err || apply_spec(
            op,
            apply_spec(op, v, now)->Ok_0,
            now,
        ) == apply_spec(op, v, now),
{
    let after = apply_spec(op, v, now)->Ok_0;
    match op {
        OpView::Write { ino, offset, data } => {},
        OpView::Create { parent_ino, name, uid, gid, perm, dev, file_type } => {
            law_create_then_lookup(
                v,
                parent_ino,
                name,
                file_type,
                uid,
                gid,
                perm,
                now,
                Seq::empty(),
            );
        },
        OpView::Mkdir { parent_ino, name, uid, gid, perm } => {
            law_create_then_lookup(
                v,
                parent_ino,
                name,
                DbfsFileType::Dir,
                uid,
                gid,
                perm,
                now,
                Seq::empty(),
            );
        },
        OpView::Delete { parent_ino, name } => {
            lemma_dir_without(v.dirs[parent_ino], name);
            assert(after.lookup(parent_ino, name) is None);
        },
        OpView::Rename { old_parent_ino, old_name, new_parent_ino, new_name } => {
            if !(old_parent_ino == new_parent_ino && old_name == new_name) {
                law_rename_moves_name(v, old_parent_ino, old_name, new_parent_ino, new_name, now);
                assert(after.lookup(old_parent_ino, old_name) is None);
            }
        },
        OpView::Truncate { ino, length } => {
            lemma_truncate_twice(v.inodes[ino].extents, length);
            let once = truncated_inode(v.inodes[ino], length, now);
            assert(after.inodes[ino] == once);
            assert(truncated_inode(once, length, now) == once);
            assert(after.with_inode(once).inodes =~= after.inodes);
        },
    }
}

/// Removing a name keeps every directory in byte order, and takes no other
/// name out of any directory.
pub proof fn lemma_remove_keeps_names(
    v: StoreView,
    parent: u64,
    name: Seq<u8>,
    now: DbfsTimeSpec,
    other_parent: u64,
    other_name: Seq<u8>,
)
    requires
        v.dirs_sorted(),
        remove_spec(v, parent, name, now) is Ok,
        !(other_parent == parent && other_name == name),
        v.lookup(other_parent, other_name) is Some,
        v.lookup(parent, name) != Some(other_parent),
    ensures
        remove_spec(v, parent, name, now)->Ok_0.dirs_sorted(),
        remove_spec(v, parent, name, now)->Ok_0.lookup(other_parent, other_name) == v.lookup(
            other_parent,
            other_name,
        ),
{
    let after = remove_spec(v, parent, name, now)->Ok_0;
    lemma_dir_without(v.dirs[parent], name);
    assert forall|k: u64| after.dirs.contains_key(k) implies sorted_names(#[trigger] after.dirs[k]) by {
        if k != parent {
            assert(v.dirs.contains_key(k));
        }
    }
}

/// A rename moves the name: after `dbfs_rename` has succeeded with two
/// different places, the old name is gone from the old parent, and the new
/// name names in the new parent what the old one named, whether or not the
/// new name was taken before.
pub proof fn law_rename_moves_name(
    v: StoreView,
    old_parent: u64,
    old_name: Seq<u8>,
    new_parent: u64,
    new_name: Seq<u8>,
    now: DbfsTimeSpec,
)
    requires
        v.dirs_sorted(),
        v.inos_match(),
        !(old_parent == new_parent && old_name == new_name),
        rename_spec(v, old_parent, old_name, new_parent, new_name, now) is Ok,
    ensures
        ({
            let after = rename_spec(v, old_parent, old_name, new_parent, new_name, now)->Ok_0;
            &&& after.lookup(old_parent, old_name) is None
            &&& after.lookup(new_parent, new_name) == v.lookup(old_parent, old_name)
        }),
{
    let ino = v.lookup(old_parent, old_name).unwrap();
    let moves = moves_dir(v, old_parent, new_parent, ino);
    let after = rename_spec(v, old_parent, old_name, new_parent, new_name, now)->Ok_0;
    if v.lookup(new_parent, new_name) == Some(ino) {
        lemma_dir_without(v.dirs[old_parent], old_name);
    } else {
        let s = if v.lookup(new_parent, new_name) is None {
            v
        } else {
            remove_spec(v, new_parent, new_name, now)->Ok_0
        };
        if v.lookup(new_parent, new_name) is Some {
            lemma_remove_keeps_names(v, new_parent, new_name, now, old_parent, old_name);
            lemma_dir_without(v.dirs[new_parent], new_name);
            assert(s.dirs.contains_key(new_parent));
            assert(s.dirs.contains_key(old_parent));
        }
        assert(sorted_names(s.dirs[new_parent]));
        lemma_dir_with(s.dirs[new_parent], new_name, ino);
        let added = s.with_dentry(new_parent, new_name, ino);
        assert(sorted_names(added.dirs[old_parent]));
        lemma_dir_without(added.dirs[old_parent], old_name);
        let moved = added.without_dentry(old_parent, old_name);
        assert(moved.lookup(old_parent, old_name) is None);
        assert(moved.lookup(new_parent, new_name) == Some(ino));
        if moves {
            assert(after.dirs[old_parent] == moved.dirs[old_parent]);
            assert(after.dirs[new_parent] == moved.dirs[new_parent]);
        }
    }
}

/// A frame that a crash cut short counts as absent: where the storage ends
/// within a frame, of which it holds the beginning, no frame is read at that
/// place.
pub proof fn law_cut_frame_is_absent(bytes: Seq<u8>, at: int, payload: Seq<u8>)
    requires
        0 <= at <= bytes.len(),
        1 <= payload.len() <= FRAME_MAX,
        bytes.len() < at + 4 + payload.len(),
        bytes.subrange(at, bytes.len() as int) == frame_of(payload).take(bytes.len() - at),
    ensures
        frame_at(bytes, at) is None,
{
    vstd::bytes::lemma_auto_spec_u32_to_from_le_bytes();
    if at + 4 <= bytes.len() {
        let head = bytes.subrange(at, at + 4);
        let piece = bytes.subrange(at, bytes.len() as int);
        assert(head =~= piece.subrange(0, 4));
        assert(frame_of(payload).take(bytes.len() - at).subrange(0, 4)
            =~= vstd::bytes::spec_u32_to_le_bytes(payload.len() as u32));
    }
}

/// Two chains of frames from the same offset agree: the shorter one holds
/// the first entries of the longer one, the rest of which is a chain from
/// the end of the shorter one on.
pub proof fn lemma_chains_agree(bytes: Seq<u8>, at: int, shorter: int, longer: int)
    requires
        0 <= at <= shorter <= longer,
        frames_between(bytes, at, shorter) is Some,
        frames_between(bytes, at, longer) is Some,
    ensures
        frames_between(bytes, shorter, longer) is Some,
        frames_between(bytes, at, shorter).unwrap().len() <= frames_between(
            bytes,
            at,
            longer,
        ).unwrap().len(),
        frames_between(bytes, at, longer).unwrap().take(
            frames_between(bytes, at, shorter).unwrap().len() as int,
        ) == frames_between(bytes, at, shorter).unwrap(),
        shorter < longer ==> frame_at(bytes, shorter) is Some,
    decreases shorter - at,
{
    let few = frames_between(bytes, at, shorter).unwrap();
    let many = frames_between(bytes, at, longer).unwrap();
    if at == shorter {
        assert(many.take(0) =~= few);
    } else {
        let (first, next) = frame_at(bytes, at).unwrap();
        lemma_chains_agree(bytes, next, shorter, longer);
        let few_rest = frames_between(bytes, next, shorter).unwrap();
        let many_rest = frames_between(bytes, next, longer).unwrap();
        assert(few == seq![first] + few_rest);
        assert(many == seq![first] + many_rest);
        assert(many.take(few.len() as int) =~= seq![first] + many_rest.take(few_rest.len() as int));
    }
}

/// What was logged is replayed: the entries that lay in the log when a crash
/// came are the first of the entries that a replay from a dependable storage
/// applies, in their order. Only a log that reaches to within one frame of
/// the end of the 64-bit offsets is excepted.
pub proof fn law_logged_entries_are_replayed(
    bytes: Seq<u8>,
    logged_end: int,
    replayed_end: int,
)
    requires
        0 <= logged_end,
        0 <= replayed_end,
        logged_end + 4 + FRAME_MAX <= u64::MAX,
        frames_between(bytes, 0, logged_end) is Some,
        frames_between(bytes, 0, replayed_end) is Some,
        chain_ends(bytes, replayed_end),
    ensures
        frames_between(bytes, 0, logged_end).unwrap().len() <= frames_between(
            bytes,
            0,
            replayed_end,
        ).unwrap().len(),
        frames_between(bytes, 0, replayed_end).unwrap().take(
            frames_between(bytes, 0, logged_end).unwrap().len() as int,
        ) == frames_between(bytes, 0, logged_end).unwrap(),
{
    if replayed_end < logged_end {
        lemma_chains_agree(bytes, 0, replayed_end, logged_end);
    } else {
        lemma_chains_agree(bytes, 0, logged_end, replayed_end);
    }
}

} // verus!
