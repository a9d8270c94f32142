//! The metadata store: the table of inode records, the directories and the
//! superblock, with the finite maps that they stand for.

use vstd::prelude::*;
use crate::models::{
    check_extents, copy_bytes, extent_ok, extents_ok, InodeMetadata, InodeView,
};
use crate::names::{
    dir_with, dir_without, entries_view, find_entry, names_map, put_entry, remove_entry,
    sorted_names, Dentry, DentryView,
};
use crate::table::{
    has_key, lemma_table_absent, lemma_table_get, lemma_table_insert, lemma_table_remove,
    lemma_table_update, table_map, unique_keys,
};

verus! {

/// The file system's identifier in a superblock: the bytes `DBFS`.
pub const DBFS_MAGIC: u32 = 0x4442_4653;

/// The parameters of a file system as its superblock records them.
#[derive(Clone, Copy, Debug, PartialEq, Eq, Structural)]
pub struct SuperBlockRecord {
    pub magic: u32,
    pub block_size: u32,
    pub disk_size: u64,
    /// The next free inode number when the file system was last synced.
    pub continue_number: u64,
}

/// One directory: the inode that owns it and its entries in byte order of
/// their names.
pub struct Directory {
    ino: u64,
    entries: Vec<Dentry>,
}

/// The metadata store.
pub struct MetaStore {
    inodes: Vec<InodeMetadata>,
    dirs: Vec<Directory>,
    sb: Option<SuperBlockRecord>,
}

/// What a metadata store holds, as a mathematical value.
pub struct StoreView {
    /// The inode records by inode number.
    pub inodes: Map<u64, InodeView>,
    /// The directories by inode number, each with its entries in byte order
    /// of their names.
    pub dirs: Map<u64, Seq<DentryView>>,
    /// The superblock, once the store is formatted.
    pub sb: Option<SuperBlockRecord>,
}

impl StoreView {
    /// The inode that `name` names in directory `parent`, if both exist.
    pub open spec fn lookup(self, parent: u64, name: Seq<u8>) -> Option<u64> {
        if self.dirs.contains_key(parent) && names_map(self.dirs[parent]).contains_key(name) {
            Some(names_map(self.dirs[parent])[name])
        } else {
            None
        }
    }

    /// The entries of directory `ino`; none where there is no such directory.
    pub open spec fn entries(self, ino: u64) -> Seq<DentryView> {
        if self.dirs.contains_key(ino) {
            self.dirs[ino]
        } else {
            Seq::empty()
        }
    }

    /// The store with `m` as the record of inode `m.ino`.
    pub open spec fn with_inode(self, m: InodeView) -> StoreView {
        StoreView { inodes: self.inodes.insert(m.ino, m), ..self }
    }

    /// The store without a record of inode `ino`.
    pub open spec fn without_inode(self, ino: u64) -> StoreView {
        StoreView { inodes: self.inodes.remove(ino), ..self }
    }

    /// The store with entry `name` of directory `parent` set to `child`; the
    /// directory comes into being where it did not exist.
    pub open spec fn with_dentry(self, parent: u64, name: Seq<u8>, child: u64) -> StoreView {
        StoreView { dirs: self.dirs.insert(parent, dir_with(self.entries(parent), name, child)), ..self }
    }

    /// The store without entry `name` of directory `parent`.
    pub open spec fn without_dentry(self, parent: u64, name: Seq<u8>) -> StoreView {
        if self.dirs.contains_key(parent) {
            StoreView { dirs: self.dirs.insert(parent, dir_without(self.dirs[parent], name)), ..self }
        } else {
            self
        }
    }

    /// The store without directory `ino`.
    pub open spec fn without_dir(self, ino: u64) -> StoreView {
        StoreView { dirs: self.dirs.remove(ino), ..self }
    }

    /// Every directory has its entries in strictly ascending byte order of
    /// their names.
    pub open spec fn dirs_sorted(self) -> bool {
        forall|k: u64| self.dirs.contains_key(k) ==> sorted_names(#[trigger] self.dirs[k])
    }

    /// Every record is filed under the number that it carries.
    pub open spec fn inos_match(self) -> bool {
        forall|k: u64| self.inodes.contains_key(k) ==> (#[trigger] self.inodes[k]).ino == k
    }

    /// No inode number is above `bound`.
    pub open spec fn inos_at_most(self, bound: u64) -> bool {
        forall|k: u64| self.inodes.contains_key(k) ==> k <= bound
    }

    /// `m` is the largest inode number that has a record, or 0 where there
    /// is none.
    pub open spec fn is_max_ino(self, m: u64) -> bool {
        self.inos_at_most(m) && (m == 0 || self.inodes.contains_key(m))
    }

    /// The largest inode number that has a record; 0 where there is none.
    pub open spec fn max_ino(self) -> u64 {
        choose|m: u64| self.is_max_ino(m)
    }

    /// The number that the next new inode gets: one more than the largest
    /// number in use, at least 2, and at least the superblock's
    /// `continue_number`.
    pub open spec fn next_ino(self) -> int {
        let after_max = if self.max_ino() >= 1 {
            self.max_ino() + 1
        } else {
            2
        };
        match self.sb {
            Some(sb) => if sb.continue_number > after_max {
                sb.continue_number as int
            } else {
                after_max
            },
            None => after_max,
        }
    }

    /// Every extent of every inode lies in the data log below `limit`.
    pub open spec fn extents_within(self, limit: u64) -> bool {
        forall|k: u64| self.inodes.contains_key(k) ==> extents_ok(#[trigger] self.inodes[k].extents, limit)
    }
}

/// The largest inode number is the only one that bounds all and is in use.
pub proof fn lemma_max_ino(v: StoreView, m: u64)
    requires
        v.is_max_ino(m),
    ensures
        v.max_ino() == m,
{
    let c = v.max_ino();
    assert(v.is_max_ino(c));
}

/// The key of an inode record.
pub open spec fn inode_key() -> spec_fn(InodeMetadata) -> u64 {
    |m: InodeMetadata| m.ino
}

/// The value of an inode record.
pub open spec fn inode_val() -> spec_fn(InodeMetadata) -> InodeView {
    |m: InodeMetadata| m@
}

impl Directory {
    /// The inode that owns the directory.
    pub closed spec fn owner(self) -> u64 {
        self.ino
    }

    /// The entries of the directory.
    pub closed spec fn listing(self) -> Seq<DentryView> {
        entries_view(self.entries@)
    }
}

/// The key of a directory.
pub open spec fn dir_key() -> spec_fn(Directory) -> u64 {
    |d: Directory| d.owner()
}

/// The value of a directory.
pub open spec fn dir_val() -> spec_fn(Directory) -> Seq<DentryView> {
    |d: Directory| d.listing()
}

impl View for MetaStore {
    type V = StoreView;

    closed spec fn view(&self) -> StoreView {
        StoreView {
            inodes: table_map(self.inodes@, inode_key(), inode_val()),
            dirs: table_map(self.dirs@, dir_key(), dir_val()),
            sb: self.sb,
        }
    }
}

impl MetaStore {
    /// The store is well formed: no inode number and no directory occurs
    /// twice, and every directory has its entries in byte order.
    pub closed spec fn wf(&self) -> bool {
        &&& unique_keys(self.inodes@, inode_key())
        &&& unique_keys(self.dirs@, dir_key())
        &&& forall|i: int| 0 <= i < self.dirs@.len() ==> sorted_names(#[trigger] self.dirs@[i].listing())
    }

    /// In a well-formed store every directory is in byte order and every
    /// record is filed under its own number.
    pub proof fn lemma_dirs_sorted(&self)
        requires
            self.wf(),
        ensures
            self@.dirs_sorted(),
            self@.inos_match(),
    {
        assert forall|k: u64| self@.inodes.contains_key(k) implies (#[trigger] self@.inodes[k]).ino
            == k by {
            let i = crate::table::index_of(self.inodes@, inode_key(), k);
            assert(0 <= i < self.inodes@.len() && inode_key()(self.inodes@[i]) == k);
            lemma_table_get(self.inodes@, inode_key(), inode_val(), i);
        }
        assert forall|k: u64| self@.dirs.contains_key(k) implies sorted_names(
            #[trigger] self@.dirs[k],
        ) by {
            let i = crate::table::index_of(self.dirs@, dir_key(), k);
            assert(0 <= i < self.dirs@.len() && dir_key()(self.dirs@[i]) == k);
            lemma_table_get(self.dirs@, dir_key(), dir_val(), i);
            assert(sorted_names(self.dirs@[i].listing()));
        }
    }

    /// An empty, unformatted store.
    pub fn new() -> (store: MetaStore)
        ensures
            store.wf(),
            store@.inodes == Map::<u64, InodeView>::empty(),
            store@.dirs == Map::<u64, Seq<DentryView>>::empty(),
            store@.sb is None,
    {
        let store = MetaStore { inodes: Vec::new(), dirs: Vec::new(), sb: None };
        proof {
            assert(store@.inodes =~= Map::<u64, InodeView>::empty());
            assert(store@.dirs =~= Map::<u64, Seq<DentryView>>::empty());
        }
        store
    }

    /// The superblock, if the store is formatted.
    pub fn superblock(&self) -> (sb: Option<SuperBlockRecord>)
        ensures
            sb == self@.sb,
    {
        self.sb
    }

    /// Writes the superblock.
    pub fn set_superblock(&mut self, sb: SuperBlockRecord)
        requires
            old(self).wf(),
        ensures
            final(self).wf(),
            final(self)@ == (StoreView { sb: Some(sb), ..old(self)@ }),
    {
        self.sb = Some(sb);
    }

    fn inode_index(&self, ino: u64) -> (r: Option<usize>)
        requires
            self.wf(),
        ensures
            r is Some <==> self@.inodes.contains_key(ino),
            r matches Some(i) ==> i < self.inodes@.len() && self.inodes@[i as int].ino == ino
                && self@.inodes[ino] == self.inodes@[i as int]@,
    {
        let mut i: usize = 0;
        while i < self.inodes.len()
            invariant
                i <= self.inodes.len(),
                self.wf(),
                forall|j: int| 0 <= j < i ==> self.inodes@[j].ino != ino,
            decreases self.inodes.len() - i,
        {
            if self.inodes[i].ino == ino {
                proof {
                    lemma_table_get(self.inodes@, inode_key(), inode_val(), i as int);
                }
                return Some(i);
            }
            i = i + 1;
        }
        proof {
            lemma_table_absent(self.inodes@, inode_key(), inode_val(), ino);
        }
        None
    }

    fn dir_index(&self, ino: u64) -> (r: Option<usize>)
        requires
            self.wf(),
        ensures
            r is Some <==> self@.dirs.contains_key(ino),
            r matches Some(i) ==> i < self.dirs@.len() && self.dirs@[i as int].ino == ino
                && self@.dirs[ino] == self.dirs@[i as int].listing(),
    {
        let mut i: usize = 0;
        while i < self.dirs.len()
            invariant
                i <= self.dirs.len(),
                self.wf(),
                forall|j: int| 0 <= j < i ==> self.dirs@[j].ino != ino,
            decreases self.dirs.len() - i,
        {
            if self.dirs[i].ino == ino {
                proof {
                    lemma_table_get(self.dirs@, dir_key(), dir_val(), i as int);
                }
                return Some(i);
            }
            i = i + 1;
        }
        proof {
            lemma_table_absent(self.dirs@, dir_key(), dir_val(), ino);
        }
        None
    }

    /// The record of inode `ino`, if there is one.
    pub fn get_inode(&self, ino: u64) -> (r: Option<&InodeMetadata>)
        requires
            self.wf(),
        ensures
            r is Some <==> self@.inodes.contains_key(ino),
            r matches Some(m) ==> m@ == self@.inodes[ino] && m.ino == ino,
    {
        match self.inode_index(ino) {
            Some(i) => Some(&self.inodes[i]),
            None => None,
        }
    }

    /// Stores `meta` as the record of inode `meta.ino`, in place of any
    /// earlier one.
    pub fn put_inode(&mut self, meta: InodeMetadata)
        requires
            old(self).wf(),
        ensures
            final(self).wf(),
            final(self)@ == (StoreView {
                inodes: old(self)@.inodes.insert(meta.ino, meta@),
                ..old(self)@
            }),
    {
        let ghost before = self.inodes@;
        match self.inode_index(meta.ino) {
            Some(i) => {
                proof {
                    lemma_table_update(before, inode_key(), inode_val(), i as int, meta);
                }
                self.inodes[i] = meta;
                proof {
                    assert(self.inodes@ =~= before.update(i as int, meta));
                }
            },
            None => {
                proof {
                    lemma_table_insert(before, inode_key(), inode_val(), before.len() as int, meta);
                    assert(before.insert(before.len() as int, meta) =~= before.push(meta));
                }
                self.inodes.push(meta);
            },
        }
    }

    /// Deletes the record of inode `ino`. Returns whether there was one.
    pub fn remove_inode(&mut self, ino: u64) -> (r: bool)
        requires
            old(self).wf(),
        ensures
            final(self).wf(),
            r == old(self)@.inodes.contains_key(ino),
            final(self)@ == (StoreView { inodes: old(self)@.inodes.remove(ino), ..old(self)@ }),
    {
        let ghost before = self.inodes@;
        match self.inode_index(ino) {
            Some(i) => {
                proof {
                    lemma_table_remove(before, inode_key(), inode_val(), i as int);
                }
                self.inodes.remove(i);
                true
            },
            None => {
                proof {
                    assert(self@.inodes.remove(ino) =~= self@.inodes);
                }
                false
            },
        }
    }

    /// The largest inode number that has a record; 0 where there is none.
    pub fn max_ino(&self) -> (max: u64)
        requires
            self.wf(),
        ensures
            max == self@.max_ino(),
            self@.is_max_ino(max),
    {
        let mut max: u64 = 0;
        let mut i: usize = 0;
        while i < self.inodes.len()
            invariant
                i <= self.inodes.len(),
                self.wf(),
                forall|j: int| 0 <= j < i ==> self.inodes@[j].ino <= max,
                max == 0 || self@.inodes.contains_key(max),
            decreases self.inodes.len() - i,
        {
            if self.inodes[i].ino > max {
                max = self.inodes[i].ino;
                proof {
                    lemma_table_get(self.inodes@, inode_key(), inode_val(), i as int);
                }
            }
            i = i + 1;
        }
        proof {
            assert forall|k: u64| self@.inodes.contains_key(k) implies k <= max by {
                let j = crate::table::index_of(self.inodes@, inode_key(), k);
                assert(0 <= j < self.inodes@.len() && inode_key()(self.inodes@[j]) == k);
            }
            lemma_max_ino(self@, max);
        }
        max
    }

    /// Checks that every extent of every inode lies in the data log below
    /// `limit`.
    pub fn extents_within(&self, limit: u64) -> (ok: bool)
        requires
            self.wf(),
        ensures
            ok == self@.extents_within(limit),
    {
        let mut i: usize = 0;
        while i < self.inodes.len()
            invariant
                i <= self.inodes.len(),
                self.wf(),
                forall|j: int| 0 <= j < i ==> extents_ok(#[trigger] self.inodes@[j].extents@, limit),
            decreases self.inodes.len() - i,
        {
            if !check_extents(&self.inodes[i].extents, limit) {
                proof {
                    lemma_table_get(self.inodes@, inode_key(), inode_val(), i as int);
                    let k = self.inodes@[i as int].ino;
                    assert(!extents_ok(self@.inodes[k].extents, limit));
                }
                return false;
            }
            i = i + 1;
        }
        proof {
            assert forall|k: u64| self@.inodes.contains_key(k) implies extents_ok(
                #[trigger] self@.inodes[k].extents,
                limit,
            ) by {
                let j = crate::table::index_of(self.inodes@, inode_key(), k);
                assert(0 <= j < self.inodes@.len() && inode_key()(self.inodes@[j]) == k);
                lemma_table_get(self.inodes@, inode_key(), inode_val(), j);
            }
        }
        true
    }

    /// The number of inode records.
    pub fn inode_count(&self) -> (n: usize)
        requires
            self.wf(),
        ensures
            n == self@.inodes.dom().len(),
            self@.inodes.dom().finite(),
    {
        proof {
            self.lemma_inode_count(self.inodes@.len() as int);
            assert(self.inodes@.take(self.inodes@.len() as int) =~= self.inodes@);
        }
        self.inodes.len()
    }

    proof fn lemma_inode_count(&self, n: int)
        requires
            self.wf(),
            0 <= n <= self.inodes@.len(),
        ensures
            table_map(self.inodes@.take(n), inode_key(), inode_val()).dom().finite(),
            table_map(self.inodes@.take(n), inode_key(), inode_val()).dom().len() == n,
        decreases n,
    {
        let s = self.inodes@.take(n);
        if n == 0 {
            assert(table_map(s, inode_key(), inode_val()).dom() =~= Set::<u64>::empty());
        } else {
            self.lemma_inode_count(n - 1);
            let t = self.inodes@.take(n - 1);
            let x = self.inodes@[n - 1];
            assert(unique_keys(t, inode_key()));
            assert(!has_key(t, inode_key(), inode_key()(x))) by {
                if has_key(t, inode_key(), inode_key()(x)) {
                    let j = crate::table::index_of(t, inode_key(), inode_key()(x));
                    assert(self.inodes@[j].ino != self.inodes@[n - 1].ino);
                }
            }
            lemma_table_insert(t, inode_key(), inode_val(), n - 1, x);
            assert(t.insert(n - 1, x) =~= s);
            assert(table_map(s, inode_key(), inode_val()).dom() =~= table_map(
                t,
                inode_key(),
                inode_val(),
            ).dom().insert(x.ino));
        }
    }

    /// The numbers of all inodes that have a record, each once.
    pub fn inode_numbers(&self) -> (numbers: Vec<u64>)
        requires
            self.wf(),
        ensures
            forall|i: int, j: int| 0 <= i < j < numbers@.len() ==> numbers@[i] != numbers@[j],
            forall|k: u64| self@.inodes.contains_key(k) <==> numbers@.contains(k),
    {
        let mut numbers: Vec<u64> = Vec::new();
        let mut i: usize = 0;
        while i < self.inodes.len()
            invariant
                i <= self.inodes.len(),
                self.wf(),
                numbers@.len() == i,
                forall|j: int| 0 <= j < i ==> numbers@[j] == self.inodes@[j].ino,
            decreases self.inodes.len() - i,
        {
            numbers.push(self.inodes[i].ino);
            i = i + 1;
        }
        proof {
            assert forall|a: int, b: int| 0 <= a < b < numbers@.len() implies numbers@[a]
                != numbers@[b] by {
                assert(inode_key()(self.inodes@[a]) != inode_key()(self.inodes@[b]));
            }
            assert forall|k: u64| self@.inodes.contains_key(k) <==> numbers@.contains(k) by {
                if self@.inodes.contains_key(k) {
                    let j = crate::table::index_of(self.inodes@, inode_key(), k);
                    assert(0 <= j < self.inodes@.len() && inode_key()(self.inodes@[j]) == k);
                    assert(numbers@[j] == k);
                }
                if numbers@.contains(k) {
                    let j = choose|j: int| 0 <= j < numbers@.len() && numbers@[j] == k;
                    assert(inode_key()(self.inodes@[j]) == k);
                }
            }
        }
        numbers
    }

    /// The numbers of all inodes that have a directory, each once.
    pub fn dir_numbers(&self) -> (numbers: Vec<u64>)
        requires
            self.wf(),
        ensures
            forall|i: int, j: int| 0 <= i < j < numbers@.len() ==> numbers@[i] != numbers@[j],
            forall|k: u64| self@.dirs.contains_key(k) <==> numbers@.contains(k),
    {
        let mut numbers: Vec<u64> = Vec::new();
        let mut i: usize = 0;
        while i < self.dirs.len()
            invariant
                i <= self.dirs.len(),
                self.wf(),
                numbers@.len() == i,
                forall|j: int| 0 <= j < i ==> numbers@[j] == self.dirs@[j].ino,
            decreases self.dirs.len() - i,
        {
            numbers.push(self.dirs[i].ino);
            i = i + 1;
        }
        proof {
            assert forall|a: int, b: int| 0 <= a < b < numbers@.len() implies numbers@[a]
                != numbers@[b] by {
                assert(dir_key()(self.dirs@[a]) != dir_key()(self.dirs@[b]));
            }
            assert forall|k: u64| self@.dirs.contains_key(k) <==> numbers@.contains(k) by {
                if self@.dirs.contains_key(k) {
                    let j = crate::table::index_of(self.dirs@, dir_key(), k);
                    assert(0 <= j < self.dirs@.len() && dir_key()(self.dirs@[j]) == k);
                    assert(numbers@[j] == k);
                }
                if numbers@.contains(k) {
                    let j = choose|j: int| 0 <= j < numbers@.len() && numbers@[j] == k;
                    assert(dir_key()(self.dirs@[j]) == k);
                }
            }
        }
        numbers
    }

    /// The least offset, at or above `floor`, below which every extent of
    /// every inode lies: where the cursor of the data log belongs after a
    /// restart. `None` where an extent ends beyond the 64-bit offsets, so
    /// that no offset will do.
    pub fn log_end(&self, floor: u64) -> (r: Option<u64>)
        requires
            self.wf(),
        ensures
            match r {
                Some(end) => {
                    &&& end >= floor
                    &&& self@.extents_within(end)
                    &&& end == floor || !self@.extents_within((end - 1) as u64)
                },
                None => forall|limit: u64| !self@.extents_within(limit),
            },
    {
        let mut end: u64 = floor;
        let mut i: usize = 0;
        while i < self.inodes.len()
            invariant
                i <= self.inodes.len(),
                self.wf(),
                end >= floor,
                forall|j: int| 0 <= j < i ==> extents_ok(#[trigger] self.inodes@[j].extents@, end),
                end == floor || !self@.extents_within((end - 1) as u64),
            decreases self.inodes.len() - i,
        {
            let extents = &self.inodes[i].extents;
            let ghost owner = self.inodes@[i as int].ino;
            proof {
                lemma_table_get(self.inodes@, inode_key(), inode_val(), i as int);
            }
            let mut k: usize = 0;
            while k < extents.len()
                invariant
                    k <= extents@.len(),
                    self.wf(),
                    0 <= i < self.inodes@.len(),
                    extents@ == self.inodes@[i as int].extents@,
                    owner == self.inodes@[i as int].ino,
                    self@.inodes.contains_key(owner),
                    self@.inodes[owner].extents == extents@,
                    end >= floor,
                    forall|j: int|
                        0 <= j < i ==> extents_ok(#[trigger] self.inodes@[j].extents@, end),
                    forall|j: int| 0 <= j < k ==> extent_ok(#[trigger] extents@[j], end),
                    end == floor || !self@.extents_within((end - 1) as u64),
                decreases extents@.len() - k,
            {
                let e = extents[k];
                if e.len > u64::MAX - e.physical_ptr || e.len > u64::MAX - e.logical_off {
                    proof {
                        assert forall|limit: u64| !self@.extents_within(limit) by {
                            if self@.extents_within(limit) {
                                assert(extents_ok(self@.inodes[owner].extents, limit));
                                assert(extent_ok(extents@[k as int], limit));
                            }
                        }
                    }
                    return None;
                }
                let e_end = e.physical_ptr + e.len;
                if e_end > end {
                    proof {
                        let older = end;
                        assert forall|j: int| 0 <= j < i implies extents_ok(
                            #[trigger] self.inodes@[j].extents@,
                            e_end,
                        ) by {
                            let s = self.inodes@[j].extents@;
                            assert(extents_ok(s, older));
                            assert forall|x: int| 0 <= x < s.len() implies extent_ok(
                                #[trigger] s[x],
                                e_end,
                            ) by {
                                assert(extent_ok(s[x], older));
                            }
                        }
                        assert forall|j: int| 0 <= j < k implies extent_ok(
                            #[trigger] extents@[j],
                            e_end,
                        ) by {
                            assert(extent_ok(extents@[j], older));
                        }
                        if self@.extents_within((e_end - 1) as u64) {
                            assert(extents_ok(self@.inodes[owner].extents, (e_end - 1) as u64));
                            assert(extent_ok(extents@[k as int], (e_end - 1) as u64));
                        }
                    }
                    end = e_end;
                }
                k = k + 1;
            }
            i = i + 1;
        }
        proof {
            assert forall|key: u64| self@.inodes.contains_key(key) implies extents_ok(
                #[trigger] self@.inodes[key].extents,
                end,
            ) by {
                let j = crate::table::index_of(self.inodes@, inode_key(), key);
                assert(0 <= j < self.inodes@.len() && inode_key()(self.inodes@[j]) == key);
                lemma_table_get(self.inodes@, inode_key(), inode_val(), j);
            }
        }
        Some(end)
    }

    /// Whether inode `ino` has a directory.
    pub fn has_dir(&self, ino: u64) -> (r: bool)
        requires
            self.wf(),
        ensures
            r == self@.dirs.contains_key(ino),
    {
        self.dir_index(ino).is_some()
    }

    /// The inode that `name` names in directory `ino`; `None` where the
    /// directory or the name is missing.
    pub fn dir_get(&self, ino: u64, name: &[u8]) -> (r: Option<u64>)
        requires
            self.wf(),
        ensures
            r == self@.lookup(ino, name@),
    {
        match self.dir_index(ino) {
            Some(i) => {
                let (at, found) = find_entry(&self.dirs[i].entries, name);
                if found {
                    Some(self.dirs[i].entries[at].ino)
                } else {
                    None
                }
            },
            None => None,
        }
    }

    /// Sets the entry `name` of directory `ino` to `child`. A directory that
    /// does not exist yet is created with that one entry.
    pub fn dir_put(&mut self, ino: u64, name: &[u8], child: u64)
        requires
            old(self).wf(),
        ensures
            final(self).wf(),
            final(self)@ == old(self)@.with_dentry(ino, name@, child),
    {
        let ghost before = self.dirs@;
        match self.dir_index(ino) {
            Some(i) => {
                let mut dir = self.dirs.remove(i);
                proof {
                    lemma_table_remove(before, dir_key(), dir_val(), i as int);
                }
                let ghost rest = self.dirs@;
                put_entry(&mut dir.entries, name, child);
                proof {
                    assert(!has_key(rest, dir_key(), ino)) by {
                        assert(!table_map(rest, dir_key(), dir_val()).contains_key(ino));
                    }
                    lemma_table_insert(rest, dir_key(), dir_val(), i as int, dir);
                }
                self.dirs.insert(i, dir);
                proof {
                    assert(self@.dirs =~= old(self)@.with_dentry(ino, name@, child).dirs);
                    assert forall|j: int| 0 <= j < self.dirs@.len() implies sorted_names(
                        #[trigger] self.dirs@[j].listing(),
                    ) by {
                        if j != i {
                            let oj = if j < i { j } else { j - 1 };
                            assert(self.dirs@[j] == rest[oj]);
                            let bj = if oj < i { oj } else { oj + 1 };
                            assert(rest[oj] == before[bj]);
                        }
                    }
                }
            },
            None => {
                let mut entries: Vec<Dentry> = Vec::new();
                proof {
                    assert(entries_view(entries@) =~= Seq::<DentryView>::empty());
                }
                put_entry(&mut entries, name, child);
                let dir = Directory { ino, entries };
                proof {
                    lemma_table_insert(before, dir_key(), dir_val(), before.len() as int, dir);
                    assert(before.insert(before.len() as int, dir) =~= before.push(dir));
                }
                self.dirs.push(dir);
            },
        }
    }

    /// Takes the entry `name` out of directory `ino` and returns the inode
    /// that it named; `None`, and no change, where the directory or the name
    /// is missing.
    pub fn dir_remove(&mut self, ino: u64, name: &[u8]) -> (r: Option<u64>)
        requires
            old(self).wf(),
        ensures
            final(self).wf(),
            r == old(self)@.lookup(ino, name@),
            final(self)@ == old(self)@.without_dentry(ino, name@),
            r is None ==> final(self)@ == old(self)@,
    {
        let ghost before = self.dirs@;
        match self.dir_index(ino) {
            Some(i) => {
                let (_, found) = find_entry(&self.dirs[i].entries, name);
                if !found {
                    proof {
                        assert(self@.dirs.insert(ino, self@.dirs[ino]) =~= self@.dirs);
                    }
                    return None;
                }
                let mut dir = self.dirs.remove(i);
                proof {
                    lemma_table_remove(before, dir_key(), dir_val(), i as int);
                }
                let ghost rest = self.dirs@;
                let r = remove_entry(&mut dir.entries, name);
                proof {
                    assert(!has_key(rest, dir_key(), ino)) by {
                        assert(!table_map(rest, dir_key(), dir_val()).contains_key(ino));
                    }
                    lemma_table_insert(rest, dir_key(), dir_val(), i as int, dir);
                }
                self.dirs.insert(i, dir);
                proof {
                    assert(self@.dirs =~= old(self)@.without_dentry(ino, name@).dirs);
                    assert forall|j: int| 0 <= j < self.dirs@.len() implies sorted_names(
                        #[trigger] self.dirs@[j].listing(),
                    ) by {
                        if j != i {
                            let oj = if j < i { j } else { j - 1 };
                            assert(self.dirs@[j] == rest[oj]);
                            let bj = if oj < i { oj } else { oj + 1 };
                            assert(rest[oj] == before[bj]);
                        }
                    }
                }
                r
            },
            None => None,
        }
    }

    /// Deletes directory `ino` with all its entries. Returns whether there
    /// was one.
    pub fn dir_delete(&mut self, ino: u64) -> (r: bool)
        requires
            old(self).wf(),
        ensures
            final(self).wf(),
            r == old(self)@.dirs.contains_key(ino),
            final(self)@ == (StoreView { dirs: old(self)@.dirs.remove(ino), ..old(self)@ }),
    {
        let ghost before = self.dirs@;
        match self.dir_index(ino) {
            Some(i) => {
                proof {
                    lemma_table_remove(before, dir_key(), dir_val(), i as int);
                }
                self.dirs.remove(i);
                proof {
                    assert forall|j: int| 0 <= j < self.dirs@.len() implies sorted_names(
                        #[trigger] self.dirs@[j].listing(),
                    ) by {
                        let bj = if j < i { j } else { j + 1 };
                        assert(self.dirs@[j] == before[bj]);
                    }
                }
                true
            },
            None => {
                proof {
                    assert(self@.dirs.remove(ino) =~= self@.dirs);
                }
                false
            },
        }
    }

    /// The number of entries of directory `ino`; `None` where there is no
    /// such directory.
    pub fn dir_len(&self, ino: u64) -> (r: Option<usize>)
        requires
            self.wf(),
        ensures
            r is Some <==> self@.dirs.contains_key(ino),
            r matches Some(n) ==> n == self@.dirs[ino].len(),
    {
        match self.dir_index(ino) {
            Some(i) => Some(self.dirs[i].entries.len()),
            None => None,
        }
    }

    /// The entry at place `index` of directory `ino`, counted in byte order
    /// of the names; `None` where the directory is missing or has no more
    /// than `index` entries.
    pub fn dir_nth(&self, ino: u64, index: usize) -> (r: Option<Dentry>)
        requires
            self.wf(),
        ensures
            r is Some <==> self@.dirs.contains_key(ino) && index < self@.dirs[ino].len(),
            r matches Some(e) ==> e@ == self@.dirs[ino][index as int],
    {
        match self.dir_index(ino) {
            Some(i) => {
                if index < self.dirs[i].entries.len() {
                    let e = &self.dirs[i].entries[index];
                    Some(Dentry { name: copy_bytes(e.name.as_slice()), ino: e.ino })
                } else {
                    None
                }
            },
            None => None,
        }
    }
}

} // verus!
