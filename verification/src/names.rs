//! Directory entries and the byte order of their names.

use vstd::prelude::*;
use crate::models::copy_bytes;
use crate::table::{lemma_table_insert, lemma_table_remove, table_map, unique_keys};

verus! {

/// How one name stands to another in byte order.
#[derive(Clone, Copy, Debug, PartialEq, Eq, Structural)]
pub enum NameOrder {
    Less,
    Equal,
    Greater,
}

/// `a` comes before `b` in byte order, given that they agree before place `i`.
pub open spec fn lt_from(a: Seq<u8>, b: Seq<u8>, i: int) -> bool
    decreases a.len() - i,
{
    if i >= b.len() {
        false
    } else if i >= a.len() {
        true
    } else if a[i] != b[i] {
        a[i] < b[i]
    } else {
        lt_from(a, b, i + 1)
    }
}

/// `a` comes strictly before `b` in the lexicographic order of bytes: the
/// order in which a cursor walks the keys of a directory.
pub open spec fn bytes_lt(a: Seq<u8>, b: Seq<u8>) -> bool {
    lt_from(a, b, 0)
}

/// No name comes before itself.
pub proof fn lemma_lt_irreflexive(a: Seq<u8>, i: int)
    requires
        0 <= i,
    ensures
        !lt_from(a, a, i),
    decreases a.len() - i,
{
    if i < a.len() {
        lemma_lt_irreflexive(a, i + 1);
    }
}

/// The byte order is transitive.
pub proof fn lemma_lt_transitive(a: Seq<u8>, b: Seq<u8>, c: Seq<u8>, i: int)
    requires
        0 <= i,
        lt_from(a, b, i),
        lt_from(b, c, i),
    ensures
        lt_from(a, c, i),
    decreases a.len() - i,
{
    if i < a.len() && a[i] == b[i] && b[i] == c[i] {
        lemma_lt_transitive(a, b, c, i + 1);
    }
}

/// Two names that agree before place `i`, neither before the other, are the
/// same name.
pub proof fn lemma_lt_total(a: Seq<u8>, b: Seq<u8>, i: int)
    requires
        0 <= i <= a.len(),
        i <= b.len(),
        forall|j: int| 0 <= j < i ==> a[j] == b[j],
        !lt_from(a, b, i),
        !lt_from(b, a, i),
    ensures
        a == b,
    decreases a.len() - i,
{
    if i < a.len() && i < b.len() {
        lemma_lt_total(a, b, i + 1);
    } else {
        assert(a =~= b);
    }
}

/// Compares two names in byte order.
pub fn name_order(a: &[u8], b: &[u8]) -> (o: NameOrder)
    ensures
        o == NameOrder::Less <==> bytes_lt(a@, b@),
        o == NameOrder::Greater <==> bytes_lt(b@, a@),
        o == NameOrder::Equal <==> a@ == b@,
{
    let mut i: usize = 0;
    while i < a.len() && i < b.len()
        invariant
            i <= a.len(),
            i <= b.len(),
            forall|j: int| 0 <= j < i ==> a@[j] == b@[j],
            bytes_lt(a@, b@) == lt_from(a@, b@, i as int),
            bytes_lt(b@, a@) == lt_from(b@, a@, i as int),
        decreases a.len() - i,
    {
        if a[i] < b[i] {
            return NameOrder::Less;
        }
        if a[i] > b[i] {
            return NameOrder::Greater;
        }
        i = i + 1;
    }
    proof {
        if a@ == b@ {
            lemma_lt_irreflexive(a@, 0);
        }
    }
    if a.len() < b.len() {
        NameOrder::Less
    } else if a.len() > b.len() {
        NameOrder::Greater
    } else {
        proof {
            assert(a@ =~= b@);
        }
        NameOrder::Equal
    }
}

/// One entry of a directory: a name and the inode that it names.
#[derive(Debug)]
pub struct Dentry {
    pub name: Vec<u8>,
    pub ino: u64,
}

/// A directory entry as a mathematical value.
pub struct DentryView {
    pub name: Seq<u8>,
    pub ino: u64,
}

impl View for Dentry {
    type V = DentryView;

    open spec fn view(&self) -> DentryView {
        DentryView { name: self.name@, ino: self.ino }
    }
}

/// The entries of a directory as mathematical values, in their order.
pub open spec fn entries_view(entries: Seq<Dentry>) -> Seq<DentryView> {
    entries.map_values(|d: Dentry| d@)
}

/// The names of `entries` ascend strictly in byte order.
pub open spec fn sorted_names(entries: Seq<DentryView>) -> bool {
    forall|i: int, j: int|
        0 <= i < j < entries.len() ==> bytes_lt(#[trigger] entries[i].name, #[trigger] entries[j].name)
}

/// The name of an entry.
pub open spec fn entry_name() -> spec_fn(DentryView) -> Seq<u8> {
    |e: DentryView| e.name
}

/// The inode of an entry.
pub open spec fn entry_ino() -> spec_fn(DentryView) -> u64 {
    |e: DentryView| e.ino
}

/// The directory as a map from names to inode numbers.
pub open spec fn names_map(entries: Seq<DentryView>) -> Map<Seq<u8>, u64> {
    table_map(entries, entry_name(), entry_ino())
}

/// In a directory whose names ascend, no name occurs twice.
pub proof fn lemma_sorted_unique(entries: Seq<DentryView>)
    requires
        sorted_names(entries),
    ensures
        unique_keys(entries, entry_name()),
{
    assert forall|i: int, j: int| 0 <= i < j < entries.len() implies entry_name()(entries[i])
        != entry_name()(entries[j]) by {
        assert(bytes_lt(entries[i].name, entries[j].name));
        lemma_lt_irreflexive(entries[i].name, 0);
    }
}

/// The byte order has no cycles of length two.
pub proof fn lemma_lt_asymmetric(a: Seq<u8>, b: Seq<u8>)
    requires
        bytes_lt(a, b),
    ensures
        !bytes_lt(b, a),
{
    if bytes_lt(b, a) {
        lemma_lt_transitive(a, b, a, 0);
        lemma_lt_irreflexive(a, 0);
    }
}

/// The place in a directory in byte order at which an entry called `name`
/// stands or belongs: that of the first entry whose name does not come
/// before `name`.
pub open spec fn rank(entries: Seq<DentryView>, name: Seq<u8>) -> int
    decreases entries.len(),
{
    if entries.len() == 0 {
        0
    } else if bytes_lt(entries.last().name, name) {
        entries.len() as int
    } else {
        rank(entries.drop_last(), name)
    }
}

/// Whether a directory has an entry called `name`.
pub open spec fn has_name(entries: Seq<DentryView>, name: Seq<u8>) -> bool {
    let at = rank(entries, name);
    0 <= at < entries.len() && entries[at].name == name
}

/// The directory with its entry `name` set to `ino`: replaced where there is
/// one, put in at its place in byte order where there is none.
pub open spec fn dir_with(entries: Seq<DentryView>, name: Seq<u8>, ino: u64) -> Seq<DentryView> {
    let at = rank(entries, name);
    let entry = DentryView { name, ino };
    if has_name(entries, name) {
        entries.update(at, entry)
    } else {
        entries.insert(at, entry)
    }
}

/// The directory without its entry `name`.
pub open spec fn dir_without(entries: Seq<DentryView>, name: Seq<u8>) -> Seq<DentryView> {
    if has_name(entries, name) {
        entries.remove(rank(entries, name))
    } else {
        entries
    }
}

/// A place before which every name comes before `name`, and from which on
/// none does, is the rank of `name`.
pub proof fn lemma_rank(entries: Seq<DentryView>, name: Seq<u8>, at: int)
    requires
        0 <= at <= entries.len(),
        forall|j: int| 0 <= j < at ==> bytes_lt(#[trigger] entries[j].name, name),
        forall|j: int| at <= j < entries.len() ==> !bytes_lt(#[trigger] entries[j].name, name),
    ensures
        rank(entries, name) == at,
    decreases entries.len(),
{
    if entries.len() > 0 {
        if bytes_lt(entries.last().name, name) {
            assert(!(at <= entries.len() - 1));
        } else {
            assert(!(entries.len() - 1 < at));
            let rest = entries.drop_last();
            assert forall|j: int| 0 <= j < at implies bytes_lt(#[trigger] rest[j].name, name) by {
                assert(rest[j] == entries[j]);
            }
            assert forall|j: int| at <= j < rest.len() implies !bytes_lt(
                #[trigger] rest[j].name,
                name,
            ) by {
                assert(rest[j] == entries[j]);
            }
            lemma_rank(rest, name, at);
        }
    }
}

/// In a directory in byte order, every name before the rank of `name` comes
/// before `name`, and `name` comes before every other name from there on.
pub proof fn lemma_rank_splits(entries: Seq<DentryView>, name: Seq<u8>)
    requires
        sorted_names(entries),
    ensures
        0 <= rank(entries, name) <= entries.len(),
        forall|j: int| 0 <= j < rank(entries, name) ==> bytes_lt(#[trigger] entries[j].name, name),
        forall|j: int|
            rank(entries, name) <= j < entries.len() ==> (#[trigger] entries[j].name == name
                || bytes_lt(name, entries[j].name)),
        forall|j: int|
            rank(entries, name) < j < entries.len() ==> bytes_lt(name, #[trigger] entries[j].name),
        has_name(entries, name) <==> names_map(entries).contains_key(name),
        has_name(entries, name) ==> names_map(entries)[name] == entries[rank(entries, name)].ino,
    decreases entries.len(),
{
    lemma_sorted_unique(entries);
    let at = rank(entries, name);
    if entries.len() > 0 {
        let rest = entries.drop_last();
        let last = entries.last();
        assert forall|i: int, j: int| 0 <= i < j < rest.len() implies bytes_lt(
            #[trigger] rest[i].name,
            #[trigger] rest[j].name,
        ) by {
            assert(rest[i] == entries[i] && rest[j] == entries[j]);
        }
        if bytes_lt(last.name, name) {
            assert forall|j: int| 0 <= j < at implies bytes_lt(#[trigger] entries[j].name, name) by {
                if j < entries.len() - 1 {
                    assert(bytes_lt(entries[j].name, entries[entries.len() - 1].name));
                    lemma_lt_transitive(entries[j].name, last.name, name, 0);
                }
            }
        } else {
            lemma_rank_splits(rest, name);
            assert forall|j: int| 0 <= j < at implies bytes_lt(#[trigger] entries[j].name, name) by {
                assert(rest[j] == entries[j]);
            }
            assert forall|j: int| at <= j < entries.len() implies (#[trigger] entries[j].name
                == name || bytes_lt(name, entries[j].name)) by {
                if j < entries.len() - 1 {
                    assert(rest[j] == entries[j]);
                } else {
                    if last.name != name && !bytes_lt(name, last.name) {
                        lemma_lt_total(last.name, name, 0);
                    }
                }
            }
        }
    }
    assert forall|j: int| at < j < entries.len() implies bytes_lt(name, #[trigger] entries[j].name) by {
        assert(bytes_lt(entries[at].name, entries[j].name));
        if entries[at].name != name {
            lemma_lt_transitive(name, entries[at].name, entries[j].name, 0);
        }
    }
    if has_name(entries, name) {
        crate::table::lemma_table_get(entries, entry_name(), entry_ino(), at);
    } else {
        assert forall|j: int| 0 <= j < entries.len() implies entry_name()(entries[j]) != name by {
            if j < at {
                assert(bytes_lt(entries[j].name, name));
                lemma_lt_irreflexive(name, 0);
            } else if j > at {
                assert(bytes_lt(name, entries[j].name));
                lemma_lt_irreflexive(name, 0);
            }
        }
        crate::table::lemma_table_absent(entries, entry_name(), entry_ino(), name);
    }
}

/// Setting an entry keeps the directory in byte order and changes the map
/// of its names at that name alone.
#[verifier::rlimit(60)]
pub proof fn lemma_dir_with(entries: Seq<DentryView>, name: Seq<u8>, ino: u64)
    requires
        sorted_names(entries),
    ensures
        sorted_names(dir_with(entries, name, ino)),
        names_map(dir_with(entries, name, ino)) == names_map(entries).insert(name, ino),
        dir_with(entries, name, ino).len() == entries.len() + (if names_map(entries).contains_key(
            name,
        ) {
            0int
        } else {
            1int
        }),
{
    lemma_rank_splits(entries, name);
    lemma_sorted_unique(entries);
    let at = rank(entries, name);
    let entry = DentryView { name, ino };
    let after = dir_with(entries, name, ino);
    if has_name(entries, name) {
        crate::table::lemma_table_update(entries, entry_name(), entry_ino(), at, entry);
        assert forall|i: int, j: int| 0 <= i < j < after.len() implies bytes_lt(
            #[trigger] after[i].name,
            #[trigger] after[j].name,
        ) by {
            assert(after[i].name == entries[i].name);
            assert(after[j].name == entries[j].name);
        }
    } else {
        lemma_table_insert(entries, entry_name(), entry_ino(), at, entry);
        assert forall|i: int, j: int| 0 <= i < j < after.len() implies bytes_lt(
            #[trigger] after[i].name,
            #[trigger] after[j].name,
        ) by {
            let oi = if i < at { i } else { i - 1 };
            let oj = if j < at { j } else { j - 1 };
            if i == at {
                assert(after[j] == entries[oj]);
            } else if j == at {
                assert(after[i] == entries[oi]);
            } else {
                assert(after[i] == entries[oi] && after[j] == entries[oj]);
                assert(bytes_lt(entries[oi].name, entries[oj].name));
            }
        }
    }
}

/// Taking an entry out keeps the directory in byte order and takes that
/// name alone out of the map of its names.
pub proof fn lemma_dir_without(entries: Seq<DentryView>, name: Seq<u8>)
    requires
        sorted_names(entries),
    ensures
        sorted_names(dir_without(entries, name)),
        names_map(dir_without(entries, name)) == names_map(entries).remove(name),
        dir_without(entries, name).len() == entries.len() - (if names_map(entries).contains_key(
            name,
        ) {
            1int
        } else {
            0int
        }),
{
    lemma_rank_splits(entries, name);
    lemma_sorted_unique(entries);
    let at = rank(entries, name);
    let after = dir_without(entries, name);
    if has_name(entries, name) {
        lemma_table_remove(entries, entry_name(), entry_ino(), at);
        assert forall|i: int, j: int| 0 <= i < j < after.len() implies bytes_lt(
            #[trigger] after[i].name,
            #[trigger] after[j].name,
        ) by {
            let oi = if i < at { i } else { i + 1 };
            let oj = if j < at { j } else { j + 1 };
            assert(after[i] == entries[oi] && after[j] == entries[oj]);
            assert(bytes_lt(entries[oi].name, entries[oj].name));
        }
    } else {
        assert(names_map(entries).remove(name) =~= names_map(entries));
    }
}

/// Finds the place of `name` among `entries`: its rank. With `true` the
/// entry at that place has the name; with `false` no entry has it.
pub fn find_entry(entries: &Vec<Dentry>, name: &[u8]) -> (r: (usize, bool))
    requires
        sorted_names(entries_view(entries@)),
    ensures
        r.0 == rank(entries_view(entries@), name@),
        r.0 <= entries.len(),
        r.1 == has_name(entries_view(entries@), name@),
        r.1 == names_map(entries_view(entries@)).contains_key(name@),
        r.1 ==> names_map(entries_view(entries@))[name@] == entries@[r.0 as int].ino,
{
    let ghost view = entries_view(entries@);
    proof {
        lemma_rank_splits(view, name@);
    }
    let mut i: usize = 0;
    while i < entries.len()
        invariant
            i <= entries.len(),
            view == entries_view(entries@),
            sorted_names(view),
            forall|j: int| 0 <= j < i ==> bytes_lt(#[trigger] view[j].name, name@),
        decreases entries.len() - i,
    {
        match name_order(entries[i].name.as_slice(), name) {
            NameOrder::Less => {
                proof {
                    assert(view[i as int].name == entries@[i as int].name@);
                }
            },
            NameOrder::Equal => {
                proof {
                    assert(view[i as int].name == name@);
                    assert forall|j: int| i <= j < view.len() implies !bytes_lt(
                        #[trigger] view[j].name,
                        name@,
                    ) by {
                        if i < j {
                            assert(bytes_lt(view[i as int].name, view[j].name));
                            lemma_lt_asymmetric(name@, view[j].name);
                        } else {
                            lemma_lt_irreflexive(name@, 0);
                        }
                    }
                    lemma_rank(view, name@, i as int);
                }
                return (i, true);
            },
            NameOrder::Greater => {
                proof {
                    assert(view[i as int].name == entries@[i as int].name@);
                    assert forall|j: int| i <= j < view.len() implies !bytes_lt(
                        #[trigger] view[j].name,
                        name@,
                    ) by {
                        if i < j {
                            assert(bytes_lt(view[i as int].name, view[j].name));
                            lemma_lt_transitive(name@, view[i as int].name, view[j].name, 0);
                        }
                        lemma_lt_asymmetric(name@, view[j].name);
                    }
                    lemma_rank(view, name@, i as int);
                    lemma_lt_irreflexive(name@, 0);
                }
                return (i, false);
            },
        }
        i = i + 1;
    }
    proof {
        lemma_rank(view, name@, i as int);
    }
    (i, false)
}

/// Sets the entry `name` of a directory to `ino`, adding it in byte order
/// where the directory has no entry of that name.
pub fn put_entry(entries: &mut Vec<Dentry>, name: &[u8], ino: u64)
    requires
        sorted_names(entries_view(old(entries)@)),
    ensures
        sorted_names(entries_view(final(entries)@)),
        entries_view(final(entries)@) == dir_with(entries_view(old(entries)@), name@, ino),
{
    let ghost before = entries_view(entries@);
    proof {
        lemma_dir_with(before, name@, ino);
    }
    let (at, found) = find_entry(entries, name);
    let entry = Dentry { name: copy_bytes(name), ino };
    if found {
        entries[at] = entry;
        proof {
            assert(entries_view(entries@) =~= before.update(at as int, entry@));
        }
    } else {
        entries.insert(at, entry);
        proof {
            assert(entries_view(entries@) =~= before.insert(at as int, entry@));
        }
    }
}

/// Takes the entry `name` out of a directory and returns the inode that it
/// named, or `None` where the directory has no entry of that name.
pub fn remove_entry(entries: &mut Vec<Dentry>, name: &[u8]) -> (r: Option<u64>)
    requires
        sorted_names(entries_view(old(entries)@)),
    ensures
        sorted_names(entries_view(final(entries)@)),
        entries_view(final(entries)@) == dir_without(entries_view(old(entries)@), name@),
        r == (if names_map(entries_view(old(entries)@)).contains_key(name@) {
            Some(names_map(entries_view(old(entries)@))[name@])
        } else {
            None
        }),
{
    let ghost before = entries_view(entries@);
    proof {
        lemma_dir_without(before, name@);
    }
    let (at, found) = find_entry(entries, name);
    if found {
        let removed = entries.remove(at);
        proof {
            assert(entries_view(entries@) =~= before.remove(at as int));
        }
        Some(removed.ino)
    } else {
        None
    }
}

} // verus!
