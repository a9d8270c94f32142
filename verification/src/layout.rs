//! How the metadata are laid out in a key-value store: the names of the
//! buckets, the keys and the big-endian numbers.

use vstd::prelude::*;
use vstd::bytes::{
    lemma_auto_spec_u32_to_from_le_bytes, lemma_auto_spec_u64_to_from_le_bytes,
    spec_u32_from_le_bytes, spec_u32_to_le_bytes, spec_u64_from_le_bytes, spec_u64_to_le_bytes,
    u32_from_le_bytes, u32_to_le_bytes, u64_from_le_bytes, u64_to_le_bytes,
};
use crate::store::SuperBlockRecord;

verus! {

/// The name of the bucket that holds the inode records.
pub const INODES_BUCKET: &'static str = "inodes";

/// The name of the bucket that holds the superblock.
pub const SUPER_BLOCK_BUCKET: &'static str = "super_blk";

/// The key of the file system's identifier in the superblock.
pub const KEY_MAGIC: &'static str = "magic";

/// The key of the block size in the superblock.
pub const KEY_BLOCK_SIZE: &'static str = "blk_size";

/// The key of the size of the device in the superblock.
pub const KEY_DISK_SIZE: &'static str = "disk_size";

/// The key of the next free inode number in the superblock.
pub const KEY_CONTINUE_NUMBER: &'static str = "continue_number";

/// The bytes of `s` in the opposite order.
pub open spec fn reversed(s: Seq<u8>) -> Seq<u8> {
    Seq::new(s.len(), |i: int| s[s.len() - 1 - i])
}

/// The eight bytes of `x`, most significant first.
pub open spec fn be_bytes64(x: u64) -> Seq<u8> {
    reversed(spec_u64_to_le_bytes(x))
}

/// The number whose eight bytes, most significant first, are `s`.
pub open spec fn be_value64(s: Seq<u8>) -> u64 {
    spec_u64_from_le_bytes(reversed(s))
}

/// The four bytes of `x`, most significant first.
pub open spec fn be_bytes32(x: u32) -> Seq<u8> {
    reversed(spec_u32_to_le_bytes(x))
}

/// The number whose four bytes, most significant first, are `s`.
pub open spec fn be_value32(s: Seq<u8>) -> u32 {
    spec_u32_from_le_bytes(reversed(s))
}

/// Big-endian bytes and their numbers determine each other.
pub proof fn lemma_be_round_trip()
    ensures
        forall|x: u64| #[trigger] be_bytes64(x).len() == 8 && be_value64(be_bytes64(x)) == x,
        forall|x: u32| #[trigger] be_bytes32(x).len() == 4 && be_value32(be_bytes32(x)) == x,
        forall|s: Seq<u8>| s.len() == 8 ==> #[trigger] be_bytes64(be_value64(s)) == s,
        forall|s: Seq<u8>| s.len() == 4 ==> #[trigger] be_bytes32(be_value32(s)) == s,
{
    lemma_auto_spec_u64_to_from_le_bytes();
    lemma_auto_spec_u32_to_from_le_bytes();
    assert forall|x: u64| #[trigger] be_bytes64(x).len() == 8 && be_value64(be_bytes64(x)) == x by {
        assert(reversed(reversed(spec_u64_to_le_bytes(x))) =~= spec_u64_to_le_bytes(x));
    }
    assert forall|x: u32| #[trigger] be_bytes32(x).len() == 4 && be_value32(be_bytes32(x)) == x by {
        assert(reversed(reversed(spec_u32_to_le_bytes(x))) =~= spec_u32_to_le_bytes(x));
    }
    assert forall|s: Seq<u8>| s.len() == 8 implies #[trigger] be_bytes64(be_value64(s)) == s by {
        assert(reversed(s).len() == 8);
        assert(reversed(reversed(s)) =~= s);
    }
    assert forall|s: Seq<u8>| s.len() == 4 implies #[trigger] be_bytes32(be_value32(s)) == s by {
        assert(reversed(s).len() == 4);
        assert(reversed(reversed(s)) =~= s);
    }
}

fn reverse_bytes(bytes: &[u8]) -> (out: Vec<u8>)
    ensures
        out@ == reversed(bytes@),
{
    let n = bytes.len();
    let mut out: Vec<u8> = Vec::new();
    let mut i: usize = 0;
    while i < n
        invariant
            i <= n,
            n == bytes@.len(),
            out@.len() == i,
            forall|j: int| 0 <= j < i ==> out@[j] == bytes@[n - 1 - j],
        decreases n - i,
    {
        out.push(bytes[n - 1 - i]);
        i = i + 1;
    }
    proof {
        assert(out@ =~= reversed(bytes@));
    }
    out
}

/// The eight bytes of `x`, most significant first.
pub fn to_be64(x: u64) -> (out: Vec<u8>)
    ensures
        out@ == be_bytes64(x),
        out@.len() == 8,
{
    reverse_bytes(u64_to_le_bytes(x).as_slice())
}

/// The number whose eight bytes, most significant first, are `bytes`;
/// `None` where `bytes` are not eight.
pub fn from_be64(bytes: &[u8]) -> (r: Option<u64>)
    ensures
        r == (if bytes@.len() == 8 {
            Some(be_value64(bytes@))
        } else {
            None
        }),
{
    if bytes.len() != 8 {
        return None;
    }
    Some(u64_from_le_bytes(reverse_bytes(bytes).as_slice()))
}

/// The four bytes of `x`, most significant first.
pub fn to_be32(x: u32) -> (out: Vec<u8>)
    ensures
        out@ == be_bytes32(x),
        out@.len() == 4,
{
    reverse_bytes(u32_to_le_bytes(x).as_slice())
}

/// The number whose four bytes, most significant first, are `bytes`; `None`
/// where `bytes` are not four.
pub fn from_be32(bytes: &[u8]) -> (r: Option<u32>)
    ensures
        r == (if bytes@.len() == 4 {
            Some(be_value32(bytes@))
        } else {
            None
        }),
{
    if bytes.len() != 4 {
        return None;
    }
    Some(u32_from_le_bytes(reverse_bytes(bytes).as_slice()))
}

/// The key of inode `ino` in the bucket of the inode records: its eight
/// bytes, most significant first.
pub fn inode_key(ino: u64) -> (key: Vec<u8>)
    ensures
        key@ == be_bytes64(ino),
{
    to_be64(ino)
}

/// The decimal digits of `n` as ASCII bytes.
pub open spec fn digits(n: nat) -> Seq<u8>
    decreases n,
{
    if n < 10 {
        seq![(48 + n) as u8]
    } else {
        digits(n / 10).push((48 + n % 10) as u8)
    }
}

/// The number that decimal digits stand for.
pub open spec fn digits_value(s: Seq<u8>) -> nat
    decreases s.len(),
{
    if s.len() == 0 {
        0
    } else {
        (digits_value(s.drop_last()) * 10 + (s.last() - 48)) as nat
    }
}

/// The digits of a number stand for that number.
pub proof fn lemma_digits_value(n: nat)
    ensures
        digits(n).len() >= 1,
        digits_value(digits(n)) == n,
    decreases n,
{
    if n < 10 {
        assert(digits(n).drop_last() =~= Seq::<u8>::empty());
        assert(digits_value(digits(n).drop_last()) == 0);
    } else {
        lemma_digits_value(n / 10);
        assert(digits(n).drop_last() =~= digits(n / 10));
    }
}

/// The bytes `dir_`, with which the names of the directory buckets begin.
pub open spec fn dir_prefix() -> Seq<u8> {
    seq![100u8, 105u8, 114u8, 95u8]
}

/// The name of the bucket that holds the directory of inode `ino`: `dir_`
/// and the number in decimal.
pub open spec fn dir_bucket(ino: u64) -> Seq<u8> {
    dir_prefix() + digits(ino as nat)
}

/// Different directories have buckets of different names.
pub proof fn lemma_dir_bucket_injective(a: u64, b: u64)
    requires
        dir_bucket(a) == dir_bucket(b),
    ensures
        a == b,
{
    lemma_digits_value(a as nat);
    lemma_digits_value(b as nat);
    assert(dir_bucket(a).skip(4) =~= digits(a as nat));
    assert(dir_bucket(b).skip(4) =~= digits(b as nat));
}

fn push_digits(out: &mut Vec<u8>, n: u64)
    ensures
        final(out)@ == old(out)@ + digits(n as nat),
    decreases n,
{
    if n >= 10 {
        push_digits(out, n / 10);
    }
    let ghost before = out@;
    out.push(48 + (n % 10) as u8);
    proof {
        if n >= 10 {
            assert(out@ =~= old(out)@ + digits(n as nat));
        } else {
            assert(out@ =~= old(out)@ + digits(n as nat));
        }
    }
}

/// The name of the bucket that holds the directory of inode `ino`.
pub fn dir_bucket_name(ino: u64) -> (name: Vec<u8>)
    ensures
        name@ == dir_bucket(ino),
{
    let mut name: Vec<u8> = Vec::new();
    name.push(100);
    name.push(105);
    name.push(114);
    name.push(95);
    proof {
        assert(name@ =~= dir_prefix());
    }
    push_digits(&mut name, ino);
    name
}

/// The version of the record format: the first byte of every stored inode
/// record.
pub const RECORD_VERSION: u8 = 1;

/// A serialized record as it is stored: the format's version in one byte,
/// then the record.
pub open spec fn versioned(payload: Seq<u8>) -> Seq<u8> {
    seq![RECORD_VERSION] + payload
}

/// Puts the version of the format before a serialized record.
pub fn wrap_record(payload: &[u8]) -> (stored: Vec<u8>)
    ensures
        stored@ == versioned(payload@),
{
    let mut stored: Vec<u8> = Vec::new();
    stored.push(RECORD_VERSION);
    crate::bytes::append_bytes(&mut stored, payload);
    proof {
        assert(stored@ =~= versioned(payload@));
    }
    stored
}

/// The serialized record in `stored`; `None` where `stored` does not begin
/// with the version of the format.
pub fn unwrap_record(stored: &[u8]) -> (r: Option<Vec<u8>>)
    ensures
        match r {
            Some(payload) => stored@ == versioned(payload@),
            None => forall|payload: Seq<u8>| stored@ != versioned(payload),
        },
{
    if stored.len() < 1 || stored[0] != RECORD_VERSION {
        proof {
            assert forall|payload: Seq<u8>| stored@ != versioned(payload) by {
                assert(versioned(payload)[0] == RECORD_VERSION);
            }
        }
        return None;
    }
    let payload = crate::models::copy_bytes(vstd::slice::slice_subrange(stored, 1, stored.len()));
    proof {
        assert(stored@ =~= versioned(payload@));
    }
    Some(payload)
}

/// The values of a superblock as they are stored under its four keys.
pub struct SuperBlockFields {
    pub magic: Vec<u8>,
    pub block_size: Vec<u8>,
    pub disk_size: Vec<u8>,
    pub continue_number: Vec<u8>,
}

/// The values under which a superblock is stored: the identifier and the
/// block size in four bytes, the size of the device and the next free inode
/// number in eight, each most significant byte first.
pub fn encode_superblock(sb: SuperBlockRecord) -> (fields: SuperBlockFields)
    ensures
        fields.magic@ == be_bytes32(sb.magic),
        fields.block_size@ == be_bytes32(sb.block_size),
        fields.disk_size@ == be_bytes64(sb.disk_size),
        fields.continue_number@ == be_bytes64(sb.continue_number),
{
    SuperBlockFields {
        magic: to_be32(sb.magic),
        block_size: to_be32(sb.block_size),
        disk_size: to_be64(sb.disk_size),
        continue_number: to_be64(sb.continue_number),
    }
}

/// The superblock that is stored as `fields`; `None` where a value has not
/// the length of its number.
pub fn decode_superblock(fields: &SuperBlockFields) -> (r: Option<SuperBlockRecord>)
    ensures
        r is Some <==> fields.magic@.len() == 4 && fields.block_size@.len() == 4
            && fields.disk_size@.len() == 8 && fields.continue_number@.len() == 8,
        r matches Some(sb) ==> sb == (SuperBlockRecord {
            magic: be_value32(fields.magic@),
            block_size: be_value32(fields.block_size@),
            disk_size: be_value64(fields.disk_size@),
            continue_number: be_value64(fields.continue_number@),
        }),
{
    let magic = match from_be32(fields.magic.as_slice()) {
        Some(x) => x,
        None => {
            return None;
        },
    };
    let block_size = match from_be32(fields.block_size.as_slice()) {
        Some(x) => x,
        None => {
            return None;
        },
    };
    let disk_size = match from_be64(fields.disk_size.as_slice()) {
        Some(x) => x,
        None => {
            return None;
        },
    };
    let continue_number = match from_be64(fields.continue_number.as_slice()) {
        Some(x) => x,
        None => {
            return None;
        },
    };
    Some(SuperBlockRecord { magic, block_size, disk_size, continue_number })
}

} // verus!
