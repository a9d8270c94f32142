//! The byte format of a write-ahead-log record: a fixed header of
//! little-endian numbers, followed by two byte strings.

use vstd::prelude::*;
use vstd::bytes::{
    lemma_auto_spec_u32_to_from_le_bytes, lemma_auto_spec_u64_to_from_le_bytes,
    spec_u32_from_le_bytes, spec_u32_to_le_bytes, spec_u64_from_le_bytes, spec_u64_to_le_bytes,
    u32_from_le_bytes, u32_to_le_bytes, u64_from_le_bytes, u64_to_le_bytes,
};
use vstd::slice::slice_subrange;
use crate::bytes::append_bytes;
use crate::models::copy_bytes;

verus! {

/// The length of a record's header in bytes: the transaction number, the
/// tag, seven numbers and the length of the first byte string.
pub const HEADER_LEN: usize = 69;

/// A record before it is given a meaning: a transaction number, a tag that
/// names the kind of operation, seven numbers and two byte strings.
pub struct RawRecord {
    pub txn_id: u64,
    pub tag: u8,
    pub n0: u64,
    pub n1: u64,
    pub n2: u64,
    pub n3: u64,
    pub n4: u64,
    pub n5: u64,
    pub n6: u64,
    pub s1: Vec<u8>,
    pub s2: Vec<u8>,
}

/// A raw record as a mathematical value.
pub struct RawView {
    pub txn_id: u64,
    pub tag: u8,
    pub n0: u64,
    pub n1: u64,
    pub n2: u64,
    pub n3: u64,
    pub n4: u64,
    pub n5: u64,
    pub n6: u64,
    pub s1: Seq<u8>,
    pub s2: Seq<u8>,
}

impl View for RawRecord {
    type V = RawView;

    open spec fn view(&self) -> RawView {
        RawView {
            txn_id: self.txn_id,
            tag: self.tag,
            n0: self.n0,
            n1: self.n1,
            n2: self.n2,
            n3: self.n3,
            n4: self.n4,
            n5: self.n5,
            n6: self.n6,
            s1: self.s1@,
            s2: self.s2@,
        }
    }
}

/// The header of a record.
pub open spec fn header(r: RawView) -> Seq<u8> {
    spec_u64_to_le_bytes(r.txn_id) + seq![r.tag] + spec_u64_to_le_bytes(r.n0)
        + spec_u64_to_le_bytes(r.n1) + spec_u64_to_le_bytes(r.n2) + spec_u64_to_le_bytes(r.n3)
        + spec_u64_to_le_bytes(r.n4) + spec_u64_to_le_bytes(r.n5) + spec_u64_to_le_bytes(r.n6)
        + spec_u32_to_le_bytes(r.s1.len() as u32)
}

/// The bytes of a record: its header, then the first byte string, then the
/// second, which reaches to the end.
pub open spec fn encode_raw(r: RawView) -> Seq<u8> {
    header(r) + r.s1 + r.s2
}

/// The number at place `i` of a header.
pub open spec fn header_number(b: Seq<u8>, i: int) -> u64 {
    spec_u64_from_le_bytes(b.subrange(9 + 8 * i, 17 + 8 * i))
}

/// The record that `b` holds, if it holds one: `b` has a whole header, and
/// the first byte string ends within `b`.
pub open spec fn decode_raw(b: Seq<u8>) -> Option<RawView> {
    if b.len() < HEADER_LEN {
        None
    } else {
        let s1_len = spec_u32_from_le_bytes(b.subrange(65, 69));
        if HEADER_LEN + s1_len > b.len() {
            None
        } else {
            Some(
                RawView {
                    txn_id: spec_u64_from_le_bytes(b.subrange(0, 8)),
                    tag: b[8],
                    n0: header_number(b, 0),
                    n1: header_number(b, 1),
                    n2: header_number(b, 2),
                    n3: header_number(b, 3),
                    n4: header_number(b, 4),
                    n5: header_number(b, 5),
                    n6: header_number(b, 6),
                    s1: b.subrange(HEADER_LEN as int, HEADER_LEN + s1_len),
                    s2: b.subrange(HEADER_LEN + s1_len, b.len() as int),
                },
            )
        }
    }
}

/// The length of an encoded record is that of its header and of its two
/// byte strings.
pub proof fn lemma_encoded_len(r: RawView)
    ensures
        encode_raw(r).len() == HEADER_LEN + r.s1.len() + r.s2.len(),
{
    lemma_auto_spec_u64_to_from_le_bytes();
    lemma_auto_spec_u32_to_from_le_bytes();
}

/// Decoding what was encoded gives the record back.
pub proof fn lemma_raw_round_trip(r: RawView)
    requires
        r.s1.len() <= u32::MAX,
    ensures
        encode_raw(r).len() == HEADER_LEN + r.s1.len() + r.s2.len(),
        decode_raw(encode_raw(r)) == Some(r),
{
    lemma_auto_spec_u64_to_from_le_bytes();
    lemma_auto_spec_u32_to_from_le_bytes();
    let b = encode_raw(r);
    let h = header(r);
    assert(h.len() == 69);
    assert(b.subrange(0, 8) =~= spec_u64_to_le_bytes(r.txn_id));
    assert(b[8] == r.tag);
    assert(b.subrange(9, 17) =~= spec_u64_to_le_bytes(r.n0));
    assert(b.subrange(17, 25) =~= spec_u64_to_le_bytes(r.n1));
    assert(b.subrange(25, 33) =~= spec_u64_to_le_bytes(r.n2));
    assert(b.subrange(33, 41) =~= spec_u64_to_le_bytes(r.n3));
    assert(b.subrange(41, 49) =~= spec_u64_to_le_bytes(r.n4));
    assert(b.subrange(49, 57) =~= spec_u64_to_le_bytes(r.n5));
    assert(b.subrange(57, 65) =~= spec_u64_to_le_bytes(r.n6));
    assert(b.subrange(65, 69) =~= spec_u32_to_le_bytes(r.s1.len() as u32));
    assert(b.subrange(69, 69 + r.s1.len() as int) =~= r.s1);
    assert(b.subrange(69 + r.s1.len() as int, b.len() as int) =~= r.s2);
}

/// Encodes a record. Its first byte string must be shorter than 4 GiB.
pub fn encode_record(r: &RawRecord) -> (out: Vec<u8>)
    requires
        r.s1@.len() <= u32::MAX,
    ensures
        out@ == encode_raw(r@),
{
    let mut out: Vec<u8> = Vec::new();
    append_bytes(&mut out, u64_to_le_bytes(r.txn_id).as_slice());
    out.push(r.tag);
    append_bytes(&mut out, u64_to_le_bytes(r.n0).as_slice());
    append_bytes(&mut out, u64_to_le_bytes(r.n1).as_slice());
    append_bytes(&mut out, u64_to_le_bytes(r.n2).as_slice());
    append_bytes(&mut out, u64_to_le_bytes(r.n3).as_slice());
    append_bytes(&mut out, u64_to_le_bytes(r.n4).as_slice());
    append_bytes(&mut out, u64_to_le_bytes(r.n5).as_slice());
    append_bytes(&mut out, u64_to_le_bytes(r.n6).as_slice());
    append_bytes(&mut out, u32_to_le_bytes(r.s1.len() as u32).as_slice());
    append_bytes(&mut out, r.s1.as_slice());
    append_bytes(&mut out, r.s2.as_slice());
    proof {
        assert(out@ =~= encode_raw(r@));
    }
    out
}

fn number_at(bytes: &[u8], i: usize) -> (n: u64)
    requires
        i < 7,
        bytes@.len() >= HEADER_LEN,
    ensures
        n == header_number(bytes@, i as int),
{
    u64_from_le_bytes(slice_subrange(bytes, 9 + 8 * i, 17 + 8 * i))
}

/// Decodes a record.
pub fn decode_record(bytes: &[u8]) -> (r: Option<RawRecord>)
    ensures
        match r {
            Some(rec) => decode_raw(bytes@) == Some(rec@),
            None => decode_raw(bytes@) is None,
        },
{
    if bytes.len() < HEADER_LEN {
        return None;
    }
    let s1_len = u32_from_le_bytes(slice_subrange(bytes, 65, 69)) as usize;
    if s1_len > bytes.len() - HEADER_LEN {
        return None;
    }
    Some(
        RawRecord {
            txn_id: u64_from_le_bytes(slice_subrange(bytes, 0, 8)),
            tag: bytes[8],
            n0: number_at(bytes, 0),
            n1: number_at(bytes, 1),
            n2: number_at(bytes, 2),
            n3: number_at(bytes, 3),
            n4: number_at(bytes, 4),
            n5: number_at(bytes, 5),
            n6: number_at(bytes, 6),
            s1: copy_bytes(slice_subrange(bytes, HEADER_LEN, HEADER_LEN + s1_len)),
            s2: copy_bytes(slice_subrange(bytes, HEADER_LEN + s1_len, bytes.len())),
        },
    )
}

} // verus!
