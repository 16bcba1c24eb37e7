//! The fixed-width record codec of the index format: each record is one
//! unsigned 64-bit integer stored in eight bytes, big-endian.

use vstd::prelude::*;
use byteorder::ByteOrder;

verus! {

/// The eight bytes of `v`, most significant first.
pub open spec fn be_bytes_of(v: u64) -> Seq<u8> {
    seq![
        (v >> 56) as u8,
        (v >> 48) as u8,
        (v >> 40) as u8,
        (v >> 32) as u8,
        (v >> 24) as u8,
        (v >> 16) as u8,
        (v >> 8) as u8,
        v as u8,
    ]
}

/// The unsigned 64-bit integer stored big-endian in the eight bytes of `b`.
pub open spec fn be_u64_of(b: Seq<u8>) -> u64
    recommends
        b.len() == 8,
{
    (((b[0] as u64) << 56) | (((b[1] as u64) << 48) | (((b[2] as u64) << 40) | (((b[3] as u64)
        << 32) | (((b[4] as u64) << 24) | (((b[5] as u64) << 16) | (((b[6] as u64) << 8) | (
    b[7] as u64))))))))
}

/// Relies on byteorder's `BigEndian::write_u64`: it stores `n.to_be_bytes()`,
/// the big-endian bytes of `n`, in the first eight bytes of the buffer.
#[verifier::external_body]
pub(crate) fn encode_record(v: u64) -> (r: Vec<u8>)
    ensures
        r@ == be_bytes_of(v),
{
    let mut buf = vec![0u8; 8];
    byteorder::BigEndian::write_u64(&mut buf, v);
    buf
}

/// Relies on byteorder's `BigEndian::read_u64`: it returns
/// `u64::from_be_bytes` of the first eight bytes of the buffer.
#[verifier::external_body]
pub(crate) fn decode_record(b: &Vec<u8>) -> (r: u64)
    requires
        b@.len() == 8,
    ensures
        r == be_u64_of(b@),
{
    byteorder::BigEndian::read_u64(b.as_slice())
}

/// Decoding the eight big-endian bytes of `v` gives back `v`.
pub proof fn lemma_be_round_trip(v: u64)
    ensures
        be_u64_of(be_bytes_of(v)) == v,
{
    assert((((v >> 56) as u8 as u64) << 56) | ((((v >> 48) as u8 as u64) << 48) | ((((v
        >> 40) as u8 as u64) << 40) | ((((v >> 32) as u8 as u64) << 32) | ((((v >> 24) as u8
        as u64) << 24) | ((((v >> 16) as u8 as u64) << 16) | ((((v >> 8) as u8 as u64) << 8) | (
    v as u8 as u64))))))) == v) by (bit_vector);
}

} // verus!
