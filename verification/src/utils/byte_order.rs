//! Big-endian integers, through the `byteorder` crate.

use byteorder::{BigEndian, ByteOrder};
use vstd::prelude::*;

verus! {

/// The two bytes of `v`, most significant first.
pub open spec fn be_bytes_u16(v: u16) -> Seq<u8> {
    seq![(v >> 8u16) as u8, v as u8]
}

/// The four bytes of `v`, most significant first.
pub open spec fn be_bytes_u32(v: u32) -> Seq<u8> {
    seq![(v >> 24u32) as u8, (v >> 16u32) as u8, (v >> 8u32) as u8, v as u8]
}

/// The eight bytes of `v`, most significant first.
pub open spec fn be_bytes_u64(v: u64) -> Seq<u8> {
    be_bytes_u32((v >> 32u64) as u32) + be_bytes_u32(v as u32)
}

/// The number whose big-endian bytes are `s[0..2]`.
pub open spec fn be_value_u16(s: Seq<u8>) -> u16 {
    ((s[0] as u16) << 8u16) | (s[1] as u16)
}

/// The number whose big-endian bytes are `s[0..4]`.
pub open spec fn be_value_u32(s: Seq<u8>) -> u32 {
    ((s[0] as u32) << 24u32) | ((s[1] as u32) << 16u32) | ((s[2] as u32) << 8u32) | (s[3] as u32)
}

/// The number whose big-endian bytes are `s[0..8]`.
pub open spec fn be_value_u64(s: Seq<u8>) -> u64 {
    ((be_value_u32(s) as u64) << 32u64) | (be_value_u32(s.subrange(4, 8)) as u64)
}

/// Reading back the big-endian bytes of a number gives the number; any bytes after them
/// are ignored.
pub proof fn lemma_be_roundtrip(a: u16, b: u32, c: u64, rest: Seq<u8>)
    ensures
        be_value_u16(be_bytes_u16(a) + rest) == a,
        be_value_u32(be_bytes_u32(b) + rest) == b,
        be_value_u64(be_bytes_u64(c) + rest) == c,
        (a as i16) as u16 == a,
        (b as i32) as u32 == b,
        (c as i64) as u64 == c,
{
    let s16 = be_bytes_u16(a) + rest;
    assert(s16[0] == (a >> 8u16) as u8 && s16[1] == a as u8);
    assert((((((a >> 8u16) as u8) as u16) << 8u16) | ((a as u8) as u16)) == a) by (bit_vector);
    let s32 = be_bytes_u32(b) + rest;
    assert(s32[0] == (b >> 24u32) as u8 && s32[1] == (b >> 16u32) as u8 && s32[2] == (b
        >> 8u32) as u8 && s32[3] == b as u8);
    assert((((((b >> 24u32) as u8) as u32) << 24u32) | ((((b >> 16u32) as u8) as u32) << 16u32)
        | ((((b >> 8u32) as u8) as u32) << 8u32) | ((b as u8) as u32)) == b) by (bit_vector);
    let hi = (c >> 32u64) as u32;
    let lo = c as u32;
    let s64 = be_bytes_u64(c) + rest;
    assert(s64.subrange(0, 4) =~= be_bytes_u32(hi));
    assert(s64.subrange(4, 8) =~= be_bytes_u32(lo));
    assert(s64[0] == (hi >> 24u32) as u8 && s64[1] == (hi >> 16u32) as u8 && s64[2] == (hi
        >> 8u32) as u8 && s64[3] == hi as u8);
    assert((((((hi >> 24u32) as u8) as u32) << 24u32) | ((((hi >> 16u32) as u8) as u32)
        << 16u32) | ((((hi >> 8u32) as u8) as u32) << 8u32) | ((hi as u8) as u32)) == hi)
        by (bit_vector);
    let t = s64.subrange(4, 8);
    assert(t[0] == (lo >> 24u32) as u8 && t[1] == (lo >> 16u32) as u8 && t[2] == (lo >> 8u32) as u8
        && t[3] == lo as u8);
    assert((((((lo >> 24u32) as u8) as u32) << 24u32) | ((((lo >> 16u32) as u8) as u32)
        << 16u32) | ((((lo >> 8u32) as u8) as u32) << 8u32) | ((lo as u8) as u32)) == lo)
        by (bit_vector);
    assert(((((c >> 32u64) as u32) as u64) << 32u64) | ((c as u32) as u64) == c) by (bit_vector);
    assert((a as i16) as u16 == a) by (bit_vector);
    assert((b as i32) as u32 == b) by (bit_vector);
    assert((c as i64) as u64 == c) by (bit_vector);
}

/// Signed numbers survive the trip through their unsigned bit patterns.
pub proof fn lemma_signed_bits(a: i16, b: i32, c: i64)
    ensures
        (a as u16) as i16 == a,
        (b as u32) as i32 == b,
        (c as u64) as i64 == c,
{
    assert((a as u16) as i16 == a) by (bit_vector);
    assert((b as u32) as i32 == b) by (bit_vector);
    assert((c as u64) as i64 == c) by (bit_vector);
}

/// `BigEndian::write_i16` into a fresh two-byte buffer: the bytes of `n`'s bit pattern,
/// most significant first.
#[verifier::external_body]
pub(crate) fn be_i16_bytes(n: i16) -> (b: Vec<u8>)
    ensures
        b@ == be_bytes_u16(n as u16),
{
    let mut buf = vec![0u8; 2];
    BigEndian::write_i16(&mut buf, n);
    buf
}

/// `BigEndian::write_i32` into a fresh four-byte buffer: the bytes of `n`'s bit pattern,
/// most significant first.
#[verifier::external_body]
pub(crate) fn be_i32_bytes(n: i32) -> (b: Vec<u8>)
    ensures
        b@ == be_bytes_u32(n as u32),
{
    let mut buf = vec![0u8; 4];
    BigEndian::write_i32(&mut buf, n);
    buf
}

/// `BigEndian::write_i64` into a fresh eight-byte buffer: the bytes of `n`'s bit pattern,
/// most significant first.
#[verifier::external_body]
pub(crate) fn be_i64_bytes(n: i64) -> (b: Vec<u8>)
    ensures
        b@ == be_bytes_u64(n as u64),
{
    let mut buf = vec![0u8; 8];
    BigEndian::write_i64(&mut buf, n);
    buf
}

/// `BigEndian::read_i16`: the first two bytes of `buf`, most significant first, as a
/// two's complement number. The crate panics on a shorter buffer.
#[verifier::external_body]
pub(crate) fn be_read_i16(buf: &[u8]) -> (v: i16)
    requires
        buf@.len() >= 2,
    ensures
        v == be_value_u16(buf@) as i16,
{
    BigEndian::read_i16(buf)
}

/// `BigEndian::read_i32`: the first four bytes of `buf`, most significant first, as a
/// two's complement number. The crate panics on a shorter buffer.
#[verifier::external_body]
pub(crate) fn be_read_i32(buf: &[u8]) -> (v: i32)
    requires
        buf@.len() >= 4,
    ensures
        v == be_value_u32(buf@) as i32,
{
    BigEndian::read_i32(buf)
}

/// `BigEndian::read_i64`: the first eight bytes of `buf`, most significant first, as a
/// two's complement number. The crate panics on a shorter buffer.
#[verifier::external_body]
pub(crate) fn be_read_i64(buf: &[u8]) -> (v: i64)
    requires
        buf@.len() >= 8,
    ensures
        v == be_value_u64(buf@) as i64,
{
    BigEndian::read_i64(buf)
}

} // verus!
