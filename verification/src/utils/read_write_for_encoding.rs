//! Variable-length integers (unsigned, and signed through zigzag), bit widths, and
//! little-endian values cut to a bit width.

use vstd::prelude::*;

use crate::error::{TsFileError, TsFileResult};
use crate::utils::byte_reader::ByteReader;
use crate::utils::message::number_message;

verus! {

// ---------------------------------------------------------------------------
// Specification of the unsigned varint
// ---------------------------------------------------------------------------

/// The bytes that encode `v` as an unsigned varint: seven bits per byte, the least
/// significant group first, the high bit set on every byte but the last.
pub open spec fn uvarint_bytes(v: u32) -> Seq<u8>
    decreases v,
{
    if v & 0xFFFFFF80u32 == 0 {
        seq![(v & 0x7Fu32) as u8]
    } else {
        proof {
            assert(v & 0xFFFFFF80u32 != 0 ==> v >> 7u32 < v) by (bit_vector);
        }
        seq![((v & 0x7Fu32) | 0x80u32) as u8] + uvarint_bytes(v >> 7u32)
    }
}

/// What scanning the front of a byte sequence for an unsigned varint finds.
pub enum VarIntScan {
    /// A varint holding `value`, made of the first `len` bytes.
    Decoded { value: u32, len: nat },
    /// The bytes end before the last byte of the varint.
    Truncated,
    /// The fifth byte still has its continuation bit set.
    Overlong,
}

/// Scans `s` from index `i`, where the groups already read make up `acc`.
pub open spec fn uvarint_scan(s: Seq<u8>, i: nat, acc: u32) -> VarIntScan
    decreases 5 - i,
{
    if i >= s.len() {
        VarIntScan::Truncated
    } else {
        let b = s[i as int];
        let next = acc | (((b as u32) & 0x7Fu32) << ((7 * i) as u32));
        if (b as u32) & 0x80u32 == 0 {
            VarIntScan::Decoded { value: next, len: i + 1 }
        } else if i + 1 >= 5 {
            VarIntScan::Overlong
        } else {
            uvarint_scan(s, i + 1, next)
        }
    }
}

/// The unsigned varint at the front of `s`.
pub open spec fn uvarint_decode(s: Seq<u8>) -> VarIntScan {
    uvarint_scan(s, 0, 0)
}

/// Zigzag mapping of a signed integer: 0, -1, 1, -2, ... go to 0, 1, 2, 3, ...
pub open spec fn zigzag(v: i32) -> u32 {
    if v >= 0 {
        (2 * v) as u32
    } else {
        (-2 * v - 1) as u32
    }
}

/// Inverse of the zigzag mapping.
pub open spec fn unzigzag(u: u32) -> i32 {
    if u % 2 == 0 {
        (u / 2) as i32
    } else {
        (-((u / 2) as int) - 1) as i32
    }
}

/// The bytes that encode `v` as a signed varint.
pub open spec fn varint_bytes(v: i32) -> Seq<u8> {
    uvarint_bytes(zigzag(v))
}

/// Number of significant bits of `u`, at least 0.
pub open spec fn bit_width_u32(u: u32) -> int {
    32 - vstd::std_specs::bits::u32_leading_zeros(u)
}

/// Number of significant bits of `u`, at least 0.
pub open spec fn bit_width_u64(u: u64) -> int {
    64 - vstd::std_specs::bits::u64_leading_zeros(u)
}

/// The largest bit width among `s[0..n]`, and 1 when that is smaller.
pub open spec fn max_bit_width_i32(s: Seq<i32>, n: int) -> int
    decreases n,
{
    if n <= 0 {
        1
    } else {
        let w = bit_width_u32(s[n - 1] as u32);
        let m = max_bit_width_i32(s, n - 1);
        if w > m { w } else { m }
    }
}

/// The largest bit width among `s[0..n]`, and 1 when that is smaller.
pub open spec fn max_bit_width_i64(s: Seq<i64>, n: int) -> int
    decreases n,
{
    if n <= 0 {
        1
    } else {
        let w = bit_width_u64(s[n - 1] as u64);
        let m = max_bit_width_i64(s, n - 1);
        if w > m { w } else { m }
    }
}

/// Byte `j` (least significant first) of `v`.
pub open spec fn le_byte_u64(v: u64, j: int) -> u8 {
    ((v >> ((8 * j) as u64)) & 0xFFu64) as u8
}

/// The `n` least significant bytes of `v`, least significant first.
pub open spec fn le_bytes_u64(v: u64, n: int) -> Seq<u8> {
    Seq::new(n as nat, |j: int| le_byte_u64(v, j))
}

/// Little-endian value of the bytes of `s` (at most eight), the missing high bytes zero.
pub open spec fn le_value_u64(s: Seq<u8>) -> u64
    decreases s.len(),
{
    if s.len() == 0 {
        0
    } else {
        (s[0] as u64) | (le_value_u64(s.drop_first()) << 8u64)
    }
}

// ---------------------------------------------------------------------------
// Lemmas
// ---------------------------------------------------------------------------

proof fn lemma_low_group_concat(w: u32, k: u32)
    requires
        k <= 21,
    ensures
        ((w & 0x7Fu32) << k) | ((w >> 7u32) << ((k + 7) as u32)) == w << k,
{
    assert(k <= 21 ==> ((w & 0x7Fu32) << k) | ((w >> 7u32) << ((k + 7) as u32)) == w << k)
        by (bit_vector);
}

/// The encoding of `v` is one to five bytes long; fewer for smaller values.
pub proof fn lemma_uvarint_bytes_len(v: u32)
    ensures
        1 <= uvarint_bytes(v).len() <= 5,
        v < 0x80 ==> uvarint_bytes(v).len() == 1,
        v < 0x4000 ==> uvarint_bytes(v).len() <= 2,
        v < 0x200000 ==> uvarint_bytes(v).len() <= 3,
        v < 0x10000000 ==> uvarint_bytes(v).len() <= 4,
        v >= 0x80 ==> uvarint_bytes(v).len() >= 2,
    decreases v,
{
    assert(v & 0xFFFFFF80u32 == 0 <==> v < 0x80) by (bit_vector);
    if v & 0xFFFFFF80u32 != 0 {
        assert(v & 0xFFFFFF80u32 != 0 ==> v >> 7u32 < v) by (bit_vector);
        lemma_uvarint_bytes_len(v >> 7u32);
        assert(v < 0x4000 ==> v >> 7u32 < 0x80) by (bit_vector);
        assert(v < 0x200000 ==> v >> 7u32 < 0x4000) by (bit_vector);
        assert(v < 0x10000000 ==> v >> 7u32 < 0x200000) by (bit_vector);
        assert(v >> 7u32 < 0x2000000) by (bit_vector);
        assert((v >> 7u32) < 0x10000000);
    }
}

/// Scanning the encoding of `w` placed at index `i` adds `w`'s groups to `acc`.
proof fn lemma_uvarint_scan_encoded(s: Seq<u8>, i: nat, acc: u32, w: u32)
    requires
        i + uvarint_bytes(w).len() <= 5,
        i + uvarint_bytes(w).len() <= s.len(),
        s.subrange(i as int, (i + uvarint_bytes(w).len()) as int) == uvarint_bytes(w),
    ensures
        uvarint_scan(s, i, acc) == (VarIntScan::Decoded {
            value: acc | (w << ((7 * i) as u32)),
            len: i + uvarint_bytes(w).len(),
        }),
    decreases w,
{
    let enc = uvarint_bytes(w);
    lemma_uvarint_bytes_len(w);
    assert(s[i as int] == enc[0]) by {
        assert(s.subrange(i as int, (i + enc.len()) as int)[0] == s[i as int]);
    }
    let k = (7 * i) as u32;
    if w & 0xFFFFFF80u32 == 0 {
        let b = (w & 0x7Fu32) as u8;
        assert(w & 0xFFFFFF80u32 == 0 ==> ((((w & 0x7Fu32) as u8) as u32) & 0x80u32 == 0
            && (((w & 0x7Fu32) as u8) as u32) & 0x7Fu32 == w)) by (bit_vector);
        assert(enc[0] == b);
    } else {
        let b = ((w & 0x7Fu32) | 0x80u32) as u8;
        assert(((((w & 0x7Fu32) | 0x80u32) as u8) as u32) & 0x80u32 != 0
            && ((((w & 0x7Fu32) | 0x80u32) as u8) as u32) & 0x7Fu32 == w & 0x7Fu32) by (bit_vector);
        assert(enc[0] == b);
        let rest = uvarint_bytes(w >> 7u32);
        assert(enc == seq![b] + rest);
        assert(w & 0xFFFFFF80u32 != 0 ==> w >> 7u32 < w) by (bit_vector);
        assert(s.subrange((i + 1) as int, (i + 1 + rest.len()) as int) =~= rest) by {
            assert forall|j: int| 0 <= j < rest.len() implies s.subrange((i + 1) as int, (i + 1 + rest.len()) as int)[j] == rest[j] by {
                assert(s.subrange(i as int, (i + enc.len()) as int)[j + 1] == enc[j + 1]);
            }
        }
        let next = acc | ((w & 0x7Fu32) << k);
        lemma_uvarint_scan_encoded(s, i + 1, next, w >> 7u32);
        assert(k <= 21);
        lemma_low_group_concat(w, k);
        assert((7 * (i + 1)) as u32 == (k + 7) as u32);
        assert(next | ((w >> 7u32) << ((k + 7) as u32)) == acc | (w << k)) by {
            assert(forall|a: u32, x: u32, y: u32| #[trigger] ((a | x) | y) == a | (x | y))
                by (bit_vector);
        }
    }
}

/// A decoded varint takes between one and five of the bytes scanned.
pub proof fn lemma_uvarint_scan_bounds(s: Seq<u8>, i: nat, acc: u32)
    ensures
        uvarint_scan(s, i, acc) matches VarIntScan::Decoded { len, .. } ==> i < len <= s.len()
            && len <= if i < 5 { 5 } else { i + 1 },
        uvarint_scan(s, i, acc) is Overlong ==> s.len() >= 5,
    decreases 5 - i,
{
    if i < s.len() {
        let b = s[i as int];
        let next = acc | (((b as u32) & 0x7Fu32) << ((7 * i) as u32));
        if (b as u32) & 0x80u32 != 0 && i + 1 < 5 {
            lemma_uvarint_scan_bounds(s, i + 1, next);
        }
    }
}

/// An unsigned varint decodes to the value it encodes, whatever follows it.
pub proof fn lemma_uvarint_roundtrip(v: u32, rest: Seq<u8>)
    ensures
        uvarint_decode(uvarint_bytes(v) + rest) == (VarIntScan::Decoded {
            value: v,
            len: uvarint_bytes(v).len(),
        }),
{
    let s = uvarint_bytes(v) + rest;
    lemma_uvarint_bytes_len(v);
    assert(s.subrange(0, uvarint_bytes(v).len() as int) =~= uvarint_bytes(v));
    lemma_uvarint_scan_encoded(s, 0, 0, v);
    assert((0u32 | (v << 0u32)) == v) by (bit_vector);
}

/// The zigzag mapping, which `ReadWriteForEncodingUtils::zigzag_encode` computes, and its
/// inverse, which `ReadWriteForEncodingUtils::zigzag_decode` computes, undo each other:
/// together they are a bijection between the 32-bit signed and unsigned integers.
pub proof fn lemma_zigzag_roundtrip(v: i32, u: u32)
    ensures
        unzigzag(zigzag(v)) == v,
        zigzag(unzigzag(u)) == u,
{
}

/// A signed varint decodes, through the zigzag mapping, to the value it encodes.
pub proof fn lemma_varint_roundtrip(v: i32, rest: Seq<u8>)
    ensures
        uvarint_decode(varint_bytes(v) + rest) == (VarIntScan::Decoded {
            value: zigzag(v),
            len: varint_bytes(v).len(),
        }),
        unzigzag(zigzag(v)) == v,
{
    lemma_uvarint_roundtrip(zigzag(v), rest);
}

proof fn lemma_zigzag_bits(v: i32)
    ensures
        ((v << 1i32) ^ (v >> 31i32)) as u32 == zigzag(v),
{
    assert(v >= 0 ==> ((v << 1i32) ^ (v >> 31i32)) as u32 == (2 * v) as u32) by (bit_vector);
    assert(v < 0 ==> ((v << 1i32) ^ (v >> 31i32)) as u32 == (-2 * v - 1) as u32) by (bit_vector);
}

proof fn lemma_unzigzag_bits(u: u32, m: i32)
    requires
        m == (if u & 1u32 == 0 { 0i32 } else { -1i32 }),
    ensures
        ((u >> 1u32) as i32) ^ m == unzigzag(u),
{
    assert(u & 1u32 == 0 <==> u % 2 == 0) by (bit_vector);
    assert(u % 2 == 0 ==> ((u >> 1u32) as i32) ^ 0i32 == (u / 2) as i32) by (bit_vector);
    assert(u % 2 == 1 ==> ((u >> 1u32) as i32) ^ -1i32 == (-1 - (u / 2) as i32) as i32)
        by (bit_vector);
    assert(u / 2 <= 0x7FFF_FFFF);
}

// ---------------------------------------------------------------------------
// Executable functions
// ---------------------------------------------------------------------------

/// Encoding and decoding of variable-length integers.
pub struct ReadWriteForEncodingUtils;

impl ReadWriteForEncodingUtils {
    /// Appends the unsigned varint of `value` to `writer`; returns how many bytes it took.
    pub fn write_unsigned_var_int(value: u32, writer: &mut Vec<u8>) -> (r: TsFileResult<usize>)
        ensures
            final(writer)@ == old(writer)@ + uvarint_bytes(value),
            r == Ok::<usize, TsFileError>(uvarint_bytes(value).len() as usize),
    {
        let n = Self::write_unsigned_var_int_to_vec(value, writer);
        Ok(n)
    }

    /// Appends the unsigned varint of `value` to `buf`; returns how many bytes it took.
    pub fn write_unsigned_var_int_to_vec(value: u32, buf: &mut Vec<u8>) -> (n: usize)
        ensures
            final(buf)@ == old(buf)@ + uvarint_bytes(value),
            n == uvarint_bytes(value).len(),
    {
        let mut v = value;
        let mut count: usize = 0;
        proof {
            lemma_uvarint_bytes_len(value);
        }
        while (v & 0xFFFFFF80u32) != 0
            invariant
                buf@ + uvarint_bytes(v) == old(buf)@ + uvarint_bytes(value),
                count + uvarint_bytes(v).len() == uvarint_bytes(value).len(),
                uvarint_bytes(value).len() <= 5,
            decreases v,
        {
            let ghost before = buf@;
            buf.push(((v & 0x7Fu32) | 0x80u32) as u8);
            proof {
                assert(uvarint_bytes(v) == seq![((v & 0x7Fu32) | 0x80u32) as u8] + uvarint_bytes(
                    v >> 7u32,
                ));
                assert(buf@ + uvarint_bytes(v >> 7u32) =~= before + uvarint_bytes(v));
                assert((v & 0xFFFFFF80u32) != 0 ==> v >> 7u32 < v) by (bit_vector);
            }
            v = v >> 7;
            count = count + 1;
        }
        let ghost before = buf@;
        buf.push((v & 0x7Fu32) as u8);
        proof {
            assert(buf@ =~= before + uvarint_bytes(v));
        }
        count + 1
    }

    /// Reads an unsigned varint from `reader`. When the input ends first the error is
    /// `Io` and the whole input is consumed; when the fifth byte still continues the error
    /// is `DecodingError` and five bytes are consumed.
    pub fn read_unsigned_var_int(reader: &mut ByteReader) -> (r: TsFileResult<u32>)
        ensures
            match uvarint_decode(old(reader).rest()) {
                VarIntScan::Decoded { value, len } => {
                    &&& r == Ok::<u32, TsFileError>(value)
                    &&& final(reader).rest() == old(reader).rest().skip(len as int)
                },
                VarIntScan::Truncated => {
                    &&& r matches Err(TsFileError::Io(_))
                    &&& final(reader).rest() == Seq::<u8>::empty()
                },
                VarIntScan::Overlong => {
                    &&& r matches Err(TsFileError::DecodingError(_))
                    &&& final(reader).rest() == old(reader).rest().skip(5)
                },
            },
    {
        let ghost s = reader.rest();
        let mut value: u32 = 0;
        let mut shift: u32 = 0;
        let mut pos: usize = 0;
        loop
            invariant
                s == old(reader).rest(),
                pos < 5,
                shift == 7 * pos,
                pos <= s.len(),
                reader.rest() == s.skip(pos as int),
                uvarint_decode(s) == uvarint_scan(s, pos as nat, value),
            decreases 5 - pos,
        {
            let byte = reader.read_u8();
            match byte {
                Err(e) => {
                    proof {
                        assert(s.skip(pos as int).len() == 0);
                        assert(pos as nat >= s.len());
                        assert(reader.rest() =~= Seq::<u8>::empty());
                    }
                    return Err(e);
                },
                Ok(b8) => {
                    proof {
                        assert(s.skip(pos as int).len() >= 1);
                        assert(b8 == s.skip(pos as int)[0]);
                        assert(s.skip(pos as int)[0] == s[pos as int]);
                        assert(s.skip(pos as int).drop_first() =~= s.skip(pos + 1));
                    }
                    let b = b8 as u32;
                    value = value | ((b & 0x7Fu32) << shift);
                    shift = shift + 7;
                    pos = pos + 1;
                    if (b & 0x80u32) == 0 {
                        return Ok(value);
                    }
                    if shift >= 35 {
                        return Err(TsFileError::DecodingError("VarInt too large".to_string()));
                    }
                },
            }
        }
    }

    /// Reads an unsigned varint from the front of `data`; returns it with the number of
    /// bytes it took.
    pub fn read_unsigned_var_int_from_slice(data: &[u8]) -> (r: TsFileResult<(u32, usize)>)
        ensures
            match uvarint_decode(data@) {
                VarIntScan::Decoded { value, len } => r == Ok::<(u32, usize), TsFileError>(
                    (value, len as usize),
                ),
                _ => r matches Err(TsFileError::DecodingError(_)),
            },
    {
        let mut value: u32 = 0;
        let mut shift: u32 = 0;
        let mut pos: usize = 0;
        loop
            invariant
                pos < 5,
                shift == 7 * pos,
                pos <= data@.len(),
                uvarint_decode(data@) == uvarint_scan(data@, pos as nat, value),
            decreases 5 - pos,
        {
            if pos >= data.len() {
                return Err(
                    TsFileError::DecodingError("Unexpected end of data reading VarInt".to_string()),
                );
            }
            let b = data[pos] as u32;
            pos = pos + 1;
            value = value | ((b & 0x7Fu32) << shift);
            shift = shift + 7;
            if (b & 0x80u32) == 0 {
                return Ok((value, pos));
            }
            if shift >= 35 {
                return Err(TsFileError::DecodingError("VarInt too large".to_string()));
            }
        }
    }

    /// Appends the signed (zigzag) varint of `value` to `writer`.
    pub fn write_var_int(value: i32, writer: &mut Vec<u8>) -> (r: TsFileResult<usize>)
        ensures
            final(writer)@ == old(writer)@ + varint_bytes(value),
            r == Ok::<usize, TsFileError>(varint_bytes(value).len() as usize),
    {
        let uvalue = Self::zigzag_encode(value);
        Self::write_unsigned_var_int(uvalue, writer)
    }

    /// Appends the signed (zigzag) varint of `value` to `buf`.
    pub fn write_var_int_to_vec(value: i32, buf: &mut Vec<u8>) -> (n: usize)
        ensures
            final(buf)@ == old(buf)@ + varint_bytes(value),
            n == varint_bytes(value).len(),
    {
        let uvalue = Self::zigzag_encode(value);
        Self::write_unsigned_var_int_to_vec(uvalue, buf)
    }

    /// Reads a signed (zigzag) varint from `reader`.
    pub fn read_var_int(reader: &mut ByteReader) -> (r: TsFileResult<i32>)
        ensures
            match uvarint_decode(old(reader).rest()) {
                VarIntScan::Decoded { value, len } => {
                    &&& r == Ok::<i32, TsFileError>(unzigzag(value))
                    &&& final(reader).rest() == old(reader).rest().skip(len as int)
                },
                VarIntScan::Truncated => {
                    &&& r matches Err(TsFileError::Io(_))
                    &&& final(reader).rest() == Seq::<u8>::empty()
                },
                VarIntScan::Overlong => {
                    &&& r matches Err(TsFileError::DecodingError(_))
                    &&& final(reader).rest() == old(reader).rest().skip(5)
                },
            },
    {
        let uvalue = Self::read_unsigned_var_int(reader)?;
        Ok(Self::zigzag_decode(uvalue))
    }

    /// Reads a signed (zigzag) varint from the front of `data`.
    pub fn read_var_int_from_slice(data: &[u8]) -> (r: TsFileResult<(i32, usize)>)
        ensures
            match uvarint_decode(data@) {
                VarIntScan::Decoded { value, len } => r == Ok::<(i32, usize), TsFileError>(
                    (unzigzag(value), len as usize),
                ),
                _ => r matches Err(TsFileError::DecodingError(_)),
            },
    {
        let (uvalue, len) = Self::read_unsigned_var_int_from_slice(data)?;
        Ok((Self::zigzag_decode(uvalue), len))
    }

    /// Number of bytes of the unsigned varint of `value`.
    pub fn u_var_int_size(value: u32) -> (n: usize)
        ensures
            n == uvarint_bytes(value).len(),
    {
        let mut v = value;
        let mut size: usize = 1;
        proof {
            lemma_uvarint_bytes_len(value);
        }
        while (v & 0xFFFFFF80u32) != 0
            invariant
                size - 1 + uvarint_bytes(v).len() == uvarint_bytes(value).len(),
                1 <= size,
                uvarint_bytes(value).len() <= 5,
            decreases v,
        {
            proof {
                assert(uvarint_bytes(v) == seq![((v & 0x7Fu32) | 0x80u32) as u8] + uvarint_bytes(
                    v >> 7u32,
                ));
                assert((v & 0xFFFFFF80u32) != 0 ==> v >> 7u32 < v) by (bit_vector);
            }
            v = v >> 7;
            size = size + 1;
        }
        size
    }

    /// Number of bytes of the signed (zigzag) varint of `value`.
    pub fn var_int_size(value: i32) -> (n: usize)
        ensures
            n == varint_bytes(value).len(),
    {
        let uvalue = Self::zigzag_encode(value);
        Self::u_var_int_size(uvalue)
    }

    /// The largest number of significant bits among the values of `list` (two's
    /// complement, so any negative value counts 32), and at least 1.
    pub fn get_int_max_bit_width(list: &[i32]) -> (w: u32)
        ensures
            w == max_bit_width_i32(list@, list@.len() as int),
    {
        let mut max: u32 = 1;
        let mut i: usize = 0;
        while i < list.len()
            invariant
                i <= list.len(),
                max == max_bit_width_i32(list@, i as int),
            decreases list.len() - i,
        {
            let num = list[i];
            let lz = (num as u32).leading_zeros();
            proof {
                vstd::std_specs::bits::axiom_u32_leading_zeros(num as u32);
            }
            let bit_width = 32u32.saturating_sub(lz);
            if bit_width > max {
                max = bit_width;
            }
            i = i + 1;
        }
        max
    }

    /// The largest number of significant bits among the values of `list` (two's
    /// complement, so any negative value counts 64), and at least 1.
    pub fn get_long_max_bit_width(list: &[i64]) -> (w: u32)
        ensures
            w == max_bit_width_i64(list@, list@.len() as int),
    {
        let mut max: u32 = 1;
        let mut i: usize = 0;
        while i < list.len()
            invariant
                i <= list.len(),
                max == max_bit_width_i64(list@, i as int),
            decreases list.len() - i,
        {
            let num = list[i];
            let lz = (num as u64).leading_zeros();
            proof {
                vstd::std_specs::bits::axiom_u64_leading_zeros(num as u64);
            }
            let bit_width = 64u32.saturating_sub(lz);
            if bit_width > max {
                max = bit_width;
            }
            i = i + 1;
        }
        max
    }

    /// Appends the `ceil(bit_width / 8)` least significant bytes of `value`, least
    /// significant first; more than four bytes is an `EncodingError` and writes nothing.
    pub fn write_int_little_endian_padded_on_bit_width(
        value: i32,
        writer: &mut Vec<u8>,
        bit_width: u32,
    ) -> (r: TsFileResult<()>)
        requires
            bit_width <= u32::MAX - 7,
        ensures
            (bit_width + 7) / 8 <= 4 ==> {
                &&& r is Ok
                &&& final(writer)@ == old(writer)@ + le_bytes_u64(
                    (value as u32) as u64,
                    (bit_width + 7) / 8,
                )
            },
            (bit_width + 7) / 8 > 4 ==> {
                &&& r matches Err(TsFileError::EncodingError(_))
                &&& final(writer)@ == old(writer)@
            },
    {
        let padded_byte_num = (bit_width + 7) / 8;
        if padded_byte_num > 4 {
            return Err(
                TsFileError::EncodingError(
                    number_message("Padded byte num ", padded_byte_num as i64, " exceeds 4"),
                ),
            );
        }
        Self::push_le_bytes((value as u32) as u64, padded_byte_num as usize, writer);
        Ok(())
    }

    /// Appends the `ceil(bit_width / 8)` least significant bytes of `value`, least
    /// significant first; more than eight bytes is an `EncodingError` and writes nothing.
    pub fn write_long_little_endian_padded_on_bit_width(
        value: i64,
        writer: &mut Vec<u8>,
        bit_width: u32,
    ) -> (r: TsFileResult<()>)
        requires
            bit_width <= u32::MAX - 7,
        ensures
            (bit_width + 7) / 8 <= 8 ==> {
                &&& r is Ok
                &&& final(writer)@ == old(writer)@ + le_bytes_u64(value as u64, (bit_width + 7) / 8)
            },
            (bit_width + 7) / 8 > 8 ==> {
                &&& r matches Err(TsFileError::EncodingError(_))
                &&& final(writer)@ == old(writer)@
            },
    {
        let padded_byte_num = (bit_width + 7) / 8;
        if padded_byte_num > 8 {
            return Err(
                TsFileError::EncodingError(
                    number_message("Padded byte num ", padded_byte_num as i64, " exceeds 8"),
                ),
            );
        }
        Self::push_le_bytes(value as u64, padded_byte_num as usize, writer);
        Ok(())
    }

    fn push_le_bytes(v: u64, n: usize, writer: &mut Vec<u8>)
        requires
            n <= 8,
        ensures
            final(writer)@ == old(writer)@ + le_bytes_u64(v, n as int),
    {
        let mut j: usize = 0;
        while j < n
            invariant
                j <= n <= 8,
                writer@ == old(writer)@ + le_bytes_u64(v, j as int),
            decreases n - j,
        {
            let b = ((v >> ((8 * j) as u64)) & 0xFFu64) as u8;
            writer.push(b);
            j = j + 1;
            assert(writer@ =~= old(writer)@ + le_bytes_u64(v, j as int));
        }
    }

    /// Reads `ceil(bit_width / 8)` bytes as the low bytes of a little-endian `i32`
    /// whose other bytes are zero. More than four bytes is a `DecodingError` and
    /// consumes nothing; a short input is an `Io` error and consumes nothing.
    pub fn read_int_little_endian_padded_on_bit_width(
        reader: &mut ByteReader,
        bit_width: u32,
    ) -> (r: TsFileResult<i32>)
        requires
            bit_width <= u32::MAX - 7,
        ensures
            ({
                let n = (bit_width + 7) / 8;
                let rest = old(reader).rest();
                if n > 4 {
                    &&& r matches Err(TsFileError::DecodingError(_))
                    &&& final(reader).rest() == rest
                } else if n > rest.len() {
                    &&& r matches Err(TsFileError::Io(_))
                    &&& final(reader).rest() == rest
                } else {
                    &&& r == Ok::<i32, TsFileError>(
                        (le_value_u64(rest.take(n as int)) as u32) as i32,
                    )
                    &&& final(reader).rest() == rest.skip(n as int)
                }
            }),
    {
        let padded_byte_num = (bit_width + 7) / 8;
        if padded_byte_num > 4 {
            return Err(
                TsFileError::DecodingError(
                    number_message("Padded byte num ", padded_byte_num as i64, " exceeds 4"),
                ),
            );
        }
        let bytes = reader.read_exact(padded_byte_num as usize)?;
        let v = Self::le_value(&bytes);
        Ok((v as u32) as i32)
    }

    fn le_value(bytes: &Vec<u8>) -> (v: u64)
        ensures
            v == le_value_u64(bytes@),
    {
        let mut acc: u64 = 0;
        let mut j: usize = bytes.len();
        while j > 0
            invariant
                j <= bytes.len(),
                acc == le_value_u64(bytes@.subrange(j as int, bytes@.len() as int)),
            decreases j,
        {
            j = j - 1;
            let b = bytes[j];
            proof {
                let s = bytes@.subrange(j as int, bytes@.len() as int);
                assert(s.drop_first() =~= bytes@.subrange(j + 1, bytes@.len() as int));
                assert(s[0] == b);
            }
            acc = (b as u64) | (acc << 8u64);
        }
        assert(bytes@.subrange(0, bytes@.len() as int) =~= bytes@);
        acc
    }

    /// The zigzag code of `value`: 0, -1, 1, -2, ... become 0, 1, 2, 3, ...
    pub fn zigzag_encode(value: i32) -> (u: u32)
        ensures
            u == zigzag(value),
    {
        proof {
            lemma_zigzag_bits(value);
        }
        ((value << 1i32) ^ (value >> 31i32)) as u32
    }

    /// The signed integer whose zigzag code is `value`.
    pub fn zigzag_decode(value: u32) -> (v: i32)
        ensures
            v == unzigzag(value),
    {
        let low = value & 1u32;
        let high = value >> 1u32;
        proof {
            assert(value & 1u32 == 0 || value & 1u32 == 1) by (bit_vector);
            assert(value >> 1u32 <= 0x7FFF_FFFF) by (bit_vector);
        }
        let sign = -(low as i32);
        proof {
            lemma_unzigzag_bits(value, sign);
        }
        (high as i32) ^ sign
    }
}

} // verus!
