//! Decoding of second-order differences: blocks of a first value, a smallest delta
//! and bit-packed offsets back into 64-bit integers.

use vstd::prelude::*;
use vstd::wrapping::i64_specs;

use crate::encoding::decoder::{prepend, DecodeFailure, Step};
use crate::encoding::ts2diff::{
    adjusted, block_bytes, block_values, deltas, lemma_ts2diff_single_block, max_width,
    min_delta, pack_bits, packed_bit, packed_byte_from, ts2diff_bytes, value_width,
};
use crate::error::{TsFileError, TsFileResult};
use crate::utils::byte_order::{be_bytes_u32, be_bytes_u64, be_value_u64, lemma_be_roundtrip};
use crate::utils::byte_reader::ByteReader;
use crate::utils::read_write_io_utils::{be_i32_at, lemma_fixed_width_roundtrip, ReadWriteIOUtils};

verus! {

/// Bit `p` of a byte stream, the most significant bit of each byte first.
pub open spec fn stream_bit(bytes: Seq<u8>, p: int) -> u64 {
    ((bytes[p / 8] >> ((7 - p % 8) as u8)) & 1u8) as u64
}

/// The number made of the `k` bits of `bytes` from bit `start` on, the first the most
/// significant.
pub open spec fn bits_value(bytes: Seq<u8>, start: int, k: nat) -> u64
    decreases k,
{
    if k == 0 {
        0
    } else {
        ((bits_value(bytes, start, (k - 1) as nat) << 1u64) | stream_bit(bytes, start + k - 1)) as u64
    }
}

/// The values of a block: `first`, then each the one before plus `mn` plus its offset,
/// wrapping like 64-bit arithmetic.
pub open spec fn undelta(first: i64, mn: i64, offsets: Seq<u64>) -> Seq<i64>
    decreases offsets.len(),
{
    if offsets.len() == 0 {
        seq![first]
    } else {
        let before = undelta(first, mn, offsets.drop_last());
        before.push(
            i64_specs::wrapping_add(
                before.last(),
                i64_specs::wrapping_add(offsets.last() as i64, mn),
            ),
        )
    }
}

/// The number of bytes that `count` values of `width` bits fill.
pub open spec fn packed_len(count: int, width: int) -> int {
    (count * width + 7) / 8
}

/// The block at the front of `s`: the number of deltas and their bit width (big-endian
/// 32-bit numbers), the smallest delta and the first value (big-endian 64-bit numbers),
/// then the packed offsets. A negative count or width, or a width over 64, is
/// malformed.
#[verifier::opaque]
pub open spec fn block_step(s: Seq<u8>) -> Step<Seq<i64>> {
    if s.len() < 24 {
        Step::Failed { failure: DecodeFailure::Truncated }
    } else {
        let count = be_i32_at(s);
        let width = be_i32_at(s.skip(4));
        let mn = be_value_u64(s.skip(8)) as i64;
        let first = be_value_u64(s.skip(16)) as i64;
        if count < 0 || width < 0 || width > 64 {
            Step::Failed { failure: DecodeFailure::Malformed }
        } else {
            let n = packed_len(count as int, width as int);
            if s.len() < 24 + n {
                Step::Failed { failure: DecodeFailure::Truncated }
            } else {
                let packed = s.subrange(24, 24 + n);
                let offsets = Seq::new(
                    count as nat,
                    |i: int| bits_value(packed, i * width, width as nat),
                );
                Step::Done { value: undelta(first, mn, offsets), len: (24 + n) as nat }
            }
        }
    }
}

/// All values of the blocks that fill `s`, one block after the other.
pub open spec fn ts2diff_column(s: Seq<u8>) -> Result<Seq<i64>, DecodeFailure>
    decreases s.len(),
{
    if s.len() == 0 {
        Ok(Seq::empty())
    } else {
        match block_step(s) {
            Step::Done { value, len } => if 0 < len <= s.len() {
                prepend(value, ts2diff_column(s.skip(len as int)))
            } else {
                Err(DecodeFailure::Malformed)
            },
            Step::Failed { failure } => Err(failure),
        }
    }
}

/// The `width` bits of `packed` from bit `start` on, as a number.
fn unpack(packed: &Vec<u8>, start: u64, width: u32) -> (v: u64)
    requires
        width <= 64,
        start + width <= 8 * packed@.len(),
        start + width <= u64::MAX,
    ensures
        v == bits_value(packed@, start as int, width as nat),
{
    let mut v: u64 = 0;
    let mut k: u32 = 0;
    while k < width
        invariant
            width <= 64,
            start + width <= 8 * packed@.len(),
            start + width <= u64::MAX,
            k <= width,
            v == bits_value(packed@, start as int, k as nat),
        decreases width - k,
    {
        let p: u64 = start + k as u64;
        let len = packed.len();
        assert(p / 8 < len);
        let idx: usize = (p / 8) as usize;
        assert(idx == p / 8);
        let byte = packed[idx];
        let shift: u8 = 7 - (p % 8) as u8;
        let bit = ((byte >> shift) & 1u8) as u64;
        assert(shift == (7 - (p as int) % 8) as u8);
        assert(byte == packed@[(p as int) / 8]);
        assert(bit == stream_bit(packed@, p as int));
        v = (v << 1u64) | bit;
        k = k + 1;
    }
    v
}

/// Reads one block from `reader` and appends its values to `out`. A short input is an
/// `Io` error, a malformed header a `DecodingError`.
fn read_block(reader: &mut ByteReader, out: &mut Vec<i64>) -> (r: TsFileResult<()>)
    ensures
        match block_step(old(reader).rest()) {
            Step::Done { value, len } => {
                &&& r is Ok
                &&& final(out)@ == old(out)@ + value
                &&& final(reader).rest() == old(reader).rest().skip(len as int)
            },
            Step::Failed { failure: DecodeFailure::Truncated } => r matches Err(TsFileError::Io(_)),
            Step::Failed { failure: DecodeFailure::Malformed } => r matches Err(
                TsFileError::DecodingError(_),
            ),
        },
{
    proof {
        reveal(block_step);
    }
    let ghost s = reader.rest();
    if reader.remaining() < 24 {
        return Err(TsFileError::Io("failed to fill whole buffer".to_string()));
    }
    let count = ReadWriteIOUtils::read_i32(reader)?;
    let width = ReadWriteIOUtils::read_i32(reader)?;
    let mn = ReadWriteIOUtils::read_i64(reader)?;
    let first = ReadWriteIOUtils::read_i64(reader)?;
    proof {
        assert(s.skip(4).skip(4) =~= s.skip(8));
        assert(s.skip(8).skip(8) =~= s.skip(16));
        assert(s.skip(16).skip(8) =~= s.skip(24));
    }
    if count < 0 || width < 0 || width > 64 {
        return Err(TsFileError::DecodingError("Invalid block header".to_string()));
    }
    assert((count as u64) * (width as u64) <= 0x7fff_ffffu64 * 64) by (nonlinear_arith)
        requires
            0 <= count <= 0x7fff_ffff,
            0 <= width <= 64,
    ;
    let bits: u64 = (count as u64) * (width as u64);
    let n: u64 = (bits + 7) / 8;
    if n > reader.remaining() as u64 {
        return Err(TsFileError::Io("failed to fill whole buffer".to_string()));
    }
    let packed = ReadWriteIOUtils::read_bytes(reader, n as usize)?;
    let ghost offsets = Seq::new(
        count as nat,
        |i: int| bits_value(packed@, i * width, width as nat),
    );
    proof {
        assert(packed@ =~= s.subrange(24, 24 + n));
        assert(s.skip(24).skip(n as int) =~= s.skip(24 + n));
        assert(bits <= 8 * n);
    }
    let ghost start = out@;
    out.push(first);
    let mut prev = first;
    let mut i: u32 = 0;
    while i < count as u32
        invariant
            0 <= count,
            0 <= width <= 64,
            bits == count * width,
            bits <= 8 * packed@.len(),
            i <= count,
            offsets == Seq::new(count as nat, |j: int| bits_value(packed@, j * width, width as nat)),
            undelta(first, mn, offsets.take(i as int)).len() == i + 1,
            out@ == start + undelta(first, mn, offsets.take(i as int)),
            prev == undelta(first, mn, offsets.take(i as int)).last(),
        decreases count - i,
    {
        assert((i as int) * width + width <= count * width) by (nonlinear_arith)
            requires
                i < count,
                0 <= width,
        ;
        let off = unpack(&packed, (i as u64) * (width as u64), width as u32);
        let delta = (off as i64).wrapping_add(mn);
        prev = prev.wrapping_add(delta);
        out.push(prev);
        proof {
            let t = offsets.take(i + 1);
            assert(t.drop_last() =~= offsets.take(i as int));
            assert(t.last() == off);
        }
        i = i + 1;
    }
    proof {
        assert(offsets.take(count as int) =~= offsets);
    }
    Ok(())
}

/// Decodes the blocks of second-order differences that fill `data`. A short input is an
/// `Io` error, a malformed block header a `DecodingError`.
pub fn decode_ts2diff(data: Vec<u8>) -> (r: TsFileResult<Vec<i64>>)
    ensures
        match ts2diff_column(data@) {
            Ok(vs) => r matches Ok(v) && v@ == vs,
            Err(DecodeFailure::Truncated) => r matches Err(TsFileError::Io(_)),
            Err(DecodeFailure::Malformed) => r matches Err(TsFileError::DecodingError(_)),
        },
{
    let ghost s = data@;
    let mut reader = ByteReader::new(data);
    let mut out: Vec<i64> = Vec::new();
    while reader.remaining() > 0
        invariant
            s == data@,
            ts2diff_column(s) == prepend(out@, ts2diff_column(reader.rest())),
        decreases reader.rest().len(),
    {
        let ghost before = reader.rest();
        let ghost out_before = out@;
        match read_block(&mut reader, &mut out) {
            Ok(()) => {},
            Err(e) => {
                proof {
                    assert(block_step(before) is Failed);
                    assert(ts2diff_column(before) == Err::<Seq<i64>, DecodeFailure>(
                        block_step(before)->failure,
                    ));
                }
                return Err(e);
            },
        }
        proof {
            lemma_block_step_len(before);
            match ts2diff_column(reader.rest()) {
                Ok(rest) => {
                    assert(out_before + (block_step(before)->value + rest) =~= out@ + rest);
                },
                Err(_) => {},
            }
        }
    }
    proof {
        assert(out@ + Seq::<i64>::empty() =~= out@);
    }
    Ok(out)
}

/// A decoded block takes at least its header and no more bytes than there are.
proof fn lemma_block_step_len(s: Seq<u8>)
    ensures
        block_step(s) matches Step::Done { len, .. } ==> 24 <= len <= s.len(),
{
    reveal(block_step);
    if s.len() >= 24 {
        let count = be_i32_at(s);
        let width = be_i32_at(s.skip(4));
        if !(count < 0 || width < 0 || width > 64) {
            assert(packed_len(count as int, width as int) >= 0) by (nonlinear_arith)
                requires
                    count >= 0,
                    width >= 0,
            ;
        }
    }
}

/// A bit of the packed stream is 0 or 1.
proof fn lemma_packed_bit_is_bit(us: Seq<u64>, width: int, p: int)
    ensures
        packed_bit(us, width, p) <= 1,
{
    if p < us.len() * width {
        let x = us[p / width] >> ((width - 1 - p % width) as u64);
        assert((x & 1u64) as u8 <= 1) by (bit_vector);
    }
}

/// Bit `j` of the first `k` bits of a packed byte, counted from the first, is bit
/// `8 * b + j` of the packed stream.
proof fn lemma_byte_bits(us: Seq<u64>, width: int, b: int, k: nat, j: int)
    requires
        k <= 8,
        0 <= j < k,
    ensures
        (packed_byte_from(us, width, b, k) >> ((k - 1 - j) as u8)) & 1u8 == packed_bit(
            us,
            width,
            8 * b + j,
        ),
    decreases k,
{
    let x = packed_byte_from(us, width, b, (k - 1) as nat);
    let bit = packed_bit(us, width, 8 * b + k - 1);
    lemma_packed_bit_is_bit(us, width, 8 * b + k - 1);
    assert(packed_byte_from(us, width, b, k) == ((x << 1u8) | bit) as u8);
    if j == k - 1 {
        assert(bit <= 1 ==> (((x << 1u8) | bit) >> 0u8) & 1u8 == bit) by (bit_vector);
    } else {
        lemma_byte_bits(us, width, b, (k - 1) as nat, j);
        let t = (k - 1 - j) as u8;
        assert(bit <= 1 && 1 <= t < 8 ==> (((x << 1u8) | bit) >> t) & 1u8 == (x >> ((t - 1) as u8))
            & 1u8) by (bit_vector);
        assert(((t - 1) as u8) == (k - 2 - j) as u8);
    }
}

/// Bit `p` of the packed bytes is bit `p` of the packed stream.
proof fn lemma_stream_bit_packed(us: Seq<u64>, width: int, p: int)
    requires
        0 <= p < 8 * pack_bits(us, width).len(),
    ensures
        stream_bit(pack_bits(us, width), p) == packed_bit(us, width, p) as u64,
{
    let b = p / 8;
    let j = p % 8;
    lemma_byte_bits(us, width, b, 8, j);
    assert(8 * b + j == p);
    assert(pack_bits(us, width)[b] == packed_byte_from(us, width, b, 8));
    assert((7 - j) as u8 == (8 - 1 - j) as u8);
}

/// Reading `k` bits that hold the top `k` of the `width` bits of `u` gives `u` shifted
/// right by `width - k`.
proof fn lemma_bits_value_of(bytes: Seq<u8>, start: int, width: int, u: u64, k: nat)
    requires
        0 <= width <= 64,
        k <= width,
        u >> (width as u64) == 0,
        forall|m: int|
            0 <= m < width ==> #[trigger] stream_bit(bytes, start + m) == (u >> ((width - 1 - m) as u64))
                & 1u64,
    ensures
        bits_value(bytes, start, k) == u >> ((width - k) as u64),
    decreases k,
{
    if k > 0 {
        lemma_bits_value_of(bytes, start, width, u, (k - 1) as nat);
        let m = k - 1;
        assert(stream_bit(bytes, start + m) == (u >> ((width - 1 - m) as u64)) & 1u64);
        let sh = (width - k) as u64;
        assert(sh < 64 ==> ((u >> ((sh + 1) as u64)) << 1u64) | ((u >> sh) & 1u64) == u >> sh)
            by (bit_vector);
        assert(((sh + 1) as u64) == (width - (k - 1)) as u64);
        assert(start + k - 1 == start + m);
    }
}

/// Every value has at most as many significant bits as the widest, and no value more
/// than 64.
proof fn lemma_max_width(us: Seq<u64>)
    ensures
        0 <= max_width(us) <= 64,
        forall|i: int| 0 <= i < us.len() ==> value_width(#[trigger] us[i]) <= max_width(us),
    decreases us.len(),
{
    if us.len() > 0 {
        lemma_max_width(us.drop_last());
        vstd::std_specs::bits::axiom_u64_leading_zeros(us.last());
        assert forall|i: int| 0 <= i < us.len() implies value_width(#[trigger] us[i])
            <= max_width(us) by {
            if i < us.len() - 1 {
                assert(us[i] == us.drop_last()[i]);
            }
        }
    }
}

/// A value with no more significant bits than `width` is 0 once shifted right by it.
proof fn lemma_shift_out(u: u64, width: int)
    requires
        value_width(u) <= width <= 64,
    ensures
        u >> (width as u64) == 0,
{
    vstd::std_specs::bits::axiom_u64_leading_zeros(u);
    let a = (64 - vstd::std_specs::bits::u64_leading_zeros(u)) as u64;
    assert(a == value_width(u));
    let b = width as u64;
    assert(u >> a == 0 && a <= b && b <= 64 ==> u >> b == 0) by (bit_vector);
}

/// Packing values at a width that holds each of them and reading them back gives the
/// values.
pub proof fn lemma_unpack_all(us: Seq<u64>, width: int)
    requires
        0 <= width <= 64,
        forall|i: int| 0 <= i < us.len() ==> value_width(#[trigger] us[i]) <= width,
    ensures
        Seq::new(us.len(), |i: int| bits_value(pack_bits(us, width), i * width, width as nat))
            == us,
{
    let packed = pack_bits(us, width);
    assert forall|i: int| 0 <= i < us.len() implies bits_value(packed, i * width, width as nat)
        == us[i] by {
        let u = us[i];
        lemma_shift_out(u, width);
        assert forall|m: int| 0 <= m < width implies #[trigger] stream_bit(packed, i * width + m)
            == (u >> ((width - 1 - m) as u64)) & 1u64 by {
            let p = i * width + m;
            assert(0 <= p < us.len() * width && p / width == i && p % width == m) by {
                vstd::arithmetic::div_mod::lemma_fundamental_div_mod_converse(p, width, i, m);
                vstd::arithmetic::mul::lemma_mul_inequality(i + 1, us.len() as int, width);
                vstd::arithmetic::mul::lemma_mul_is_distributive_add_other_way(width, i, 1);
            }
            assert(p < 8 * packed.len());
            lemma_stream_bit_packed(us, width, p);
            let x = us[i] >> ((width - 1 - m) as u64);
            assert(((x & 1u64) as u8) as u64 == x & 1u64) by (bit_vector);
        }
        lemma_bits_value_of(packed, i * width, width, u, width as nat);
        assert(u >> 0u64 == u) by (bit_vector);
    }
    assert(Seq::new(us.len(), |i: int| bits_value(packed, i * width, width as nat)) =~= us);
}

/// Adding back the smallest delta and the deltas, wrapping, gives the values whose
/// deltas were taken.
pub proof fn lemma_undelta(vs: Seq<i64>, mn: i64)
    requires
        vs.len() >= 1,
    ensures
        undelta(vs[0], mn, adjusted(deltas(vs), mn)) == vs,
    decreases vs.len(),
{
    let us = adjusted(deltas(vs), mn);
    if vs.len() == 1 {
        assert(us.len() == 0);
        assert(vs =~= seq![vs[0]]);
    } else {
        let front = vs.drop_last();
        lemma_undelta(front, mn);
        assert(adjusted(deltas(front), mn) =~= us.drop_last());
        assert(front[0] == vs[0]);
        let n = vs.len() - 1;
        let a = vs[n - 1];
        let d = i64_specs::wrapping_sub(vs[n], a);
        let off = i64_specs::wrapping_sub(d, mn);
        assert(us.last() == off as u64);
        assert(((off as u64) as i64) == off) by (bit_vector);
        assert(i64_specs::wrapping_add(off, mn) == d);
        assert(i64_specs::wrapping_add(a, d) == vs[n]);
        assert(undelta(vs[0], mn, us) =~= vs);
    }
}

/// The header of a block reads back as the numbers written into it.
proof fn lemma_header_fields(count: u32, width: u32, mn: i64, first: i64, tail: Seq<u8>)
    requires
        count <= i32::MAX,
        width <= i32::MAX,
    ensures
        ({
            let s = be_bytes_u32(count) + be_bytes_u32(width) + be_bytes_u64(mn as u64)
                + be_bytes_u64(first as u64) + tail;
            &&& s.len() == 24 + tail.len()
            &&& be_i32_at(s) == count
            &&& be_i32_at(s.skip(4)) == width
            &&& be_value_u64(s.skip(8)) as i64 == mn
            &&& be_value_u64(s.skip(16)) as i64 == first
            &&& s.skip(24) == tail
        }),
{
    let h1 = be_bytes_u32(count);
    let h2 = be_bytes_u32(width);
    let h3 = be_bytes_u64(mn as u64);
    let h4 = be_bytes_u64(first as u64);
    let s = h1 + h2 + h3 + h4 + tail;
    assert(s =~= h1 + (h2 + (h3 + (h4 + tail))));
    assert(s.skip(4) =~= h2 + (h3 + (h4 + tail)));
    assert(s.skip(8) =~= h3 + (h4 + tail));
    assert(s.skip(16) =~= h4 + tail);
    assert(s.skip(24) =~= tail);
    lemma_be_roundtrip(0, count, 0, h2 + (h3 + (h4 + tail)));
    lemma_be_roundtrip(0, width, 0, h3 + (h4 + tail));
    lemma_fixed_width_roundtrip(0, 0, mn, h4 + tail);
    lemma_fixed_width_roundtrip(0, 0, first, tail);
}

/// A block written by the encoder reads back as its values and takes exactly its bytes.
#[verifier::rlimit(40)]
pub proof fn lemma_block_roundtrip(vs: Seq<i64>, rest: Seq<u8>)
    requires
        1 <= vs.len() <= block_values(),
    ensures
        block_step(block_bytes(vs) + rest) == (Step::Done { value: vs, len: block_bytes(vs).len() }),
        (block_bytes(vs) + rest).skip(block_bytes(vs).len() as int) == rest,
{
    reveal(block_step);
    let ds = deltas(vs);
    let mn = min_delta(ds);
    let us = adjusted(ds, mn);
    let w = max_width(us);
    lemma_max_width(us);
    let packed = pack_bits(us, w);
    let tail = packed + rest;
    lemma_header_fields(ds.len() as u32, w as u32, mn, vs[0], tail);
    let s = block_bytes(vs) + rest;
    assert(s =~= be_bytes_u32(ds.len() as u32) + be_bytes_u32(w as u32) + be_bytes_u64(mn as u64)
        + be_bytes_u64(vs[0] as u64) + tail);
    let count = be_i32_at(s);
    let width = be_i32_at(s.skip(4));
    assert(count == ds.len() && width == w);
    let n = packed_len(count as int, width as int);
    assert(n == packed.len());
    assert(s.subrange(24, 24 + n) =~= packed) by {
        assert(s.skip(24) == tail);
    }
    lemma_unpack_all(us, w);
    let offsets = Seq::new(count as nat, |i: int| bits_value(s.subrange(24, 24 + n), i * width, width as nat));
    assert(offsets == us);
    lemma_undelta(vs, mn);
    assert(block_step(s) == (Step::Done { value: undelta(vs[0], mn, offsets), len: (24 + n) as nat }));
    assert(block_bytes(vs).len() == 24 + n);
    assert(s.skip(block_bytes(vs).len() as int) =~= rest);
}

/// The encoding of any sequence of 64-bit integers decodes to the sequence.
#[verifier::rlimit(50)]
pub proof fn lemma_ts2diff_roundtrip(vs: Seq<i64>)
    ensures
        ts2diff_column(ts2diff_bytes(vs)) == Ok::<Seq<i64>, DecodeFailure>(vs),
    decreases vs.len(),
{
    if vs.len() == 0 {
        assert(vs =~= Seq::<i64>::empty());
    } else if vs.len() <= block_values() {
        let b = block_bytes(vs);
        lemma_block_roundtrip(vs, Seq::empty());
        assert(b + Seq::<u8>::empty() =~= b);
        lemma_block_len(vs);
        assert(b.skip(b.len() as int) =~= Seq::<u8>::empty());
        assert(ts2diff_column(Seq::<u8>::empty()) == Ok::<Seq<i64>, DecodeFailure>(Seq::empty()));
        assert(vs + Seq::<i64>::empty() =~= vs);
    } else {
        let n = block_values() as int;
        let head = vs.take(n);
        let tail = vs.skip(n);
        let b = block_bytes(head);
        let r = ts2diff_bytes(tail);
        lemma_block_roundtrip(head, r);
        lemma_block_len(head);
        lemma_ts2diff_roundtrip(tail);
        assert(head + tail =~= vs);
    }
}

/// A block takes at least its header.
proof fn lemma_block_len(vs: Seq<i64>)
    requires
        1 <= vs.len(),
    ensures
        block_bytes(vs).len() >= 24,
{
}

} // verus!
