//! Second-order difference encoding of 64-bit integers: blocks of up to 129 values,
//! each the first value, the smallest delta, and every delta minus the smallest one,
//! bit-packed at the width of the largest of them.

use vstd::prelude::*;
use vstd::wrapping::i64_specs;

use crate::utils::byte_order::{be_bytes_u32, be_bytes_u64};
use crate::utils::read_write_io_utils::ReadWriteIOUtils;

verus! {

/// The number of values in a full block: the first value and 128 deltas.
pub open spec fn block_values() -> nat {
    129
}

/// The differences between neighbouring values, wrapping like 64-bit arithmetic.
pub open spec fn deltas(vs: Seq<i64>) -> Seq<i64> {
    Seq::new((vs.len() - 1) as nat, |i: int| i64_specs::wrapping_sub(vs[i + 1], vs[i]))
}

/// The smallest of `ds`, or the largest 64-bit number when there is none.
pub open spec fn min_delta(ds: Seq<i64>) -> i64
    decreases ds.len(),
{
    if ds.len() == 0 {
        i64::MAX
    } else {
        let m = min_delta(ds.drop_last());
        if ds.last() < m { ds.last() } else { m }
    }
}

/// Every delta minus the smallest one, as bit patterns.
pub open spec fn adjusted(ds: Seq<i64>, mn: i64) -> Seq<u64> {
    Seq::new(ds.len(), |i: int| i64_specs::wrapping_sub(ds[i], mn) as u64)
}

/// The number of significant bits of `u`.
pub open spec fn value_width(u: u64) -> int {
    64 - vstd::std_specs::bits::u64_leading_zeros(u)
}

/// The largest number of significant bits among `us`, 0 for none.
pub open spec fn max_width(us: Seq<u64>) -> int
    decreases us.len(),
{
    if us.len() == 0 {
        0
    } else {
        let m = max_width(us.drop_last());
        let w = value_width(us.last());
        if w > m { w } else { m }
    }
}

/// Bit `p` of the packed stream: bit `width - 1 - p % width` of value `p / width`,
/// and 0 past the last value.
pub open spec fn packed_bit(us: Seq<u64>, width: int, p: int) -> u8 {
    if p < us.len() * width {
        ((us[p / width] >> ((width - 1 - p % width) as u64)) & 1u64) as u8
    } else {
        0
    }
}

/// The first `k` bits of byte `b` of the packed stream, the earliest the most significant.
pub open spec fn packed_byte_from(us: Seq<u64>, width: int, b: int, k: nat) -> u8
    decreases k,
{
    if k == 0 {
        0
    } else {
        ((packed_byte_from(us, width, b, (k - 1) as nat) << 1u8) | packed_bit(
            us,
            width,
            8 * b + k - 1,
        )) as u8
    }
}

/// `us` packed at `width` bits each, most significant bit first, in whole bytes.
pub open spec fn pack_bits(us: Seq<u64>, width: int) -> Seq<u8> {
    Seq::new(((us.len() * width + 7) / 8) as nat, |b: int| packed_byte_from(us, width, b, 8))
}

/// The bytes of one block of one to 129 values: the delta count and the bit width (four
/// bytes each), the smallest delta and the first value (eight bytes each), then the
/// packed deltas.
pub open spec fn block_bytes(vs: Seq<i64>) -> Seq<u8> {
    let ds = deltas(vs);
    let mn = min_delta(ds);
    let us = adjusted(ds, mn);
    let w = max_width(us);
    be_bytes_u32(ds.len() as u32) + be_bytes_u32(w as u32) + be_bytes_u64(mn as u64)
        + be_bytes_u64(vs[0] as u64) + pack_bits(us, w)
}

/// The encoding of a whole sequence: consecutive blocks of 129 values, the last shorter.
pub open spec fn ts2diff_bytes(vs: Seq<i64>) -> Seq<u8>
    decreases vs.len(),
{
    if vs.len() == 0 {
        Seq::empty()
    } else if vs.len() <= block_values() {
        block_bytes(vs)
    } else {
        block_bytes(vs.take(block_values() as int)) + ts2diff_bytes(
            vs.skip(block_values() as int),
        )
    }
}

/// Encoding whole blocks and then the rest is encoding everything.
pub proof fn lemma_ts2diff_concat(a: Seq<i64>, b: Seq<i64>)
    requires
        a.len() % block_values() == 0,
    ensures
        ts2diff_bytes(a + b) == ts2diff_bytes(a) + ts2diff_bytes(b),
    decreases a.len(),
{
    if a.len() == 0 {
        assert(a + b =~= b);
        assert(ts2diff_bytes(a) == Seq::<u8>::empty());
        assert(Seq::<u8>::empty() + ts2diff_bytes(b) =~= ts2diff_bytes(b));
    } else {
        let n = block_values() as int;
        assert((a + b).take(n) =~= a.take(n));
        assert((a + b).skip(n) =~= a.skip(n) + b);
        lemma_ts2diff_concat(a.skip(n), b);
        if a.len() == n {
            assert(a.skip(n) =~= Seq::<i64>::empty());
            assert(a.take(n) =~= a);
            assert(ts2diff_bytes(a.skip(n)) == Seq::<u8>::empty());
            assert(ts2diff_bytes(a) == block_bytes(a));
            if b.len() == 0 {
                assert(a + b =~= a);
                assert(ts2diff_bytes(b) == Seq::<u8>::empty());
                assert(ts2diff_bytes(a) + ts2diff_bytes(b) =~= ts2diff_bytes(a));
            } else {
                assert(ts2diff_bytes(a + b) == block_bytes(a) + ts2diff_bytes(b));
                assert(Seq::<u8>::empty() + ts2diff_bytes(b) =~= ts2diff_bytes(b));
            }
        } else {
            assert(ts2diff_bytes(a) == block_bytes(a.take(n)) + ts2diff_bytes(a.skip(n)));
            assert(ts2diff_bytes(a + b) == block_bytes(a.take(n)) + ts2diff_bytes(a.skip(n) + b));
            assert(block_bytes(a.take(n)) + (ts2diff_bytes(a.skip(n)) + ts2diff_bytes(b))
                =~= (block_bytes(a.take(n)) + ts2diff_bytes(a.skip(n))) + ts2diff_bytes(b));
        }
    }
}

/// A block of at most 129 values is the whole encoding.
pub proof fn lemma_ts2diff_single_block(vs: Seq<i64>)
    requires
        1 <= vs.len() <= block_values(),
    ensures
        ts2diff_bytes(vs) == block_bytes(vs),
{
}

proof fn lemma_packed_index(p: int, width: int, m: int)
    requires
        0 <= p < m * width,
        width > 0,
        m >= 0,
    ensures
        0 <= p / width < m,
        0 <= p % width < width,
{
    assert(0 <= p / width < m) by (nonlinear_arith)
        requires
            0 <= p < m * width,
            width > 0,
            m >= 0,
    ;
    assert(0 <= p % width < width) by (nonlinear_arith)
        requires
            width > 0,
    ;
}

/// Appends `us` packed at `width` bits each.
fn push_packed(us: &Vec<u64>, width: u32, out: &mut Vec<u8>)
    requires
        us@.len() <= 128,
        1 <= width <= 64,
    ensures
        final(out)@ == old(out)@ + pack_bits(us@, width as int),
{
    assert(us@.len() * width <= 128 * 64) by (nonlinear_arith)
        requires
            us@.len() <= 128,
            width <= 64,
    ;
    let total_bits: usize = us.len() * (width as usize);
    let nbytes: usize = (total_bits + 7) / 8;
    let ghost start = out@;
    let mut b: usize = 0;
    while b < nbytes
        invariant
            total_bits == us@.len() * width,
            total_bits <= 8192,
            nbytes == (total_bits + 7) / 8,
            1 <= width <= 64,
            b <= nbytes,
            out@ == start + pack_bits(us@, width as int).take(b as int),
            start == old(out)@,
        decreases nbytes - b,
    {
        let mut byte: u8 = 0;
        let mut k: usize = 0;
        while k < 8
            invariant
                total_bits == us@.len() * width,
                total_bits <= 8192,
                1 <= width <= 64,
                b < nbytes,
                nbytes == (total_bits + 7) / 8,
                k <= 8,
                byte == packed_byte_from(us@, width as int, b as int, k as nat),
            decreases 8 - k,
        {
            let p: usize = 8 * b + k;
            let bit: u8 = if p < total_bits {
                proof {
                    lemma_packed_index(p as int, width as int, us@.len() as int);
                }
                let i = p / (width as usize);
                let j = p % (width as usize);
                let shift = (width as usize) - 1 - j;
                let x = us[i] >> (shift as u64);
                assert(x & 1u64 <= 1) by (bit_vector);
                (x & 1u64) as u8
            } else {
                0u8
            };
            byte = (byte << 1u8) | bit;
            k = k + 1;
        }
        out.push(byte);
        b = b + 1;
        assert(out@ =~= start + pack_bits(us@, width as int).take(b as int));
    }
    assert(pack_bits(us@, width as int).take(nbytes as int) =~= pack_bits(us@, width as int));
}

/// Appends the block of `vs`.
pub(crate) fn push_block(vs: &Vec<i64>, out: &mut Vec<u8>)
    requires
        1 <= vs@.len() <= block_values(),
    ensures
        final(out)@ == old(out)@ + block_bytes(vs@),
{
    let m: usize = vs.len() - 1;
    let ghost ds = deltas(vs@);
    let mut dv: Vec<i64> = Vec::new();
    let mut mn: i64 = i64::MAX;
    let mut i: usize = 0;
    while i < m
        invariant
            m == vs@.len() - 1,
            ds == deltas(vs@),
            i <= m,
            dv@ == ds.take(i as int),
            mn == min_delta(ds.take(i as int)),
        decreases m - i,
    {
        let d = vs[i + 1].wrapping_sub(vs[i]);
        dv.push(d);
        proof {
            assert(ds.take((i + 1) as int).drop_last() =~= ds.take(i as int));
        }
        if d < mn {
            mn = d;
        }
        i = i + 1;
        assert(dv@ =~= ds.take(i as int));
    }
    assert(ds.take(m as int) =~= ds);
    let ghost us = adjusted(ds, mn);
    let mut uv: Vec<u64> = Vec::new();
    let mut w: u32 = 0;
    let mut j: usize = 0;
    while j < m
        invariant
            m == vs@.len() - 1,
            ds == deltas(vs@),
            dv@ == ds,
            us == adjusted(ds, mn),
            j <= m,
            uv@ == us.take(j as int),
            w == max_width(us.take(j as int)),
            w <= 64,
        decreases m - j,
    {
        let u = dv[j].wrapping_sub(mn) as u64;
        uv.push(u);
        let lz = u.leading_zeros();
        proof {
            vstd::std_specs::bits::axiom_u64_leading_zeros(u);
            assert(us.take((j + 1) as int).drop_last() =~= us.take(j as int));
        }
        let width = 64 - lz;
        if width > w {
            w = width;
        }
        j = j + 1;
        assert(uv@ =~= us.take(j as int));
    }
    assert(us.take(m as int) =~= us);
    let ghost start = out@;
    let _ = ReadWriteIOUtils::write_i32(m as i32, out);
    let _ = ReadWriteIOUtils::write_i32(w as i32, out);
    let _ = ReadWriteIOUtils::write_i64(mn, out);
    let _ = ReadWriteIOUtils::write_i64(vs[0], out);
    if w > 0 {
        push_packed(&uv, w, out);
    } else {
        assert(pack_bits(us, 0) =~= Seq::<u8>::empty());
    }
    proof {
        assert((m as i32) as u32 == m as u32);
        assert((w as i32) as u32 == w as u32) by (bit_vector)
            requires
                w <= 64,
        ;
        assert(out@ =~= start + block_bytes(vs@));
    }
}

} // verus!
