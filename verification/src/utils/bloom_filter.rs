//! Bloom filter over series paths, with the Murmur3 hash of the format.

use vstd::prelude::*;
use vstd::string::StringSliceAdditionalSpecFns;
use vstd::wrapping::{i64_specs, u32_specs};

use crate::error::{TsFileError, TsFileResult};
use crate::utils::byte_reader::ByteReader;
use crate::utils::read_write_for_encoding::{
    lemma_uvarint_bytes_len, lemma_uvarint_roundtrip, lemma_uvarint_scan_bounds, uvarint_bytes,
    uvarint_decode,
    ReadWriteForEncodingUtils, VarIntScan,
};

verus! {

// ---------------------------------------------------------------------------
// Murmur3 (x86, 32-bit lanes) as the format uses it
// ---------------------------------------------------------------------------

/// First multiplier of the block scrambling.
pub const C1: u32 = 0xcc9e2d51;

/// Second multiplier of the block scrambling.
pub const C2: u32 = 0x1b873593;

/// `x` rotated left by `r` bits.
pub open spec fn rotl32(x: u32, r: u32) -> u32 {
    (x << r) | (x >> ((32 - r) as u32))
}

/// The scrambling of one 32-bit block.
pub open spec fn mix_k1(k1: u32) -> u32 {
    u32_specs::wrapping_mul(rotl32(u32_specs::wrapping_mul(k1, C1), 15), C2)
}

/// Folding one scrambled block into the running hash.
pub open spec fn mix_h1(h1: u32, k1: u32) -> u32 {
    u32_specs::wrapping_add(
        u32_specs::wrapping_mul(rotl32(h1 ^ mix_k1(k1), 13), 5),
        0xe6546b64u32,
    )
}

/// The final avalanche of a 32-bit lane.
pub open spec fn fmix32(h: u32) -> u32 {
    let h = h ^ (h >> 16u32);
    let h = u32_specs::wrapping_mul(h, 0x85ebca6bu32);
    let h = h ^ (h >> 13u32);
    let h = u32_specs::wrapping_mul(h, 0xc2b2ae35u32);
    h ^ (h >> 16u32)
}

/// The `i`-th four-byte block of `data`, little endian.
pub open spec fn block_le(data: Seq<u8>, i: int) -> u32 {
    (data[4 * i] as u32) | ((data[4 * i + 1] as u32) << 8u32) | ((data[4 * i + 2] as u32)
        << 16u32) | ((data[4 * i + 3] as u32) << 24u32)
}

/// The running hash after the first `n` blocks.
pub open spec fn body_hash(data: Seq<u8>, seed: u32, n: int) -> u32
    decreases n,
{
    if n <= 0 {
        seed
    } else {
        mix_h1(body_hash(data, seed, n - 1), block_le(data, n - 1))
    }
}

/// The one to three bytes after the last whole block, gathered little endian.
pub open spec fn tail_k1(data: Seq<u8>) -> u32 {
    let t = data.len() % 4;
    let base = data.len() - t;
    if t == 3 {
        ((0u32 ^ ((data[base + 2] as u32) << 16u32)) ^ ((data[base + 1] as u32) << 8u32)) ^ (
        data[base] as u32)
    } else if t == 2 {
        (0u32 ^ ((data[base + 1] as u32) << 8u32)) ^ (data[base] as u32)
    } else {
        0u32 ^ (data[base] as u32)
    }
}

/// The Murmur3 hash of `data` with `seed`: the two 32-bit lanes joined into one number,
/// the second lane in the high half.
#[verifier::opaque]
pub open spec fn murmur_hash_spec(data: Seq<u8>, seed: u32) -> i64 {
    let h1 = body_hash(data, seed, (data.len() / 4) as int);
    let h1 = if data.len() % 4 == 0 { h1 } else { h1 ^ mix_k1(tail_k1(data)) };
    let n = data.len() as u32;
    let h1 = h1 ^ n;
    let h2 = seed ^ n;
    let h1 = u32_specs::wrapping_add(h1, h2);
    let h2 = u32_specs::wrapping_add(h2, h1);
    let h1 = fmix32(h1);
    let h2 = fmix32(h2);
    let h1 = u32_specs::wrapping_add(h1, h2);
    let h2 = u32_specs::wrapping_add(h2, h1);
    (((h2 as u64) << 32u64) | (h1 as u64)) as i64
}

// ---------------------------------------------------------------------------
// Positions of a path in the filter
// ---------------------------------------------------------------------------

/// `x` without its sign, where the most negative number stays as it is.
pub open spec fn wrapping_abs_i64(x: i64) -> i64 {
    if x == i64::MIN {
        x
    } else if x < 0 {
        (-x) as i64
    } else {
        x
    }
}

/// The first hash of a path.
pub open spec fn path_hash(path: Seq<u8>) -> i64 {
    murmur_hash_spec(path, 0)
}

/// The second hash of a path, seeded with the first.
pub open spec fn path_hash2(path: Seq<u8>) -> i64 {
    murmur_hash_spec(path, path_hash(path) as u32)
}

/// The bit that the `i`-th hash function gives `path` in a filter of `size` bits.
pub open spec fn position(path: Seq<u8>, i: u32, size: usize) -> int {
    let combined = i64_specs::wrapping_add(
        path_hash(path),
        i64_specs::wrapping_mul(i as i64, path_hash2(path)),
    );
    ((wrapping_abs_i64(combined) as usize) % size) as int
}

/// Whether bit `j` is one of the bits that the first `k` hash functions give `path`.
pub open spec fn is_position_of(path: Seq<u8>, k: u32, size: usize, j: int) -> bool {
    exists|i: u32| i < k && #[trigger] position(path, i, size) == j
}

/// Whether bit `j` (bit `j % 8` of byte `j / 8`) is set.
pub open spec fn bit_set(bits: Seq<u8>, j: int) -> bool {
    bits[j / 8] & (1u8 << ((j % 8) as u8)) != 0
}

/// The abstract state of a filter.
pub struct BloomFilterView {
    /// The bit array, eight bits a byte, the lowest bit first.
    pub bits: Seq<u8>,
    /// The number of bits in use.
    pub size: usize,
    /// The number of hash functions.
    pub hash_function_size: u32,
}

impl BloomFilterView {
    /// Whether the filter tracks nothing and so never reports a path.
    pub open spec fn is_empty(self) -> bool {
        self.bits.len() == 0 || self.size == 0 || self.hash_function_size == 0
    }

    /// Whether every position can be looked up in the bit array.
    pub open spec fn positions_fit(self) -> bool {
        self.size <= 8 * self.bits.len()
    }

    /// Whether `path` may have been added: every bit it hashes to is set.
    pub open spec fn may_contain(self, path: Seq<u8>) -> bool {
        &&& !self.is_empty()
        &&& forall|i: u32|
            i < self.hash_function_size ==> #[trigger] bit_set(
                self.bits,
                position(path, i, self.size),
            )
    }

    /// Whether `after` is this filter with the bits of `path` set.
    pub open spec fn added(self, path: Seq<u8>, after: BloomFilterView) -> bool {
        &&& after.size == self.size
        &&& after.hash_function_size == self.hash_function_size
        &&& after.bits.len() == self.bits.len()
        &&& forall|j: int|
            0 <= j < 8 * self.bits.len() ==> (#[trigger] bit_set(after.bits, j) <==> bit_set(
                self.bits,
                j,
            ) || is_position_of(path, self.hash_function_size, self.size, j))
    }

    /// The bytes of the filter: the byte count, and when there are bytes, the bytes, the
    /// size and the number of hash functions, each count an unsigned varint.
    pub open spec fn serialized(self) -> Seq<u8> {
        if self.bits.len() == 0 {
            uvarint_bytes(0)
        } else {
            uvarint_bytes(self.bits.len() as u32) + self.bits + uvarint_bytes(self.size as u32)
                + uvarint_bytes(self.hash_function_size)
        }
    }

    /// The bytes of the filter with every part written, also when there are no bytes.
    pub open spec fn serialized_with_length(self) -> Seq<u8> {
        uvarint_bytes(self.bits.len() as u32) + self.bits + uvarint_bytes(self.size as u32)
            + uvarint_bytes(self.hash_function_size)
    }
}

/// Bit `t` of a byte after setting bit `s`.
proof fn lemma_set_bit(x: u8, s: u8, t: u8)
    requires
        s < 8,
        t < 8,
    ensures
        ((x | (1u8 << s)) & (1u8 << t) != 0) <==> ((x & (1u8 << t)) != 0 || s == t),
{
    assert(s < 8 && t < 8 ==> (((x | (1u8 << s)) & (1u8 << t) != 0) <==> ((x & (1u8 << t))
        != 0 || s == t))) by (bit_vector);
}

/// A bloom filter.
#[derive(Debug, Clone)]
pub struct BloomFilter {
    bit_set: Vec<u8>,
    size: usize,
    hash_function_size: u32,
}

impl View for BloomFilter {
    type V = BloomFilterView;

    closed spec fn view(&self) -> BloomFilterView {
        BloomFilterView {
            bits: self.bit_set@,
            size: self.size,
            hash_function_size: self.hash_function_size,
        }
    }
}

impl BloomFilter {
    /// A filter of `size` bits, all clear, with `hash_function_size` hash functions.
    pub fn with_size(size: usize, hash_function_size: u32) -> (f: Self)
        requires
            size <= usize::MAX - 7,
        ensures
            f@.size == size,
            f@.hash_function_size == hash_function_size,
            f@.bits.len() == (size + 7) / 8,
            forall|j: int| 0 <= j < 8 * f@.bits.len() ==> !#[trigger] bit_set(f@.bits, j),
            f@.positions_fit(),
    {
        let byte_size = (size + 7) / 8;
        let bits = vec![0u8; byte_size];
        let f = BloomFilter { bit_set: bits, size, hash_function_size };
        proof {
            assert forall|j: int| 0 <= j < 8 * f@.bits.len() implies !#[trigger] bit_set(
                f@.bits,
                j,
            ) by {
                let t = (j % 8) as u8;
                assert(f.bit_set@[j / 8] == 0u8);
                assert(t < 8 ==> (0u8 & (1u8 << t)) == 0) by (bit_vector);
            }
        }
        f
    }

    /// A filter that tracks no paths.
    pub fn empty() -> (f: Self)
        ensures
            f@ == (BloomFilterView { bits: Seq::empty(), size: 0, hash_function_size: 0 }),
    {
        let f = BloomFilter { bit_set: Vec::new(), size: 0, hash_function_size: 0 };
        assert(f@.bits =~= Seq::<u8>::empty());
        f
    }

    /// Sets the bits that the hash functions give `path`.
    pub fn add(&mut self, path: &str)
        requires
            old(self)@.hash_function_size == 0 || (old(self)@.size > 0
                && old(self)@.positions_fit()),
        ensures
            old(self)@.added(path.spec_bytes(), final(self)@),
    {
        let bytes = path.as_bytes();
        let hash = Self::murmur_hash(bytes, 0);
        let hash2 = Self::murmur_hash(bytes, #[verifier::truncate] (hash as u32));
        let ghost p = path.spec_bytes();
        let ghost before = self.bit_set@;
        let mut i: u32 = 0;
        while i < self.hash_function_size
            invariant
                self.size == old(self)@.size,
                self.hash_function_size == old(self)@.hash_function_size,
                self.hash_function_size == 0 || (self.size > 0 && self.size <= 8
                    * self.bit_set@.len()),
                before == old(self)@.bits,
                self.bit_set@.len() == before.len(),
                hash == path_hash(p),
                hash2 == path_hash2(p),
                i <= self.hash_function_size,
                forall|j: int|
                    0 <= j < 8 * before.len() ==> (#[trigger] bit_set(self.bit_set@, j) <==> bit_set(
                        before,
                        j,
                    ) || is_position_of(p, i, self.size, j)),
            decreases self.hash_function_size - i,
        {
            let index = Self::index_of(hash, hash2, i, self.size);
            let byte_index = index / 8;
            let bit_index = (index % 8) as u8;
            let ghost prev = self.bit_set@;
            let old_byte = self.bit_set[byte_index];
            self.bit_set.set(byte_index, old_byte | (1u8 << bit_index));
            proof {
                assert(index == position(p, i, self.size));
                assert forall|j: int| 0 <= j < 8 * before.len() implies (#[trigger] bit_set(
                    self.bit_set@,
                    j,
                ) <==> bit_set(before, j) || is_position_of(p, (i + 1) as u32, self.size, j)) by {
                    lemma_set_bit(prev[j / 8], bit_index, (j % 8) as u8);
                    assert(bit_set(prev, j) <==> bit_set(before, j) || is_position_of(
                        p,
                        i,
                        self.size,
                        j,
                    ));
                    assert(j == index <==> (j / 8 == byte_index as int && (j % 8) as u8
                        == bit_index));
                    if j / 8 == byte_index as int {
                        assert(self.bit_set@[j / 8] == old_byte | (1u8 << bit_index));
                    } else {
                        assert(self.bit_set@[j / 8] == prev[j / 8]);
                    }
                    if is_position_of(p, (i + 1) as u32, self.size, j) {
                        let w = choose|w: u32| w < i + 1 && #[trigger] position(p, w, self.size) == j;
                        if w < i {
                            assert(is_position_of(p, i, self.size, j));
                        } else {
                            assert(j == index);
                        }
                    }
                    if is_position_of(p, i, self.size, j) {
                        let w = choose|w: u32| w < i && #[trigger] position(p, w, self.size) == j;
                        assert(is_position_of(p, (i + 1) as u32, self.size, j));
                    }
                    if j == index {
                        assert(is_position_of(p, (i + 1) as u32, self.size, j));
                    }
                }
            }
            i = i + 1;
        }
    }

    /// Whether `path` may have been added: false for a filter that tracks nothing, else
    /// whether every bit that the hash functions give `path` is set.
    pub fn contains(&self, path: &str) -> (r: bool)
        requires
            self@.is_empty() || self@.positions_fit(),
        ensures
            r == self@.may_contain(path.spec_bytes()),
    {
        if self.bit_set.len() == 0 || self.size == 0 || self.hash_function_size == 0 {
            return false;
        }
        let bytes = path.as_bytes();
        let hash = Self::murmur_hash(bytes, 0);
        let hash2 = Self::murmur_hash(bytes, #[verifier::truncate] (hash as u32));
        let ghost p = path.spec_bytes();
        let mut i: u32 = 0;
        while i < self.hash_function_size
            invariant
                p == path.spec_bytes(),
                !self@.is_empty(),
                self@.positions_fit(),
                hash == path_hash(p),
                hash2 == path_hash2(p),
                i <= self.hash_function_size,
                forall|w: u32| w < i ==> #[trigger] bit_set(self.bit_set@, position(p, w, self.size)),
            decreases self.hash_function_size - i,
        {
            let index = Self::index_of(hash, hash2, i, self.size);
            let byte_index = index / 8;
            let bit_index = (index % 8) as u8;
            if (self.bit_set[byte_index] & (1u8 << bit_index)) == 0 {
                assert(!bit_set(self@.bits, position(p, i, self@.size)));
                assert(!self@.may_contain(p));
                return false;
            }
            assert(bit_set(self.bit_set@, position(p, i, self.size)));
            i = i + 1;
        }
        true
    }

    /// Whether the filter tracks nothing.
    pub fn is_empty(&self) -> (r: bool)
        ensures
            r == self@.is_empty(),
    {
        self.bit_set.len() == 0 || self.size == 0 || self.hash_function_size == 0
    }

    fn index_of(hash: i64, hash2: i64, i: u32, size: usize) -> (index: usize)
        requires
            size > 0,
        ensures
            index < size,
            index == ((wrapping_abs_i64(
                i64_specs::wrapping_add(hash, i64_specs::wrapping_mul(i as i64, hash2)),
            ) as usize) % size),
    {
        let combined = hash.wrapping_add((i as i64).wrapping_mul(hash2));
        let abs = if combined == i64::MIN {
            combined
        } else if combined < 0 {
            -combined
        } else {
            combined
        };
        (abs as usize) % size
    }

    /// Appends the filter: the byte count, and when there are bytes, the bytes, the size
    /// and the number of hash functions. Counts beyond 32 bits are cut to their low 32 bits.
    pub fn serialize(&self, writer: &mut Vec<u8>) -> (r: TsFileResult<usize>)
        ensures
            final(writer)@ == old(writer)@ + self@.serialized(),
            r == Ok::<usize, TsFileError>(self@.serialized().len() as usize),
    {
        let start = writer.len();
        let _ = ReadWriteForEncodingUtils::write_unsigned_var_int_to_vec(
            self.bit_set.len() as u32,
            writer,
        );
        if self.bit_set.len() != 0 {
            Self::append(writer, &self.bit_set);
            let _ = ReadWriteForEncodingUtils::write_unsigned_var_int_to_vec(
                self.size as u32,
                writer,
            );
            let _ = ReadWriteForEncodingUtils::write_unsigned_var_int_to_vec(
                self.hash_function_size,
                writer,
            );
            proof {
                assert(writer@ =~= old(writer)@ + self@.serialized());
            }
        } else {
            assert((self.bit_set.len() as u32) == 0);
        }
        Ok(writer.len() - start)
    }

    /// Appends the byte count, the bytes, the size and the number of hash functions, also
    /// when there are no bytes. Counts beyond 32 bits are cut to their low 32 bits.
    pub fn serialize_with_self_description_length(&self, writer: &mut Vec<u8>) -> (r: TsFileResult<
        usize,
    >)
        ensures
            final(writer)@ == old(writer)@ + self@.serialized_with_length(),
            r == Ok::<usize, TsFileError>(self@.serialized_with_length().len() as usize),
    {
        let start = writer.len();
        let _ = ReadWriteForEncodingUtils::write_unsigned_var_int_to_vec(
            self.bit_set.len() as u32,
            writer,
        );
        Self::append(writer, &self.bit_set);
        let _ = ReadWriteForEncodingUtils::write_unsigned_var_int_to_vec(
            self.size as u32,
            writer,
        );
        let _ = ReadWriteForEncodingUtils::write_unsigned_var_int_to_vec(
            self.hash_function_size,
            writer,
        );
        proof {
            assert(writer@ =~= old(writer)@ + self@.serialized_with_length());
        }
        Ok(writer.len() - start)
    }

    fn append(writer: &mut Vec<u8>, data: &Vec<u8>)
        ensures
            final(writer)@ == old(writer)@ + data@,
    {
        let mut i: usize = 0;
        while i < data.len()
            invariant
                i <= data@.len(),
                writer@ == old(writer)@ + data@.take(i as int),
            decreases data@.len() - i,
        {
            writer.push(data[i]);
            i = i + 1;
            assert(writer@ =~= old(writer)@ + data@.take(i as int));
        }
        assert(data@.take(data@.len() as int) =~= data@);
    }

    /// Reads a filter written by `serialize`: a byte count of zero gives the empty
    /// filter; otherwise the bytes, the size and the number of hash functions follow.
    pub fn deserialize(reader: &mut ByteReader) -> (r: TsFileResult<Self>)
        ensures
            ({
                let s = old(reader).rest();
                match uvarint_decode(s) {
                    VarIntScan::Truncated => r matches Err(TsFileError::Io(_)),
                    VarIntScan::Overlong => r matches Err(TsFileError::DecodingError(_)),
                    VarIntScan::Decoded { value: n, len: a } => if n == 0 {
                        &&& r matches Ok(f) && f@ == (BloomFilterView {
                            bits: Seq::empty(),
                            size: 0,
                            hash_function_size: 0,
                        })
                        &&& final(reader).rest() == s.skip(a as int)
                    } else if s.len() - a < n {
                        r matches Err(TsFileError::Io(_))
                    } else {
                        let s2 = s.skip((a + n) as int);
                        match uvarint_decode(s2) {
                            VarIntScan::Truncated => r matches Err(TsFileError::Io(_)),
                            VarIntScan::Overlong => r matches Err(TsFileError::DecodingError(_)),
                            VarIntScan::Decoded { value: size, len: b } => {
                                let s3 = s2.skip(b as int);
                                match uvarint_decode(s3) {
                                    VarIntScan::Truncated => r matches Err(TsFileError::Io(_)),
                                    VarIntScan::Overlong => r matches Err(
                                        TsFileError::DecodingError(_),
                                    ),
                                    VarIntScan::Decoded { value: k, len: c } => {
                                        &&& r matches Ok(f) && f@ == (BloomFilterView {
                                            bits: s.subrange(a as int, a + n),
                                            size: size as usize,
                                            hash_function_size: k,
                                        })
                                        &&& final(reader).rest() == s3.skip(c as int)
                                    },
                                }
                            },
                        }
                    },
                }
            }),
    {
        let ghost s = reader.rest();
        proof {
            lemma_uvarint_scan_bounds(s, 0, 0);
        }
        let byte_len = ReadWriteForEncodingUtils::read_unsigned_var_int(reader)? as usize;
        if byte_len == 0 {
            return Ok(BloomFilter::empty());
        }
        let ghost s1 = reader.rest();
        let bit_set = reader.read_exact(byte_len)?;
        let ghost s2 = reader.rest();
        proof {
            if let VarIntScan::Decoded { value: n, len: a } = uvarint_decode(s) {
                assert(bit_set@ =~= s.subrange(a as int, a + n));
                assert(s2 =~= s.skip(a + n));
            }
            lemma_uvarint_scan_bounds(s2, 0, 0);
        }
        let size = ReadWriteForEncodingUtils::read_unsigned_var_int(reader)? as usize;
        let ghost s3 = reader.rest();
        proof {
            lemma_uvarint_scan_bounds(s3, 0, 0);
        }
        let hash_function_size = ReadWriteForEncodingUtils::read_unsigned_var_int(reader)?;
        Ok(BloomFilter { bit_set, size, hash_function_size })
    }

    fn rotl(x: u32, r: u32) -> (y: u32)
        requires
            0 < r < 32,
        ensures
            y == rotl32(x, r),
    {
        (x << r) | (x >> (32 - r))
    }

    fn scramble(k1: u32) -> (k: u32)
        ensures
            k == mix_k1(k1),
    {
        let k = k1.wrapping_mul(C1);
        let k = Self::rotl(k, 15);
        k.wrapping_mul(C2)
    }

    fn fmix(h: u32) -> (r: u32)
        ensures
            r == fmix32(h),
    {
        let mut h = h;
        h = h ^ (h >> 16u32);
        h = h.wrapping_mul(0x85ebca6bu32);
        h = h ^ (h >> 13u32);
        h = h.wrapping_mul(0xc2b2ae35u32);
        h = h ^ (h >> 16u32);
        h
    }

    /// The Murmur3 hash of `data` with `seed`, as the format computes it.
    fn murmur_hash(data: &[u8], seed: u32) -> (h: i64)
        ensures
            h == murmur_hash_spec(data@, seed),
    {
        let mut h1: u32 = seed;
        let mut h2: u32 = seed;
        let len = data.len();
        let nblocks = len / 4;
        let mut i: usize = 0;
        while i < nblocks
            invariant
                len == data@.len(),
                nblocks == len / 4,
                i <= nblocks,
                h1 == body_hash(data@, seed, i as int),
            decreases nblocks - i,
        {
            let k1 = (data[i * 4] as u32) | ((data[i * 4 + 1] as u32) << 8u32) | ((data[i * 4
                + 2] as u32) << 16u32) | ((data[i * 4 + 3] as u32) << 24u32);
            let k1 = Self::scramble(k1);
            h1 = h1 ^ k1;
            h1 = Self::rotl(h1, 13);
            h1 = h1.wrapping_mul(5).wrapping_add(0xe6546b64u32);
            i = i + 1;
        }
        let base = nblocks * 4;
        let t = len - base;
        let mut k1: u32 = 0;
        if t == 3 {
            k1 = k1 ^ ((data[base + 2] as u32) << 16u32);
            k1 = k1 ^ ((data[base + 1] as u32) << 8u32);
            k1 = k1 ^ (data[base] as u32);
            k1 = Self::scramble(k1);
            h1 = h1 ^ k1;
        } else if t == 2 {
            k1 = k1 ^ ((data[base + 1] as u32) << 8u32);
            k1 = k1 ^ (data[base] as u32);
            k1 = Self::scramble(k1);
            h1 = h1 ^ k1;
        } else if t == 1 {
            k1 = k1 ^ (data[base] as u32);
            k1 = Self::scramble(k1);
            h1 = h1 ^ k1;
        }
        h1 = h1 ^ (len as u32);
        h2 = h2 ^ (len as u32);
        h1 = h1.wrapping_add(h2);
        h2 = h2.wrapping_add(h1);
        h1 = Self::fmix(h1);
        h2 = Self::fmix(h2);
        h1 = h1.wrapping_add(h2);
        h2 = h2.wrapping_add(h1);
        proof {
            reveal(murmur_hash_spec);
        }
        (((h2 as u64) << 32u64) | (h1 as u64)) as i64
    }
}

/// A path added to a filter that can index its bits is reported as contained.
pub proof fn lemma_added_path_is_contained(before: BloomFilterView, after: BloomFilterView, path: Seq<u8>)
    requires
        !before.is_empty(),
        before.positions_fit(),
        before.added(path, after),
    ensures
        after.may_contain(path),
{
    assert forall|i: u32| i < after.hash_function_size implies #[trigger] bit_set(
        after.bits,
        position(path, i, after.size),
    ) by {
        let j = position(path, i, after.size);
        assert(0 <= j < before.size);
        assert(is_position_of(path, before.hash_function_size, before.size, j));
    }
}

/// Adding a path never removes another: what a filter may contain it still may contain
/// after any addition.
pub proof fn lemma_add_keeps_members(
    before: BloomFilterView,
    after: BloomFilterView,
    path: Seq<u8>,
    other: Seq<u8>,
)
    requires
        before.positions_fit(),
        before.added(path, after),
        before.may_contain(other),
    ensures
        after.may_contain(other),
{
    assert forall|i: u32| i < after.hash_function_size implies #[trigger] bit_set(
        after.bits,
        position(other, i, after.size),
    ) by {
        let j = position(other, i, after.size);
        assert(bit_set(before.bits, position(other, i, before.size)));
        assert(0 <= j < before.size);
    }
}

/// Reading back the bytes of a filter with at least one byte, whose counts fit in 32
/// bits, finds the same bits, size and number of hash functions, and leaves what follows.
pub proof fn lemma_serialize_roundtrip(f: BloomFilterView, rest: Seq<u8>)
    requires
        f.bits.len() > 0,
        f.bits.len() <= u32::MAX,
        f.size <= u32::MAX,
    ensures
        ({
            let s = f.serialized() + rest;
            let a = uvarint_bytes(f.bits.len() as u32).len();
            let n = f.bits.len();
            let s2 = s.skip((a + n) as int);
            let b = uvarint_bytes(f.size as u32).len();
            let s3 = s2.skip(b as int);
            let c = uvarint_bytes(f.hash_function_size).len();
            &&& uvarint_decode(s) == (VarIntScan::Decoded { value: n as u32, len: a })
            &&& s.len() - a >= n
            &&& s.subrange(a as int, (a + n) as int) == f.bits
            &&& uvarint_decode(s2) == (VarIntScan::Decoded { value: f.size as u32, len: b })
            &&& (f.size as u32) as usize == f.size
            &&& uvarint_decode(s3) == (VarIntScan::Decoded {
                value: f.hash_function_size,
                len: c,
            })
            &&& s3.skip(c as int) == rest
        }),
{
    let e1 = uvarint_bytes(f.bits.len() as u32);
    let e2 = uvarint_bytes(f.size as u32);
    let e3 = uvarint_bytes(f.hash_function_size);
    let s = f.serialized() + rest;
    assert(s =~= e1 + (f.bits + (e2 + (e3 + rest))));
    lemma_uvarint_roundtrip(f.bits.len() as u32, f.bits + (e2 + (e3 + rest)));
    assert(s.subrange(e1.len() as int, (e1.len() + f.bits.len()) as int) =~= f.bits);
    let s2 = s.skip((e1.len() + f.bits.len()) as int);
    assert(s2 =~= e2 + (e3 + rest));
    lemma_uvarint_roundtrip(f.size as u32, e3 + rest);
    let s3 = s2.skip(e2.len() as int);
    assert(s3 =~= e3 + rest);
    lemma_uvarint_roundtrip(f.hash_function_size, rest);
    assert(s3.skip(e3.len() as int) =~= rest);
}

} // verus!
