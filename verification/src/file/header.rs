//! Page and chunk headers.

use vstd::prelude::*;
use vstd::string::StringSliceAdditionalSpecFns;
use vstd::utf8::{decode_utf8, encode_utf8, valid_utf8};

use crate::common::enums::{CompressionType, TSDataType, TSEncoding};
use crate::error::{TsFileError, TsFileResult};
use crate::file::meta_marker::{CHUNK_HEADER, ONLY_ONE_PAGE_CHUNK_HEADER};
use crate::encoding::decoder::{DecodeFailure, Step};
use crate::file::statistics::{
    lemma_stats_roundtrip, lemma_stats_step_len, stats_bytes, stats_fit, stats_step, Statistics, StatisticsView,
};
use crate::utils::byte_reader::ByteReader;
use crate::utils::read_write_for_encoding::{
    lemma_uvarint_roundtrip, lemma_uvarint_scan_bounds, unzigzag, uvarint_bytes, uvarint_decode,
    ReadWriteForEncodingUtils, VarIntScan,
};
use crate::utils::read_write_io_utils::{var_length_prefixed, ReadWriteIOUtils};

verus! {

/// The bytes of a page header: both sizes as unsigned varints, then the statistics when
/// there are any.
pub open spec fn page_header_bytes(
    uncompressed_size: u32,
    compressed_size: u32,
    statistics: Option<StatisticsView>,
) -> Seq<u8> {
    uvarint_bytes(uncompressed_size) + uvarint_bytes(compressed_size) + match statistics {
        Some(s) => stats_bytes(s),
        None => Seq::empty(),
    }
}

/// The header of a page.
#[derive(Debug, Clone)]
pub struct PageHeader {
    /// The size of the page before compression.
    pub uncompressed_size: u32,
    /// The size of the page after compression.
    pub compressed_size: u32,
    /// The statistics of the page, absent for the only page of a chunk.
    pub statistics: Option<Statistics>,
}

impl PageHeader {
    /// A header for a page of the given sizes and statistics.
    pub fn new(uncompressed_size: u32, compressed_size: u32, statistics: Option<Statistics>) -> (h:
        Self)
        ensures
            h.uncompressed_size == uncompressed_size,
            h.compressed_size == compressed_size,
            h.statistics == statistics,
    {
        PageHeader { uncompressed_size, compressed_size, statistics }
    }

    /// The abstract statistics of the header.
    pub open spec fn statistics_view(&self) -> Option<StatisticsView> {
        match self.statistics {
            Some(s) => Some(s@),
            None => None,
        }
    }

    /// Appends the header.
    pub fn serialize(&self, out: &mut Vec<u8>) -> (r: TsFileResult<usize>)
        ensures
            final(out)@ == old(out)@ + page_header_bytes(
                self.uncompressed_size,
                self.compressed_size,
                self.statistics_view(),
            ),
            r == Ok::<usize, TsFileError>(
                page_header_bytes(
                    self.uncompressed_size,
                    self.compressed_size,
                    self.statistics_view(),
                ).len() as usize,
            ),
    {
        let start = out.len();
        let _ = ReadWriteForEncodingUtils::write_unsigned_var_int_to_vec(self.uncompressed_size, out);
        let _ = ReadWriteForEncodingUtils::write_unsigned_var_int_to_vec(self.compressed_size, out);
        match &self.statistics {
            Some(s) => {
                let _ = s.serialize(out);
            },
            None => {},
        }
        proof {
            assert(out@ =~= old(out)@ + page_header_bytes(
                self.uncompressed_size,
                self.compressed_size,
                self.statistics_view(),
            ));
        }
        Ok(out.len() - start)
    }
}

/// The page header at the front of `s`: the uncompressed and the compressed size as
/// unsigned varints, then, when `has_statistics`, the statistics of `data_type`.
pub open spec fn page_header_step(data_type: TSDataType, has_statistics: bool, s: Seq<u8>) -> Step<
    (u32, u32, Option<StatisticsView>),
> {
    match uvarint_decode(s) {
        VarIntScan::Decoded { value: u, len: l1 } => match uvarint_decode(s.skip(l1 as int)) {
            VarIntScan::Decoded { value: c, len: l2 } => if has_statistics {
                match stats_step(data_type, s.skip(l1 + l2 as int)) {
                    Step::Done { value: st, len: l3 } => Step::Done {
                        value: (u, c, Some(st)),
                        len: l1 + l2 + l3,
                    },
                    Step::Failed { failure } => Step::Failed { failure },
                }
            } else {
                Step::Done { value: (u, c, None), len: l1 + l2 }
            },
            VarIntScan::Truncated => Step::Failed { failure: DecodeFailure::Truncated },
            VarIntScan::Overlong => Step::Failed { failure: DecodeFailure::Malformed },
        },
        VarIntScan::Truncated => Step::Failed { failure: DecodeFailure::Truncated },
        VarIntScan::Overlong => Step::Failed { failure: DecodeFailure::Malformed },
    }
}

impl PageHeader {
    /// Reads a page header as `serialize` writes it, with statistics of `data_type` when
    /// `has_statistics`. A short input is an `Io` error, bytes no writer produces a
    /// `DecodingError`.
    pub fn deserialize(reader: &mut ByteReader, data_type: TSDataType, has_statistics: bool) -> (r:
        TsFileResult<PageHeader>)
        ensures
            match page_header_step(data_type, has_statistics, old(reader).rest()) {
                Step::Done { value: (u, c, st), len } => {
                    &&& r matches Ok(h) && h.uncompressed_size == u && h.compressed_size == c
                        && h.statistics_view() == st
                    &&& final(reader).rest() == old(reader).rest().skip(len as int)
                },
                Step::Failed { failure: DecodeFailure::Truncated } => r matches Err(TsFileError::Io(_)),
                Step::Failed { failure: DecodeFailure::Malformed } => r matches Err(
                    TsFileError::DecodingError(_),
                ),
            },
    {
        let ghost s = reader.rest();
        let uncompressed_size = ReadWriteForEncodingUtils::read_unsigned_var_int(reader)?;
        let ghost l1 = match uvarint_decode(s) {
            VarIntScan::Decoded { len, .. } => len,
            _ => 0,
        };
        let compressed_size = ReadWriteForEncodingUtils::read_unsigned_var_int(reader)?;
        let ghost l2 = match uvarint_decode(s.skip(l1 as int)) {
            VarIntScan::Decoded { len, .. } => len,
            _ => 0,
        };
        proof {
            lemma_uvarint_scan_bounds(s, 0, 0);
            lemma_uvarint_scan_bounds(s.skip(l1 as int), 0, 0);
            assert(s.skip(l1 as int).skip(l2 as int) =~= s.skip(l1 + l2 as int));
        }
        let statistics = if has_statistics {
            let st = Statistics::deserialize(reader, data_type)?;
            proof {
                lemma_stats_step_len(data_type, s.skip(l1 + l2 as int));
                if let Step::Done { len: l3, .. } = stats_step(data_type, s.skip(l1 + l2 as int)) {
                    assert(s.skip(l1 + l2 as int).skip(l3 as int) =~= s.skip(l1 + l2 + l3 as int));
                }
            }
            Some(st)
        } else {
            None
        };
        Ok(PageHeader { uncompressed_size, compressed_size, statistics })
    }
}

/// A page header read from `s` takes at least one byte and no more than there are.
pub proof fn lemma_page_header_step_len(data_type: TSDataType, has_statistics: bool, s: Seq<u8>)
    ensures
        page_header_step(data_type, has_statistics, s) matches Step::Done { len, .. } ==> 0 < len
            <= s.len(),
{
    lemma_uvarint_scan_bounds(s, 0, 0);
    if let VarIntScan::Decoded { len: l1, .. } = uvarint_decode(s) {
        lemma_uvarint_scan_bounds(s.skip(l1 as int), 0, 0);
        if let VarIntScan::Decoded { len: l2, .. } = uvarint_decode(s.skip(l1 as int)) {
            lemma_stats_step_len(data_type, s.skip(l1 + l2 as int));
        }
    }
}

/// A page header whose statistics, if any, fit reads back as its sizes and statistics,
/// and takes exactly its bytes.
pub proof fn lemma_page_header_roundtrip(
    data_type: TSDataType,
    uncompressed_size: u32,
    compressed_size: u32,
    statistics: Option<StatisticsView>,
    rest: Seq<u8>,
)
    requires
        statistics matches Some(st) ==> stats_fit(st) && st.data_type == data_type,
    ensures
        page_header_step(
            data_type,
            statistics is Some,
            page_header_bytes(uncompressed_size, compressed_size, statistics) + rest,
        ) == (Step::Done {
            value: (uncompressed_size, compressed_size, statistics),
            len: page_header_bytes(uncompressed_size, compressed_size, statistics).len(),
        }),
        (page_header_bytes(uncompressed_size, compressed_size, statistics) + rest).skip(
            page_header_bytes(uncompressed_size, compressed_size, statistics).len() as int,
        ) == rest,
{
    let a = uvarint_bytes(uncompressed_size);
    let b = uvarint_bytes(compressed_size);
    let t = match statistics {
        Some(st) => stats_bytes(st),
        None => Seq::empty(),
    };
    let s = page_header_bytes(uncompressed_size, compressed_size, statistics) + rest;
    assert(s =~= a + (b + (t + rest)));
    lemma_uvarint_roundtrip(uncompressed_size, b + (t + rest));
    assert(s.skip(a.len() as int) =~= b + (t + rest));
    lemma_uvarint_roundtrip(compressed_size, t + rest);
    assert(s.skip(a.len() + b.len() as int) =~= t + rest);
    if let Some(st) = statistics {
        lemma_stats_roundtrip(st, rest);
    }
    assert(s.skip((a.len() + b.len() + t.len()) as int) =~= rest);
}

/// The marker of a chunk of `num_of_pages` pages, with the bits of `mask` added: several
/// pages make `CHUNK_HEADER`, one or none `ONLY_ONE_PAGE_CHUNK_HEADER`.
pub open spec fn chunk_type_for(num_of_pages: u32, mask: u8) -> u8 {
    (if num_of_pages > 1 { CHUNK_HEADER } else { ONLY_ONE_PAGE_CHUNK_HEADER }) | mask
}

/// The bytes of a chunk header: the marker, the measurement name with its length as a
/// signed varint, the data size as an unsigned varint, and the codes of the data type,
/// the compression and the encoding.
pub open spec fn chunk_header_bytes(
    chunk_type: u8,
    measurement_id: Seq<char>,
    data_size: u32,
    data_type: TSDataType,
    compression_type: CompressionType,
    encoding_type: TSEncoding,
) -> Seq<u8> {
    seq![chunk_type] + var_length_prefixed(encode_utf8(measurement_id)) + uvarint_bytes(data_size)
        + seq![data_type.code(), compression_type.code(), encoding_type.code()]
}

/// The header of a chunk.
#[derive(Debug, Clone)]
pub struct ChunkHeader {
    /// The measurement the chunk belongs to.
    pub measurement_id: String,
    /// The number of bytes of the pages that follow.
    pub data_size: u32,
    /// The type of the values.
    pub data_type: TSDataType,
    /// The compression of the pages.
    pub compression_type: CompressionType,
    /// The encoding of the values.
    pub encoding_type: TSEncoding,
    /// The number of pages.
    pub num_of_pages: u32,
    /// The marker byte.
    pub chunk_type: u8,
}

impl ChunkHeader {
    /// A header for a chunk of `num_of_pages` pages.
    pub fn new(
        measurement_id: String,
        data_size: u32,
        data_type: TSDataType,
        compression_type: CompressionType,
        encoding_type: TSEncoding,
        num_of_pages: u32,
    ) -> (h: Self)
        ensures
            h.measurement_id@ == measurement_id@,
            h.data_size == data_size,
            h.data_type == data_type,
            h.compression_type == compression_type,
            h.encoding_type == encoding_type,
            h.num_of_pages == num_of_pages,
            h.chunk_type == chunk_type_for(num_of_pages, 0),
    {
        Self::new_with_mask(
            measurement_id,
            data_size,
            data_type,
            compression_type,
            encoding_type,
            num_of_pages,
            0,
        )
    }

    /// A header whose marker carries the bits of `mask` as well.
    pub fn new_with_mask(
        measurement_id: String,
        data_size: u32,
        data_type: TSDataType,
        compression_type: CompressionType,
        encoding_type: TSEncoding,
        num_of_pages: u32,
        mask: u8,
    ) -> (h: Self)
        ensures
            h.measurement_id@ == measurement_id@,
            h.data_size == data_size,
            h.data_type == data_type,
            h.compression_type == compression_type,
            h.encoding_type == encoding_type,
            h.num_of_pages == num_of_pages,
            h.chunk_type == chunk_type_for(num_of_pages, mask),
    {
        let base = if num_of_pages > 1 { CHUNK_HEADER } else { ONLY_ONE_PAGE_CHUNK_HEADER };
        ChunkHeader {
            measurement_id,
            data_size,
            data_type,
            compression_type,
            encoding_type,
            num_of_pages,
            chunk_type: base | mask,
        }
    }

    /// A copy of the header.
    pub fn duplicate(&self) -> (h: ChunkHeader)
        ensures
            h == *self,
    {
        ChunkHeader {
            measurement_id: self.measurement_id.clone(),
            data_size: self.data_size,
            data_type: self.data_type,
            compression_type: self.compression_type,
            encoding_type: self.encoding_type,
            num_of_pages: self.num_of_pages,
            chunk_type: self.chunk_type,
        }
    }

    /// The bytes of this header.
    pub open spec fn bytes(&self) -> Seq<u8> {
        chunk_header_bytes(
            self.chunk_type,
            self.measurement_id@,
            self.data_size,
            self.data_type,
            self.compression_type,
            self.encoding_type,
        )
    }

    /// Appends the header.
    pub fn serialize(&self, out: &mut Vec<u8>) -> (r: TsFileResult<usize>)
        ensures
            final(out)@ == old(out)@ + self.bytes(),
            r == Ok::<usize, TsFileError>(self.bytes().len() as usize),
    {
        let start = out.len();
        out.push(self.chunk_type);
        let _ = ReadWriteIOUtils::write_var_int_string(self.measurement_id.as_str(), out);
        let _ = ReadWriteForEncodingUtils::write_unsigned_var_int_to_vec(self.data_size, out);
        let _ = ReadWriteIOUtils::write_data_type(self.data_type, out);
        let _ = ReadWriteIOUtils::write_compression_type(self.compression_type, out);
        let _ = ReadWriteIOUtils::write_encoding(self.encoding_type, out);
        proof {
            assert(out@ =~= old(out)@ + self.bytes());
        }
        Ok(out.len() - start)
    }
}

/// Why a header or a section of a file does not read.
#[derive(Debug, Clone, Copy, PartialEq, Eq, Structural)]
pub enum ScanFailure {
    /// The bytes end inside it.
    Truncated,
    /// A varint runs past five bytes.
    Overlong,
    /// A negative length, or text that is not UTF-8.
    Invalid,
    /// An unknown type, compression or encoding code.
    BadCode,
    /// A byte that opens no known section.
    BadMarker { marker: u8 },
}

/// Whether `e` is the error that stands for `f`.
pub open spec fn reports(e: TsFileError, f: ScanFailure) -> bool {
    match f {
        ScanFailure::Truncated => e is Io,
        ScanFailure::Overlong => e is DecodingError,
        ScanFailure::Invalid => e is ReadError,
        ScanFailure::BadCode => e is InvalidFileFormat,
        ScanFailure::BadMarker { marker } => e == TsFileError::InvalidMarker(marker),
    }
}

/// What the front of a byte sequence reads as: `value`, made of the first `len` bytes,
/// or the reason it does not read.
pub enum Scan<T> {
    /// The value and the number of bytes it took.
    Done { value: T, len: nat },
    /// The reason.
    Failed { failure: ScanFailure },
}

/// The text at the front of `s`: its byte count as a signed varint, then that many bytes
/// of UTF-8.
pub open spec fn var_string_step(s: Seq<u8>) -> Scan<Seq<char>> {
    match uvarint_decode(s) {
        VarIntScan::Truncated => Scan::Failed { failure: ScanFailure::Truncated },
        VarIntScan::Overlong => Scan::Failed { failure: ScanFailure::Overlong },
        VarIntScan::Decoded { value, len: k } => {
            let n = unzigzag(value) as int;
            if n < 0 {
                Scan::Failed { failure: ScanFailure::Invalid }
            } else if s.len() - k < n {
                Scan::Failed { failure: ScanFailure::Truncated }
            } else if !valid_utf8(s.subrange(k as int, k + n)) {
                Scan::Failed { failure: ScanFailure::Invalid }
            } else {
                Scan::Done { value: decode_utf8(s.subrange(k as int, k + n)), len: (k + n) as nat }
            }
        },
    }
}

/// The abstract form of a chunk header.
pub struct ChunkHeaderView {
    /// The marker byte.
    pub chunk_type: u8,
    /// The measurement.
    pub measurement_id: Seq<char>,
    /// The number of bytes of the pages.
    pub data_size: u32,
    /// The type of the values.
    pub data_type: TSDataType,
    /// The compression of the pages.
    pub compression_type: CompressionType,
    /// The encoding of the values.
    pub encoding_type: TSEncoding,
}

/// The fields of a chunk header after its marker `chunk_type`, at the front of `s`: the
/// measurement as a varint-prefixed text, the data size as an unsigned varint, then the
/// codes of the data type, the compression and the encoding.
pub open spec fn chunk_header_step(chunk_type: u8, s: Seq<u8>) -> Scan<ChunkHeaderView> {
    match var_string_step(s) {
        Scan::Failed { failure } => Scan::Failed { failure },
        Scan::Done { value: id, len: l1 } => match uvarint_decode(s.skip(l1 as int)) {
            VarIntScan::Truncated => Scan::Failed { failure: ScanFailure::Truncated },
            VarIntScan::Overlong => Scan::Failed { failure: ScanFailure::Overlong },
            VarIntScan::Decoded { value: size, len: l2 } => {
                let c = s.skip(l1 + l2 as int);
                if c.len() < 1 {
                    Scan::Failed { failure: ScanFailure::Truncated }
                } else if TSDataType::from_code(c[0]) is None {
                    Scan::Failed { failure: ScanFailure::BadCode }
                } else if c.len() < 2 {
                    Scan::Failed { failure: ScanFailure::Truncated }
                } else if CompressionType::from_code(c[1]) is None {
                    Scan::Failed { failure: ScanFailure::BadCode }
                } else if c.len() < 3 {
                    Scan::Failed { failure: ScanFailure::Truncated }
                } else if TSEncoding::from_code(c[2]) is None {
                    Scan::Failed { failure: ScanFailure::BadCode }
                } else {
                    Scan::Done {
                        value: ChunkHeaderView {
                            chunk_type,
                            measurement_id: id,
                            data_size: size,
                            data_type: TSDataType::from_code(c[0])->0,
                            compression_type: CompressionType::from_code(c[1])->0,
                            encoding_type: TSEncoding::from_code(c[2])->0,
                        },
                        len: l1 + l2 + 3,
                    }
                }
            },
        },
    }
}

impl ChunkHeader {
    /// The abstract form of the header.
    pub open spec fn header_view(&self) -> ChunkHeaderView {
        ChunkHeaderView {
            chunk_type: self.chunk_type,
            measurement_id: self.measurement_id@,
            data_size: self.data_size,
            data_type: self.data_type,
            compression_type: self.compression_type,
            encoding_type: self.encoding_type,
        }
    }

    /// Reads the fields of a chunk header whose marker `chunk_type` was read before them.
    /// The number of pages is not stored, and reads as 0.
    pub fn deserialize(reader: &mut ByteReader, chunk_type: u8) -> (r: TsFileResult<ChunkHeader>)
        ensures
            match chunk_header_step(chunk_type, old(reader).rest()) {
                Scan::Done { value, len } => {
                    &&& r matches Ok(h) && h.header_view() == value && h.num_of_pages == 0
                    &&& final(reader).rest() == old(reader).rest().skip(len as int)
                },
                Scan::Failed { failure } => r matches Err(e) && reports(e, failure),
            },
    {
        let ghost s = reader.rest();
        let measurement_id = ReadWriteIOUtils::read_var_int_string(reader)?;
        let ghost l1 = var_string_step(s)->len;
        proof {
            crate::utils::read_write_for_encoding::lemma_uvarint_scan_bounds(s, 0, 0);
        }
        let ghost t = reader.rest();
        let data_size = ReadWriteForEncodingUtils::read_unsigned_var_int(reader)?;
        let ghost l2 = match uvarint_decode(t) {
            VarIntScan::Decoded { len, .. } => len,
            _ => 0,
        };
        proof {
            lemma_uvarint_scan_bounds(t, 0, 0);
            assert(t == s.skip(l1 as int));
            assert(s.skip(l1 as int).skip(l2 as int) =~= s.skip(l1 + l2 as int));
        }
        let ghost c = reader.rest();
        let data_type = ReadWriteIOUtils::read_data_type(reader)?;
        let compression_type = ReadWriteIOUtils::read_compression_type(reader)?;
        let encoding_type = ReadWriteIOUtils::read_encoding(reader)?;
        proof {
            assert(c.drop_first().drop_first().drop_first() =~= c.skip(3));
            assert(s.skip(l1 + l2 as int).skip(3) =~= s.skip(l1 + l2 + 3int));
        }
        Ok(
            ChunkHeader {
                measurement_id,
                data_size,
                data_type,
                compression_type,
                encoding_type,
                num_of_pages: 0,
                chunk_type,
            },
        )
    }
}

/// A chunk header reads back, after its marker, as the fields written, and takes exactly
/// its bytes.
pub proof fn lemma_chunk_header_roundtrip(
    chunk_type: u8,
    measurement_id: Seq<char>,
    data_size: u32,
    data_type: TSDataType,
    compression_type: CompressionType,
    encoding_type: TSEncoding,
    rest: Seq<u8>,
)
    requires
        encode_utf8(measurement_id).len() <= i32::MAX,
    ensures
        ({
            let b = chunk_header_bytes(
                chunk_type,
                measurement_id,
                data_size,
                data_type,
                compression_type,
                encoding_type,
            );
            &&& (b + rest)[0] == chunk_type
            &&& chunk_header_step(chunk_type, (b + rest).skip(1)) == (Scan::Done {
                value: ChunkHeaderView {
                    chunk_type,
                    measurement_id,
                    data_size,
                    data_type,
                    compression_type,
                    encoding_type,
                },
                len: (b.len() - 1) as nat,
            })
            &&& (b + rest).skip(b.len() as int) == rest
        }),
{
    let bytes = encode_utf8(measurement_id);
    let p = var_length_prefixed(bytes);
    let u = uvarint_bytes(data_size);
    let codes = seq![data_type.code(), compression_type.code(), encoding_type.code()];
    let b = chunk_header_bytes(chunk_type, measurement_id, data_size, data_type, compression_type, encoding_type);
    let s = (b + rest).skip(1);
    assert(s =~= p + (u + (codes + rest)));
    crate::utils::read_write_for_encoding::lemma_varint_roundtrip(bytes.len() as i32, bytes + (u + (codes + rest)));
    assert(p =~= crate::utils::read_write_for_encoding::varint_bytes(bytes.len() as i32) + bytes);
    let k = crate::utils::read_write_for_encoding::varint_bytes(bytes.len() as i32).len();
    assert(s =~= crate::utils::read_write_for_encoding::varint_bytes(bytes.len() as i32) + (bytes + (u + (codes + rest))));
    assert(s.subrange(k as int, k + bytes.len() as int) =~= bytes);
    vstd::utf8::encode_utf8_valid_utf8(measurement_id);
    vstd::utf8::encode_utf8_decode_utf8(measurement_id);
    assert(s.skip(p.len() as int) =~= u + (codes + rest));
    lemma_uvarint_roundtrip(data_size, codes + rest);
    assert(s.skip(p.len() + u.len() as int) =~= codes + rest);
    crate::common::enums::lemma_data_type_code_roundtrip(data_type);
    crate::common::enums::lemma_compression_type_code_roundtrip(compression_type);
    crate::common::enums::lemma_encoding_code_roundtrip(encoding_type);
    assert((b + rest).skip(b.len() as int) =~= rest);
}

/// A text or a chunk header read from `s` takes no more bytes than there are.
pub proof fn lemma_scan_lens(chunk_type: u8, s: Seq<u8>)
    ensures
        var_string_step(s) matches Scan::Done { len, .. } ==> len <= s.len(),
        chunk_header_step(chunk_type, s) matches Scan::Done { len, .. } ==> len <= s.len(),
{
    lemma_uvarint_scan_bounds(s, 0, 0);
    if let Scan::Done { len: l1, .. } = var_string_step(s) {
        lemma_uvarint_scan_bounds(s.skip(l1 as int), 0, 0);
    }
}

} // verus!