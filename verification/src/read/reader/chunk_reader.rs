//! The reader of one chunk.

use vstd::prelude::*;

use crate::common::enums::{CompressionType, TSDataType, TSEncoding};
use crate::compress::{create_decompressor, Decompressor};
use crate::encoding::decoder::{column_supported, int64_views, DecodeFailure, Step};
use crate::encoding::encoder::{kind_for, EncodableValue, ValueView};
use crate::encoding::ts2diff::ts2diff_bytes;
use crate::error::{TsFileError, TsFileResult};
use crate::file::header::{
    lemma_page_header_roundtrip, page_header_bytes, page_header_step, ChunkHeader,
    PageHeader,
};
use crate::file::meta_marker::CHUNK_HEADER;
use crate::read::reader::page_reader::{
    column_value_of, lemma_page_roundtrip, page_points, point_views, zip_points, PageReader,
};
use crate::utils::byte_reader::{copy_range, ByteReader};
use crate::utils::read_write_io_utils::ReadWriteIOUtils;
use crate::write::chunk::page_writer::page_bytes;

verus! {

/// Why the pages of a chunk do not read.
#[derive(Debug, Clone, Copy, PartialEq, Eq, Structural)]
pub enum ReadFailure {
    /// The bytes end inside a header or a page.
    Truncated,
    /// The bytes hold something that no writer produces.
    Malformed,
    /// A compression, or a type and encoding of values, that this library does not read.
    Unsupported,
}

/// The reason of a failed decoding as a failed read.
pub open spec fn read_failure(f: DecodeFailure) -> ReadFailure {
    match f {
        DecodeFailure::Truncated => ReadFailure::Truncated,
        DecodeFailure::Malformed => ReadFailure::Malformed,
    }
}

/// `prefix` put before the points of `r`, or the failure of `r`.
pub open spec fn prepend_points(
    prefix: Seq<(i64, ValueView)>,
    r: Result<Seq<(i64, ValueView)>, ReadFailure>,
) -> Result<Seq<(i64, ValueView)>, ReadFailure> {
    match r {
        Ok(rest) => Ok(prefix + rest),
        Err(e) => Err(e),
    }
}

/// Whether the page headers of a chunk with the marker `chunk_type` carry statistics:
/// exactly when the marker, without its two top bits, is that of a chunk of several
/// pages.
pub open spec fn has_page_statistics(chunk_type: u8) -> bool {
    chunk_type & 0x3Fu8 == CHUNK_HEADER
}

/// What reading the page at the front of a chunk's bytes gives: its points and the
/// number of bytes it took, or why it does not read.
pub enum PageRead {
    /// The points of the page, which took `len` bytes.
    Points { points: Seq<(i64, ValueView)>, len: nat },
    /// The page does not read.
    Failed { failure: ReadFailure },
}

/// The page at the front of `s`: a page header (with statistics of `data_type` when
/// `has_statistics`), then the page's stored bytes. A page whose uncompressed size is 0
/// stands for no point and takes only its header. The stored bytes are restored with
/// `compression`, of which only `Uncompressed` is read, and must then have the
/// uncompressed size.
#[verifier::opaque]
pub open spec fn next_page(
    data_type: TSDataType,
    encoding: TSEncoding,
    compression: CompressionType,
    has_statistics: bool,
    s: Seq<u8>,
) -> PageRead {
    match page_header_step(data_type, has_statistics, s) {
        Step::Failed { failure } => PageRead::Failed { failure: read_failure(failure) },
        Step::Done { value: (u, c, _), len } => {
            let r = s.skip(len as int);
            if u == 0 {
                PageRead::Points { points: Seq::empty(), len }
            } else if r.len() < c {
                PageRead::Failed { failure: ReadFailure::Truncated }
            } else if compression != CompressionType::Uncompressed {
                PageRead::Failed { failure: ReadFailure::Unsupported }
            } else if c != u {
                PageRead::Failed { failure: ReadFailure::Malformed }
            } else if !column_supported(data_type, encoding) {
                PageRead::Failed { failure: ReadFailure::Unsupported }
            } else {
                match page_points(data_type, encoding, r.take(c as int)) {
                    Err(f) => PageRead::Failed { failure: read_failure(f) },
                    Ok(ps) => PageRead::Points { points: ps, len: (len + c) as nat },
                }
            }
        },
    }
}

/// The points of the pages that fill `s`, one page after the other.
pub open spec fn chunk_points(
    data_type: TSDataType,
    encoding: TSEncoding,
    compression: CompressionType,
    has_statistics: bool,
    s: Seq<u8>,
) -> Result<Seq<(i64, ValueView)>, ReadFailure>
    decreases s.len(),
{
    if s.len() == 0 {
        Ok(Seq::empty())
    } else {
        match next_page(data_type, encoding, compression, has_statistics, s) {
            PageRead::Failed { failure } => Err(failure),
            PageRead::Points { points, len } => if 0 < len <= s.len() {
                prepend_points(
                    points,
                    chunk_points(data_type, encoding, compression, has_statistics, s.skip(len as int)),
                )
            } else {
                Err(ReadFailure::Malformed)
            },
        }
    }
}

/// Reads the page at the front of `reader`.
fn read_next_page(
    reader: &mut ByteReader,
    data_type: TSDataType,
    encoding: TSEncoding,
    decompressor: &Decompressor,
    has_statistics: bool,
) -> (r: TsFileResult<Vec<(i64, EncodableValue)>>)
    ensures
        match next_page(data_type, encoding, decompressor.compression_type(), has_statistics, old(reader).rest()) {
            PageRead::Points { points, len } => {
                &&& r matches Ok(v) && point_views(v@) == points
                &&& final(reader).rest() == old(reader).rest().skip(len as int)
            },
            PageRead::Failed { failure: ReadFailure::Truncated } => r matches Err(TsFileError::Io(_)),
            PageRead::Failed { failure: ReadFailure::Malformed } => r matches Err(
                TsFileError::DecodingError(_),
            ),
            PageRead::Failed { failure: ReadFailure::Unsupported } => r matches Err(
                TsFileError::Unsupported(_),
            ),
        },
{
    proof {
        reveal(next_page);
    }
    let ghost before = reader.rest();
    let header = PageHeader::deserialize(reader, data_type, has_statistics)?;
    let ghost after_header = reader.rest();
    if header.uncompressed_size == 0 {
        let none: Vec<(i64, EncodableValue)> = Vec::new();
        proof {
            assert(point_views(none@) =~= Seq::<(i64, ValueView)>::empty());
        }
        return Ok(none);
    }
    let compressed = ReadWriteIOUtils::read_bytes(reader, header.compressed_size as usize)?;
    let page_data = decompressor.decompress(compressed.as_slice(), header.uncompressed_size as usize)?;
    let page = PageReader::new(data_type, encoding, page_data);
    let points = page.read_all()?;
    proof {
        crate::file::header::lemma_page_header_step_len(data_type, has_statistics, before);
        let l = page_header_step(data_type, has_statistics, before)->len;
        assert(after_header == before.skip(l as int));
        assert(after_header.skip(header.compressed_size as int) =~= before.skip(
            l + header.compressed_size as int,
        ));
    }
    Ok(points)
}

/// A page read from `s` takes at least one byte and no more than there are.
proof fn lemma_next_page_len(
    data_type: TSDataType,
    encoding: TSEncoding,
    compression: CompressionType,
    has_statistics: bool,
    s: Seq<u8>,
)
    ensures
        next_page(data_type, encoding, compression, has_statistics, s) matches PageRead::Points {
            len,
            ..
        } ==> 0 < len <= s.len(),
{
    reveal(next_page);
    crate::file::header::lemma_page_header_step_len(data_type, has_statistics, s);
}

/// A chunk's header and the bytes of its pages, to be read page by page.
#[derive(Debug, Clone)]
pub struct ChunkReader {
    header: ChunkHeader,
    chunk_data: Vec<u8>,
}

impl ChunkReader {
    /// The header of the chunk.
    pub closed spec fn chunk_header(&self) -> ChunkHeader {
        self.header
    }

    /// The bytes of the pages.
    pub closed spec fn data(&self) -> Seq<u8> {
        self.chunk_data@
    }

    /// A reader of the chunk with `header` whose pages are `chunk_data`.
    pub fn new(header: ChunkHeader, chunk_data: Vec<u8>) -> (r: Self)
        ensures
            r.chunk_header() == header,
            r.data() == chunk_data@,
    {
        ChunkReader { header, chunk_data }
    }

    /// The points of all pages of the chunk, in order. A short input is an `Io` error,
    /// bytes that no writer produces a `DecodingError`, and a compression or a type and
    /// encoding of values that cannot be read `Unsupported`.
    pub fn read_all(&self) -> (r: TsFileResult<Vec<(i64, EncodableValue)>>)
        ensures
            match chunk_points(
                self.chunk_header().data_type,
                self.chunk_header().encoding_type,
                self.chunk_header().compression_type,
                has_page_statistics(self.chunk_header().chunk_type),
                self.data(),
            ) {
                Ok(ps) => r matches Ok(v) && point_views(v@) == ps,
                Err(ReadFailure::Truncated) => r matches Err(TsFileError::Io(_)),
                Err(ReadFailure::Malformed) => r matches Err(TsFileError::DecodingError(_)),
                Err(ReadFailure::Unsupported) => r matches Err(TsFileError::Unsupported(_)),
            },
    {
        let data_type = self.header.data_type;
        let encoding = self.header.encoding_type;
        let compression = self.header.compression_type;
        let has_statistics = (self.header.chunk_type & 0x3Fu8) == CHUNK_HEADER;
        let decompressor = create_decompressor(compression);
        let ghost s = self.chunk_data@;
        let mut reader = ByteReader::new(copy_range(self.chunk_data.as_slice(), 0, self.chunk_data.len()));
        proof {
            assert(reader.rest() =~= s);
        }
        let mut results: Vec<(i64, EncodableValue)> = Vec::new();
        while reader.remaining() > 0
            invariant
                s == self.chunk_data@,
                data_type == self.header.data_type,
                encoding == self.header.encoding_type,
                compression == self.header.compression_type,
                decompressor.compression_type() == compression,
                has_statistics == has_page_statistics(self.header.chunk_type),
                chunk_points(data_type, encoding, compression, has_statistics, s) == prepend_points(
                    point_views(results@),
                    chunk_points(data_type, encoding, compression, has_statistics, reader.rest()),
                ),
            decreases reader.rest().len(),
        {
            let ghost before = reader.rest();
            proof {
                lemma_next_page_len(data_type, encoding, compression, has_statistics, before);
            }
            let mut points = match read_next_page(
                &mut reader,
                data_type,
                encoding,
                &decompressor,
                has_statistics,
            ) {
                Ok(p) => p,
                Err(e) => {
                    return Err(e);
                },
            };
            let ghost done = results@;
            let ghost got = points@;
            results.append(&mut points);
            proof {
                assert(point_views(results@) =~= point_views(done) + point_views(got));
                match chunk_points(data_type, encoding, compression, has_statistics, reader.rest()) {
                    Ok(tail) => {
                        assert(point_views(done) + (point_views(got) + tail) =~= point_views(
                            results@,
                        ) + tail);
                    },
                    Err(_) => {},
                }
            }
        }
        proof {
            assert(point_views(results@) + Seq::<(i64, ValueView)>::empty() =~= point_views(
                results@,
            ));
        }
        Ok(results)
    }
}

/// Whether `times` and `values` make a page that reads back: a type and encoding that
/// can be decoded, one value of the column's kind per time, and a time column whose
/// length fits its 32-bit prefix.
pub open spec fn page_fits(
    data_type: TSDataType,
    encoding: TSEncoding,
    times: Seq<i64>,
    values: Seq<ValueView>,
) -> bool {
    &&& column_supported(data_type, encoding)
    &&& times.len() == values.len()
    &&& forall|i: int| 0 <= i < values.len() ==> column_value_of(data_type, encoding, #[trigger] values[i])
    &&& ts2diff_bytes(times).len() <= i32::MAX
}

/// The bytes of an uncompressed page of `times` and `values` with its header.
pub open spec fn stored_page(
    data_type: TSDataType,
    encoding: TSEncoding,
    times: Seq<i64>,
    values: Seq<ValueView>,
    statistics: Option<crate::file::statistics::StatisticsView>,
) -> Seq<u8> {
    let page = page_bytes(int64_views(times), kind_for(data_type, encoding), values);
    page_header_bytes(page.len() as u32, page.len() as u32, statistics) + page
}

/// An uncompressed page stored with its header reads as its points and takes exactly
/// its bytes.
proof fn lemma_next_page_stored(
    data_type: TSDataType,
    encoding: TSEncoding,
    has_statistics: bool,
    times: Seq<i64>,
    values: Seq<ValueView>,
    statistics: Option<crate::file::statistics::StatisticsView>,
    rest: Seq<u8>,
)
    requires
        page_fits(data_type, encoding, times, values),
        page_bytes(int64_views(times), kind_for(data_type, encoding), values).len() <= u32::MAX,
        (statistics is Some) == has_statistics,
        statistics matches Some(st) ==> crate::file::statistics::stats_fit(st) && st.data_type
            == data_type,
    ensures
        next_page(
            data_type,
            encoding,
            CompressionType::Uncompressed,
            has_statistics,
            stored_page(data_type, encoding, times, values, statistics) + rest,
        ) == (PageRead::Points {
            points: zip_points(times, values),
            len: stored_page(data_type, encoding, times, values, statistics).len(),
        }),
        (stored_page(data_type, encoding, times, values, statistics) + rest).skip(
            stored_page(data_type, encoding, times, values, statistics).len() as int,
        ) == rest,
{
    reveal(next_page);
    let page = page_bytes(int64_views(times), kind_for(data_type, encoding), values);
    let n = page.len() as u32;
    let h = page_header_bytes(n, n, statistics);
    let s = stored_page(data_type, encoding, times, values, statistics) + rest;
    assert(s =~= h + (page + rest));
    lemma_page_header_roundtrip(data_type, n, n, statistics, page + rest);
    assert(page.len() >= 4);
    let r = s.skip(h.len() as int);
    assert(r == page + rest);
    assert(r.take(n as int) =~= page);
    lemma_page_roundtrip(data_type, encoding, times, values);
    assert(s.skip(h.len() + n as int) =~= rest);
}

/// A chunk reads page by page: an uncompressed page stored with its header, statistics
/// present exactly when the chunk's pages carry them, reads back as its points, each
/// time with its value, followed by what the rest of the chunk reads.
pub proof fn lemma_chunk_page_roundtrip(
    data_type: TSDataType,
    encoding: TSEncoding,
    has_statistics: bool,
    times: Seq<i64>,
    values: Seq<ValueView>,
    statistics: Option<crate::file::statistics::StatisticsView>,
    rest: Seq<u8>,
)
    requires
        page_fits(data_type, encoding, times, values),
        page_bytes(int64_views(times), kind_for(data_type, encoding), values).len() <= u32::MAX,
        (statistics is Some) == has_statistics,
        statistics matches Some(st) ==> crate::file::statistics::stats_fit(st) && st.data_type
            == data_type,
    ensures
        chunk_points(
            data_type,
            encoding,
            CompressionType::Uncompressed,
            has_statistics,
            stored_page(data_type, encoding, times, values, statistics) + rest,
        ) == prepend_points(
            zip_points(times, values),
            chunk_points(data_type, encoding, CompressionType::Uncompressed, has_statistics, rest),
        ),
{
    let stored = stored_page(data_type, encoding, times, values, statistics);
    lemma_next_page_stored(data_type, encoding, has_statistics, times, values, statistics, rest);
    let s = stored + rest;
    assert(stored.len() > 0) by {
        let page = page_bytes(int64_views(times), kind_for(data_type, encoding), values);
        assert(page.len() >= 4);
    }
    assert(s.len() > 0);
}

/// A chunk of one uncompressed page, whose header carries no statistics as for the only
/// page of a chunk, reads back as the page's points.
pub proof fn lemma_single_page_chunk_roundtrip(
    data_type: TSDataType,
    encoding: TSEncoding,
    times: Seq<i64>,
    values: Seq<ValueView>,
)
    requires
        page_fits(data_type, encoding, times, values),
        page_bytes(int64_views(times), kind_for(data_type, encoding), values).len() <= u32::MAX,
    ensures
        chunk_points(
            data_type,
            encoding,
            CompressionType::Uncompressed,
            false,
            stored_page(data_type, encoding, times, values, None),
        ) == Ok::<Seq<(i64, ValueView)>, ReadFailure>(zip_points(times, values)),
{
    let stored = stored_page(data_type, encoding, times, values, None);
    lemma_chunk_page_roundtrip(data_type, encoding, false, times, values, None, Seq::empty());
    assert(stored + Seq::<u8>::empty() =~= stored);
    assert(zip_points(times, values) + Seq::<(i64, ValueView)>::empty() =~= zip_points(times, values));
}

} // verus!
