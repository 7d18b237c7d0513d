//! Writes the pages of one series into a chunk.

use vstd::prelude::*;

use crate::common::enums::{CompressionType, TSDataType, TSEncoding};
use crate::compress::{create_compressor, Compressor};
use crate::encoding::encoder::{accepts, emitted_for, kind_for, EncoderKind, ValueView};
use crate::error::{TsFileError, TsFileResult};
use crate::file::header::{chunk_header_bytes, chunk_type_for, page_header_bytes, ChunkHeader, PageHeader};
use crate::file::statistics::{initial_stats, merged, updated, Statistics, StatisticsView};
use crate::utils::read_write_io_utils::Binary;
use crate::write::chunk::page_writer::{append_bytes, page_bytes, PageWriter};

verus! {

/// The most points a page holds.
pub const MAX_POINTS_PER_PAGE: usize = 1_000_000;

/// The number of encoded bytes at which a page is finished.
pub const PAGE_SIZE_THRESHOLD: usize = 65536;

/// A finished page: its times, its values and its statistics.
pub struct WrittenPage {
    /// The times of the page.
    pub times: Seq<ValueView>,
    /// The values of the page.
    pub values: Seq<ValueView>,
    /// The statistics of the page.
    pub stats: StatisticsView,
}

/// One finished page as stored: its header, with the page's statistics when the chunk
/// has several pages, then the page.
pub open spec fn stored_page_bytes(p: WrittenPage, kind: EncoderKind, multi: bool) -> Seq<u8> {
    let page = page_bytes(p.times, kind, p.values);
    page_header_bytes(page.len() as u32, page.len() as u32, if multi { Some(p.stats) } else { None })
        + page
}

/// The finished pages as stored, one after the other; their headers carry statistics
/// exactly when `multi`.
pub open spec fn stored_pages(list: Seq<WrittenPage>, kind: EncoderKind, multi: bool) -> Seq<u8>
    decreases list.len(),
{
    if list.len() == 0 {
        Seq::empty()
    } else {
        stored_page_bytes(list[0], kind, multi) + stored_pages(list.drop_first(), kind, multi)
    }
}

/// Storing one more page appends it to what the pages before it store.
pub proof fn lemma_stored_pages_push(list: Seq<WrittenPage>, p: WrittenPage, kind: EncoderKind, multi: bool)
    ensures
        stored_pages(list.push(p), kind, multi) == stored_pages(list, kind, multi) + stored_page_bytes(
            p,
            kind,
            multi,
        ),
    decreases list.len(),
{
    if list.len() == 0 {
        assert(list.push(p).drop_first() =~= Seq::<WrittenPage>::empty());
        assert(stored_pages(list.push(p).drop_first(), kind, multi) == Seq::<u8>::empty());
        assert(stored_pages(list.push(p), kind, multi) =~= stored_pages(list, kind, multi)
            + stored_page_bytes(p, kind, multi));
    } else {
        assert(list.push(p).drop_first() =~= list.drop_first().push(p));
        lemma_stored_pages_push(list.drop_first(), p, kind, multi);
        assert(stored_pages(list.push(p), kind, multi) =~= stored_pages(list, kind, multi)
            + stored_page_bytes(p, kind, multi));
    }
}

/// The abstract state of a chunk writer.
pub struct ChunkState {
    /// The bytes of the finished pages, each a page header and the page: the pages of
    /// `page_list` as stored, with statistics in every header once there are several.
    pub pages: Seq<u8>,
    /// The finished pages.
    pub page_list: Seq<WrittenPage>,
    /// The number of finished pages.
    pub num_pages: u32,
    /// The statistics of the finished pages.
    pub chunk_stats: StatisticsView,
    /// The times of the page being written.
    pub times: Seq<ValueView>,
    /// The values of the page being written.
    pub values: Seq<ValueView>,
    /// The statistics of the page being written.
    pub page_stats: StatisticsView,
    /// The number of points of the page being written.
    pub points: usize,
}

/// A chunk of values of `data_type` with no page and no point.
pub open spec fn empty_chunk(data_type: TSDataType) -> ChunkState {
    ChunkState {
        pages: Seq::empty(),
        page_list: Seq::empty(),
        num_pages: 0,
        chunk_stats: initial_stats(data_type),
        times: Seq::empty(),
        values: Seq::empty(),
        page_stats: initial_stats(data_type),
        points: 0,
    }
}

/// Whether `s` holds data: finished pages, or points of the page being written.
pub open spec fn holds_data(s: ChunkState) -> bool {
    s.pages.len() > 0 || s.points > 0
}

/// `s` with an empty page being written.
pub open spec fn with_empty_page(s: ChunkState) -> ChunkState {
    ChunkState {
        times: Seq::empty(),
        values: Seq::empty(),
        page_stats: initial_stats(s.page_stats.data_type),
        points: 0,
        ..s
    }
}

/// Whether finishing the page of `s` succeeds: nothing to finish, or no compression.
pub open spec fn flush_succeeds(s: ChunkState, compression: CompressionType) -> bool {
    s.points == 0 || compression == CompressionType::Uncompressed
}

/// `s` after finishing its page: the page joins the finished pages. A lone page is
/// stored with a header without statistics; once there are several, every page's header,
/// the first page's included, carries its statistics, so finishing the second page
/// rewrites the first page's header. With a compression that is not provided, the page
/// is dropped and the error reported.
pub open spec fn flushed(s: ChunkState, kind: EncoderKind, compression: CompressionType) -> ChunkState {
    if s.points == 0 {
        s
    } else if compression == CompressionType::Uncompressed {
        let list = s.page_list.push(WrittenPage { times: s.times, values: s.values, stats: s.page_stats });
        with_empty_page(
            ChunkState {
                pages: stored_pages(list, kind, list.len() > 1),
                page_list: list,
                num_pages: (s.num_pages + 1) as u32,
                chunk_stats: merged(s.chunk_stats, s.page_stats),
                ..s
            },
        )
    } else {
        with_empty_page(s)
    }
}

/// `s` after a point whose value the page takes.
pub open spec fn with_point(s: ChunkState, t: i64, v: ValueView) -> ChunkState {
    ChunkState {
        times: s.times.push(ValueView::Int64(t)),
        values: s.values.push(v),
        page_stats: updated(s.page_stats, t, v),
        points: (s.points + 1) as usize,
        ..s
    }
}

/// `s` after a point whose value the page refuses: only the time was encoded.
pub open spec fn with_refused_point(s: ChunkState, t: i64) -> ChunkState {
    ChunkState { times: s.times.push(ValueView::Int64(t)), ..s }
}

/// Whether the page of `s` is to be finished: full, or past the size threshold.
pub open spec fn page_due(s: ChunkState, kind: EncoderKind, capacity: usize, threshold: usize) -> bool {
    ||| s.points >= capacity
    ||| emitted_for(EncoderKind::Ts2diffLong, s.times).len() + emitted_for(kind, s.values).len()
        >= threshold
}

/// `s` after writing the point `(t, v)`: a refused value leaves only its time; an
/// accepted one joins the page, which is then finished if due.
pub open spec fn after_write(
    s: ChunkState,
    t: i64,
    v: ValueView,
    kind: EncoderKind,
    capacity: usize,
    threshold: usize,
    compression: CompressionType,
) -> ChunkState {
    if accepts(kind, v) {
        let m = with_point(s, t, v);
        if page_due(m, kind, capacity, threshold) {
            flushed(m, kind, compression)
        } else {
            m
        }
    } else {
        with_refused_point(s, t)
    }
}

/// Whether writing the point `(t, v)` succeeds: the value is taken, and finishing the
/// page, if due, succeeds.
pub open spec fn write_succeeds(
    s: ChunkState,
    t: i64,
    v: ValueView,
    kind: EncoderKind,
    capacity: usize,
    threshold: usize,
    compression: CompressionType,
) -> bool {
    let m = with_point(s, t, v);
    accepts(kind, v) && (!page_due(m, kind, capacity, threshold) || flush_succeeds(m, compression))
}

/// Stored finished pages take at least one byte once there is a page.
pub proof fn lemma_stored_pages_nonempty(list: Seq<WrittenPage>, kind: EncoderKind, multi: bool)
    requires
        list.len() > 0,
    ensures
        stored_pages(list, kind, multi).len() > 0,
{
    let p = list[0];
    assert(page_bytes(p.times, kind, p.values).len() >= 4);
}

/// A new chunk holds no data.
pub proof fn lemma_new_chunk_holds_no_data(
    c: ChunkWriter,
    measurement_id: Seq<char>,
    data_type: TSDataType,
    encoding: TSEncoding,
    compression: CompressionType,
)
    requires
        ChunkWriter::fresh(c, measurement_id, data_type, encoding, compression),
    ensures
        !holds_data(c.state()),
{
}

/// A write that succeeds leaves the chunk holding data: the point is in the page being
/// written, or in the page that it finished.
pub proof fn lemma_write_holds_data(a: ChunkWriter, b: ChunkWriter, t: i64, v: ValueView)
    requires
        a.can_write(),
        ChunkWriter::wrote_point(a, b, t, v, Ok(())),
    ensures
        holds_data(b.state()),
{
    let s = a.state();
    let kind = a.value_kind();
    let m = with_point(s, t, v);
    assert(accepts(kind, v));
    if page_due(m, kind, a.page_capacity(), a.threshold()) {
        let list = m.page_list.push(WrittenPage { times: m.times, values: m.values, stats: m.page_stats });
        lemma_stored_pages_nonempty(list, kind, list.len() > 1);
    }
}

/// Finishing a chunk successfully leaves it holding no data, whatever it held.
pub proof fn lemma_write_to_clears_data(
    a: ChunkWriter,
    b: ChunkWriter,
    before: Seq<u8>,
    after: Seq<u8>,
    r: TsFileResult<(usize, usize)>,
)
    requires
        ChunkWriter::wrote_chunk(a, b, before, after, r),
        r is Ok,
    ensures
        !holds_data(b.state()),
{
}

/// Writes the pages of one series into a chunk.
pub struct ChunkWriter {
    /// The measurement the chunk belongs to.
    pub measurement_id: String,
    /// The type of the values.
    pub data_type: TSDataType,
    /// The encoding of the values.
    pub encoding: TSEncoding,
    /// The compression of the pages.
    pub compression: CompressionType,
    compressor: Compressor,
    page_writer: PageWriter,
    page_buffer: Vec<u8>,
    first_page: Vec<u8>,
    first_stats: Statistics,
    page_list: Ghost<Seq<WrittenPage>>,
    num_pages: u32,
    chunk_statistics: Statistics,
    page_size_threshold: usize,
}

impl ChunkWriter {
    /// Whether the page being written is consistent, and the finished pages are stored
    /// as `page_list` says, the lone first page kept aside to be stored again with its
    /// statistics.
    pub closed spec fn wf(&self) -> bool {
        &&& self.page_writer.wf()
        &&& self.num_pages == self.page_list@.len()
        &&& self.page_buffer@ == stored_pages(
            self.page_list@,
            self.page_writer.value_kind(),
            self.page_list@.len() > 1,
        )
        &&& self.page_list@.len() == 1 ==> {
            &&& self.first_page@ == page_bytes(
                self.page_list@[0].times,
                self.page_writer.value_kind(),
                self.page_list@[0].values,
            )
            &&& self.first_stats@ == self.page_list@[0].stats
        }
    }

    /// The abstract state.
    pub closed spec fn state(&self) -> ChunkState {
        ChunkState {
            pages: self.page_buffer@,
            page_list: self.page_list@,
            num_pages: self.num_pages,
            chunk_stats: self.chunk_statistics@,
            times: self.page_writer.times(),
            values: self.page_writer.values(),
            page_stats: self.page_writer.stats(),
            points: self.page_writer.points(),
        }
    }

    /// The measurement name, data type, encoding and compression of the chunk.
    pub closed spec fn config(&self) -> (Seq<char>, TSDataType, TSEncoding, CompressionType) {
        (self.measurement_id@, self.data_type, self.encoding, self.compression)
    }

    /// The encoding of the value column as applied.
    pub closed spec fn value_kind(&self) -> EncoderKind {
        self.page_writer.value_kind()
    }

    /// The compression as applied.
    pub closed spec fn applied_compression(&self) -> CompressionType {
        self.compressor.compression_type()
    }

    /// The number of points at which a page is full.
    pub closed spec fn page_capacity(&self) -> usize {
        self.page_writer.capacity()
    }

    /// The number of encoded bytes at which a page is finished.
    pub closed spec fn threshold(&self) -> usize {
        self.page_size_threshold
    }

    /// Whether `c` is an empty chunk for the given measurement, type, encoding and
    /// compression, with the default page limits.
    pub open spec fn fresh(
        c: ChunkWriter,
        measurement_id: Seq<char>,
        data_type: TSDataType,
        encoding: TSEncoding,
        compression: CompressionType,
    ) -> bool {
        &&& c.wf()
        &&& c.config() == (measurement_id, data_type, encoding, compression)
        &&& c.value_kind() == kind_for(data_type, encoding)
        &&& c.applied_compression() == compression
        &&& c.page_capacity() == MAX_POINTS_PER_PAGE
        &&& c.threshold() == PAGE_SIZE_THRESHOLD
        &&& c.state() == empty_chunk(data_type)
    }

    /// Whether `b` keeps the setup of `a`: the same encoding, compression, page limits and
    /// header fields, and a consistent page.
    pub open spec fn same_setup(a: ChunkWriter, b: ChunkWriter) -> bool {
        &&& b.wf()
        &&& b.value_kind() == a.value_kind()
        &&& b.applied_compression() == a.applied_compression()
        &&& b.page_capacity() == a.page_capacity()
        &&& b.threshold() == a.threshold()
        &&& b.config() == a.config()
    }

    /// Whether a point can be written or the chunk finished without exhausting a counter.
    pub open spec fn can_write(self) -> bool {
        &&& self.wf()
        &&& self.state().points < usize::MAX
        &&& self.state().num_pages < u32::MAX
    }

    /// Whether `b` and `r` are what writing the point `(t, v)` into `a` gives.
    pub open spec fn wrote_point(
        a: ChunkWriter,
        b: ChunkWriter,
        t: i64,
        v: ValueView,
        r: TsFileResult<()>,
    ) -> bool {
        let kind = a.value_kind();
        let cap = a.page_capacity();
        let thr = a.threshold();
        let comp = a.applied_compression();
        &&& ChunkWriter::same_setup(a, b)
        &&& b.state() == after_write(a.state(), t, v, kind, cap, thr, comp)
        &&& !accepts(kind, v) ==> (r matches Err(TsFileError::EncodingError(_)))
        &&& write_succeeds(a.state(), t, v, kind, cap, thr, comp) ==> r is Ok
        &&& accepts(kind, v) && !write_succeeds(a.state(), t, v, kind, cap, thr, comp)
            ==> (r matches Err(TsFileError::Unsupported(_)))
    }

    /// Whether `b`, the output `after` and `r` are what finishing the chunk of `a` onto the
    /// output `before` gives: the page being written is finished, then the chunk header
    /// and the pages are appended and an empty chunk begins.
    pub open spec fn wrote_chunk(
        a: ChunkWriter,
        b: ChunkWriter,
        before: Seq<u8>,
        after: Seq<u8>,
        r: TsFileResult<(usize, usize)>,
    ) -> bool {
        let s = a.state();
        let f = flushed(s, a.value_kind(), a.applied_compression());
        let (id, dt, enc, comp) = a.config();
        let header = chunk_header_bytes(
            chunk_type_for(f.num_pages, 0),
            id,
            f.pages.len() as u32,
            dt,
            comp,
            enc,
        );
        &&& ChunkWriter::same_setup(a, b)
        &&& if flush_succeeds(s, a.applied_compression()) {
            &&& r == Ok::<(usize, usize), TsFileError>(
                (header.len() as usize, f.pages.len() as usize),
            )
            &&& after == before + header + f.pages
            &&& b.state() == (ChunkState {
                pages: Seq::empty(),
                page_list: Seq::empty(),
                num_pages: 0,
                chunk_stats: initial_stats(dt),
                ..f
            })
        } else {
            &&& r matches Err(TsFileError::Unsupported(_))
            &&& after == before
            &&& b.state() == f
        }
    }

    /// An empty chunk for `measurement_id` with values of `data_type`.
    pub fn new(
        measurement_id: String,
        data_type: TSDataType,
        encoding: TSEncoding,
        compression: CompressionType,
    ) -> (c: Self)
        ensures
            ChunkWriter::fresh(c, measurement_id@, data_type, encoding, compression),
    {
        let c = ChunkWriter {
            measurement_id,
            data_type,
            encoding,
            compression,
            compressor: create_compressor(compression),
            page_writer: PageWriter::new(data_type, encoding, MAX_POINTS_PER_PAGE),
            page_buffer: Vec::new(),
            first_page: Vec::new(),
            first_stats: Statistics::new(data_type),
            page_list: Ghost(Seq::empty()),
            num_pages: 0,
            chunk_statistics: Statistics::new(data_type),
            page_size_threshold: PAGE_SIZE_THRESHOLD,
        };
        assert(c.state().pages =~= Seq::<u8>::empty());
        c
    }

    /// Finishes the page being written, if it has points.
    #[verifier::rlimit(50)]
    fn flush_current_page(&mut self) -> (r: TsFileResult<()>)
        requires
            old(self).wf(),
            old(self).state().num_pages < u32::MAX,
        ensures
            final(self).wf(),
            final(self).value_kind() == old(self).value_kind(),
            final(self).applied_compression() == old(self).applied_compression(),
            final(self).page_capacity() == old(self).page_capacity(),
            final(self).threshold() == old(self).threshold(),
            final(self).config() == old(self).config(),
            final(self).state() == flushed(
                old(self).state(),
                old(self).value_kind(),
                old(self).applied_compression(),
            ),
            flush_succeeds(old(self).state(), old(self).applied_compression()) ==> r is Ok,
            !flush_succeeds(old(self).state(), old(self).applied_compression()) ==> r matches Err(
                TsFileError::Unsupported(_),
            ),
    {
        if self.page_writer.point_count() == 0 {
            return Ok(());
        }
        let ghost s = self.state();
        let flushed_page = self.page_writer.flush();
        let page = match flushed_page {
            Ok(Some(p)) => p,
            _ => {
                return Ok(());
            },
        };
        let compressed_bytes = self.compressor.compress(page.data.as_slice())?;
        let size = compressed_bytes.len() as u32;
        let ghost kind = self.value_kind();
        let ghost p = WrittenPage { times: s.times, values: s.values, stats: s.page_stats };
        let ghost list = s.page_list.push(p);
        if self.num_pages == 0 {
            let header = PageHeader::new(size, size, None);
            let _ = header.serialize(&mut self.page_buffer);
            append_bytes(&mut self.page_buffer, &compressed_bytes);
            self.first_stats = page.statistics.duplicate();
            self.first_page = compressed_bytes;
            proof {
                lemma_stored_pages_push(s.page_list, p, kind, false);
                assert(self.page_buffer@ =~= stored_pages(list, kind, false));
            }
        } else if self.num_pages == 1 {
            // The first page was stored without its statistics: store it again with them.
            let first_size = self.first_page.len() as u32;
            let mut buffer: Vec<u8> = Vec::new();
            let first_header = PageHeader::new(first_size, first_size, Some(self.first_stats.duplicate()));
            let _ = first_header.serialize(&mut buffer);
            append_bytes(&mut buffer, &self.first_page);
            let header = PageHeader::new(size, size, Some(page.statistics.duplicate()));
            let _ = header.serialize(&mut buffer);
            append_bytes(&mut buffer, &compressed_bytes);
            self.page_buffer = buffer;
            self.first_page = Vec::new();
            proof {
                let a = s.page_list[0];
                assert(s.page_list =~= Seq::<WrittenPage>::empty().push(a));
                lemma_stored_pages_push(Seq::<WrittenPage>::empty(), a, kind, true);
                lemma_stored_pages_push(s.page_list, p, kind, true);
                assert(self.page_buffer@ =~= stored_pages(list, kind, true));
            }
        } else {
            let header = PageHeader::new(size, size, Some(page.statistics.duplicate()));
            let _ = header.serialize(&mut self.page_buffer);
            append_bytes(&mut self.page_buffer, &compressed_bytes);
            proof {
                lemma_stored_pages_push(s.page_list, p, kind, true);
                assert(self.page_buffer@ =~= stored_pages(list, kind, true));
            }
        }
        self.chunk_statistics.merge(&page.statistics);
        self.num_pages = self.num_pages + 1;
        self.page_list = Ghost(list);
        Ok(())
    }

    fn check_page_size_and_may_flush(&mut self) -> (r: TsFileResult<()>)
        requires
            old(self).wf(),
            old(self).state().num_pages < u32::MAX,
        ensures
            final(self).wf(),
            final(self).value_kind() == old(self).value_kind(),
            final(self).applied_compression() == old(self).applied_compression(),
            final(self).page_capacity() == old(self).page_capacity(),
            final(self).threshold() == old(self).threshold(),
            final(self).config() == old(self).config(),
            page_due(
                old(self).state(),
                old(self).value_kind(),
                old(self).page_capacity(),
                old(self).threshold(),
            ) ==> {
                &&& final(self).state() == flushed(
                    old(self).state(),
                    old(self).value_kind(),
                    old(self).applied_compression(),
                )
                &&& flush_succeeds(old(self).state(), old(self).applied_compression()) ==> r is Ok
                &&& !flush_succeeds(old(self).state(), old(self).applied_compression())
                    ==> r matches Err(TsFileError::Unsupported(_))
            },
            !page_due(
                old(self).state(),
                old(self).value_kind(),
                old(self).page_capacity(),
                old(self).threshold(),
            ) ==> {
                &&& final(self).state() == old(self).state()
                &&& r is Ok
            },
    {
        proof {
            self.page_writer.lemma_buffered();
        }
        if self.page_writer.is_full() || self.page_writer.buffered_at_least(self.page_size_threshold) {
            self.flush_current_page()?;
        }
        Ok(())
    }
    /// Writes a point with a boolean value, finishing the page when it is full or past
    /// the size threshold.
    pub fn write_bool(&mut self, timestamp: i64, value: bool) -> (r: TsFileResult<()>)
        requires
            old(self).can_write(),
        ensures
            ChunkWriter::wrote_point(*old(self), *final(self), timestamp, ValueView::Boolean(value), r),
    {
        self.page_writer.write_bool(timestamp, value)?;
        self.check_page_size_and_may_flush()?;
        Ok(())
    }

    /// Writes a point with a 32-bit value, finishing the page when it is full or past
    /// the size threshold.
    pub fn write_i32(&mut self, timestamp: i64, value: i32) -> (r: TsFileResult<()>)
        requires
            old(self).can_write(),
        ensures
            ChunkWriter::wrote_point(*old(self), *final(self), timestamp, ValueView::Int32(value), r),
    {
        self.page_writer.write_i32(timestamp, value)?;
        self.check_page_size_and_may_flush()?;
        Ok(())
    }

    /// Writes a point with a 64-bit value, finishing the page when it is full or past
    /// the size threshold.
    pub fn write_i64(&mut self, timestamp: i64, value: i64) -> (r: TsFileResult<()>)
        requires
            old(self).can_write(),
        ensures
            ChunkWriter::wrote_point(*old(self), *final(self), timestamp, ValueView::Int64(value), r),
    {
        self.page_writer.write_i64(timestamp, value)?;
        self.check_page_size_and_may_flush()?;
        Ok(())
    }

    /// Writes a point with a byte-string value, finishing the page when it is full or past
    /// the size threshold.
    pub fn write_binary(&mut self, timestamp: i64, value: Binary) -> (r: TsFileResult<()>)
        requires
            old(self).can_write(),
        ensures
            ChunkWriter::wrote_point(*old(self), *final(self), timestamp, ValueView::Binary(value@), r),
    {
        self.page_writer.write_binary(timestamp, value)?;
        self.check_page_size_and_may_flush()?;
        Ok(())
    }

    /// Finishes the page being written and appends the chunk to `writer`: the chunk
    /// header, then the pages. Returns the sizes of both, and starts an empty chunk.
    pub fn write_to(&mut self, writer: &mut Vec<u8>) -> (r: TsFileResult<(usize, usize)>)
        requires
            old(self).can_write(),
        ensures
            ChunkWriter::wrote_chunk(*old(self), *final(self), old(writer)@, final(writer)@, r),
    {
        self.flush_current_page()?;
        let data_size = self.page_buffer.len() as u32;
        let header = ChunkHeader::new(
            self.measurement_id.clone(),
            data_size,
            self.data_type,
            self.compression,
            self.encoding,
            self.num_pages,
        );
        let mut header_bytes: Vec<u8> = Vec::new();
        let _ = header.serialize(&mut header_bytes);
        let header_size = header_bytes.len();
        let ghost before = writer@;
        append_bytes(writer, &header_bytes);
        append_bytes(writer, &self.page_buffer);
        let data_size_usize = self.page_buffer.len();
        proof {
            assert(header_bytes@ =~= header.bytes());
            assert(writer@ =~= before + header_bytes@ + self.page_buffer@);
        }
        self.page_buffer.clear();
        self.first_page = Vec::new();
        self.page_list = Ghost(Seq::empty());
        self.num_pages = 0;
        self.chunk_statistics = Statistics::new(self.data_type);
        proof {
            assert(self.page_buffer@ =~= Seq::<u8>::empty());
        }
        Ok((header_size, data_size_usize))
    }

    /// The measurement name.
    pub(crate) fn measurement(&self) -> (s: &str)
        ensures
            s@ == self.config().0,
    {
        self.measurement_id.as_str()
    }

    /// The statistics of the finished pages.
    pub fn statistics(&self) -> (s: &Statistics)
        ensures
            s@ == self.state().chunk_stats,
    {
        &self.chunk_statistics
    }

    /// The number of finished pages.
    pub fn num_pages(&self) -> (n: u32)
        ensures
            n == self.state().num_pages,
    {
        self.num_pages
    }

    /// Whether there are finished pages or points of the page being written.
    pub fn has_data(&self) -> (b: bool)
        ensures
            b == holds_data(self.state()),
    {
        self.page_buffer.len() != 0 || self.page_writer.point_count() > 0
    }
}

} // verus!
