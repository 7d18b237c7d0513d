//! Encodes the time and value columns of one page.

use vstd::prelude::*;

use crate::common::enums::{TSDataType, TSEncoding};
use crate::encoding::encoder::{
    accepts, create_encoder, emitted_for, encoded, kind_for, EncodableValue, Encoder, EncoderKind, ValueView,
};
use crate::error::{TsFileError, TsFileResult};
use crate::file::statistics::{initial_stats, updated, Statistics, StatisticsView};
use crate::utils::byte_order::be_bytes_u32;
use crate::utils::read_write_io_utils::{Binary, ReadWriteIOUtils};

verus! {

/// The bytes of a page: the length of the time column as a big-endian 32-bit number, the
/// time column (second-order differences of the times) and the value column.
pub open spec fn page_bytes(times: Seq<ValueView>, kind: EncoderKind, values: Seq<ValueView>) -> Seq<
    u8,
> {
    let t = encoded(EncoderKind::Ts2diffLong, times);
    be_bytes_u32((t.len() as i32) as u32) + t + encoded(kind, values)
}

/// The bytes and statistics of a finished page.
#[derive(Debug, Clone)]
pub struct EncodedPage {
    /// The bytes of the page.
    pub data: Vec<u8>,
    /// The statistics of its points.
    pub statistics: Statistics,
    /// The number of points.
    pub point_count: usize,
}

/// Appends `data` to `out`.
pub(crate) fn append_bytes(out: &mut Vec<u8>, data: &Vec<u8>)
    ensures
        final(out)@ == old(out)@ + data@,
{
    let _ = ReadWriteIOUtils::write_bytes(data.as_slice(), out);
}

/// A page counts its points: after successful writes into a new page, it holds as many
/// points as were written, and is full exactly when they reach its capacity (at once
/// for a capacity of 0).
pub proof fn lemma_page_fills_with_writes(
    ws: Seq<PageWriter>,
    ts: Seq<i64>,
    vs: Seq<ValueView>,
    data_type: TSDataType,
    encoding: TSEncoding,
    max_points: usize,
)
    requires
        ws.len() == ts.len() + 1,
        vs.len() == ts.len(),
        PageWriter::fresh(ws[0], data_type, encoding, max_points),
        forall|i: int| 0 <= i < ts.len() ==> PageWriter::wrote_point(#[trigger] ws[i], ws[i + 1], ts[i], vs[i], Ok(())),
    ensures
        ws.last().points() == ts.len(),
        ws.last().capacity() == max_points,
        (ws.last().points() >= ws.last().capacity()) == (ts.len() >= max_points),
    decreases ts.len(),
{
    if ts.len() > 0 {
        let n = ts.len() - 1;
        assert forall|i: int| 0 <= i < ts.drop_last().len() implies PageWriter::wrote_point(
            #[trigger] ws.drop_last()[i],
            ws.drop_last()[i + 1],
            ts.drop_last()[i],
            vs.drop_last()[i],
            Ok(()),
        ) by {
            assert(PageWriter::wrote_point(ws[i], ws[i + 1], ts[i], vs[i], Ok(())));
        }
        lemma_page_fills_with_writes(ws.drop_last(), ts.drop_last(), vs.drop_last(), data_type, encoding, max_points);
        assert(PageWriter::wrote_point(ws[n], ws[n + 1], ts[n], vs[n], Ok(())));
        assert(ws.drop_last().last() == ws[n]);
    }
}

/// After a flush that hands out a page, the page is empty again: full only for a
/// capacity of 0.
pub proof fn lemma_page_empty_after_flush(a: PageWriter, b: PageWriter, p: EncodedPage)
    requires
        PageWriter::flushed_page(a, b, Ok(Some(p))),
    ensures
        b.points() == 0,
        (b.points() >= b.capacity()) == (a.capacity() == 0),
{
}

/// Encodes time and value columns for one page.
pub struct PageWriter {
    time_buffer: Vec<u8>,
    value_buffer: Vec<u8>,
    time_encoder: Encoder,
    value_encoder: Encoder,
    statistics: Statistics,
    point_count: usize,
    max_points: usize,
}

impl PageWriter {
    /// Whether the buffers hold what the encoders have written.
    pub closed spec fn wf(&self) -> bool {
        &&& self.time_encoder.wf()
        &&& self.value_encoder.wf()
        &&& self.time_encoder@.kind == EncoderKind::Ts2diffLong
        &&& self.time_buffer@ == self.time_encoder@.emitted
        &&& self.value_buffer@ == self.value_encoder@.emitted
    }

    /// The times written since the page was last flushed.
    pub closed spec fn times(&self) -> Seq<ValueView> {
        self.time_encoder@.fed
    }

    /// The values written since the page was last flushed.
    pub closed spec fn values(&self) -> Seq<ValueView> {
        self.value_encoder@.fed
    }

    /// The encoding of the value column.
    pub closed spec fn value_kind(&self) -> EncoderKind {
        self.value_encoder@.kind
    }

    /// The statistics of the points written.
    pub closed spec fn stats(&self) -> StatisticsView {
        self.statistics@
    }

    /// The number of points written.
    pub closed spec fn points(&self) -> usize {
        self.point_count
    }

    /// The number of points at which the page is full.
    pub closed spec fn capacity(&self) -> usize {
        self.max_points
    }

    /// The number of bytes the encoders have written so far.
    pub closed spec fn buffered(&self) -> int {
        (self.time_buffer@.len() + self.value_buffer@.len()) as int
    }

    /// Whether `p` is an empty page for values of `data_type` in `encoding`, full at
    /// `max_points`.
    pub open spec fn fresh(p: PageWriter, data_type: TSDataType, encoding: TSEncoding, max_points: usize) -> bool {
        &&& p.wf()
        &&& p.times() == Seq::<ValueView>::empty()
        &&& p.values() == Seq::<ValueView>::empty()
        &&& p.value_kind() == kind_for(data_type, encoding)
        &&& p.stats() == initial_stats(data_type)
        &&& p.points() == 0
        &&& p.capacity() == max_points
        &&& p.buffered() == 0
    }

    /// Whether a point can be written without exhausting the point counter.
    pub open spec fn can_write(self) -> bool {
        self.wf() && self.points() < usize::MAX
    }

    /// Whether `b` and `r` are what writing the point `(t, v)` into `a` gives: the time is
    /// always encoded; the value joins the page, with the statistics and the count, when
    /// the value encoding takes it, and is an `EncodingError` otherwise.
    pub open spec fn wrote_point(
        a: PageWriter,
        b: PageWriter,
        t: i64,
        v: ValueView,
        r: TsFileResult<()>,
    ) -> bool {
        &&& b.wf()
        &&& b.times() == a.times().push(ValueView::Int64(t))
        &&& b.value_kind() == a.value_kind()
        &&& b.capacity() == a.capacity()
        &&& accepts(a.value_kind(), v) ==> {
            &&& r is Ok
            &&& b.values() == a.values().push(v)
            &&& b.stats() == updated(a.stats(), t, v)
            &&& b.points() == a.points() + 1
        }
        &&& !accepts(a.value_kind(), v) ==> {
            &&& r matches Err(TsFileError::EncodingError(_))
            &&& b.values() == a.values()
            &&& b.stats() == a.stats()
            &&& b.points() == a.points()
        }
    }

    /// Whether `b` and `r` are what flushing `a` gives: nothing without points, else the
    /// bytes, statistics and count of the page, and an empty page after it.
    pub open spec fn flushed_page(a: PageWriter, b: PageWriter, r: TsFileResult<Option<EncodedPage>>) -> bool {
        &&& b.wf()
        &&& b.value_kind() == a.value_kind()
        &&& b.capacity() == a.capacity()
        &&& a.points() == 0 ==> {
            &&& r matches Ok(None)
            &&& b.times() == a.times()
            &&& b.values() == a.values()
            &&& b.stats() == a.stats()
            &&& b.points() == 0
            &&& b.buffered() == a.buffered()
        }
        &&& a.points() > 0 ==> {
            &&& r matches Ok(Some(p)) && {
                &&& p.data@ == page_bytes(a.times(), a.value_kind(), a.values())
                &&& p.statistics@ == a.stats()
                &&& p.point_count == a.points()
            }
            &&& b.times() == Seq::<ValueView>::empty()
            &&& b.values() == Seq::<ValueView>::empty()
            &&& b.stats() == initial_stats(a.stats().data_type)
            &&& b.points() == 0
            &&& b.buffered() == 0
        }
    }

    /// What the encoders have written is determined by the points written.
    pub proof fn lemma_buffered(&self)
        requires
            self.wf(),
        ensures
            self.buffered() == emitted_for(EncoderKind::Ts2diffLong, self.times()).len()
                + emitted_for(self.value_kind(), self.values()).len(),
    {
        self.time_encoder.lemma_emitted_is_prefix();
        self.value_encoder.lemma_emitted_is_prefix();
    }

    /// Whether the encoders have written `threshold` bytes or more.
    pub(crate) fn buffered_at_least(&self, threshold: usize) -> (b: bool)
        ensures
            b == (self.buffered() >= threshold),
    {
        let t = self.time_buffer.len();
        t >= threshold || self.value_buffer.len() >= threshold - t
    }

    /// An empty page for values of `data_type` in `encoding`, full at `max_points`.
    pub fn new(data_type: TSDataType, encoding: TSEncoding, max_points: usize) -> (p: Self)
        ensures
            PageWriter::fresh(p, data_type, encoding, max_points),
    {
        PageWriter {
            time_buffer: Vec::new(),
            value_buffer: Vec::new(),
            time_encoder: create_encoder(TSDataType::Int64, TSEncoding::Ts2diff),
            value_encoder: create_encoder(data_type, encoding),
            statistics: Statistics::new(data_type),
            point_count: 0,
            max_points,
        }
    }

    /// The number of points written.
    pub fn point_count(&self) -> (n: usize)
        ensures
            n == self.points(),
    {
        self.point_count
    }

    /// The number of bytes the encoders have written so far.
    pub fn estimated_size(&self) -> (n: usize)
        requires
            self.buffered() <= usize::MAX,
        ensures
            n == self.buffered(),
    {
        self.time_buffer.len() + self.value_buffer.len()
    }

    /// Whether the page holds `max_points` points or more.
    pub fn is_full(&self) -> (b: bool)
        ensures
            b == (self.points() >= self.capacity()),
    {
        self.point_count >= self.max_points
    }

    fn encode_time(&mut self, timestamp: i64) -> (r: TsFileResult<()>)
        requires
            old(self).wf(),
        ensures
            final(self).wf(),
            r is Ok,
            final(self).times() == old(self).times().push(ValueView::Int64(timestamp)),
            final(self).values() == old(self).values(),
            final(self).value_kind() == old(self).value_kind(),
            final(self).stats() == old(self).stats(),
            final(self).points() == old(self).points(),
            final(self).capacity() == old(self).capacity(),
    {
        let r = self.time_encoder.encode_value(EncodableValue::Int64(timestamp), &mut self.time_buffer);
        proof {
            let t = self.time_encoder@.emitted;
            assert(self.time_buffer@ =~= t);
        }
        r
    }

    fn write_point(&mut self, timestamp: i64, value: EncodableValue) -> (r: TsFileResult<()>)
        requires
            old(self).can_write(),
        ensures
            PageWriter::wrote_point(*old(self), *final(self), timestamp, value@, r),
    {
        self.encode_time(timestamp)?;
        let ghost vv = value@;
        let stat_value = match &value {
            EncodableValue::Binary(b) => Some(b.duplicate()),
            _ => None,
        };
        let kind_value = match &value {
            EncodableValue::Boolean(b) => EncodableValue::Boolean(*b),
            EncodableValue::Int32(x) => EncodableValue::Int32(*x),
            EncodableValue::Int64(x) => EncodableValue::Int64(*x),
            EncodableValue::Binary(b) => EncodableValue::Binary(b.duplicate()),
        };
        let r = self.value_encoder.encode_value(kind_value, &mut self.value_buffer);
        proof {
            assert(self.value_buffer@ =~= self.value_encoder@.emitted);
        }
        r?;
        match value {
            EncodableValue::Boolean(b) => self.statistics.update_bool(timestamp, b),
            EncodableValue::Int32(x) => self.statistics.update_i32(timestamp, x),
            EncodableValue::Int64(x) => self.statistics.update_i64(timestamp, x),
            EncodableValue::Binary(b) => self.statistics.update_binary(timestamp, b),
        }
        self.point_count = self.point_count + 1;
        Ok(())
    }

    /// Writes a point with a boolean value. When the value encoding does not take
    /// booleans the time is still encoded and the error is returned.
    pub fn write_bool(&mut self, timestamp: i64, value: bool) -> (r: TsFileResult<()>)
        requires
            old(self).can_write(),
        ensures
            PageWriter::wrote_point(*old(self), *final(self), timestamp, ValueView::Boolean(value), r),
    {
        self.write_point(timestamp, EncodableValue::Boolean(value))
    }

    /// Writes a point with a 32-bit value. When the value encoding does not take 32-bit
    /// integers the time is still encoded and the error is returned.
    pub fn write_i32(&mut self, timestamp: i64, value: i32) -> (r: TsFileResult<()>)
        requires
            old(self).can_write(),
        ensures
            PageWriter::wrote_point(*old(self), *final(self), timestamp, ValueView::Int32(value), r),
    {
        self.write_point(timestamp, EncodableValue::Int32(value))
    }

    /// Writes a point with a 64-bit value.
    pub fn write_i64(&mut self, timestamp: i64, value: i64) -> (r: TsFileResult<()>)
        requires
            old(self).can_write(),
        ensures
            PageWriter::wrote_point(*old(self), *final(self), timestamp, ValueView::Int64(value), r),
    {
        self.write_point(timestamp, EncodableValue::Int64(value))
    }

    /// Writes a point with a byte-string value.
    pub fn write_binary(&mut self, timestamp: i64, value: Binary) -> (r: TsFileResult<()>)
        requires
            old(self).can_write(),
        ensures
            PageWriter::wrote_point(*old(self), *final(self), timestamp, ValueView::Binary(value@), r),
    {
        self.write_point(timestamp, EncodableValue::Binary(value))
    }

    /// Finishes the page whatever it holds: its bytes (the time column's length, the time
    /// column and the value column) and its statistics; the writer then starts an empty
    /// page.
    pub fn flush_to_page_bytes(&mut self) -> (r: TsFileResult<(Vec<u8>, Statistics)>)
        requires
            old(self).wf(),
        ensures
            final(self).wf(),
            final(self).value_kind() == old(self).value_kind(),
            final(self).capacity() == old(self).capacity(),
            r matches Ok((data, stats)) && data@ == page_bytes(old(self).times(), old(self).value_kind(), old(self).values())
                && stats@ == old(self).stats(),
            final(self).times() == Seq::<ValueView>::empty(),
            final(self).values() == Seq::<ValueView>::empty(),
            final(self).stats() == initial_stats(old(self).stats().data_type),
            final(self).points() == 0,
            final(self).buffered() == 0,
    {
        let ghost old_times = self.times();
        let ghost old_values = self.values();
        proof {
            self.time_encoder.lemma_emitted_is_prefix();
            self.value_encoder.lemma_emitted_is_prefix();
        }
        let _ = self.time_encoder.flush(&mut self.time_buffer);
        let _ = self.value_encoder.flush(&mut self.value_buffer);
        proof {
            assert(self.time_buffer@ =~= encoded(EncoderKind::Ts2diffLong, old_times));
            assert(self.value_buffer@ =~= encoded(self.value_encoder@.kind, old_values));
        }
        let mut data: Vec<u8> = Vec::new();
        let _ = ReadWriteIOUtils::write_i32(#[verifier::truncate] (self.time_buffer.len() as i32), &mut data);
        append_bytes(&mut data, &self.time_buffer);
        append_bytes(&mut data, &self.value_buffer);
        proof {
            assert(data@ =~= page_bytes(old_times, self.value_encoder@.kind, old_values));
        }
        let data_type = self.statistics.data_type();
        let mut statistics = Statistics::new(data_type);
        std::mem::swap(&mut statistics, &mut self.statistics);
        self.time_buffer.clear();
        self.value_buffer.clear();
        self.point_count = 0;
        self.time_encoder.reset();
        self.value_encoder.reset();
        Ok((data, statistics))
    }

    /// Finishes the page: none when no point was written; otherwise its bytes, statistics
    /// and point count, after which the writer starts an empty page.
    pub fn flush(&mut self) -> (r: TsFileResult<Option<EncodedPage>>)
        requires
            old(self).wf(),
        ensures
            PageWriter::flushed_page(*old(self), *final(self), r),
    {
        if self.point_count == 0 {
            return Ok(None);
        }
        let point_count = self.point_count;
        let (data, statistics) = self.flush_to_page_bytes()?;
        Ok(Some(EncodedPage { data, statistics, point_count }))
    }
}

} // verus!
