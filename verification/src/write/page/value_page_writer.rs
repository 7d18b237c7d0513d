//! Pages of one value column of an aligned series.

use vstd::prelude::*;

use crate::common::enums::{TSDataType, TSEncoding};
use crate::encoding::encoder::ValueView;
use crate::error::TsFileResult;
use crate::utils::read_write_io_utils::Binary;
use crate::write::chunk::page_writer::{EncodedPage, PageWriter};

verus! {

/// Writes the values of one column of an aligned series into pages.
pub struct ValuePageWriter {
    inner: PageWriter,
}

impl ValuePageWriter {
    /// The page writer inside.
    pub closed spec fn wrapped(&self) -> PageWriter {
        self.inner
    }

    /// An empty page for values of `data_type` in `encoding`, full at `max_points`.
    pub fn new(data_type: TSDataType, encoding: TSEncoding, max_points: usize) -> (p: Self)
        ensures
            PageWriter::fresh(p.wrapped(), data_type, encoding, max_points),
    {
        ValuePageWriter { inner: PageWriter::new(data_type, encoding, max_points) }
    }

    /// Writes a point with a boolean value.
    pub fn write_bool(&mut self, timestamp: i64, value: bool) -> (r: TsFileResult<()>)
        requires
            old(self).wrapped().can_write(),
        ensures
            PageWriter::wrote_point(old(self).wrapped(), final(self).wrapped(), timestamp, ValueView::Boolean(value), r),
    {
        self.inner.write_bool(timestamp, value)
    }

    /// Writes a point with a 32-bit value.
    pub fn write_i32(&mut self, timestamp: i64, value: i32) -> (r: TsFileResult<()>)
        requires
            old(self).wrapped().can_write(),
        ensures
            PageWriter::wrote_point(old(self).wrapped(), final(self).wrapped(), timestamp, ValueView::Int32(value), r),
    {
        self.inner.write_i32(timestamp, value)
    }

    /// Writes a point with a 64-bit value.
    pub fn write_i64(&mut self, timestamp: i64, value: i64) -> (r: TsFileResult<()>)
        requires
            old(self).wrapped().can_write(),
        ensures
            PageWriter::wrote_point(old(self).wrapped(), final(self).wrapped(), timestamp, ValueView::Int64(value), r),
    {
        self.inner.write_i64(timestamp, value)
    }

    /// Writes a point with a byte-string value.
    pub fn write_binary(&mut self, timestamp: i64, value: Binary) -> (r: TsFileResult<()>)
        requires
            old(self).wrapped().can_write(),
        ensures
            PageWriter::wrote_point(old(self).wrapped(), final(self).wrapped(), timestamp, ValueView::Binary(value@), r),
    {
        self.inner.write_binary(timestamp, value)
    }

    /// Finishes the page.
    pub fn flush(&mut self) -> (r: TsFileResult<Option<EncodedPage>>)
        requires
            old(self).wrapped().wf(),
        ensures
            PageWriter::flushed_page(old(self).wrapped(), final(self).wrapped(), r),
    {
        self.inner.flush()
    }

    /// The number of points written.
    pub fn point_count(&self) -> (n: usize)
        ensures
            n == self.wrapped().points(),
    {
        self.inner.point_count()
    }

    /// The number of bytes written so far.
    pub fn estimated_size(&self) -> (n: usize)
        requires
            self.wrapped().buffered() <= usize::MAX,
        ensures
            n == self.wrapped().buffered(),
    {
        self.inner.estimated_size()
    }

    /// Whether the page is full.
    pub fn is_full(&self) -> (b: bool)
        ensures
            b == (self.wrapped().points() >= self.wrapped().capacity()),
    {
        self.inner.is_full()
    }
}

} // verus!
