//! Pages of the time column of an aligned series.

use vstd::prelude::*;

use crate::common::enums::{TSDataType, TSEncoding};
use crate::encoding::encoder::ValueView;
use crate::error::TsFileResult;
use crate::write::chunk::page_writer::{EncodedPage, PageWriter};

verus! {

/// Writes the times of an aligned series into pages.
pub struct TimePageWriter {
    inner: PageWriter,
}

impl TimePageWriter {
    /// The page writer inside.
    pub closed spec fn wrapped(&self) -> PageWriter {
        self.inner
    }

    /// An empty page of 64-bit times in second-order differences, full at `max_points`.
    pub fn new(max_points: usize) -> (p: Self)
        ensures
            PageWriter::fresh(p.wrapped(), TSDataType::Int64, TSEncoding::Ts2diff, max_points),
    {
        TimePageWriter { inner: PageWriter::new(TSDataType::Int64, TSEncoding::Ts2diff, max_points) }
    }

    /// Writes a time, as a point whose value is the time itself.
    pub fn write(&mut self, timestamp: i64) -> (r: TsFileResult<()>)
        requires
            old(self).wrapped().can_write(),
        ensures
            PageWriter::wrote_point(
                old(self).wrapped(),
                final(self).wrapped(),
                timestamp,
                ValueView::Int64(timestamp),
                r,
            ),
    {
        self.inner.write_i64(timestamp, timestamp)
    }

    /// Finishes the page.
    pub fn flush(&mut self) -> (r: TsFileResult<Option<EncodedPage>>)
        requires
            old(self).wrapped().wf(),
        ensures
            PageWriter::flushed_page(old(self).wrapped(), final(self).wrapped(), r),
    {
        self.inner.flush()
    }

    /// The number of points written.
    pub fn point_count(&self) -> (n: usize)
        ensures
            n == self.wrapped().points(),
    {
        self.inner.point_count()
    }

    /// The number of bytes written so far.
    pub fn estimated_size(&self) -> (n: usize)
        requires
            self.wrapped().buffered() <= usize::MAX,
        ensures
            n == self.wrapped().buffered(),
    {
        self.inner.estimated_size()
    }

    /// Whether the page is full.
    pub fn is_full(&self) -> (b: bool)
        ensures
            b == (self.wrapped().points() >= self.wrapped().capacity()),
    {
        self.inner.is_full()
    }
}

} // verus!
