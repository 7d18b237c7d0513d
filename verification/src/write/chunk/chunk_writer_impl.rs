//! A chunk writer behind the interface of the chunk writer implementations.

use vstd::prelude::*;

use crate::common::enums::{CompressionType, TSDataType, TSEncoding};
use crate::encoding::encoder::ValueView;
use crate::error::TsFileResult;
use crate::file::statistics::Statistics;
use crate::utils::read_write_io_utils::Binary;
use crate::write::chunk::chunk_writer::ChunkWriter;

verus! {

/// A chunk writer for one non-aligned series.
pub struct ChunkWriterImpl {
    inner: ChunkWriter,
}

impl ChunkWriterImpl {
    /// The chunk writer inside.
    pub closed spec fn wrapped(&self) -> ChunkWriter {
        self.inner
    }

    /// An empty chunk for `measurement_id` with values of `data_type`.
    pub fn new(
        measurement_id: String,
        data_type: TSDataType,
        encoding: TSEncoding,
        compression: CompressionType,
    ) -> (c: Self)
        ensures
            ChunkWriter::fresh(c.wrapped(), measurement_id@, data_type, encoding, compression),
    {
        ChunkWriterImpl { inner: ChunkWriter::new(measurement_id, data_type, encoding, compression) }
    }

    /// The chunk writer inside.
    pub fn inner(&self) -> (c: &ChunkWriter)
        ensures
            *c == self.wrapped(),
    {
        &self.inner
    }

    /// The chunk writer inside, to change.
    pub fn inner_mut(&mut self) -> (c: &mut ChunkWriter)
        ensures
            *c == old(self).wrapped(),
            final(self).wrapped() == *final(c),
    {
        &mut self.inner
    }

    /// The chunk writer inside.
    pub fn into_inner(self) -> (c: ChunkWriter)
        ensures
            c == self.wrapped(),
    {
        self.inner
    }

    /// Writes a point with a boolean value.
    pub fn write_bool(&mut self, timestamp: i64, value: bool) -> (r: TsFileResult<()>)
        requires
            old(self).wrapped().can_write(),
        ensures
            ChunkWriter::wrote_point(
                old(self).wrapped(),
                final(self).wrapped(),
                timestamp,
                ValueView::Boolean(value),
                r,
            ),
    {
        self.inner.write_bool(timestamp, value)
    }

    /// Writes a point with a 32-bit value.
    pub fn write_i32(&mut self, timestamp: i64, value: i32) -> (r: TsFileResult<()>)
        requires
            old(self).wrapped().can_write(),
        ensures
            ChunkWriter::wrote_point(
                old(self).wrapped(),
                final(self).wrapped(),
                timestamp,
                ValueView::Int32(value),
                r,
            ),
    {
        self.inner.write_i32(timestamp, value)
    }

    /// Writes a point with a 64-bit value.
    pub fn write_i64(&mut self, timestamp: i64, value: i64) -> (r: TsFileResult<()>)
        requires
            old(self).wrapped().can_write(),
        ensures
            ChunkWriter::wrote_point(
                old(self).wrapped(),
                final(self).wrapped(),
                timestamp,
                ValueView::Int64(value),
                r,
            ),
    {
        self.inner.write_i64(timestamp, value)
    }

    /// Writes a point with a byte-string value.
    pub fn write_binary(&mut self, timestamp: i64, value: Binary) -> (r: TsFileResult<()>)
        requires
            old(self).wrapped().can_write(),
        ensures
            ChunkWriter::wrote_point(
                old(self).wrapped(),
                final(self).wrapped(),
                timestamp,
                ValueView::Binary(value@),
                r,
            ),
    {
        self.inner.write_binary(timestamp, value)
    }

    /// Finishes the chunk onto `writer`.
    pub fn write_to(&mut self, writer: &mut Vec<u8>) -> (r: TsFileResult<(usize, usize)>)
        requires
            old(self).wrapped().can_write(),
        ensures
            ChunkWriter::wrote_chunk(
                old(self).wrapped(),
                final(self).wrapped(),
                old(writer)@,
                final(writer)@,
                r,
            ),
    {
        self.inner.write_to(writer)
    }

    /// The statistics of the finished pages.
    pub fn statistics(&self) -> (s: &Statistics)
        ensures
            s@ == self.wrapped().state().chunk_stats,
    {
        self.inner.statistics()
    }

    /// Whether there is anything to write.
    pub fn has_data(&self) -> (b: bool)
        ensures
            b == (self.wrapped().state().pages.len() > 0 || self.wrapped().state().points > 0),
    {
        self.inner.has_data()
    }
}

} // verus!
