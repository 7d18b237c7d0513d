//! Aligned series: one time chunk shared by several value chunks.

use vstd::prelude::*;

use crate::common::enums::{CompressionType, TSDataType, TSEncoding};
use crate::encoding::encoder::ValueView;
use crate::error::TsFileResult;
use crate::file::header::{chunk_type_for, ChunkHeader};
use crate::file::meta_marker::TIME_CHUNK_HEADER;
use crate::write::chunk::chunk_writer::ChunkWriter;

verus! {

/// Writes the time column of an aligned series.
pub struct TimeChunkWriter {
    inner: ChunkWriter,
}

impl TimeChunkWriter {
    /// The chunk writer inside.
    pub closed spec fn wrapped(&self) -> ChunkWriter {
        self.inner
    }

    /// An empty time chunk: 64-bit times in second-order differences, unnamed.
    pub fn new(compression: CompressionType) -> (w: Self)
        ensures
            ChunkWriter::fresh(
                w.wrapped(),
                Seq::empty(),
                TSDataType::Int64,
                TSEncoding::Ts2diff,
                compression,
            ),
    {
        TimeChunkWriter {
            inner: ChunkWriter::new(
                String::new(),
                TSDataType::Int64,
                TSEncoding::Ts2diff,
                compression,
            ),
        }
    }

    /// Writes a time, as a point whose value is the time itself.
    pub fn write_time(&mut self, timestamp: i64) -> (r: TsFileResult<()>)
        requires
            old(self).wrapped().can_write(),
        ensures
            ChunkWriter::wrote_point(
                old(self).wrapped(),
                final(self).wrapped(),
                timestamp,
                ValueView::Int64(timestamp),
                r,
            ),
    {
        self.inner.write_i64(timestamp, timestamp)
    }

    /// Finishes the chunk onto `writer`.
    pub fn write_to(&mut self, writer: &mut Vec<u8>) -> (r: TsFileResult<(usize, usize)>)
        requires
            old(self).wrapped().can_write(),
        ensures
            ChunkWriter::wrote_chunk(
                old(self).wrapped(),
                final(self).wrapped(),
                old(writer)@,
                final(writer)@,
                r,
            ),
    {
        self.inner.write_to(writer)
    }
}

/// Writes one value column of an aligned series.
pub struct ValueChunkWriter {
    inner: ChunkWriter,
}

impl ValueChunkWriter {
    /// The chunk writer inside.
    pub closed spec fn wrapped(&self) -> ChunkWriter {
        self.inner
    }

    /// An empty value chunk for `measurement_id`.
    pub fn new(
        measurement_id: String,
        data_type: TSDataType,
        encoding: TSEncoding,
        compression: CompressionType,
    ) -> (w: Self)
        ensures
            ChunkWriter::fresh(w.wrapped(), measurement_id@, data_type, encoding, compression),
    {
        ValueChunkWriter { inner: ChunkWriter::new(measurement_id, data_type, encoding, compression) }
    }

    /// The chunk writer inside, to change.
    pub fn inner_mut(&mut self) -> (c: &mut ChunkWriter)
        ensures
            *c == old(self).wrapped(),
            final(self).wrapped() == *final(c),
    {
        &mut self.inner
    }

    /// Finishes the chunk onto `writer`.
    pub fn write_to(&mut self, writer: &mut Vec<u8>) -> (r: TsFileResult<(usize, usize)>)
        requires
            old(self).wrapped().can_write(),
        ensures
            ChunkWriter::wrote_chunk(
                old(self).wrapped(),
                final(self).wrapped(),
                old(writer)@,
                final(writer)@,
                r,
            ),
    {
        self.inner.write_to(writer)
    }
}

/// A time chunk writer and the value chunk writers aligned with it.
pub struct AlignedChunkWriter {
    /// The time column.
    pub time_writer: TimeChunkWriter,
    /// The value columns.
    pub value_writers: Vec<ValueChunkWriter>,
}

impl AlignedChunkWriter {
    /// An aligned writer with an empty time chunk and the given value writers.
    pub fn new(time_compression: CompressionType, value_writers: Vec<ValueChunkWriter>) -> (w: Self)
        ensures
            ChunkWriter::fresh(
                w.time_writer.wrapped(),
                Seq::empty(),
                TSDataType::Int64,
                TSEncoding::Ts2diff,
                time_compression,
            ),
            w.value_writers == value_writers,
    {
        AlignedChunkWriter { time_writer: TimeChunkWriter::new(time_compression), value_writers }
    }

    /// The header of a time chunk of `data_size` bytes: unnamed, 64-bit times in
    /// second-order differences, one page, marked as a time chunk.
    pub fn chunk_header_for_time(data_size: u32, compression: CompressionType) -> (h: ChunkHeader)
        ensures
            h.measurement_id@ == Seq::<char>::empty(),
            h.data_size == data_size,
            h.data_type == TSDataType::Int64,
            h.compression_type == compression,
            h.encoding_type == TSEncoding::Ts2diff,
            h.num_of_pages == 1,
            h.chunk_type == chunk_type_for(1, TIME_CHUNK_HEADER),
    {
        ChunkHeader::new_with_mask(
            String::new(),
            data_size,
            TSDataType::Int64,
            compression,
            TSEncoding::Ts2diff,
            1,
            TIME_CHUNK_HEADER,
        )
    }
}

} // verus!
