//! A value chunk writer behind the interface of the writer implementations.

use vstd::prelude::*;

use crate::common::enums::{CompressionType, TSDataType, TSEncoding};
use crate::write::chunk::aligned_chunk_writer::ValueChunkWriter;
use crate::write::chunk::chunk_writer::ChunkWriter;

verus! {

/// A value chunk writer.
pub struct ValueChunkWriterImpl {
    inner: ValueChunkWriter,
}

impl ValueChunkWriterImpl {
    /// The value chunk writer inside.
    pub closed spec fn wrapped(&self) -> ValueChunkWriter {
        self.inner
    }

    /// An empty value chunk for `measurement_id`.
    pub fn new(
        measurement_id: String,
        data_type: TSDataType,
        encoding: TSEncoding,
        compression: CompressionType,
    ) -> (w: Self)
        ensures
            ChunkWriter::fresh(
                w.wrapped().wrapped(),
                measurement_id@,
                data_type,
                encoding,
                compression,
            ),
    {
        ValueChunkWriterImpl {
            inner: ValueChunkWriter::new(measurement_id, data_type, encoding, compression),
        }
    }

    /// The value chunk writer inside.
    pub fn inner(&self) -> (w: &ValueChunkWriter)
        ensures
            *w == self.wrapped(),
    {
        &self.inner
    }

    /// The value chunk writer inside, to change.
    pub fn inner_mut(&mut self) -> (w: &mut ValueChunkWriter)
        ensures
            *w == old(self).wrapped(),
            final(self).wrapped() == *final(w),
    {
        &mut self.inner
    }

    /// The value chunk writer inside.
    pub fn into_inner(self) -> (w: ValueChunkWriter)
        ensures
            w == self.wrapped(),
    {
        self.inner
    }
}

} // verus!
