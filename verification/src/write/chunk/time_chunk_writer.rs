//! A time chunk writer behind the interface of the writer implementations.

use vstd::prelude::*;

use crate::common::enums::{CompressionType, TSDataType, TSEncoding};
use crate::write::chunk::aligned_chunk_writer::TimeChunkWriter;
use crate::write::chunk::chunk_writer::ChunkWriter;

verus! {

/// A time chunk writer.
pub struct TimeChunkWriterImpl {
    inner: TimeChunkWriter,
}

impl TimeChunkWriterImpl {
    /// The time chunk writer inside.
    pub closed spec fn wrapped(&self) -> TimeChunkWriter {
        self.inner
    }

    /// An empty time chunk.
    pub fn new(compression: CompressionType) -> (w: Self)
        ensures
            ChunkWriter::fresh(
                w.wrapped().wrapped(),
                Seq::empty(),
                TSDataType::Int64,
                TSEncoding::Ts2diff,
                compression,
            ),
    {
        TimeChunkWriterImpl { inner: TimeChunkWriter::new(compression) }
    }

    /// The time chunk writer inside.
    pub fn inner(&self) -> (w: &TimeChunkWriter)
        ensures
            *w == self.wrapped(),
    {
        &self.inner
    }

    /// The time chunk writer inside, to change.
    pub fn inner_mut(&mut self) -> (w: &mut TimeChunkWriter)
        ensures
            *w == old(self).wrapped(),
            final(self).wrapped() == *final(w),
    {
        &mut self.inner
    }

    /// The time chunk writer inside.
    pub fn into_inner(self) -> (w: TimeChunkWriter)
        ensures
            w == self.wrapped(),
    {
        self.inner
    }
}

} // verus!
