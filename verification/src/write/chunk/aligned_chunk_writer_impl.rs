//! An aligned chunk writer behind the interface of the writer implementations.

use vstd::prelude::*;

use crate::common::enums::{CompressionType, TSDataType, TSEncoding};
use crate::write::chunk::aligned_chunk_writer::{AlignedChunkWriter, ValueChunkWriter};
use crate::write::chunk::chunk_writer::ChunkWriter;

verus! {

/// An aligned chunk writer.
pub struct AlignedChunkWriterImpl {
    inner: AlignedChunkWriter,
}

impl AlignedChunkWriterImpl {
    /// The aligned writer inside.
    pub closed spec fn wrapped(&self) -> AlignedChunkWriter {
        self.inner
    }

    /// An aligned writer with an empty time chunk and the given value writers.
    pub fn new(time_compression: CompressionType, value_writers: Vec<ValueChunkWriter>) -> (w: Self)
        ensures
            ChunkWriter::fresh(
                w.wrapped().time_writer.wrapped(),
                Seq::empty(),
                TSDataType::Int64,
                TSEncoding::Ts2diff,
                time_compression,
            ),
            w.wrapped().value_writers == value_writers,
    {
        AlignedChunkWriterImpl { inner: AlignedChunkWriter::new(time_compression, value_writers) }
    }

    /// The aligned writer inside.
    pub fn inner(&self) -> (w: &AlignedChunkWriter)
        ensures
            *w == self.wrapped(),
    {
        &self.inner
    }

    /// The aligned writer inside, to change.
    pub fn inner_mut(&mut self) -> (w: &mut AlignedChunkWriter)
        ensures
            *w == old(self).wrapped(),
            final(self).wrapped() == *final(w),
    {
        &mut self.inner
    }

    /// The aligned writer inside.
    pub fn into_inner(self) -> (w: AlignedChunkWriter)
        ensures
            w == self.wrapped(),
    {
        self.inner
    }
}

} // verus!
