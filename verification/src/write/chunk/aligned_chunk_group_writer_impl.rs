//! The aligned chunk writers of one device.

use vstd::prelude::*;

use crate::write::chunk::aligned_chunk_writer::AlignedChunkWriter;

verus! {

/// The aligned chunk writers of one device, in the order they were added.
pub struct AlignedChunkGroupWriterImpl {
    device_id: String,
    aligned_writers: Vec<AlignedChunkWriter>,
}

impl AlignedChunkGroupWriterImpl {
    /// The device.
    pub closed spec fn device(&self) -> Seq<char> {
        self.device_id@
    }

    /// The writers added.
    pub closed spec fn writers(&self) -> Seq<AlignedChunkWriter> {
        self.aligned_writers@
    }

    /// A group for `device_id` without writers.
    pub fn new(device_id: String) -> (g: Self)
        ensures
            g.device() == device_id@,
            g.writers() == Seq::<AlignedChunkWriter>::empty(),
    {
        AlignedChunkGroupWriterImpl { device_id, aligned_writers: Vec::new() }
    }

    /// The device.
    pub fn device_id(&self) -> (d: &str)
        ensures
            d@ == self.device(),
    {
        self.device_id.as_str()
    }

    /// Adds `writer` after the others.
    pub fn add_aligned_writer(&mut self, writer: AlignedChunkWriter)
        ensures
            final(self).device() == old(self).device(),
            final(self).writers() == old(self).writers().push(writer),
    {
        self.aligned_writers.push(writer);
    }

    /// The writers added.
    pub fn aligned_writers(&self) -> (w: &[AlignedChunkWriter])
        ensures
            w@ == self.writers(),
    {
        self.aligned_writers.as_slice()
    }

    /// The writers added.
    pub fn into_aligned_writers(self) -> (w: Vec<AlignedChunkWriter>)
        ensures
            w@ == self.writers(),
    {
        self.aligned_writers
    }
}

} // verus!
