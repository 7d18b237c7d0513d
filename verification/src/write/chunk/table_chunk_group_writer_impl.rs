//! The chunk writers of one device of a table.

use vstd::prelude::*;

use crate::file::table_schema::TableSchema;
use crate::write::chunk::chunk_writer::ChunkWriter;
use crate::write::chunk::non_aligned_chunk_group_writer_impl::NonAlignedChunkGroupWriterImpl;

verus! {

/// The chunk writers of one device of a table, with the table's schema.
pub struct TableChunkGroupWriterImpl {
    table_schema: TableSchema,
    inner: NonAlignedChunkGroupWriterImpl,
}

impl TableChunkGroupWriterImpl {
    /// The schema of the table.
    pub closed spec fn schema(&self) -> TableSchema {
        self.table_schema
    }

    /// The group writer inside.
    pub closed spec fn wrapped(&self) -> NonAlignedChunkGroupWriterImpl {
        self.inner
    }

    /// A group for `device_id` of the table of `table_schema`, without writers.
    pub fn new(device_id: String, table_schema: TableSchema) -> (g: Self)
        ensures
            g.schema() == table_schema,
            g.wrapped().wrapped().wf(),
            g.wrapped().wrapped().device() == device_id@,
            g.wrapped().wrapped().writers() == Seq::<ChunkWriter>::empty(),
    {
        TableChunkGroupWriterImpl { table_schema, inner: NonAlignedChunkGroupWriterImpl::new(device_id) }
    }

    /// The schema of the table.
    pub fn table_schema(&self) -> (t: &TableSchema)
        ensures
            *t == self.schema(),
    {
        &self.table_schema
    }

    /// The group writer inside.
    pub fn inner(&self) -> (g: &NonAlignedChunkGroupWriterImpl)
        ensures
            *g == self.wrapped(),
    {
        &self.inner
    }

    /// The group writer inside, to change.
    pub fn inner_mut(&mut self) -> (g: &mut NonAlignedChunkGroupWriterImpl)
        ensures
            *g == old(self).wrapped(),
            final(self).wrapped() == *final(g),
            final(self).schema() == old(self).schema(),
    {
        &mut self.inner
    }
}

} // verus!
