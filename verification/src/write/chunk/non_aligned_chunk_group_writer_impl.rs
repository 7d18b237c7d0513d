//! A chunk group writer for non-aligned series.

use vstd::prelude::*;

use crate::encoding::encoder::EncodableValue;
use crate::error::{TsFileError, TsFileResult};
use crate::write::chunk::chunk_group_writer::{has_schema, written_writer, ChunkGroupWriter};
use crate::write::chunk::chunk_writer::ChunkWriter;
use crate::write::schema::MeasurementSchema;

verus! {

/// The chunk writers of the non-aligned series of one device.
pub struct NonAlignedChunkGroupWriterImpl {
    inner: ChunkGroupWriter,
}

impl NonAlignedChunkGroupWriterImpl {
    /// The group writer inside.
    pub closed spec fn wrapped(&self) -> ChunkGroupWriter {
        self.inner
    }

    /// A group for `device_id` without writers.
    pub fn new(device_id: String) -> (g: Self)
        ensures
            g.wrapped().wf(),
            g.wrapped().device() == device_id@,
            g.wrapped().writers() == Seq::<ChunkWriter>::empty(),
    {
        Self { inner: ChunkGroupWriter::new(device_id) }
    }

    /// The device.
    pub fn device_id(&self) -> (d: &str)
        ensures
            d@ == self.wrapped().device(),
    {
        self.inner.device_id()
    }

    /// Adds an empty chunk writer for the measurement of `schema` unless there is one.
    pub fn register_schema(&mut self, schema: MeasurementSchema)
        requires
            old(self).wrapped().wf(),
        ensures
            final(self).wrapped().wf(),
            final(self).wrapped().device() == old(self).wrapped().device(),
            (exists|i: int|
                0 <= i < old(self).wrapped().writers().len()
                    && old(self).wrapped().writers()[i].config().0 == schema.measurement_id@)
                ==> final(self).wrapped().writers() == old(self).wrapped().writers(),
            !(exists|i: int|
                0 <= i < old(self).wrapped().writers().len()
                    && old(self).wrapped().writers()[i].config().0 == schema.measurement_id@)
                ==> {
                &&& final(self).wrapped().writers().len() == old(self).wrapped().writers().len()
                    + 1
                &&& final(self).wrapped().writers().drop_last() == old(self).wrapped().writers()
                &&& ChunkWriter::fresh(
                    final(self).wrapped().writers().last(),
                    schema.measurement_id@,
                    schema.data_type,
                    schema.encoding,
                    schema.compression,
                )
            },
    {
        self.inner.register_schema(schema);
    }

    /// Writes `value` of `measurement_id` at `timestamp` through the group writer.
    pub fn write_value(
        &mut self,
        timestamp: i64,
        measurement_id: &str,
        value: Option<EncodableValue>,
        schemas: &[MeasurementSchema],
    ) -> (r: TsFileResult<()>)
        requires
            old(self).wrapped().can_write(),
        ensures
            final(self).wrapped().device() == old(self).wrapped().device(),
            final(self).wrapped().wf(),
            !has_schema(schemas@, measurement_id@) ==> {
                &&& r matches Err(TsFileError::MeasurementNotFound(_))
                &&& final(self).wrapped().writers() == old(self).wrapped().writers()
            },
            has_schema(schemas@, measurement_id@) ==> exists|k: int, w: ChunkWriter|
                {
                    &&& #[trigger] written_writer(
                        old(self).wrapped().writers(),
                        final(self).wrapped().writers(),
                        k,
                        w,
                        measurement_id@,
                        schemas@,
                    )
                    &&& match value {
                        None => r is Ok && final(self).wrapped().writers()[k] == w,
                        Some(v) => ChunkWriter::wrote_point(
                            w,
                            final(self).wrapped().writers()[k],
                            timestamp,
                            v@,
                            r,
                        ),
                    }
                },
    {
        self.inner.write_value(timestamp, measurement_id, value, schemas)
    }

    /// The chunk writers.
    pub fn into_chunk_writers(self) -> (w: Vec<ChunkWriter>)
        ensures
            w@ == self.wrapped().writers(),
    {
        self.inner.into_chunk_writers()
    }
}

} // verus!
