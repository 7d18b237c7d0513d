//! The chunk writers of the series of one device.

use vstd::prelude::*;

use crate::encoding::encoder::EncodableValue;
use crate::error::{TsFileError, TsFileResult};
use crate::utils::text::join3;
use crate::write::chunk::chunk_writer::ChunkWriter;
use crate::write::schema::MeasurementSchema;
use crate::utils::text::str_eq;

verus! {

/// The chunk writers of one device, one per measurement, in the order the measurements
/// were registered.
pub struct ChunkGroupWriter {
    device_id: String,
    chunk_writers: Vec<ChunkWriter>,
}

impl ChunkGroupWriter {
    /// The device.
    pub closed spec fn device(&self) -> Seq<char> {
        self.device_id@
    }

    /// The chunk writers.
    pub closed spec fn writers(&self) -> Seq<ChunkWriter> {
        self.chunk_writers@
    }

    /// Whether the writers are for distinct measurements.
    pub open spec fn wf(&self) -> bool {
        forall|i: int, j: int|
            0 <= i < j < self.writers().len() ==> #[trigger] self.writers()[i].config().0
                != #[trigger] self.writers()[j].config().0
    }

    /// A group for `device_id` without writers.
    pub fn new(device_id: String) -> (g: Self)
        ensures
            g.wf(),
            g.device() == device_id@,
            g.writers() == Seq::<ChunkWriter>::empty(),
    {
        ChunkGroupWriter { device_id, chunk_writers: Vec::new() }
    }

    /// The device.
    pub fn device_id(&self) -> (d: &str)
        ensures
            d@ == self.device(),
    {
        self.device_id.as_str()
    }

    /// Adds an empty chunk writer for the measurement of `schema`, unless the group has
    /// one for it already.
    pub fn register_schema(&mut self, schema: MeasurementSchema)
        requires
            old(self).wf(),
        ensures
            final(self).wf(),
            final(self).device() == old(self).device(),
            (exists|i: int|
                0 <= i < old(self).writers().len() && old(self).writers()[i].config().0
                    == schema.measurement_id@) ==> final(self).writers() == old(self).writers(),
            !(exists|i: int|
                0 <= i < old(self).writers().len() && old(self).writers()[i].config().0
                    == schema.measurement_id@) ==> {
                &&& final(self).writers().len() == old(self).writers().len() + 1
                &&& final(self).writers().drop_last() == old(self).writers()
                &&& ChunkWriter::fresh(
                    final(self).writers().last(),
                    schema.measurement_id@,
                    schema.data_type,
                    schema.encoding,
                    schema.compression,
                )
            },
    {
        let mut i: usize = 0;
        while i < self.chunk_writers.len()
            invariant
                self.wf(),
                self.device() == old(self).device(),
                self.writers() == old(self).writers(),
                i <= self.chunk_writers@.len(),
                forall|k: int|
                    0 <= k < i ==> self.chunk_writers@[k].config().0 != schema.measurement_id@,
            decreases self.chunk_writers@.len() - i,
        {
            if str_eq(self.chunk_writers[i].measurement(), schema.measurement_id.as_str()) {
                return;
            }
            i = i + 1;
        }
        let ghost id = schema.measurement_id@;
        let w = ChunkWriter::new(
            schema.measurement_id,
            schema.data_type,
            schema.encoding,
            schema.compression,
        );
        self.chunk_writers.push(w);
        proof {
            assert(self.writers().drop_last() =~= old(self).writers());
            assert forall|a: int, b: int|
                0 <= a < b < self.writers().len() implies #[trigger] self.writers()[a].config().0
                != #[trigger] self.writers()[b].config().0 by {
                if b == self.writers().len() - 1 {
                    assert(old(self).writers()[a].config().0 != id);
                }
            }
        }
    }

    /// The chunk writers.
    pub fn into_chunk_writers(self) -> (w: Vec<ChunkWriter>)
        ensures
            w@ == self.writers(),
    {
        self.chunk_writers
    }
}

/// Whether some schema of `schemas` is for `measurement_id`.
pub open spec fn has_schema(schemas: Seq<MeasurementSchema>, measurement_id: Seq<char>) -> bool {
    exists|i: int| 0 <= i < schemas.len() && #[trigger] schemas[i].measurement_id@ == measurement_id
}

/// The first schema of `schemas` for `measurement_id`, when there is one.
pub open spec fn first_schema(schemas: Seq<MeasurementSchema>, measurement_id: Seq<char>) -> MeasurementSchema
    decreases schemas.len(),
{
    if schemas.len() == 0 {
        arbitrary()
    } else if schemas[0].measurement_id@ == measurement_id {
        schemas[0]
    } else {
        first_schema(schemas.drop_first(), measurement_id)
    }
}

/// Whether `w` is the writer that `after` holds at `k` for `measurement_id` and `before`
/// held before the write: the same writer when the group had one for the measurement,
/// else an empty one for the first schema of it, added at the end.
pub open spec fn written_writer(
    before: Seq<ChunkWriter>,
    after: Seq<ChunkWriter>,
    k: int,
    w: ChunkWriter,
    measurement_id: Seq<char>,
    schemas: Seq<MeasurementSchema>,
) -> bool {
    let s = first_schema(schemas, measurement_id);
    &&& 0 <= k < after.len()
    &&& after[k].config().0 == measurement_id
    &&& w.config().0 == measurement_id
    &&& forall|i: int| 0 <= i < before.len() && i != k ==> after[i] == before[i]
    &&& k < before.len() ==> after.len() == before.len() && w == before[k]
    &&& k >= before.len() ==> {
        &&& k == before.len()
        &&& after.len() == before.len() + 1
        &&& ChunkWriter::fresh(w, measurement_id, s.data_type, s.encoding, s.compression)
    }
}

impl ChunkGroupWriter {
    /// Whether every writer of the group can take a point.
    pub open spec fn can_write(&self) -> bool {
        &&& self.wf()
        &&& forall|i: int| 0 <= i < self.writers().len() ==> (#[trigger] self.writers()[i]).can_write()
    }

    /// Writes `value` of `measurement_id` at `timestamp`. The measurement's first schema in
    /// `schemas` is registered if the group has no writer for it yet, then the value is
    /// written by its type into the writer of the measurement; no value writes nothing. A
    /// measurement without a schema is `MeasurementNotFound` and changes nothing.
    pub fn write_value(
        &mut self,
        timestamp: i64,
        measurement_id: &str,
        value: Option<EncodableValue>,
        schemas: &[MeasurementSchema],
    ) -> (r: TsFileResult<()>)
        requires
            old(self).can_write(),
        ensures
            final(self).device() == old(self).device(),
            final(self).wf(),
            !has_schema(schemas@, measurement_id@) ==> {
                &&& r matches Err(TsFileError::MeasurementNotFound(_))
                &&& final(self).writers() == old(self).writers()
            },
            has_schema(schemas@, measurement_id@) ==> exists|k: int, w: ChunkWriter|
                {
                    &&& #[trigger] written_writer(
                        old(self).writers(),
                        final(self).writers(),
                        k,
                        w,
                        measurement_id@,
                        schemas@,
                    )
                    &&& match value {
                        None => r is Ok && final(self).writers()[k] == w,
                        Some(v) => ChunkWriter::wrote_point(w, final(self).writers()[k], timestamp, v@, r),
                    }
                },
    {
        let mut si: usize = 0;
        assert(schemas@.skip(0) =~= schemas@);
        while si < schemas.len() && !str_eq(schemas[si].measurement_id.as_str(), measurement_id)
            invariant
                si <= schemas@.len(),
                first_schema(schemas@, measurement_id@) == first_schema(schemas@.skip(si as int), measurement_id@),
                forall|j: int| 0 <= j < si ==> schemas@[j].measurement_id@ != measurement_id@,
            decreases schemas@.len() - si,
        {
            assert(schemas@.skip(si as int).drop_first() =~= schemas@.skip(si + 1));
            si = si + 1;
        }
        if si == schemas.len() {
            return Err(TsFileError::MeasurementNotFound(join3(self.device_id.as_str(), ".", measurement_id)));
        }
        let schema = schemas[si].duplicate();
        assert(schemas@.skip(si as int)[0] == schemas@[si as int]);
        assert(schema == first_schema(schemas@, measurement_id@));
        let ghost before = self.writers();
        self.register_schema(schema);
        let mut k: usize = 0;
        while k < self.chunk_writers.len() && !str_eq(self.chunk_writers[k].measurement(), measurement_id)
            invariant
                k <= self.chunk_writers@.len(),
                forall|j: int| 0 <= j < k ==> self.chunk_writers@[j].config().0 != measurement_id@,
            decreases self.chunk_writers@.len() - k,
        {
            k = k + 1;
        }
        proof {
            if k == self.chunk_writers.len() {
                if exists|i: int| 0 <= i < before.len() && before[i].config().0 == measurement_id@ {
                    let i = choose|i: int| 0 <= i < before.len() && before[i].config().0 == measurement_id@;
                    assert(self.chunk_writers@[i].config().0 == measurement_id@);
                } else {
                    assert(self.chunk_writers@[before.len() as int].config().0 == measurement_id@);
                }
            }
        }
        let ghost w = self.chunk_writers@[k as int];
        proof {
            if k < before.len() {
                assert(w == before[k as int]);
            } else {
                assert(k == before.len()) by {
                    if k > before.len() {
                        assert(self.chunk_writers@[before.len() as int].config().0 == measurement_id@);
                    }
                }
            }
            assert(w.can_write());
        }
        let r = match value {
            None => Ok(()),
            Some(v) => match v {
                EncodableValue::Boolean(b) => self.chunk_writers[k].write_bool(timestamp, b),
                EncodableValue::Int32(x) => self.chunk_writers[k].write_i32(timestamp, x),
                EncodableValue::Int64(x) => self.chunk_writers[k].write_i64(timestamp, x),
                EncodableValue::Binary(b) => self.chunk_writers[k].write_binary(timestamp, b),
            },
        };
        proof {
            assert(written_writer(before, self.writers(), k as int, w, measurement_id@, schemas@));
        }
        r
    }
}

} // verus!