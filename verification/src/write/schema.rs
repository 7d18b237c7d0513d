//! Schemas of measurements and of the devices that carry them.

use vstd::prelude::*;

use crate::common::enums::{CompressionType, TSDataType, TSEncoding};
use crate::utils::text::str_eq;

verus! {

/// The schema of one measurement (time series).
#[derive(Debug, Clone)]
pub struct MeasurementSchema {
    /// The measurement name.
    pub measurement_id: String,
    /// The type of its values.
    pub data_type: TSDataType,
    /// The encoding of its values.
    pub encoding: TSEncoding,
    /// The compression of its pages.
    pub compression: CompressionType,
}

impl MeasurementSchema {
    /// A schema with the given fields.
    pub fn new(
        measurement_id: String,
        data_type: TSDataType,
        encoding: TSEncoding,
        compression: CompressionType,
    ) -> (s: Self)
        ensures
            s.measurement_id == measurement_id,
            s.data_type == data_type,
            s.encoding == encoding,
            s.compression == compression,
    {
        MeasurementSchema { measurement_id, data_type, encoding, compression }
    }

    /// A copy of the schema.
    pub(crate) fn duplicate(&self) -> (s: Self)
        ensures
            s == *self,
    {
        MeasurementSchema {
            measurement_id: self.measurement_id.clone(),
            data_type: self.data_type,
            encoding: self.encoding,
            compression: self.compression,
        }
    }
}

/// The measurement schemas of each device, devices in the order they were first
/// registered and each device's schemas in the order they were registered.
#[derive(Debug)]
pub struct Schema {
    device_ids: Vec<String>,
    measurement_schemas: Vec<Vec<MeasurementSchema>>,
}

impl Schema {
    /// The devices, each once.
    pub closed spec fn devices(&self) -> Seq<Seq<char>> {
        self.device_ids@.map_values(|d: String| d@)
    }

    /// The schemas of each device, in the order of `devices`.
    pub closed spec fn lists(&self) -> Seq<Seq<MeasurementSchema>> {
        self.measurement_schemas@.map_values(|l: Vec<MeasurementSchema>| l@)
    }

    /// Whether the devices are distinct and each has its list.
    pub closed spec fn wf(&self) -> bool {
        &&& self.device_ids@.len() == self.measurement_schemas@.len()
        &&& forall|i: int, j: int|
            0 <= i < j < self.device_ids@.len() ==> #[trigger] self.device_ids@[i]@
                != #[trigger] self.device_ids@[j]@
    }

    /// A schema without devices.
    pub fn new() -> (s: Self)
        ensures
            s.wf(),
            s.devices() == Seq::<Seq<char>>::empty(),
            s.lists() == Seq::<Seq<MeasurementSchema>>::empty(),
    {
        let s = Schema { device_ids: Vec::new(), measurement_schemas: Vec::new() };
        assert(s.devices() =~= Seq::<Seq<char>>::empty());
        assert(s.lists() =~= Seq::<Seq<MeasurementSchema>>::empty());
        s
    }

    fn find_device(&self, device_id: &str) -> (r: Option<usize>)
        requires
            self.wf(),
        ensures
            r matches Some(i) ==> i < self.devices().len() && self.devices()[i as int]
                == device_id@,
            r is None ==> forall|i: int|
                0 <= i < self.devices().len() ==> self.devices()[i] != device_id@,
    {
        let mut i: usize = 0;
        while i < self.device_ids.len()
            invariant
                i <= self.device_ids@.len(),
                forall|k: int| 0 <= k < i ==> self.devices()[k] != device_id@,
            decreases self.device_ids@.len() - i,
        {
            if str_eq(self.device_ids[i].as_str(), device_id) {
                return Some(i);
            }
            i = i + 1;
        }
        None
    }

    /// Adds `schema` to the schemas of `device_id`, registering the device if it is new.
    pub fn register_timeseries(&mut self, device_id: String, schema: MeasurementSchema)
        requires
            old(self).wf(),
        ensures
            final(self).wf(),
            (exists|i: int| 0 <= i < old(self).devices().len() && old(self).devices()[i] == device_id@)
                ==> {
                &&& final(self).devices() == old(self).devices()
                &&& forall|i: int|
                    0 <= i < old(self).devices().len() ==> #[trigger] final(self).lists()[i] == if old(
                        self,
                    ).devices()[i] == device_id@ {
                        old(self).lists()[i].push(schema)
                    } else {
                        old(self).lists()[i]
                    }
                &&& final(self).lists().len() == old(self).lists().len()
            },
            !(exists|i: int|
                0 <= i < old(self).devices().len() && old(self).devices()[i] == device_id@) ==> {
                &&& final(self).devices() == old(self).devices().push(device_id@)
                &&& final(self).lists() == old(self).lists().push(seq![schema])
            },
    {
        match self.find_device(device_id.as_str()) {
            Some(i) => {
                let mut list = self.measurement_schemas.remove(i);
                list.push(schema);
                self.measurement_schemas.insert(i, list);
                proof {
                    assert forall|k: int| 0 <= k < old(self).devices().len() implies #[trigger] self.lists()[k]
                        == if old(self).devices()[k] == device_id@ {
                        old(self).lists()[k].push(schema)
                    } else {
                        old(self).lists()[k]
                    } by {
                        if k != i {
                            assert(old(self).devices()[k] != old(self).devices()[i as int]);
                        }
                    }
                    assert(self.devices() =~= old(self).devices());
                }
            },
            None => {
                let ghost d = device_id@;
                self.device_ids.push(device_id);
                let mut list: Vec<MeasurementSchema> = Vec::new();
                list.push(schema);
                self.measurement_schemas.push(list);
                proof {
                    assert(self.devices() =~= old(self).devices().push(d));
                    assert(self.lists() =~= old(self).lists().push(seq![schema]));
                    assert forall|i: int, j: int|
                        0 <= i < j < self.device_ids@.len() implies #[trigger] self.device_ids@[i]@
                        != #[trigger] self.device_ids@[j]@ by {
                        if j == self.device_ids@.len() - 1 {
                            assert(old(self).devices()[i] != d);
                        }
                    }
                }
            },
        }
    }

    /// The first schema of `device_id` named `measurement_id`, if any.
    pub fn get_schema(&self, device_id: &str, measurement_id: &str) -> (r: Option<&MeasurementSchema>)
        requires
            self.wf(),
        ensures
            r is None <==> !exists|i: int, j: int|
                0 <= i < self.devices().len() && self.devices()[i] == device_id@ && 0 <= j
                    < self.lists()[i].len() && #[trigger] self.lists()[i][j].measurement_id@
                    == measurement_id@,
            r matches Some(s) ==> exists|i: int, j: int|
                0 <= i < self.devices().len() && self.devices()[i] == device_id@ && 0 <= j
                    < self.lists()[i].len() && self.lists()[i][j] == *s
                    && s.measurement_id@ == measurement_id@ && forall|k: int|
                    0 <= k < j ==> #[trigger] self.lists()[i][k].measurement_id@
                        != measurement_id@,
    {
        let i = match self.find_device(device_id) {
            Some(i) => i,
            None => {
                return None;
            },
        };
        let list = &self.measurement_schemas[i];
        let mut j: usize = 0;
        while j < list.len()
            invariant
                i < self.devices().len(),
                self.devices()[i as int] == device_id@,
                list@ == self.lists()[i as int],
                j <= list@.len(),
                forall|k: int| 0 <= k < j ==> #[trigger] list@[k].measurement_id@ != measurement_id@,
            decreases list@.len() - j,
        {
            if str_eq(list[j].measurement_id.as_str(), measurement_id) {
                return Some(&list[j]);
            }
            j = j + 1;
        }
        proof {
            assert forall|a: int, b: int|
                0 <= a < self.devices().len() && self.devices()[a] == device_id@ && 0 <= b
                    < self.lists()[a].len() implies #[trigger] self.lists()[a][b].measurement_id@
                != measurement_id@ by {
                if a != i {
                    assert(self.device_ids@[a]@ == self.device_ids@[i as int]@);
                }
            }
        }
        None
    }
}

} // verus!
