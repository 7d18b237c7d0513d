//! Records: the values of several measurements of one device at one time.

use vstd::prelude::*;

use crate::common::enums::TSDataType;
use crate::encoding::encoder::ValueView;
use crate::utils::read_write_io_utils::Binary;

verus! {

/// The value of a data point. Floating-point values are not held.
#[derive(Debug, Clone)]
pub enum DataPointValue {
    /// A boolean.
    Boolean(bool),
    /// A 32-bit integer.
    Int32(i32),
    /// A 64-bit integer.
    Int64(i64),
    /// A byte string.
    Text(Binary),
    /// No value.
    Null,
}

impl View for DataPointValue {
    type V = Option<ValueView>;

    open spec fn view(&self) -> Option<ValueView> {
        match self {
            DataPointValue::Boolean(b) => Some(ValueView::Boolean(*b)),
            DataPointValue::Int32(x) => Some(ValueView::Int32(*x)),
            DataPointValue::Int64(x) => Some(ValueView::Int64(*x)),
            DataPointValue::Text(b) => Some(ValueView::Binary(b@)),
            DataPointValue::Null => None,
        }
    }
}

/// One measurement and its value.
#[derive(Debug, Clone)]
pub struct DataPoint {
    /// The measurement.
    pub measurement_id: String,
    /// The value.
    pub value: DataPointValue,
}

impl View for DataPoint {
    type V = (Seq<char>, Option<ValueView>);

    open spec fn view(&self) -> (Seq<char>, Option<ValueView>) {
        (self.measurement_id@, self.value@)
    }
}

impl DataPoint {
    /// A boolean point of `measurement_id`.
    pub fn new_bool(measurement_id: String, value: bool) -> (p: Self)
        ensures
            p@ == (measurement_id@, Some(ValueView::Boolean(value))),
    {
        DataPoint { measurement_id, value: DataPointValue::Boolean(value) }
    }

    /// A 32-bit point of `measurement_id`.
    pub fn new_i32(measurement_id: String, value: i32) -> (p: Self)
        ensures
            p@ == (measurement_id@, Some(ValueView::Int32(value))),
    {
        DataPoint { measurement_id, value: DataPointValue::Int32(value) }
    }

    /// A 64-bit point of `measurement_id`.
    pub fn new_i64(measurement_id: String, value: i64) -> (p: Self)
        ensures
            p@ == (measurement_id@, Some(ValueView::Int64(value))),
    {
        DataPoint { measurement_id, value: DataPointValue::Int64(value) }
    }

    /// A byte-string point of `measurement_id`.
    pub fn new_text(measurement_id: String, value: Binary) -> (p: Self)
        ensures
            p@ == (measurement_id@, Some(ValueView::Binary(value@))),
    {
        DataPoint { measurement_id, value: DataPointValue::Text(value) }
    }

    /// The type of the value: `Text` for a byte string, `NullType` for no value.
    pub fn data_type(&self) -> (t: TSDataType)
        ensures
            t == match self.value@ {
                Some(ValueView::Boolean(_)) => TSDataType::Boolean,
                Some(ValueView::Int32(_)) => TSDataType::Int32,
                Some(ValueView::Int64(_)) => TSDataType::Int64,
                Some(ValueView::Binary(_)) => TSDataType::Text,
                None => TSDataType::NullType,
            },
    {
        match &self.value {
            DataPointValue::Boolean(_) => TSDataType::Boolean,
            DataPointValue::Int32(_) => TSDataType::Int32,
            DataPointValue::Int64(_) => TSDataType::Int64,
            DataPointValue::Text(_) => TSDataType::Text,
            DataPointValue::Null => TSDataType::NullType,
        }
    }
}

/// The points of a device at one time.
#[derive(Debug, Clone)]
pub struct TSRecord {
    /// The time.
    pub timestamp: i64,
    /// The device.
    pub device_id: String,
    /// The points, in the order they were added.
    pub data_points: Vec<DataPoint>,
}

/// The abstract forms of points.
pub open spec fn point_list(ps: Seq<DataPoint>) -> Seq<(Seq<char>, Option<ValueView>)> {
    ps.map_values(|p: DataPoint| p@)
}

impl TSRecord {
    /// A record of `device_id` at `timestamp` with no point.
    pub fn new(timestamp: i64, device_id: String) -> (r: Self)
        ensures
            r.timestamp == timestamp,
            r.device_id == device_id,
            r.data_points@ == Seq::<DataPoint>::empty(),
    {
        TSRecord { timestamp, device_id, data_points: Vec::new() }
    }

    /// Adds `data_point` after the points already there.
    pub fn add_tuple(&mut self, data_point: DataPoint)
        ensures
            final(self).timestamp == old(self).timestamp,
            final(self).device_id == old(self).device_id,
            final(self).data_points@ == old(self).data_points@.push(data_point),
    {
        self.data_points.push(data_point);
    }
}

} // verus!
