//! Time ranges, series paths and raw chunks.

use vstd::prelude::*;

use crate::file::header::ChunkHeader;
use crate::file::statistics::Statistics;
use crate::utils::text::{clone_strings, join3};

verus! {

/// An interval of times, each end closed or open.
#[derive(Debug, Clone, Copy, PartialEq, Eq, Structural, PartialOrd, Ord)]
pub struct TimeRange {
    /// The lower end.
    pub min: i64,
    /// The upper end.
    pub max: i64,
    /// Whether `min` belongs to the range.
    pub left_closed: bool,
    /// Whether `max` belongs to the range.
    pub right_closed: bool,
}

impl TimeRange {
    /// Whether `time` lies in the range.
    pub open spec fn has(self, time: i64) -> bool {
        &&& if self.left_closed { time >= self.min } else { time > self.min }
        &&& if self.right_closed { time <= self.max } else { time < self.max }
    }

    /// Whether the range holds both ends of `other`.
    pub open spec fn holds_range(self, other: TimeRange) -> bool {
        self.has(other.min) && self.has(other.max)
    }

    /// Whether an end of either range lies in the other.
    pub open spec fn meets(self, other: TimeRange) -> bool {
        self.has(other.min) || self.has(other.max) || other.has(self.min) || other.has(self.max)
    }

    /// The closed range from `min` to `max`.
    pub fn new(min: i64, max: i64) -> (r: Self)
        requires
            min <= max,
        ensures
            r == (TimeRange { min, max, left_closed: true, right_closed: true }),
    {
        TimeRange::with_bounds(min, max, true, true)
    }

    /// The range from `min` to `max` with the given ends. `min` must not exceed `max`.
    pub fn with_bounds(min: i64, max: i64, left_closed: bool, right_closed: bool) -> (r: Self)
        requires
            min <= max,
        ensures
            r == (TimeRange { min, max, left_closed, right_closed }),
    {
        TimeRange { min, max, left_closed, right_closed }
    }

    /// Whether `time` lies in the range.
    pub fn contains_time(&self, time: i64) -> (b: bool)
        ensures
            b == self.has(time),
    {
        let left = if self.left_closed {
            time >= self.min
        } else {
            time > self.min
        };
        let right = if self.right_closed {
            time <= self.max
        } else {
            time < self.max
        };
        left && right
    }

    /// Whether both ends of `other` lie in the range.
    pub fn contains_range(&self, other: TimeRange) -> (b: bool)
        ensures
            b == self.holds_range(other),
    {
        self.contains_time(other.min) && self.contains_time(other.max)
    }

    /// Whether an end of either range lies in the other.
    pub fn intersects(&self, other: TimeRange) -> (b: bool)
        ensures
            b == self.meets(other),
    {
        self.contains_time(other.min) || self.contains_time(other.max) || other.contains_time(
            self.min,
        ) || other.contains_time(self.max)
    }
}

/// A range that holds both ends of another holds every time of it.
pub proof fn lemma_contains_range_holds_times(a: TimeRange, b: TimeRange, t: i64)
    requires
        a.holds_range(b),
        b.has(t),
    ensures
        a.has(t),
{
}

/// Whether two ranges intersect does not depend on their order.
pub proof fn lemma_intersects_symmetric(a: TimeRange, b: TimeRange)
    ensures
        a.meets(b) == b.meets(a),
{
}

/// Two closed ranges intersect exactly when some time lies in both.
pub proof fn lemma_closed_intersects_iff_common_time(a: TimeRange, b: TimeRange)
    requires
        a.left_closed && a.right_closed,
        b.left_closed && b.right_closed,
        a.min <= a.max,
        b.min <= b.max,
    ensures
        a.meets(b) <==> exists|t: i64| a.has(t) && b.has(t),
{
    if exists|t: i64| a.has(t) && b.has(t) {
        let t = choose|t: i64| a.has(t) && b.has(t);
        if a.min <= b.min {
            assert(a.has(b.min));
        } else {
            assert(b.has(a.min));
        }
    }
    if a.meets(b) {
        if a.has(b.min) {
            assert(a.has(b.min) && b.has(b.min));
        } else if a.has(b.max) {
            assert(a.has(b.max) && b.has(b.max));
        } else if b.has(a.min) {
            assert(a.has(a.min) && b.has(a.min));
        } else {
            assert(a.has(a.max) && b.has(a.max));
        }
    }
}

/// A series path: a device and one of its measurements.
#[derive(Debug, Clone, PartialEq, Eq, Hash)]
pub struct Path {
    /// The device.
    pub device: String,
    /// The measurement.
    pub measurement: String,
}

impl Path {
    /// The path of `measurement` of `device`.
    pub fn new(device: String, measurement: String) -> (p: Self)
        ensures
            p.device == device,
            p.measurement == measurement,
    {
        Path { device, measurement }
    }

    /// The device and the measurement joined by a dot.
    pub fn full_path(&self) -> (s: String)
        ensures
            s@ == self.device@ + "."@ + self.measurement@,
    {
        join3(self.device.as_str(), ".", self.measurement.as_str())
    }
}

/// A series named by its device and its measurement.
#[derive(Debug, Clone, PartialEq, Eq, Hash)]
pub struct TimeSeries {
    /// The device.
    pub device_id: String,
    /// The measurement.
    pub measurement_name: String,
}

impl TimeSeries {
    /// The series `measurement_name` of `device_id`.
    pub fn new(device_id: String, measurement_name: String) -> (t: Self)
        ensures
            t.device_id == device_id,
            t.measurement_name == measurement_name,
    {
        TimeSeries { device_id, measurement_name }
    }

    /// One series of `device_id` for each of `measurements`, in order.
    pub fn path_list(device_id: String, measurements: &[String]) -> (out: Vec<TimeSeries>)
        ensures
            out@.len() == measurements@.len(),
            forall|i: int|
                0 <= i < out@.len() ==> (#[trigger] out@[i]).device_id == device_id
                    && out@[i].measurement_name == measurements@[i],
    {
        let names = clone_strings(measurements);
        let mut out: Vec<TimeSeries> = Vec::with_capacity(names.len());
        let mut i: usize = 0;
        while i < names.len()
            invariant
                names@ == measurements@,
                i <= names@.len(),
                out@.len() == i,
                forall|j: int|
                    0 <= j < i ==> (#[trigger] out@[j]).device_id == device_id
                        && out@[j].measurement_name == measurements@[j],
            decreases names@.len() - i,
        {
            out.push(TimeSeries::new(device_id.clone(), names[i].clone()));
            i = i + 1;
        }
        out
    }
}

/// The bytes of a chunk with its header, deleted intervals and statistics.
#[derive(Debug, Clone)]
pub struct Chunk {
    /// The chunk header.
    pub header: ChunkHeader,
    /// The bytes of the pages.
    pub data: Vec<u8>,
    /// The time ranges deleted from the chunk.
    pub delete_interval_list: Vec<TimeRange>,
    /// The statistics of the chunk, when known.
    pub statistics: Option<Statistics>,
}

impl Chunk {
    /// A chunk with nothing deleted and no statistics.
    pub fn new(header: ChunkHeader, data: Vec<u8>) -> (c: Self)
        ensures
            c.header == header,
            c.data == data,
            c.delete_interval_list@ == Seq::<TimeRange>::empty(),
            c.statistics is None,
    {
        Chunk { header, data, delete_interval_list: Vec::new(), statistics: None }
    }

    /// A chunk with its deleted intervals and statistics.
    pub fn with_statistics(
        header: ChunkHeader,
        data: Vec<u8>,
        delete_interval_list: Vec<TimeRange>,
        statistics: Statistics,
    ) -> (c: Self)
        ensures
            c.header == header,
            c.data == data,
            c.delete_interval_list == delete_interval_list,
            c.statistics == Some(statistics),
    {
        Chunk { header, data, delete_interval_list, statistics: Some(statistics) }
    }
}

} // verus!
