//! The description of a query.

use vstd::prelude::*;

use crate::read::common::TimeRange;

verus! {

/// Which measurements of one device to read, and optionally over which times.
#[derive(Debug, Clone)]
pub struct QueryExpression {
    /// The device.
    pub device_id: String,
    /// The measurements.
    pub measurements: Vec<String>,
    /// The times, when restricted.
    pub time_range: Option<TimeRange>,
}

impl QueryExpression {
    /// A query of `measurements` of `device_id` over all times.
    pub fn new(device_id: String, measurements: Vec<String>) -> (q: Self)
        ensures
            q.device_id == device_id,
            q.measurements == measurements,
            q.time_range is None,
    {
        QueryExpression { device_id, measurements, time_range: None }
    }

    /// The query restricted to `time_range`.
    pub fn with_time_range(self, time_range: TimeRange) -> (q: Self)
        ensures
            q.device_id == self.device_id,
            q.measurements == self.measurements,
            q.time_range == Some(time_range),
    {
        let mut q = self;
        q.time_range = Some(time_range);
        q
    }
}

} // verus!
