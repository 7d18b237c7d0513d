//! The per-device tasks of a table query, and the builder of query executors.

use vstd::prelude::*;

use std::collections::VecDeque;

use crate::utils::text::clone_strings;

verus! {

/// In which order a table query hands out its rows.
#[derive(Debug, Clone, Copy, PartialEq, Eq, Structural)]
pub enum TableQueryOrdering {
    /// Device by device.
    Device,
    /// By time across devices.
    Time,
}

/// The columns to read of one device.
#[derive(Debug, Clone)]
pub struct DeviceQueryTask {
    /// The device.
    pub device_id: String,
    /// The columns.
    pub column_names: Vec<String>,
}

/// The tasks of a query, one per device, handed out in the order of the devices.
#[derive(Debug, Clone)]
pub struct DeviceTaskIterator {
    tasks: VecDeque<DeviceQueryTask>,
}

impl DeviceTaskIterator {
    /// The devices of the tasks not yet handed out, in order.
    pub closed spec fn devices(&self) -> Seq<Seq<char>> {
        self.tasks@.map_values(|t: DeviceQueryTask| t.device_id@)
    }

    /// Whether every task not yet handed out reads exactly `columns`.
    pub closed spec fn reads_columns(&self, columns: Seq<String>) -> bool {
        forall|i: int| 0 <= i < self.tasks@.len() ==> (#[trigger] self.tasks@[i]).column_names@ == columns
    }

    /// One task per device of `device_ids`, in order, each reading `column_names`.
    pub fn new(device_ids: &[String], column_names: &[String]) -> (it: Self)
        ensures
            it.devices() == device_ids@.map_values(|d: String| d@),
            it.reads_columns(column_names@),
    {
        let mut tasks: VecDeque<DeviceQueryTask> = VecDeque::new();
        let mut i: usize = 0;
        while i < device_ids.len()
            invariant
                i <= device_ids@.len(),
                tasks@.len() == i,
                forall|j: int|
                    0 <= j < i ==> (#[trigger] tasks@[j]).device_id == device_ids@[j]
                        && tasks@[j].column_names@ == column_names@,
            decreases device_ids@.len() - i,
        {
            let task = DeviceQueryTask {
                device_id: device_ids[i].clone(),
                column_names: clone_strings(column_names),
            };
            tasks.push_back(task);
            i = i + 1;
        }
        let it = DeviceTaskIterator { tasks };
        assert(it.devices() =~= device_ids@.map_values(|d: String| d@));
        it
    }

    /// Hands out the next task, or `None` once all are handed out.
    pub fn next(&mut self) -> (t: Option<DeviceQueryTask>)
        ensures
            old(self).devices().len() == 0 ==> t is None && final(self).devices() == old(
                self,
            ).devices(),
            old(self).devices().len() > 0 ==> t is Some && t->0.device_id@ == old(
                self,
            ).devices()[0] && final(self).devices() == old(self).devices().drop_first(),
            forall|columns: Seq<String>|
                old(self).reads_columns(columns) ==> final(self).reads_columns(columns) && (
                t is Some ==> t->0.column_names@ == columns),
    {
        let t = self.tasks.pop_front();
        proof {
            if old(self).tasks@.len() > 0 {
                assert(self.devices() =~= old(self).devices().drop_first());
            }
        }
        t
    }
}

/// The file on which query executors are built.
#[derive(Debug, Clone)]
pub struct QueryExecutorBuilder {
    path: String,
}

impl QueryExecutorBuilder {
    /// The path of the file.
    pub closed spec fn file_path(&self) -> Seq<char> {
        self.path@
    }

    /// A builder for the file at `path`.
    pub fn new(path: &str) -> (b: Self)
        ensures
            b.file_path() == path@,
    {
        QueryExecutorBuilder { path: path.to_owned() }
    }
}

} // verus!
