//! A page writer behind the interface of the page writers.

use vstd::prelude::*;

use crate::common::enums::{TSDataType, TSEncoding};
use crate::write::chunk::page_writer::PageWriter as InnerPageWriter;

verus! {

/// A page writer.
pub struct PageWriter {
    inner: InnerPageWriter,
}

impl PageWriter {
    /// The page writer inside.
    pub closed spec fn wrapped(&self) -> InnerPageWriter {
        self.inner
    }

    /// An empty page for values of `data_type` in `encoding`, full at `max_points`.
    pub fn new(data_type: TSDataType, encoding: TSEncoding, max_points: usize) -> (p: Self)
        ensures
            InnerPageWriter::fresh(p.wrapped(), data_type, encoding, max_points),
    {
        PageWriter { inner: InnerPageWriter::new(data_type, encoding, max_points) }
    }

    /// The page writer inside.
    pub fn inner(&self) -> (p: &InnerPageWriter)
        ensures
            *p == self.wrapped(),
    {
        &self.inner
    }

    /// The page writer inside, to change.
    pub fn inner_mut(&mut self) -> (p: &mut InnerPageWriter)
        ensures
            *p == old(self).wrapped(),
            final(self).wrapped() == *final(p),
    {
        &mut self.inner
    }

    /// The page writer inside.
    pub fn into_inner(self) -> (p: InnerPageWriter)
        ensures
            p == self.wrapped(),
    {
        self.inner
    }
}

} // verus!
