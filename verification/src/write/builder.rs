//! Builder of the settings of a file writer.

use vstd::prelude::*;

use crate::write::schema::Schema;

verus! {

/// The settings of a file writer, gathered step by step.
#[derive(Debug)]
pub struct TsFileWriterBuilder {
    path: String,
    schema: Option<Schema>,
    chunk_group_size_threshold: Option<usize>,
    is_unseq: bool,
}

impl TsFileWriterBuilder {
    /// The path of the file.
    pub closed spec fn file_path(&self) -> Seq<char> {
        self.path@
    }

    /// The schema, if one was given.
    pub closed spec fn given_schema(&self) -> Option<Schema> {
        self.schema
    }

    /// The chunk group size threshold, if one was given.
    pub closed spec fn given_threshold(&self) -> Option<usize> {
        self.chunk_group_size_threshold
    }

    /// Whether the file holds unsequenced data.
    pub closed spec fn unsequenced(&self) -> bool {
        self.is_unseq
    }

    /// Settings for a file at `path`, with nothing else given.
    pub fn new(path: &str) -> (b: Self)
        ensures
            b.file_path() == path@,
            b.given_schema() is None,
            b.given_threshold() is None,
            !b.unsequenced(),
    {
        TsFileWriterBuilder {
            path: path.to_owned(),
            schema: None,
            chunk_group_size_threshold: None,
            is_unseq: false,
        }
    }

    /// The settings with `schema`.
    pub fn with_schema(self, schema: Schema) -> (b: Self)
        ensures
            b.file_path() == self.file_path(),
            b.given_schema() == Some(schema),
            b.given_threshold() == self.given_threshold(),
            b.unsequenced() == self.unsequenced(),
    {
        let mut b = self;
        b.schema = Some(schema);
        b
    }

    /// The settings with a chunk group size threshold.
    pub fn with_chunk_group_size_threshold(self, threshold: usize) -> (b: Self)
        ensures
            b.file_path() == self.file_path(),
            b.given_schema() == self.given_schema(),
            b.given_threshold() == Some(threshold),
            b.unsequenced() == self.unsequenced(),
    {
        let mut b = self;
        b.chunk_group_size_threshold = Some(threshold);
        b
    }

    /// The settings with the unsequenced flag.
    pub fn with_unseq(self, is_unseq: bool) -> (b: Self)
        ensures
            b.file_path() == self.file_path(),
            b.given_schema() == self.given_schema(),
            b.given_threshold() == self.given_threshold(),
            b.unsequenced() == is_unseq,
    {
        let mut b = self;
        b.is_unseq = is_unseq;
        b
    }
}

} // verus!
