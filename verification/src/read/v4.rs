//! Builders of the tree-model and table-model readers.

use vstd::prelude::*;

verus! {

/// The path of a file to read with the tree model.
#[derive(Debug, Clone)]
pub struct TsFileTreeReaderBuilder {
    path: String,
}

impl TsFileTreeReaderBuilder {
    /// The path of the file.
    pub closed spec fn file_path(&self) -> Seq<char> {
        self.path@
    }

    /// A builder for the file at `path`.
    pub fn new(path: &str) -> (b: Self)
        ensures
            b.file_path() == path@,
    {
        TsFileTreeReaderBuilder { path: path.to_owned() }
    }
}

/// The path of a file to read with the table model.
#[derive(Debug, Clone)]
pub struct DeviceTableModelReaderBuilder {
    path: String,
}

impl DeviceTableModelReaderBuilder {
    /// The path of the file.
    pub closed spec fn file_path(&self) -> Seq<char> {
        self.path@
    }

    /// A builder for the file at `path`.
    pub fn new(path: &str) -> (b: Self)
        ensures
            b.file_path() == path@,
    {
        DeviceTableModelReaderBuilder { path: path.to_owned() }
    }
}

} // verus!
