//! Builder of a file reader.

use vstd::prelude::*;

verus! {

/// The path of a file to read.
#[derive(Debug, Clone)]
pub struct TsFileReaderBuilder {
    path: String,
}

impl TsFileReaderBuilder {
    /// The path of the file.
    pub closed spec fn file_path(&self) -> Seq<char> {
        self.path@
    }

    /// A builder for the file at `path`.
    pub fn new(path: &str) -> (b: Self)
        ensures
            b.file_path() == path@,
    {
        TsFileReaderBuilder { path: path.to_owned() }
    }
}

} // verus!
