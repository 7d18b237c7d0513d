//! Readers of blocks of rows.

use vstd::prelude::*;

verus! {

/// A reader that has no block to hand out.
#[derive(Debug, Default, Clone, Copy)]
pub struct EmptyTsBlockReader;

impl EmptyTsBlockReader {
    /// Whether a block is left: never.
    pub fn has_next(&self) -> (b: bool)
        ensures
            !b,
    {
        false
    }
}

} // verus!
