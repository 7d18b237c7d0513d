//! Marker bytes that open the sections of a file.

use vstd::prelude::*;

verus! {

/// Opens a chunk group.
pub const CHUNK_GROUP_HEADER: u8 = 0;

/// Opens a chunk of several pages, whose page headers carry statistics.
pub const CHUNK_HEADER: u8 = 1;

/// Separates the data from the index.
pub const SEPARATOR: u8 = 2;

/// Opens an operation index range.
pub const OPERATION_INDEX_RANGE: u8 = 4;

/// Opens a chunk of a single page, whose page header carries no statistics.
pub const ONLY_ONE_PAGE_CHUNK_HEADER: u8 = 5;

/// Bit that marks the time chunk of an aligned series, over `CHUNK_HEADER`.
pub const TIME_CHUNK_HEADER: u8 = 0x81;

/// Bit that marks a value chunk of an aligned series, over `CHUNK_HEADER`.
pub const VALUE_CHUNK_HEADER: u8 = 0x41;

/// The time chunk of an aligned series with a single page.
pub const ONLY_ONE_PAGE_TIME_CHUNK_HEADER: u8 = 0x85;

/// A value chunk of an aligned series with a single page.
pub const ONLY_ONE_PAGE_VALUE_CHUNK_HEADER: u8 = 0x45;

} // verus!
