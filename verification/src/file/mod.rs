//! Structures of the file layout: statistics, page and chunk headers, markers.

pub mod header;
pub mod meta_marker;
pub mod statistics;
pub mod table_schema;
