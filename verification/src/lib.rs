//! Verified core of a TsFile (time-series file format) library: the byte-level
//! encodings of the format, its bloom filter, the page and chunk writers, and the
//! decoders and readers that give back what they wrote.

pub mod common;
pub mod compress;
pub mod encoding;
pub mod error;
pub mod file;
pub mod read;
pub mod utils;
pub mod write;
