//! Readers of the pages of one chunk.

pub mod aligned_chunk_reader;
pub mod block_reader;
pub mod chunk_reader;
pub mod chunk_roundtrip;
pub mod page_reader;
