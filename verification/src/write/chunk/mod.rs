//! Page, chunk and chunk group writers.

pub mod aligned_chunk_group_writer_impl;
pub mod aligned_chunk_writer;
pub mod aligned_chunk_writer_impl;
pub mod chunk_group_writer;
pub mod chunk_writer;
pub mod chunk_writer_impl;
pub mod non_aligned_chunk_group_writer_impl;
pub mod page_writer;
pub mod table_chunk_group_writer_impl;
pub mod time_chunk_writer;
pub mod value_chunk_writer;
