//! Byte-level utilities of the format.


pub mod bloom_filter;
pub mod byte_order;
pub mod byte_reader;
pub mod message;
pub mod read_write_for_encoding;
pub mod read_write_io_utils;
pub mod text;
