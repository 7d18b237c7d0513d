//! Reading: query descriptions, time ranges and filters, the readers of chunks and
//! pages, and the sequential scan of a file's data region.

pub mod api;
pub mod block;
pub mod common;
pub mod controller;
pub mod dataset;
pub mod executor;
pub mod filter;
pub mod query;
pub mod reader;
pub mod result_set;
pub mod tsfile_sequence_reader;
pub mod v4;
