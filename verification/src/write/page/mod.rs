//! Page writers for the columns of aligned series.

pub mod page_writer;
pub mod time_page_writer;
pub mod value_page_writer;
