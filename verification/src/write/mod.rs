//! Writing: pages, chunks, chunk groups and schemas.

pub mod builder;
pub mod chunk;
pub mod page;
pub mod record;
pub mod schema;
