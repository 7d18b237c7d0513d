//! Types shared by the read and write sides.

pub mod enums;
