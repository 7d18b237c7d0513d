//! Error type of the library.

use vstd::prelude::*;

verus! {

/// Errors reported by the library.
#[derive(Debug, Clone)]
pub enum TsFileError {
    /// The underlying input ended early or could not be read.
    Io(String),
    /// Bytes that do not decode as the expected value.
    DecodingError(String),
    /// A value that cannot be encoded as requested.
    EncodingError(String),
    /// A malformed primitive in the input (negative length, invalid text).
    ReadError(String),
    /// An unknown type, encoding or compression code, or an inconsistent layout.
    InvalidFileFormat(String),
    /// A measurement that has no registered schema.
    MeasurementNotFound(String),
    /// A feature of the format that this library does not provide.
    Unsupported(String),
    /// A byte where a section marker is expected that opens no known section.
    InvalidMarker(u8),
    /// A file that does not end with the closing magic bytes.
    InvalidMagicString,
}

/// Result type of the library.
pub type TsFileResult<T> = Result<T, TsFileError>;

} // verus!
