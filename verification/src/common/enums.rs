//! Codes of data types, encodings and compression types.

use vstd::prelude::*;

use crate::error::{TsFileError, TsFileResult};

verus! {

/// Type of the values of a time series.
#[derive(Clone, Copy, Debug, PartialEq, Eq, Structural, Hash)]
pub enum TSDataType {
    /// True or false.
    Boolean,
    /// 32-bit signed integer.
    Int32,
    /// 64-bit signed integer.
    Int64,
    /// 32-bit floating point.
    Float,
    /// 64-bit floating point.
    Double,
    /// Byte string.
    Text,
    /// Aligned group of columns.
    Vector,
    /// No type known.
    NullType,
    /// Point in time as a 64-bit integer.
    Timestamp,
    /// Calendar date as a 32-bit integer.
    Date,
    /// Uninterpreted bytes.
    Blob,
    /// Text with a character encoding.
    String,
}

impl TSDataType {
    /// The byte that stands for this value in a file.
    pub open spec fn code(self) -> u8 {
        match self {
            TSDataType::Boolean => 0,
            TSDataType::Int32 => 1,
            TSDataType::Int64 => 2,
            TSDataType::Float => 3,
            TSDataType::Double => 4,
            TSDataType::Text => 5,
            TSDataType::Vector => 6,
            TSDataType::NullType => 7,
            TSDataType::Timestamp => 8,
            TSDataType::Date => 9,
            TSDataType::Blob => 10,
            TSDataType::String => 11,
        }
    }

    /// The value that a byte stands for, if any.
    pub open spec fn from_code(b: u8) -> Option<TSDataType> {
        if b == 0 {
            Some(TSDataType::Boolean)
        } else if b == 1 {
            Some(TSDataType::Int32)
        } else if b == 2 {
            Some(TSDataType::Int64)
        } else if b == 3 {
            Some(TSDataType::Float)
        } else if b == 4 {
            Some(TSDataType::Double)
        } else if b == 5 {
            Some(TSDataType::Text)
        } else if b == 6 {
            Some(TSDataType::Vector)
        } else if b == 7 {
            Some(TSDataType::NullType)
        } else if b == 8 {
            Some(TSDataType::Timestamp)
        } else if b == 9 {
            Some(TSDataType::Date)
        } else if b == 10 {
            Some(TSDataType::Blob)
        } else if b == 11 {
            Some(TSDataType::String)
        } else {
            None
        }
    }

    /// The byte that stands for this value in a file.
    pub fn serialize(self) -> (b: u8)
        ensures
            b == self.code(),
    {
        match self {
            TSDataType::Boolean => 0,
            TSDataType::Int32 => 1,
            TSDataType::Int64 => 2,
            TSDataType::Float => 3,
            TSDataType::Double => 4,
            TSDataType::Text => 5,
            TSDataType::Vector => 6,
            TSDataType::NullType => 7,
            TSDataType::Timestamp => 8,
            TSDataType::Date => 9,
            TSDataType::Blob => 10,
            TSDataType::String => 11,
        }
    }

    /// The value that `b` stands for; an unknown byte is an `InvalidFileFormat` error.
    pub fn deserialize(b: u8) -> (r: TsFileResult<TSDataType>)
        ensures
            match TSDataType::from_code(b) {
                Some(t) => r == Ok::<TSDataType, TsFileError>(t),
                None => r matches Err(TsFileError::InvalidFileFormat(_)),
            },
    {
        if b == 0 {
            Ok(TSDataType::Boolean)
        } else if b == 1 {
            Ok(TSDataType::Int32)
        } else if b == 2 {
            Ok(TSDataType::Int64)
        } else if b == 3 {
            Ok(TSDataType::Float)
        } else if b == 4 {
            Ok(TSDataType::Double)
        } else if b == 5 {
            Ok(TSDataType::Text)
        } else if b == 6 {
            Ok(TSDataType::Vector)
        } else if b == 7 {
            Ok(TSDataType::NullType)
        } else if b == 8 {
            Ok(TSDataType::Timestamp)
        } else if b == 9 {
            Ok(TSDataType::Date)
        } else if b == 10 {
            Ok(TSDataType::Blob)
        } else if b == 11 {
            Ok(TSDataType::String)
        } else {
            Err(TsFileError::InvalidFileFormat("Invalid data type byte".to_string()))
        }
    }
}

/// Decoding the byte of a value gives the value back.
pub proof fn lemma_data_type_code_roundtrip(t: TSDataType)
    ensures
        TSDataType::from_code(t.code()) == Some(t),
{
}

/// A byte that decodes stands for the value it decodes to.
pub proof fn lemma_data_type_from_code_inverse(b: u8)
    ensures
        TSDataType::from_code(b) matches Some(t) ==> t.code() == b,
{
}

/// Encoding of the values of a time series.
#[derive(Clone, Copy, Debug, PartialEq, Eq, Structural, Hash)]
pub enum TSEncoding {
    /// Values as they are.
    Plain,
    /// Dictionary encoding.
    Dictionary,
    /// Run-length encoding.
    Rle,
    /// Difference encoding.
    Diff,
    /// Second-order difference encoding.
    Ts2diff,
    /// Bitmap encoding.
    Bitmap,
    /// First Gorilla variant.
    GorillaV1,
    /// Regular-interval encoding.
    Regular,
    /// Gorilla encoding.
    Gorilla,
    /// Zigzag encoding.
    Zigzag,
    /// Frequency-domain encoding.
    Freq,
    /// Chimp encoding.
    Chimp,
    /// Sprintz encoding.
    Sprintz,
    /// Run-length bit-packing encoding.
    Rlbe,
}

impl TSEncoding {
    /// The byte that stands for this value in a file.
    pub open spec fn code(self) -> u8 {
        match self {
            TSEncoding::Plain => 0,
            TSEncoding::Dictionary => 1,
            TSEncoding::Rle => 2,
            TSEncoding::Diff => 3,
            TSEncoding::Ts2diff => 4,
            TSEncoding::Bitmap => 5,
            TSEncoding::GorillaV1 => 6,
            TSEncoding::Regular => 7,
            TSEncoding::Gorilla => 8,
            TSEncoding::Zigzag => 9,
            TSEncoding::Freq => 10,
            TSEncoding::Chimp => 11,
            TSEncoding::Sprintz => 12,
            TSEncoding::Rlbe => 13,
        }
    }

    /// The value that a byte stands for, if any.
    pub open spec fn from_code(b: u8) -> Option<TSEncoding> {
        if b == 0 {
            Some(TSEncoding::Plain)
        } else if b == 1 {
            Some(TSEncoding::Dictionary)
        } else if b == 2 {
            Some(TSEncoding::Rle)
        } else if b == 3 {
            Some(TSEncoding::Diff)
        } else if b == 4 {
            Some(TSEncoding::Ts2diff)
        } else if b == 5 {
            Some(TSEncoding::Bitmap)
        } else if b == 6 {
            Some(TSEncoding::GorillaV1)
        } else if b == 7 {
            Some(TSEncoding::Regular)
        } else if b == 8 {
            Some(TSEncoding::Gorilla)
        } else if b == 9 {
            Some(TSEncoding::Zigzag)
        } else if b == 10 {
            Some(TSEncoding::Freq)
        } else if b == 11 {
            Some(TSEncoding::Chimp)
        } else if b == 12 {
            Some(TSEncoding::Sprintz)
        } else if b == 13 {
            Some(TSEncoding::Rlbe)
        } else {
            None
        }
    }

    /// The byte that stands for this value in a file.
    pub fn serialize(self) -> (b: u8)
        ensures
            b == self.code(),
    {
        match self {
            TSEncoding::Plain => 0,
            TSEncoding::Dictionary => 1,
            TSEncoding::Rle => 2,
            TSEncoding::Diff => 3,
            TSEncoding::Ts2diff => 4,
            TSEncoding::Bitmap => 5,
            TSEncoding::GorillaV1 => 6,
            TSEncoding::Regular => 7,
            TSEncoding::Gorilla => 8,
            TSEncoding::Zigzag => 9,
            TSEncoding::Freq => 10,
            TSEncoding::Chimp => 11,
            TSEncoding::Sprintz => 12,
            TSEncoding::Rlbe => 13,
        }
    }

    /// The value that `b` stands for; an unknown byte is an `InvalidFileFormat` error.
    pub fn deserialize(b: u8) -> (r: TsFileResult<TSEncoding>)
        ensures
            match TSEncoding::from_code(b) {
                Some(t) => r == Ok::<TSEncoding, TsFileError>(t),
                None => r matches Err(TsFileError::InvalidFileFormat(_)),
            },
    {
        if b == 0 {
            Ok(TSEncoding::Plain)
        } else if b == 1 {
            Ok(TSEncoding::Dictionary)
        } else if b == 2 {
            Ok(TSEncoding::Rle)
        } else if b == 3 {
            Ok(TSEncoding::Diff)
        } else if b == 4 {
            Ok(TSEncoding::Ts2diff)
        } else if b == 5 {
            Ok(TSEncoding::Bitmap)
        } else if b == 6 {
            Ok(TSEncoding::GorillaV1)
        } else if b == 7 {
            Ok(TSEncoding::Regular)
        } else if b == 8 {
            Ok(TSEncoding::Gorilla)
        } else if b == 9 {
            Ok(TSEncoding::Zigzag)
        } else if b == 10 {
            Ok(TSEncoding::Freq)
        } else if b == 11 {
            Ok(TSEncoding::Chimp)
        } else if b == 12 {
            Ok(TSEncoding::Sprintz)
        } else if b == 13 {
            Ok(TSEncoding::Rlbe)
        } else {
            Err(TsFileError::InvalidFileFormat("Invalid encoding byte".to_string()))
        }
    }
}

/// Decoding the byte of a value gives the value back.
pub proof fn lemma_encoding_code_roundtrip(t: TSEncoding)
    ensures
        TSEncoding::from_code(t.code()) == Some(t),
{
}

/// A byte that decodes stands for the value it decodes to.
pub proof fn lemma_encoding_from_code_inverse(b: u8)
    ensures
        TSEncoding::from_code(b) matches Some(t) ==> t.code() == b,
{
}

/// Compression of the pages of a chunk.
#[derive(Clone, Copy, Debug, PartialEq, Eq, Structural, Hash)]
pub enum CompressionType {
    /// No compression.
    Uncompressed,
    /// Snappy.
    Snappy,
    /// Gzip.
    Gzip,
    /// LZO.
    Lzo,
    /// SDT.
    Sdt,
    /// PAA.
    Paa,
    /// PLA.
    Pla,
    /// LZ4.
    Lz4,
    /// Zstandard.
    Zstd,
    /// LZMA2.
    Lzma2,
}

impl CompressionType {
    /// The byte that stands for this value in a file.
    pub open spec fn code(self) -> u8 {
        match self {
            CompressionType::Uncompressed => 0,
            CompressionType::Snappy => 1,
            CompressionType::Gzip => 2,
            CompressionType::Lzo => 3,
            CompressionType::Sdt => 4,
            CompressionType::Paa => 5,
            CompressionType::Pla => 6,
            CompressionType::Lz4 => 7,
            CompressionType::Zstd => 8,
            CompressionType::Lzma2 => 9,
        }
    }

    /// The value that a byte stands for, if any.
    pub open spec fn from_code(b: u8) -> Option<CompressionType> {
        if b == 0 {
            Some(CompressionType::Uncompressed)
        } else if b == 1 {
            Some(CompressionType::Snappy)
        } else if b == 2 {
            Some(CompressionType::Gzip)
        } else if b == 3 {
            Some(CompressionType::Lzo)
        } else if b == 4 {
            Some(CompressionType::Sdt)
        } else if b == 5 {
            Some(CompressionType::Paa)
        } else if b == 6 {
            Some(CompressionType::Pla)
        } else if b == 7 {
            Some(CompressionType::Lz4)
        } else if b == 8 {
            Some(CompressionType::Zstd)
        } else if b == 9 {
            Some(CompressionType::Lzma2)
        } else {
            None
        }
    }

    /// The byte that stands for this value in a file.
    pub fn serialize(self) -> (b: u8)
        ensures
            b == self.code(),
    {
        match self {
            CompressionType::Uncompressed => 0,
            CompressionType::Snappy => 1,
            CompressionType::Gzip => 2,
            CompressionType::Lzo => 3,
            CompressionType::Sdt => 4,
            CompressionType::Paa => 5,
            CompressionType::Pla => 6,
            CompressionType::Lz4 => 7,
            CompressionType::Zstd => 8,
            CompressionType::Lzma2 => 9,
        }
    }

    /// The value that `b` stands for; an unknown byte is an `InvalidFileFormat` error.
    pub fn deserialize(b: u8) -> (r: TsFileResult<CompressionType>)
        ensures
            match CompressionType::from_code(b) {
                Some(t) => r == Ok::<CompressionType, TsFileError>(t),
                None => r matches Err(TsFileError::InvalidFileFormat(_)),
            },
    {
        if b == 0 {
            Ok(CompressionType::Uncompressed)
        } else if b == 1 {
            Ok(CompressionType::Snappy)
        } else if b == 2 {
            Ok(CompressionType::Gzip)
        } else if b == 3 {
            Ok(CompressionType::Lzo)
        } else if b == 4 {
            Ok(CompressionType::Sdt)
        } else if b == 5 {
            Ok(CompressionType::Paa)
        } else if b == 6 {
            Ok(CompressionType::Pla)
        } else if b == 7 {
            Ok(CompressionType::Lz4)
        } else if b == 8 {
            Ok(CompressionType::Zstd)
        } else if b == 9 {
            Ok(CompressionType::Lzma2)
        } else {
            Err(TsFileError::InvalidFileFormat("Invalid compression type byte".to_string()))
        }
    }
}

/// Decoding the byte of a value gives the value back.
pub proof fn lemma_compression_type_code_roundtrip(t: CompressionType)
    ensures
        CompressionType::from_code(t.code()) == Some(t),
{
}

/// A byte that decodes stands for the value it decodes to.
pub proof fn lemma_compression_type_from_code_inverse(b: u8)
    ensures
        CompressionType::from_code(b) matches Some(t) ==> t.code() == b,
{
}

} // verus!
