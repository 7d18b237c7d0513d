//! Compression of page bytes.

use vstd::prelude::*;

use crate::common::enums::CompressionType;
use crate::error::{TsFileError, TsFileResult};

verus! {

/// Compresses pages with one compression type. Only `Uncompressed` is provided: every
/// other type is reported as unsupported when used.
pub struct Compressor {
    compression: CompressionType,
}

/// The compressor for `compression`.
pub fn create_compressor(compression: CompressionType) -> (c: Compressor)
    ensures
        c.compression_type() == compression,
{
    Compressor { compression }
}

impl Compressor {
    /// The compression type applied.
    pub closed spec fn compression_type(&self) -> CompressionType {
        self.compression
    }

    /// The compressed form of `data`: the bytes themselves when uncompressed, an
    /// `Unsupported` error for any other compression.
    pub fn compress(&self, data: &[u8]) -> (r: TsFileResult<Vec<u8>>)
        ensures
            self.compression_type() == CompressionType::Uncompressed ==> (r matches Ok(v) && v@
                == data@),
            self.compression_type() != CompressionType::Uncompressed ==> (r matches Err(
                TsFileError::Unsupported(_),
            )),
    {
        match self.compression {
            CompressionType::Uncompressed => Ok(vstd::slice::slice_to_vec(data)),
            _ => Err(TsFileError::Unsupported("Compression type is not available".to_string())),
        }
    }
}

/// Restores pages compressed with one compression type; as for compression, only
/// `Uncompressed` is provided.
pub struct Decompressor {
    compression: CompressionType,
}

/// The decompressor for `compression`.
pub fn create_decompressor(compression: CompressionType) -> (d: Decompressor)
    ensures
        d.compression_type() == compression,
{
    Decompressor { compression }
}

impl Decompressor {
    /// The compression type undone.
    pub closed spec fn compression_type(&self) -> CompressionType {
        self.compression
    }

    /// The `uncompressed_size` bytes that `data` stands for. Uncompressed data whose length
    /// is not `uncompressed_size` is a `DecodingError`; any other compression is
    /// `Unsupported`.
    pub fn decompress(&self, data: &[u8], uncompressed_size: usize) -> (r: TsFileResult<Vec<u8>>)
        ensures
            self.compression_type() == CompressionType::Uncompressed ==> {
                &&& data@.len() == uncompressed_size ==> (r matches Ok(v) && v@ == data@)
                &&& data@.len() != uncompressed_size ==> (r matches Err(
                    TsFileError::DecodingError(_),
                ))
            },
            self.compression_type() != CompressionType::Uncompressed ==> (r matches Err(
                TsFileError::Unsupported(_),
            )),
    {
        match self.compression {
            CompressionType::Uncompressed => {
                if data.len() != uncompressed_size {
                    return Err(
                        TsFileError::DecodingError(
                            "Uncompressed page size does not match its header".to_string(),
                        ),
                    );
                }
                Ok(vstd::slice::slice_to_vec(data))
            },
            _ => Err(TsFileError::Unsupported("Compression type is not available".to_string())),
        }
    }
}

} // verus!
