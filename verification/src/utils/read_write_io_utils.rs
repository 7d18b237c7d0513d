//! Primitive values of the format: single bytes, big-endian integers, length-prefixed
//! strings and byte strings, and the codes of types, encodings and compressions.

use vstd::prelude::*;
use vstd::string::StringExecFns;
use vstd::string::StringSliceAdditionalSpecFns;
use vstd::utf8::{decode_utf8, encode_utf8, valid_utf8};

use crate::common::enums::{CompressionType, TSDataType, TSEncoding};
use crate::error::{TsFileError, TsFileResult};
use crate::utils::byte_order::{
    be_bytes_u16, be_bytes_u32, be_bytes_u64, be_i16_bytes, be_i32_bytes, be_i64_bytes, be_read_i16,
    be_read_i32, be_read_i64, be_value_u16, be_value_u32, be_value_u64,
};
use crate::utils::byte_reader::ByteReader;
use crate::utils::message::number_message;
use crate::utils::read_write_for_encoding::{
    lemma_uvarint_bytes_len, lemma_varint_roundtrip, unzigzag, uvarint_decode, varint_bytes,
    zigzag, ReadWriteForEncodingUtils, VarIntScan,
};

verus! {

/// Raw bytes of a text value.
#[derive(Debug, Clone, PartialEq, Eq, Hash)]
pub struct Binary(pub Vec<u8>);

impl View for Binary {
    type V = Seq<u8>;

    open spec fn view(&self) -> Seq<u8> {
        self.0@
    }
}

impl Default for Binary {
    fn default() -> (b: Self)
        ensures
            b@ == Seq::<u8>::empty(),
    {
        Binary(Vec::new())
    }
}

impl Binary {
    /// Wraps `data`.
    pub fn new(data: Vec<u8>) -> (b: Self)
        ensures
            b@ == data@,
    {
        Binary(data)
    }

    /// The UTF-8 bytes of `s`.
    pub fn from_str(s: &str) -> (b: Self)
        ensures
            b@ == s.spec_bytes(),
    {
        Binary(vstd::slice::slice_to_vec(s.as_bytes()))
    }

    /// The bytes.
    pub fn as_bytes(&self) -> (s: &[u8])
        ensures
            s@ == self@,
    {
        self.0.as_slice()
    }

    /// The number of bytes.
    pub fn len(&self) -> (n: usize)
        ensures
            n == self@.len(),
    {
        self.0.len()
    }

    /// Whether there are no bytes.
    pub fn is_empty(&self) -> (b: bool)
        ensures
            b == (self@.len() == 0),
    {
        self.0.len() == 0
    }
}

/// The byte that stands for a boolean.
pub open spec fn bool_byte(v: bool) -> u8 {
    if v { 1 } else { 0 }
}

/// `bytes` preceded by their count as a big-endian 32-bit number.
pub open spec fn length_prefixed(bytes: Seq<u8>) -> Seq<u8> {
    be_bytes_u32((bytes.len() as i32) as u32) + bytes
}

/// `bytes` preceded by their count as a signed varint.
pub open spec fn var_length_prefixed(bytes: Seq<u8>) -> Seq<u8> {
    varint_bytes(bytes.len() as i32) + bytes
}

/// The big-endian 32-bit number at the front of `s`.
pub open spec fn be_i32_at(s: Seq<u8>) -> i32 {
    be_value_u32(s) as i32
}

/// `std::string::String::from_utf8`: the text whose UTF-8 encoding is `bytes`, or, when
/// `bytes` are not UTF-8, the text of the error. Nothing is stated of that text.
#[verifier::external_body]
pub(crate) fn string_from_utf8(bytes: Vec<u8>) -> (r: Result<String, String>)
    ensures
        r is Ok <==> valid_utf8(bytes@),
        r matches Ok(s) ==> s@ == decode_utf8(bytes@),
{
    match String::from_utf8(bytes) {
        Ok(s) => Ok(s),
        Err(e) => Err(e.to_string()),
    }
}

/// The message of bytes that are not UTF-8, after the error's own text `detail`.
fn invalid_utf8_message(detail: String) -> (m: String)
    ensures
        m@ == "Invalid UTF-8: "@ + detail@,
{
    let mut m = String::from_str("Invalid UTF-8: ");
    m.append(detail.as_str());
    m
}

/// Reading and writing the primitive values of the format.
pub struct ReadWriteIOUtils;

impl ReadWriteIOUtils {
    fn append(writer: &mut Vec<u8>, data: &[u8])
        ensures
            final(writer)@ == old(writer)@ + data@,
    {
        let mut i: usize = 0;
        while i < data.len()
            invariant
                i <= data@.len(),
                writer@ == old(writer)@ + data@.take(i as int),
            decreases data@.len() - i,
        {
            writer.push(data[i]);
            i = i + 1;
            assert(writer@ =~= old(writer)@ + data@.take(i as int));
        }
        assert(data@.take(data@.len() as int) =~= data@);
    }

    // -----------------------------------------------------------------------
    // Writing
    // -----------------------------------------------------------------------

    /// Appends 1 for true and 0 for false.
    pub fn write_bool(value: bool, writer: &mut Vec<u8>) -> (r: TsFileResult<usize>)
        ensures
            final(writer)@ == old(writer)@.push(bool_byte(value)),
            r == Ok::<usize, TsFileError>(1),
    {
        writer.push(if value { 1u8 } else { 0u8 });
        Ok(1)
    }

    /// Appends one byte.
    pub fn write_byte(value: u8, writer: &mut Vec<u8>) -> (r: TsFileResult<usize>)
        ensures
            final(writer)@ == old(writer)@.push(value),
            r == Ok::<usize, TsFileError>(1),
    {
        writer.push(value);
        Ok(1)
    }

    /// Appends `value` as two big-endian bytes.
    pub fn write_i16(value: i16, writer: &mut Vec<u8>) -> (r: TsFileResult<usize>)
        ensures
            final(writer)@ == old(writer)@ + be_bytes_u16(value as u16),
            r == Ok::<usize, TsFileError>(2),
    {
        let b = be_i16_bytes(value);
        Self::append(writer, b.as_slice());
        Ok(2)
    }

    /// Appends `value` as four big-endian bytes.
    pub fn write_i32(value: i32, writer: &mut Vec<u8>) -> (r: TsFileResult<usize>)
        ensures
            final(writer)@ == old(writer)@ + be_bytes_u32(value as u32),
            r == Ok::<usize, TsFileError>(4),
    {
        let b = be_i32_bytes(value);
        Self::append(writer, b.as_slice());
        Ok(4)
    }

    /// Appends `value` as eight big-endian bytes.
    pub fn write_i64(value: i64, writer: &mut Vec<u8>) -> (r: TsFileResult<usize>)
        ensures
            final(writer)@ == old(writer)@ + be_bytes_u64(value as u64),
            r == Ok::<usize, TsFileError>(8),
    {
        let b = be_i64_bytes(value);
        Self::append(writer, b.as_slice());
        Ok(8)
    }

    /// Appends `data` as it is.
    pub fn write_bytes(data: &[u8], writer: &mut Vec<u8>) -> (r: TsFileResult<usize>)
        ensures
            final(writer)@ == old(writer)@ + data@,
            r == Ok::<usize, TsFileError>(data@.len() as usize),
    {
        Self::append(writer, data);
        Ok(data.len())
    }

    /// Appends the UTF-8 bytes of `s` after their count as a big-endian 32-bit number.
    pub fn write_string(s: &str, writer: &mut Vec<u8>) -> (r: TsFileResult<usize>)
        ensures
            final(writer)@ == old(writer)@ + length_prefixed(s.spec_bytes()),
            r == Ok::<usize, TsFileError>((4 + s.spec_bytes().len()) as usize),
    {
        let start = writer.len();
        let bytes = s.as_bytes();
        let len = bytes.len() as i32;
        let _ = Self::write_i32(len, writer)?;
        Self::append(writer, bytes);
        proof {
            assert(writer@ =~= old(writer)@ + length_prefixed(s.spec_bytes()));
        }
        Ok(writer.len() - start)
    }

    /// Appends the UTF-8 bytes of `s` after their count as a signed varint.
    pub fn write_var_int_string(s: &str, writer: &mut Vec<u8>) -> (r: TsFileResult<usize>)
        ensures
            final(writer)@ == old(writer)@ + var_length_prefixed(s.spec_bytes()),
            r == Ok::<usize, TsFileError>(var_length_prefixed(s.spec_bytes()).len() as usize),
    {
        let start = writer.len();
        let bytes = s.as_bytes();
        let len = bytes.len() as i32;
        let _ = ReadWriteForEncodingUtils::write_var_int(len, writer)?;
        Self::append(writer, bytes);
        proof {
            assert(writer@ =~= old(writer)@ + var_length_prefixed(s.spec_bytes()));
        }
        Ok(writer.len() - start)
    }

    /// Appends the bytes of `binary` after their count as a big-endian 32-bit number.
    pub fn write_binary(binary: &Binary, writer: &mut Vec<u8>) -> (r: TsFileResult<usize>)
        ensures
            final(writer)@ == old(writer)@ + length_prefixed(binary@),
            r == Ok::<usize, TsFileError>((4 + binary@.len()) as usize),
    {
        let start = writer.len();
        let bytes = binary.as_bytes();
        let len = bytes.len() as i32;
        let _ = Self::write_i32(len, writer)?;
        Self::append(writer, bytes);
        proof {
            assert(writer@ =~= old(writer)@ + length_prefixed(binary@));
        }
        Ok(writer.len() - start)
    }

    /// Appends the code of `data_type`.
    pub fn write_data_type(data_type: TSDataType, writer: &mut Vec<u8>) -> (r: TsFileResult<
        usize,
    >)
        ensures
            final(writer)@ == old(writer)@.push(data_type.code()),
            r == Ok::<usize, TsFileError>(1),
    {
        writer.push(data_type.serialize());
        Ok(1)
    }

    /// Appends the code of `compression`.
    pub fn write_compression_type(compression: CompressionType, writer: &mut Vec<u8>) -> (r:
        TsFileResult<usize>)
        ensures
            final(writer)@ == old(writer)@.push(compression.code()),
            r == Ok::<usize, TsFileError>(1),
    {
        writer.push(compression.serialize());
        Ok(1)
    }

    /// Appends the code of `encoding`.
    pub fn write_encoding(encoding: TSEncoding, writer: &mut Vec<u8>) -> (r: TsFileResult<usize>)
        ensures
            final(writer)@ == old(writer)@.push(encoding.code()),
            r == Ok::<usize, TsFileError>(1),
    {
        writer.push(encoding.serialize());
        Ok(1)
    }

    // -----------------------------------------------------------------------
    // Reading
    // -----------------------------------------------------------------------

    /// Reads one byte; true exactly when it is 1.
    pub fn read_bool(reader: &mut ByteReader) -> (r: TsFileResult<bool>)
        ensures
            old(reader).rest().len() >= 1 ==> {
                &&& r == Ok::<bool, TsFileError>(old(reader).rest()[0] == 1)
                &&& final(reader).rest() == old(reader).rest().drop_first()
            },
            old(reader).rest().len() == 0 ==> {
                &&& r matches Err(TsFileError::Io(_))
                &&& final(reader).rest() == old(reader).rest()
            },
    {
        let b = reader.read_u8()?;
        Ok(b == 1)
    }

    /// Reads one byte.
    pub fn read_byte(reader: &mut ByteReader) -> (r: TsFileResult<u8>)
        ensures
            old(reader).rest().len() >= 1 ==> {
                &&& r == Ok::<u8, TsFileError>(old(reader).rest()[0])
                &&& final(reader).rest() == old(reader).rest().drop_first()
            },
            old(reader).rest().len() == 0 ==> {
                &&& r matches Err(TsFileError::Io(_))
                &&& final(reader).rest() == old(reader).rest()
            },
    {
        reader.read_u8()
    }

    /// Reads a big-endian 16-bit number.
    pub fn read_i16(reader: &mut ByteReader) -> (r: TsFileResult<i16>)
        ensures
            old(reader).rest().len() >= 2 ==> {
                &&& r == Ok::<i16, TsFileError>(be_value_u16(old(reader).rest()) as i16)
                &&& final(reader).rest() == old(reader).rest().skip(2)
            },
            old(reader).rest().len() < 2 ==> {
                &&& r matches Err(TsFileError::Io(_))
                &&& final(reader).rest() == old(reader).rest()
            },
    {
        let b = reader.read_exact(2)?;
        Ok(be_read_i16(b.as_slice()))
    }

    /// Reads a big-endian 32-bit number.
    pub fn read_i32(reader: &mut ByteReader) -> (r: TsFileResult<i32>)
        ensures
            old(reader).rest().len() >= 4 ==> {
                &&& r == Ok::<i32, TsFileError>(be_i32_at(old(reader).rest()))
                &&& final(reader).rest() == old(reader).rest().skip(4)
            },
            old(reader).rest().len() < 4 ==> {
                &&& r matches Err(TsFileError::Io(_))
                &&& final(reader).rest() == old(reader).rest()
            },
    {
        let b = reader.read_exact(4)?;
        Ok(be_read_i32(b.as_slice()))
    }

    /// Reads a big-endian 64-bit number.
    pub fn read_i64(reader: &mut ByteReader) -> (r: TsFileResult<i64>)
        ensures
            old(reader).rest().len() >= 8 ==> {
                &&& r == Ok::<i64, TsFileError>(be_value_u64(old(reader).rest()) as i64)
                &&& final(reader).rest() == old(reader).rest().skip(8)
            },
            old(reader).rest().len() < 8 ==> {
                &&& r matches Err(TsFileError::Io(_))
                &&& final(reader).rest() == old(reader).rest()
            },
    {
        let b = reader.read_exact(8)?;
        proof {
            assert(b@.subrange(4, 8) =~= old(reader).rest().subrange(4, 8));
        }
        Ok(be_read_i64(b.as_slice()))
    }

    /// Reads exactly `n` bytes.
    pub fn read_bytes(reader: &mut ByteReader, n: usize) -> (r: TsFileResult<Vec<u8>>)
        ensures
            n <= old(reader).rest().len() ==> {
                &&& r matches Ok(v) && v@ == old(reader).rest().take(n as int)
                &&& final(reader).rest() == old(reader).rest().skip(n as int)
            },
            n > old(reader).rest().len() ==> {
                &&& r matches Err(TsFileError::Io(_))
                &&& final(reader).rest() == old(reader).rest()
            },
    {
        reader.read_exact(n)
    }

    /// Reads a byte count as a big-endian 32-bit number, then that many bytes as UTF-8
    /// text. A negative count or bytes that are not UTF-8 are a `ReadError`; a short
    /// input is an `Io` error.
    pub fn read_string(reader: &mut ByteReader) -> (r: TsFileResult<String>)
        ensures
            ({
                let rest = old(reader).rest();
                if rest.len() < 4 {
                    &&& r matches Err(TsFileError::Io(_))
                    &&& final(reader).rest() == rest
                } else {
                    let len = be_i32_at(rest);
                    if len < 0 {
                        &&& r matches Err(TsFileError::ReadError(_))
                        &&& final(reader).rest() == rest.skip(4)
                    } else if rest.len() - 4 < len {
                        &&& r matches Err(TsFileError::Io(_))
                        &&& final(reader).rest() == rest.skip(4)
                    } else {
                        let bytes = rest.subrange(4, 4 + len);
                        &&& final(reader).rest() == rest.skip(4 + len)
                        &&& valid_utf8(bytes) ==> (r matches Ok(s) && s@ == decode_utf8(bytes))
                        &&& !valid_utf8(bytes) ==> (r matches Err(TsFileError::ReadError(_)))
                    }
                }
            }),
    {
        let ghost rest = reader.rest();
        let len = Self::read_i32(reader)?;
        if len < 0 {
            return Err(
                TsFileError::ReadError(number_message("Negative string length: ", len as i64, "")),
            );
        }
        let bytes = Self::read_bytes(reader, len as usize)?;
        proof {
            assert(bytes@ =~= rest.subrange(4, 4 + len));
            assert(rest.skip(4).skip(len as int) =~= rest.skip(4 + len));
        }
        match string_from_utf8(bytes) {
            Ok(s) => Ok(s),
            Err(detail) => Err(TsFileError::ReadError(invalid_utf8_message(detail))),
        }
    }

    /// Reads a byte count as a signed varint, then that many bytes as UTF-8 text. A
    /// negative count or bytes that are not UTF-8 are a `ReadError`; a short input is an
    /// `Io` error and a varint longer than five bytes a `DecodingError`.
    pub fn read_var_int_string(reader: &mut ByteReader) -> (r: TsFileResult<String>)
        ensures
            ({
                let rest = old(reader).rest();
                match uvarint_decode(rest) {
                    VarIntScan::Truncated => r matches Err(TsFileError::Io(_)),
                    VarIntScan::Overlong => r matches Err(TsFileError::DecodingError(_)),
                    VarIntScan::Decoded { value, len: k } => {
                        let len = unzigzag(value);
                        if len < 0 {
                            &&& r matches Err(TsFileError::ReadError(_))
                            &&& final(reader).rest() == rest.skip(k as int)
                        } else if rest.len() - k < len {
                            &&& r matches Err(TsFileError::Io(_))
                            &&& final(reader).rest() == rest.skip(k as int)
                        } else {
                            let bytes = rest.subrange(k as int, k + len);
                            &&& final(reader).rest() == rest.skip(k + len)
                            &&& valid_utf8(bytes) ==> (r matches Ok(s) && s@ == decode_utf8(
                                bytes,
                            ))
                            &&& !valid_utf8(bytes) ==> (r matches Err(TsFileError::ReadError(_)))
                        }
                    },
                }
            }),
    {
        let ghost rest = reader.rest();
        let len = ReadWriteForEncodingUtils::read_var_int(reader)?;
        let ghost after_len = reader.rest();
        proof {
            crate::utils::read_write_for_encoding::lemma_uvarint_scan_bounds(rest, 0, 0);
            if let VarIntScan::Decoded { value, len: k } = uvarint_decode(rest) {
                assert(len == unzigzag(value));
                assert(after_len == rest.skip(k as int));
            } else {
                assert(false);
            }
        }
        if len < 0 {
            return Err(TsFileError::ReadError("Negative string length in varint string".to_string()));
        }
        let bytes = Self::read_bytes(reader, len as usize)?;
        proof {
            crate::utils::read_write_for_encoding::lemma_uvarint_scan_bounds(rest, 0, 0);
            if let VarIntScan::Decoded { value, len: k } = uvarint_decode(rest) {
                assert(len <= after_len.len());
                assert(bytes@ == after_len.take(len as int));
                assert(bytes@ =~= rest.subrange(k as int, k + len));
                assert(rest.skip(k as int).skip(len as int) =~= rest.skip(k + len));
            }
        }
        match string_from_utf8(bytes) {
            Ok(s) => Ok(s),
            Err(detail) => Err(TsFileError::ReadError(invalid_utf8_message(detail))),
        }
    }

    /// Reads a byte count as a big-endian 32-bit number, then that many bytes. A negative
    /// count is a `ReadError`; a short input is an `Io` error.
    pub fn read_binary(reader: &mut ByteReader) -> (r: TsFileResult<Binary>)
        ensures
            ({
                let rest = old(reader).rest();
                if rest.len() < 4 {
                    &&& r matches Err(TsFileError::Io(_))
                    &&& final(reader).rest() == rest
                } else {
                    let len = be_i32_at(rest);
                    if len < 0 {
                        &&& r matches Err(TsFileError::ReadError(_))
                        &&& final(reader).rest() == rest.skip(4)
                    } else if rest.len() - 4 < len {
                        &&& r matches Err(TsFileError::Io(_))
                        &&& final(reader).rest() == rest.skip(4)
                    } else {
                        &&& r matches Ok(b) && b@ == rest.subrange(4, 4 + len)
                        &&& final(reader).rest() == rest.skip(4 + len)
                    }
                }
            }),
    {
        let ghost rest = reader.rest();
        let len = Self::read_i32(reader)?;
        if len < 0 {
            return Err(
                TsFileError::ReadError(number_message("Negative binary length: ", len as i64, "")),
            );
        }
        let bytes = Self::read_bytes(reader, len as usize)?;
        proof {
            assert(bytes@ =~= rest.subrange(4, 4 + len));
            assert(rest.skip(4).skip(len as int) =~= rest.skip(4 + len));
        }
        Ok(Binary(bytes))
    }

    /// Reads the code of a data type; an unknown code is an `InvalidFileFormat` error.
    pub fn read_data_type(reader: &mut ByteReader) -> (r: TsFileResult<TSDataType>)
        ensures
            old(reader).rest().len() == 0 ==> r matches Err(TsFileError::Io(_)),
            old(reader).rest().len() >= 1 ==> {
                &&& final(reader).rest() == old(reader).rest().drop_first()
                &&& match TSDataType::from_code(old(reader).rest()[0]) {
                    Some(t) => r == Ok::<TSDataType, TsFileError>(t),
                    None => r matches Err(TsFileError::InvalidFileFormat(_)),
                }
            },
    {
        let b = reader.read_u8()?;
        TSDataType::deserialize(b)
    }

    /// Reads the code of a compression type; an unknown code is an `InvalidFileFormat`
    /// error.
    pub fn read_compression_type(reader: &mut ByteReader) -> (r: TsFileResult<CompressionType>)
        ensures
            old(reader).rest().len() == 0 ==> r matches Err(TsFileError::Io(_)),
            old(reader).rest().len() >= 1 ==> {
                &&& final(reader).rest() == old(reader).rest().drop_first()
                &&& match CompressionType::from_code(old(reader).rest()[0]) {
                    Some(t) => r == Ok::<CompressionType, TsFileError>(t),
                    None => r matches Err(TsFileError::InvalidFileFormat(_)),
                }
            },
    {
        let b = reader.read_u8()?;
        CompressionType::deserialize(b)
    }

    /// Reads the code of an encoding; an unknown code is an `InvalidFileFormat` error.
    pub fn read_encoding(reader: &mut ByteReader) -> (r: TsFileResult<TSEncoding>)
        ensures
            old(reader).rest().len() == 0 ==> r matches Err(TsFileError::Io(_)),
            old(reader).rest().len() >= 1 ==> {
                &&& final(reader).rest() == old(reader).rest().drop_first()
                &&& match TSEncoding::from_code(old(reader).rest()[0]) {
                    Some(t) => r == Ok::<TSEncoding, TsFileError>(t),
                    None => r matches Err(TsFileError::InvalidFileFormat(_)),
                }
            },
    {
        let b = reader.read_u8()?;
        TSEncoding::deserialize(b)
    }

    /// Skips `n` bytes; a short input is an `Io` error and skips nothing.
    pub fn skip(reader: &mut ByteReader, n: usize) -> (r: TsFileResult<()>)
        ensures
            n <= old(reader).rest().len() ==> {
                &&& r is Ok
                &&& final(reader).rest() == old(reader).rest().skip(n as int)
            },
            n > old(reader).rest().len() ==> {
                &&& r matches Err(TsFileError::Io(_))
                &&& final(reader).rest() == old(reader).rest()
            },
    {
        let _ = reader.read_exact(n)?;
        Ok(())
    }

    /// The big-endian 32-bit number at the front of `data`, with the 4 bytes it took.
    pub fn read_i32_from_slice(data: &[u8]) -> (r: TsFileResult<(i32, usize)>)
        ensures
            data@.len() >= 4 ==> r == Ok::<(i32, usize), TsFileError>((be_i32_at(data@), 4)),
            data@.len() < 4 ==> r matches Err(TsFileError::ReadError(_)),
    {
        if data.len() < 4 {
            return Err(TsFileError::ReadError("Not enough bytes to read i32".to_string()));
        }
        Ok((be_read_i32(data), 4))
    }

    /// The big-endian 64-bit number at the front of `data`, with the 8 bytes it took.
    pub fn read_i64_from_slice(data: &[u8]) -> (r: TsFileResult<(i64, usize)>)
        ensures
            data@.len() >= 8 ==> r == Ok::<(i64, usize), TsFileError>(
                (be_value_u64(data@) as i64, 8),
            ),
            data@.len() < 8 ==> r matches Err(TsFileError::ReadError(_)),
    {
        if data.len() < 8 {
            return Err(TsFileError::ReadError("Not enough bytes to read i64".to_string()));
        }
        Ok((be_read_i64(data), 8))
    }
}

// ---------------------------------------------------------------------------
// What a read gives back of a write
// ---------------------------------------------------------------------------

/// A boolean byte reads back as the boolean written.
pub proof fn lemma_bool_roundtrip(v: bool, rest: Seq<u8>)
    ensures
        (seq![bool_byte(v)] + rest)[0] == 1 <==> v,
        (seq![bool_byte(v)] + rest).drop_first() == rest,
{
    assert((seq![bool_byte(v)] + rest).drop_first() =~= rest);
}

/// Big-endian integers read back as the integers written, and their bytes are all that
/// is consumed.
pub proof fn lemma_fixed_width_roundtrip(a: i16, b: i32, c: i64, rest: Seq<u8>)
    ensures
        be_value_u16(be_bytes_u16(a as u16) + rest) as i16 == a,
        (be_bytes_u16(a as u16) + rest).skip(2) == rest,
        be_i32_at(be_bytes_u32(b as u32) + rest) == b,
        (be_bytes_u32(b as u32) + rest).skip(4) == rest,
        be_value_u64(be_bytes_u64(c as u64) + rest) as i64 == c,
        (be_bytes_u64(c as u64) + rest).skip(8) == rest,
{
    crate::utils::byte_order::lemma_be_roundtrip(a as u16, b as u32, c as u64, rest);
    crate::utils::byte_order::lemma_signed_bits(a, b, c);
    assert((be_bytes_u16(a as u16) + rest).skip(2) =~= rest);
    assert((be_bytes_u32(b as u32) + rest).skip(4) =~= rest);
    assert((be_bytes_u64(c as u64) + rest).skip(8) =~= rest);
}

/// A length-prefixed byte string reads back as the bytes written: the prefix is their
/// count, the bytes follow it, and what was after them is left.
pub proof fn lemma_length_prefixed_roundtrip(bytes: Seq<u8>, rest: Seq<u8>)
    requires
        bytes.len() <= i32::MAX,
    ensures
        ({
            let s = length_prefixed(bytes) + rest;
            let len = be_i32_at(s);
            &&& s.len() >= 4
            &&& len == bytes.len()
            &&& s.len() - 4 >= len
            &&& s.subrange(4, 4 + len) == bytes
            &&& s.skip(4 + len) == rest
        }),
{
    let s = length_prefixed(bytes) + rest;
    let n = bytes.len() as i32;
    crate::utils::byte_order::lemma_be_roundtrip(0, n as u32, 0, bytes + rest);
    crate::utils::byte_order::lemma_signed_bits(0, n, 0);
    assert(s =~= be_bytes_u32(n as u32) + (bytes + rest));
    assert(s.subrange(4, 4 + bytes.len() as int) =~= bytes);
    assert(s.skip(4 + bytes.len() as int) =~= rest);
}

/// A text written with a 32-bit length prefix reads back as the same characters.
pub proof fn lemma_string_roundtrip(chars: Seq<char>, rest: Seq<u8>)
    requires
        encode_utf8(chars).len() <= i32::MAX,
    ensures
        ({
            let bytes = encode_utf8(chars);
            let s = length_prefixed(bytes) + rest;
            let len = be_i32_at(s);
            &&& s.len() >= 4 && len == bytes.len() && s.len() - 4 >= len
            &&& valid_utf8(s.subrange(4, 4 + len))
            &&& decode_utf8(s.subrange(4, 4 + len)) == chars
            &&& s.skip(4 + len) == rest
        }),
{
    lemma_length_prefixed_roundtrip(encode_utf8(chars), rest);
    vstd::utf8::encode_utf8_valid_utf8(chars);
    vstd::utf8::encode_utf8_decode_utf8(chars);
}

/// A text written with a varint length prefix reads back as the same characters.
pub proof fn lemma_var_int_string_roundtrip(chars: Seq<char>, rest: Seq<u8>)
    requires
        encode_utf8(chars).len() <= i32::MAX,
    ensures
        ({
            let bytes = encode_utf8(chars);
            let s = var_length_prefixed(bytes) + rest;
            let k = varint_bytes(bytes.len() as i32).len();
            &&& uvarint_decode(s) == (VarIntScan::Decoded { value: zigzag(bytes.len() as i32), len: k })
            &&& unzigzag(zigzag(bytes.len() as i32)) == bytes.len()
            &&& s.len() - k >= bytes.len()
            &&& valid_utf8(s.subrange(k as int, (k + bytes.len()) as int))
            &&& decode_utf8(s.subrange(k as int, (k + bytes.len()) as int)) == chars
            &&& s.skip((k + bytes.len()) as int) == rest
        }),
{
    let bytes = encode_utf8(chars);
    let n = bytes.len() as i32;
    let pre = varint_bytes(n);
    let s = var_length_prefixed(bytes) + rest;
    assert(s =~= pre + (bytes + rest));
    lemma_varint_roundtrip(n, bytes + rest);
    assert(s.subrange(pre.len() as int, (pre.len() + bytes.len()) as int) =~= bytes);
    assert(s.skip((pre.len() + bytes.len()) as int) =~= rest);
    vstd::utf8::encode_utf8_valid_utf8(chars);
    vstd::utf8::encode_utf8_decode_utf8(chars);
}

/// The code of a data type, an encoding or a compression reads back as the value written.
pub proof fn lemma_codes_roundtrip(t: TSDataType, e: TSEncoding, c: CompressionType)
    ensures
        TSDataType::from_code(t.code()) == Some(t),
        TSEncoding::from_code(e.code()) == Some(e),
        CompressionType::from_code(c.code()) == Some(c),
{
}

} // verus!
