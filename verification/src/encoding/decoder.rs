//! Decoders that turn the bytes of a page column back into values.

use vstd::prelude::*;

use crate::common::enums::{TSDataType, TSEncoding};
use crate::encoding::ts2diff_decoder::{decode_ts2diff, ts2diff_column};
use crate::encoding::encoder::{plain_bytes, plain_concat, EncodableValue, ValueView};
use crate::error::{TsFileError, TsFileResult};
use crate::utils::byte_order::be_value_u64;
use crate::utils::byte_reader::ByteReader;
use crate::utils::read_write_for_encoding::{
    lemma_uvarint_bytes_len, lemma_uvarint_scan_bounds, lemma_varint_roundtrip, unzigzag, uvarint_decode, varint_bytes,
    zigzag, ReadWriteForEncodingUtils, VarIntScan,
};
use crate::utils::read_write_io_utils::{lemma_fixed_width_roundtrip, Binary, ReadWriteIOUtils};

verus! {

/// Why the bytes of a column do not decode.
#[derive(Debug, Clone, Copy, PartialEq, Eq, Structural)]
pub enum DecodeFailure {
    /// The bytes end inside a value.
    Truncated,
    /// The bytes hold something that no encoder writes.
    Malformed,
}

/// What the front of a byte sequence decodes to.
pub enum Step<T> {
    /// `value`, made of the first `len` bytes.
    Done { value: T, len: nat },
    /// No value: the reason.
    Failed { failure: DecodeFailure },
}

/// Whether the plain decoder reads values of `data_type`.
pub open spec fn plain_supported(data_type: TSDataType) -> bool {
    match data_type {
        TSDataType::Boolean | TSDataType::Int32 | TSDataType::Date | TSDataType::Int64
        | TSDataType::Timestamp | TSDataType::Text | TSDataType::String | TSDataType::Blob => true,
        _ => false,
    }
}

/// Whether `v` is a value of `data_type` as the plain decoder reads it.
pub open spec fn plain_value_of(data_type: TSDataType, v: ValueView) -> bool {
    match v {
        ValueView::Boolean(_) => data_type == TSDataType::Boolean,
        ValueView::Int32(_) => data_type == TSDataType::Int32 || data_type == TSDataType::Date,
        ValueView::Int64(_) => data_type == TSDataType::Int64 || data_type
            == TSDataType::Timestamp,
        ValueView::Binary(s) => (data_type == TSDataType::Text || data_type == TSDataType::String
            || data_type == TSDataType::Blob) && s.len() <= i32::MAX,
    }
}

/// The plain value of `data_type` at the front of `s`: a boolean is one byte, true
/// unless 0; a 32-bit integer a signed varint; a 64-bit integer eight big-endian bytes;
/// a byte string its length as a signed varint, then its bytes.
pub open spec fn plain_step(data_type: TSDataType, s: Seq<u8>) -> Step<ValueView> {
    match data_type {
        TSDataType::Boolean => if s.len() >= 1 {
            Step::Done { value: ValueView::Boolean(s[0] != 0), len: 1 }
        } else {
            Step::Failed { failure: DecodeFailure::Truncated }
        },
        TSDataType::Int32 | TSDataType::Date => match uvarint_decode(s) {
            VarIntScan::Decoded { value, len } => Step::Done {
                value: ValueView::Int32(unzigzag(value)),
                len,
            },
            VarIntScan::Truncated => Step::Failed { failure: DecodeFailure::Truncated },
            VarIntScan::Overlong => Step::Failed { failure: DecodeFailure::Malformed },
        },
        TSDataType::Int64 | TSDataType::Timestamp => if s.len() >= 8 {
            Step::Done { value: ValueView::Int64(be_value_u64(s) as i64), len: 8 }
        } else {
            Step::Failed { failure: DecodeFailure::Truncated }
        },
        _ => match uvarint_decode(s) {
            VarIntScan::Decoded { value, len } => {
                let n = unzigzag(value);
                if n < 0 {
                    Step::Failed { failure: DecodeFailure::Malformed }
                } else if s.len() >= len + n {
                    Step::Done {
                        value: ValueView::Binary(s.subrange(len as int, len + n)),
                        len: len + n as nat,
                    }
                } else {
                    Step::Failed { failure: DecodeFailure::Truncated }
                }
            },
            VarIntScan::Truncated => Step::Failed { failure: DecodeFailure::Truncated },
            VarIntScan::Overlong => Step::Failed { failure: DecodeFailure::Malformed },
        },
    }
}

/// `prefix` put before the values of `r`, or the failure of `r`.
pub open spec fn prepend<T>(prefix: Seq<T>, r: Result<Seq<T>, DecodeFailure>) -> Result<
    Seq<T>,
    DecodeFailure,
> {
    match r {
        Ok(rest) => Ok(prefix + rest),
        Err(e) => Err(e),
    }
}

/// All plain values of `data_type` in `s`, one after the other up to its end.
pub open spec fn plain_column(data_type: TSDataType, s: Seq<u8>) -> Result<
    Seq<ValueView>,
    DecodeFailure,
>
    decreases s.len(),
{
    if s.len() == 0 {
        Ok(Seq::empty())
    } else {
        match plain_step(data_type, s) {
            Step::Done { value, len } => if 0 < len <= s.len() {
                prepend(seq![value], plain_column(data_type, s.skip(len as int)))
            } else {
                Err(DecodeFailure::Malformed)
            },
            Step::Failed { failure } => Err(failure),
        }
    }
}

/// The abstract values of `vs`.
pub open spec fn views(vs: Seq<EncodableValue>) -> Seq<ValueView> {
    vs.map_values(|v: EncodableValue| v@)
}

/// Reads the plain value of `data_type` at the front of `reader`: a short input is an
/// `Io` error, bytes no encoder writes a `DecodingError`.
fn read_plain_value(reader: &mut ByteReader, data_type: TSDataType) -> (r: TsFileResult<
    EncodableValue,
>)
    requires
        plain_supported(data_type),
    ensures
        match plain_step(data_type, old(reader).rest()) {
            Step::Done { value, len } => {
                &&& r matches Ok(v) && v@ == value
                &&& final(reader).rest() == old(reader).rest().skip(len as int)
            },
            Step::Failed { failure: DecodeFailure::Truncated } => r matches Err(TsFileError::Io(_)),
            Step::Failed { failure: DecodeFailure::Malformed } => r matches Err(
                TsFileError::DecodingError(_),
            ),
        },
{
    match data_type {
        TSDataType::Boolean => {
            let b = reader.read_u8()?;
            Ok(EncodableValue::Boolean(b != 0))
        },
        TSDataType::Int32 | TSDataType::Date => {
            let v = ReadWriteForEncodingUtils::read_var_int(reader)?;
            Ok(EncodableValue::Int32(v))
        },
        TSDataType::Int64 | TSDataType::Timestamp => {
            let v = ReadWriteIOUtils::read_i64(reader)?;
            Ok(EncodableValue::Int64(v))
        },
        _ => {
            let ghost s = reader.rest();
            let n = ReadWriteForEncodingUtils::read_var_int(reader)?;
            if n < 0 {
                return Err(TsFileError::DecodingError("Negative binary length".to_string()));
            }
            let ghost len = match uvarint_decode(s) {
                VarIntScan::Decoded { len, .. } => len,
                _ => 0,
            };
            proof {
                lemma_uvarint_scan_bounds(s, 0, 0);
            }
            let bytes = ReadWriteIOUtils::read_bytes(reader, n as usize)?;
            proof {
                assert(bytes@ =~= s.subrange(len as int, len + n));
                assert(reader.rest() =~= s.skip(len + n));
            }
            Ok(EncodableValue::Binary(Binary::new(bytes)))
        },
    }
}

/// Decodes the plain values of `data_type` that fill `data`. A type whose values the
/// plain decoder does not read is `Unsupported`; a short input is an `Io` error; bytes
/// no encoder writes are a `DecodingError`.
pub fn decode_plain_values(data_type: TSDataType, data: Vec<u8>) -> (r: TsFileResult<
    Vec<EncodableValue>,
>)
    ensures
        !plain_supported(data_type) ==> r matches Err(TsFileError::Unsupported(_)),
        plain_supported(data_type) ==> match plain_column(data_type, data@) {
            Ok(vs) => r matches Ok(v) && views(v@) == vs,
            Err(DecodeFailure::Truncated) => r matches Err(TsFileError::Io(_)),
            Err(DecodeFailure::Malformed) => r matches Err(TsFileError::DecodingError(_)),
        },
{
    if !is_plain_supported(data_type) {
        return Err(TsFileError::Unsupported("Plain decoding of this data type".to_string()));
    }
    let ghost s = data@;
    let mut reader = ByteReader::new(data);
    let mut out: Vec<EncodableValue> = Vec::new();
    while reader.remaining() > 0
        invariant
            plain_supported(data_type),
            s == data@,
            plain_column(data_type, s) == prepend(views(out@), plain_column(data_type, reader.rest())),
        decreases reader.rest().len(),
    {
        let ghost before = reader.rest();
        proof {
            plain_step_len(data_type, before);
        }
        let v = match read_plain_value(&mut reader, data_type) {
            Ok(v) => v,
            Err(e) => {
                proof {
                    assert(before.len() > 0);
                    assert(plain_step(data_type, before) is Failed);
                    assert(plain_column(data_type, before) == Err::<Seq<ValueView>, DecodeFailure>(
                        plain_step(data_type, before)->failure,
                    ));
                }
                return Err(e);
            },
        };
        proof {
            match plain_step(data_type, before) {
                Step::Done { value, len } => {
                    assert(views(out@.push(v)) =~= views(out@) + seq![value]);
                    match plain_column(data_type, reader.rest()) {
                        Ok(rest) => {
                            assert(views(out@) + (seq![value] + rest) =~= views(out@.push(v))
                                + rest);
                        },
                        Err(_) => {},
                    }
                },
                _ => {},
            }
        }
        out.push(v);
    }
    proof {
        assert(views(out@) + Seq::<ValueView>::empty() =~= views(out@));
    }
    Ok(out)
}

/// Whether a column of `data_type` values in `encoding` can be decoded: plain values of
/// the types the plain decoder reads, or second-order differences of 64-bit integers.
pub open spec fn column_supported(data_type: TSDataType, encoding: TSEncoding) -> bool {
    ||| encoding == TSEncoding::Plain && plain_supported(data_type)
    ||| encoding == TSEncoding::Ts2diff && (data_type == TSDataType::Int64 || data_type
        == TSDataType::Timestamp)
}

/// The 64-bit integers `xs` as values.
pub open spec fn int64_views(xs: Seq<i64>) -> Seq<ValueView> {
    xs.map_values(|x: i64| ValueView::Int64(x))
}

/// The values of a column of `data_type` in `encoding` that fill `s`.
pub open spec fn value_column(data_type: TSDataType, encoding: TSEncoding, s: Seq<u8>) -> Result<
    Seq<ValueView>,
    DecodeFailure,
> {
    if encoding == TSEncoding::Plain {
        plain_column(data_type, s)
    } else {
        match ts2diff_column(s) {
            Ok(xs) => Ok(int64_views(xs)),
            Err(e) => Err(e),
        }
    }
}

/// Whether columns of `data_type` in `encoding` can be decoded.
pub fn is_column_supported(data_type: TSDataType, encoding: TSEncoding) -> (b: bool)
    ensures
        b == column_supported(data_type, encoding),
{
    match encoding {
        TSEncoding::Plain => is_plain_supported(data_type),
        TSEncoding::Ts2diff => match data_type {
            TSDataType::Int64 | TSDataType::Timestamp => true,
            _ => false,
        },
        _ => false,
    }
}

/// Decodes the values of `data_type` in `encoding` that fill `data`. A combination that
/// cannot be decoded is `Unsupported`; a short input is an `Io` error; bytes no encoder
/// writes are a `DecodingError`.
pub fn decode_values(data_type: TSDataType, encoding: TSEncoding, data: Vec<u8>) -> (r:
    TsFileResult<Vec<EncodableValue>>)
    ensures
        !column_supported(data_type, encoding) ==> r matches Err(TsFileError::Unsupported(_)),
        column_supported(data_type, encoding) ==> match value_column(data_type, encoding, data@) {
            Ok(vs) => r matches Ok(v) && views(v@) == vs,
            Err(DecodeFailure::Truncated) => r matches Err(TsFileError::Io(_)),
            Err(DecodeFailure::Malformed) => r matches Err(TsFileError::DecodingError(_)),
        },
{
    if !is_column_supported(data_type, encoding) {
        return Err(TsFileError::Unsupported("Decoding of this data type and encoding".to_string()));
    }
    match encoding {
        TSEncoding::Plain => decode_plain_values(data_type, data),
        _ => {
            let xs = decode_ts2diff(data)?;
            let mut out: Vec<EncodableValue> = Vec::with_capacity(xs.len());
            let mut i: usize = 0;
            while i < xs.len()
                invariant
                    i <= xs@.len(),
                    out@.len() == i,
                    views(out@) == int64_views(xs@.take(i as int)),
                decreases xs@.len() - i,
            {
                let ghost before = out@;
                out.push(EncodableValue::Int64(xs[i]));
                proof {
                    let t = xs@.take(i + 1);
                    assert forall|j: int| 0 <= j < i + 1 implies #[trigger] views(out@)[j]
                        == int64_views(t)[j] by {
                        if j < i {
                            assert(out@[j] == before[j]);
                            assert(views(before)[j] == int64_views(xs@.take(i as int))[j]);
                        }
                    }
                    assert(views(out@) =~= int64_views(t));
                }
                i = i + 1;
            }
            assert(xs@.take(xs@.len() as int) =~= xs@);
            Ok(out)
        },
    }
}

/// Whether the plain decoder reads values of `data_type`.
fn is_plain_supported(data_type: TSDataType) -> (b: bool)
    ensures
        b == plain_supported(data_type),
{
    match data_type {
        TSDataType::Boolean | TSDataType::Int32 | TSDataType::Date | TSDataType::Int64
        | TSDataType::Timestamp | TSDataType::Text | TSDataType::String | TSDataType::Blob => true,
        _ => false,
    }
}

/// A decoded plain value takes at least one byte and no more than there are.
proof fn plain_step_len(data_type: TSDataType, s: Seq<u8>)
    ensures
        plain_step(data_type, s) matches Step::Done { len, .. } ==> 0 < len <= s.len(),
{
    lemma_uvarint_scan_bounds(s, 0, 0);
}

/// The plain encoding of several values is that of the first, then that of the rest.
pub proof fn lemma_plain_concat_front(vs: Seq<ValueView>)
    requires
        vs.len() > 0,
    ensures
        plain_concat(vs) == plain_bytes(vs[0]) + plain_concat(vs.drop_first()),
    decreases vs.len(),
{
    if vs.len() == 1 {
        assert(vs.drop_last() =~= Seq::<ValueView>::empty());
        assert(vs.drop_first() =~= Seq::<ValueView>::empty());
        assert(plain_concat(vs) =~= plain_bytes(vs[0]) + plain_concat(vs.drop_first()));
    } else {
        lemma_plain_concat_front(vs.drop_last());
        assert(vs.drop_last().drop_first() =~= vs.drop_first().drop_last());
        assert(vs.drop_first().last() == vs.last());
        assert(plain_concat(vs) =~= plain_bytes(vs[0]) + plain_concat(vs.drop_first()));
    }
}

/// A value written by the plain encoder reads back as itself, and takes exactly its
/// bytes.
pub proof fn lemma_plain_step_roundtrip(data_type: TSDataType, v: ValueView, rest: Seq<u8>)
    requires
        plain_value_of(data_type, v),
    ensures
        plain_step(data_type, plain_bytes(v) + rest) == (Step::Done {
            value: v,
            len: plain_bytes(v).len(),
        }),
        (plain_bytes(v) + rest).skip(plain_bytes(v).len() as int) == rest,
{
    let s = plain_bytes(v) + rest;
    assert(s.skip(plain_bytes(v).len() as int) =~= rest);
    match v {
        ValueView::Boolean(b) => {},
        ValueView::Int32(x) => {
            lemma_varint_roundtrip(x, rest);
        },
        ValueView::Int64(x) => {
            lemma_fixed_width_roundtrip(0, 0, x, rest);
        },
        ValueView::Binary(bytes) => {
            let n = bytes.len() as i32;
            lemma_varint_roundtrip(n, bytes + rest);
            assert(s =~= varint_bytes(n) + (bytes + rest));
            let len = varint_bytes(n).len();
            assert(s.subrange(len as int, len + n) =~= bytes);
        },
    }
}

/// The plain values of a type, encoded one after the other, decode to themselves.
pub proof fn lemma_plain_column_roundtrip(data_type: TSDataType, vs: Seq<ValueView>)
    requires
        forall|i: int| 0 <= i < vs.len() ==> plain_value_of(data_type, #[trigger] vs[i]),
    ensures
        plain_column(data_type, plain_concat(vs)) == Ok::<Seq<ValueView>, DecodeFailure>(vs),
    decreases vs.len(),
{
    if vs.len() == 0 {
        assert(plain_concat(vs) == Seq::<u8>::empty());
        assert(vs =~= Seq::<ValueView>::empty());
    } else {
        lemma_plain_concat_front(vs);
        let rest = plain_concat(vs.drop_first());
        lemma_plain_step_roundtrip(data_type, vs[0], rest);
        assert forall|i: int| 0 <= i < vs.drop_first().len() implies plain_value_of(
            data_type,
            #[trigger] vs.drop_first()[i],
        ) by {
            assert(vs.drop_first()[i] == vs[i + 1]);
        }
        lemma_plain_column_roundtrip(data_type, vs.drop_first());
        let b = plain_bytes(vs[0]);
        assert(b.len() > 0) by {
            match vs[0] {
                ValueView::Int32(x) => lemma_uvarint_bytes_len(zigzag(x)),
                ValueView::Binary(bytes) => lemma_uvarint_bytes_len(zigzag(bytes.len() as i32)),
                _ => {},
            }
        }
        let s = plain_concat(vs);
        assert(s == b + rest);
        assert(s.len() > 0);
        assert(s.skip(b.len() as int) == rest);
        assert(plain_step(data_type, s) == (Step::Done { value: vs[0], len: b.len() }));
        assert(seq![vs[0]] + vs.drop_first() =~= vs);
        assert(plain_column(data_type, s) == prepend(seq![vs[0]], plain_column(data_type, rest)));
        assert(prepend(seq![vs[0]], plain_column(data_type, rest)) == Ok::<
            Seq<ValueView>,
            DecodeFailure,
        >(seq![vs[0]] + vs.drop_first()));
    }
}

} // verus!
