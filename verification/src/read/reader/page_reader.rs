//! The reader of one page.

use vstd::prelude::*;

use crate::common::enums::{TSDataType, TSEncoding};
use crate::encoding::decoder::{
    column_supported, decode_values, int64_views, is_column_supported,
    lemma_plain_column_roundtrip, plain_value_of, value_column, views, DecodeFailure,
};
use crate::encoding::encoder::{encoded, kind_for, longs, EncodableValue, EncoderKind, ValueView};
use crate::encoding::ts2diff::ts2diff_bytes;
use crate::encoding::ts2diff_decoder::{decode_ts2diff, lemma_ts2diff_roundtrip, ts2diff_column};
use crate::error::{TsFileError, TsFileResult};
use crate::utils::byte_order::be_bytes_u32;
use crate::utils::byte_reader::copy_range;
use crate::utils::read_write_io_utils::{be_i32_at, lemma_fixed_width_roundtrip, Binary, ReadWriteIOUtils};
use crate::write::chunk::page_writer::page_bytes;

verus! {

/// The points of a time column and a value column: the `i`-th time with the `i`-th
/// value, as many as the shorter column holds.
pub open spec fn zip_points(times: Seq<i64>, values: Seq<ValueView>) -> Seq<(i64, ValueView)> {
    let n = if times.len() <= values.len() { times.len() } else { values.len() };
    Seq::new(n, |i: int| (times[i], values[i]))
}

/// The abstract points of `ps`.
pub open spec fn point_views(ps: Seq<(i64, EncodableValue)>) -> Seq<(i64, ValueView)> {
    ps.map_values(|p: (i64, EncodableValue)| (p.0, p.1@))
}

/// The points of the page `s` whose values are of `data_type` in `encoding`: the length
/// of the time column as a big-endian 32-bit number, the time column (second-order
/// differences), then the value column up to the end. A length that is negative or
/// runs past the page is malformed.
pub open spec fn page_points(data_type: TSDataType, encoding: TSEncoding, s: Seq<u8>) -> Result<
    Seq<(i64, ValueView)>,
    DecodeFailure,
> {
    if s.len() < 4 {
        Err(DecodeFailure::Truncated)
    } else {
        let n = be_i32_at(s) as int;
        if n < 0 || 4 + n > s.len() {
            Err(DecodeFailure::Malformed)
        } else {
            match ts2diff_column(s.subrange(4, 4 + n)) {
                Err(e) => Err(e),
                Ok(times) => match value_column(data_type, encoding, s.skip(4 + n)) {
                    Err(e) => Err(e),
                    Ok(values) => Ok(zip_points(times, values)),
                },
            }
        }
    }
}

/// The uncompressed bytes of a page, with the type and encoding of its values.
#[derive(Debug, Clone)]
pub struct PageReader {
    data_type: TSDataType,
    value_encoding: TSEncoding,
    page_data: Vec<u8>,
}

impl PageReader {
    /// The type of the values.
    pub closed spec fn value_type(&self) -> TSDataType {
        self.data_type
    }

    /// The encoding of the values.
    pub closed spec fn encoding(&self) -> TSEncoding {
        self.value_encoding
    }

    /// The bytes of the page.
    pub closed spec fn data(&self) -> Seq<u8> {
        self.page_data@
    }

    /// A reader of the page `page_data` holding values of `data_type` encoded by
    /// `value_encoding`.
    pub fn new(data_type: TSDataType, value_encoding: TSEncoding, page_data: Vec<u8>) -> (r: Self)
        ensures
            r.value_type() == data_type,
            r.encoding() == value_encoding,
            r.data() == page_data@,
    {
        PageReader { data_type, value_encoding, page_data }
    }

    /// Decodes every point of the page. A type and encoding that cannot be decoded is
    /// `Unsupported`; a page that ends early is an `Io` error; a page with bytes that no
    /// writer produces is a `DecodingError`.
    pub fn read_all(&self) -> (r: TsFileResult<Vec<(i64, EncodableValue)>>)
        ensures
            !column_supported(self.value_type(), self.encoding()) ==> r matches Err(
                TsFileError::Unsupported(_),
            ),
            column_supported(self.value_type(), self.encoding()) ==> match page_points(
                self.value_type(),
                self.encoding(),
                self.data(),
            ) {
                Ok(ps) => r matches Ok(v) && point_views(v@) == ps,
                Err(DecodeFailure::Truncated) => r matches Err(TsFileError::Io(_)),
                Err(DecodeFailure::Malformed) => r matches Err(TsFileError::DecodingError(_)),
            },
    {
        if !is_column_supported(self.data_type, self.value_encoding) {
            return Err(
                TsFileError::Unsupported("Decoding of this data type and encoding".to_string()),
            );
        }
        let len = self.page_data.len();
        if len < 4 {
            return Err(TsFileError::Io("failed to fill whole buffer".to_string()));
        }
        let time_len = match ReadWriteIOUtils::read_i32_from_slice(self.page_data.as_slice()) {
            Ok((v, _)) => v,
            Err(e) => {
                return Err(e);
            },
        };
        if time_len < 0 {
            return Err(TsFileError::DecodingError("Time data length overflow".to_string()));
        }
        let time_end: usize = 4 + time_len as usize;
        if time_len as usize > len - 4 {
            return Err(TsFileError::DecodingError("Time data exceeds page boundary".to_string()));
        }
        let time_data = copy_range(self.page_data.as_slice(), 4, time_end);
        let value_data = copy_range(self.page_data.as_slice(), time_end, len);
        proof {
            assert(value_data@ =~= self.page_data@.skip(time_end as int));
        }
        let times = decode_ts2diff(time_data)?;
        let values = decode_values(self.data_type, self.value_encoding, value_data)?;
        let n = if times.len() <= values.len() {
            times.len()
        } else {
            values.len()
        };
        let mut out: Vec<(i64, EncodableValue)> = Vec::with_capacity(n);
        let mut i: usize = 0;
        while i < n
            invariant
                n <= times@.len(),
                n <= values@.len(),
                i <= n,
                out@.len() == i,
                forall|j: int|
                    0 <= j < i ==> (#[trigger] out@[j]).0 == times@[j] && out@[j].1@
                        == values@[j]@,
            decreases n - i,
        {
            out.push((times[i], copy_value(&values[i])));
            i = i + 1;
        }
        proof {
            let ts = times@;
            let vs = views(values@);
            assert(point_views(out@) =~= zip_points(ts, vs));
        }
        Ok(out)
    }
}

/// A copy of `v`.
pub(crate) fn copy_value(v: &EncodableValue) -> (c: EncodableValue)
    ensures
        c@ == v@,
{
    match v {
        EncodableValue::Boolean(b) => EncodableValue::Boolean(*b),
        EncodableValue::Int32(x) => EncodableValue::Int32(*x),
        EncodableValue::Int64(x) => EncodableValue::Int64(*x),
        EncodableValue::Binary(b) => {
            let bytes = b.as_bytes();
            let copy = copy_range(bytes, 0, bytes.len());
            assert(copy@ =~= b@);
            EncodableValue::Binary(Binary::new(copy))
        },
    }
}

/// Whether `v` is a value that a column of `data_type` in `encoding` holds.
pub open spec fn column_value_of(data_type: TSDataType, encoding: TSEncoding, v: ValueView) -> bool {
    if encoding == TSEncoding::Plain {
        plain_value_of(data_type, v)
    } else {
        v is Int64
    }
}

/// A page is its time column, found by the length in front of it, and its value column
/// after it.
proof fn lemma_page_layout(data_type: TSDataType, encoding: TSEncoding, t: Seq<u8>, vb: Seq<u8>)
    requires
        t.len() <= i32::MAX,
    ensures
        page_points(data_type, encoding, be_bytes_u32((t.len() as i32) as u32) + t + vb) == match ts2diff_column(t) {
            Err(e) => Err(e),
            Ok(times) => match value_column(data_type, encoding, vb) {
                Err(e) => Err(e),
                Ok(values) => Ok(zip_points(times, values)),
            },
        },
{
    let s = be_bytes_u32((t.len() as i32) as u32) + t + vb;
    lemma_fixed_width_roundtrip(0, t.len() as i32, 0, t + vb);
    assert(s =~= be_bytes_u32((t.len() as i32) as u32) + (t + vb));
    assert(be_i32_at(s) == t.len());
    let n = t.len() as int;
    assert(s.subrange(4, 4 + n) =~= t);
    assert(s.skip(4 + n) =~= vb);
}

/// A value column written by the encoder of a type and encoding that can be decoded
/// reads back as its values.
proof fn lemma_value_column_roundtrip(data_type: TSDataType, encoding: TSEncoding, values: Seq<ValueView>)
    requires
        column_supported(data_type, encoding),
        forall|i: int| 0 <= i < values.len() ==> column_value_of(data_type, encoding, #[trigger] values[i]),
    ensures
        value_column(data_type, encoding, encoded(kind_for(data_type, encoding), values))
            == Ok::<Seq<ValueView>, DecodeFailure>(values),
{
    if encoding == TSEncoding::Plain {
        lemma_plain_column_roundtrip(data_type, values);
    } else {
        lemma_ts2diff_roundtrip(longs(values));
        assert forall|i: int| 0 <= i < values.len() implies #[trigger] int64_views(longs(values))[i]
            == values[i] by {
            assert(values[i] is Int64);
        }
        assert(int64_views(longs(values)) =~= values);
    }
}

/// A page made of times and values of a type and encoding that can be decoded, one
/// value per time, reads back as those points: each time with its value, in order.
pub proof fn lemma_page_roundtrip(
    data_type: TSDataType,
    encoding: TSEncoding,
    times: Seq<i64>,
    values: Seq<ValueView>,
)
    requires
        column_supported(data_type, encoding),
        times.len() == values.len(),
        forall|i: int| 0 <= i < values.len() ==> column_value_of(data_type, encoding, #[trigger] values[i]),
        ts2diff_bytes(times).len() <= i32::MAX,
    ensures
        page_points(data_type, encoding, page_bytes(int64_views(times), kind_for(data_type, encoding), values))
            == Ok::<Seq<(i64, ValueView)>, DecodeFailure>(zip_points(times, values)),
{
    let tv = int64_views(times);
    assert(longs(tv) =~= times);
    let t = ts2diff_bytes(times);
    let vb = encoded(kind_for(data_type, encoding), values);
    assert(encoded(EncoderKind::Ts2diffLong, tv) == t);
    lemma_page_layout(data_type, encoding, t, vb);
    lemma_ts2diff_roundtrip(times);
    lemma_value_column_roundtrip(data_type, encoding, values);
}

} // verus!
