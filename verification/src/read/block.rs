//! Columns of values, as query results hold them.

use vstd::prelude::*;

use crate::common::enums::TSDataType;
use crate::encoding::encoder::{EncodableValue, ValueView};
use crate::read::reader::page_reader::point_views;
use crate::read::tsfile_sequence_reader::{align_rows, columns_view, first_at, has_time, row_view};
use crate::utils::text::{join3, str_eq};
use crate::error::{TsFileError, TsFileResult};
use crate::utils::byte_order::{be_bytes_u32, be_bytes_u64};
use crate::utils::byte_order::be_value_u64;
use crate::utils::byte_reader::ByteReader;
use crate::utils::read_write_io_utils::{
    be_i32_at, bool_byte, lemma_bool_roundtrip, lemma_codes_roundtrip, lemma_fixed_width_roundtrip,
    lemma_length_prefixed_roundtrip, length_prefixed, Binary, ReadWriteIOUtils,
};

verus! {

/// One value of a column, or its absence. Floating-point values are not held.
#[derive(Debug, Clone)]
pub enum ColumnValue {
    /// A boolean.
    Boolean(bool),
    /// A 32-bit integer.
    Int32(i32),
    /// A 64-bit integer.
    Int64(i64),
    /// A byte string.
    Binary(Binary),
    /// No value.
    Null,
}

impl View for ColumnValue {
    type V = Option<ValueView>;

    open spec fn view(&self) -> Option<ValueView> {
        match self {
            ColumnValue::Boolean(b) => Some(ValueView::Boolean(*b)),
            ColumnValue::Int32(x) => Some(ValueView::Int32(*x)),
            ColumnValue::Int64(x) => Some(ValueView::Int64(*x)),
            ColumnValue::Binary(b) => Some(ValueView::Binary(b@)),
            ColumnValue::Null => None,
        }
    }
}

/// The bytes of one value of a column: 1 for no value; otherwise 0, then the value: a
/// boolean as one byte, an integer as four or eight big-endian bytes, a byte string as
/// its length in four big-endian bytes and its bytes.
pub open spec fn column_value_bytes(v: Option<ValueView>) -> Seq<u8> {
    match v {
        None => seq![1u8],
        Some(ValueView::Boolean(b)) => seq![0u8, bool_byte(b)],
        Some(ValueView::Int32(x)) => seq![0u8] + be_bytes_u32(x as u32),
        Some(ValueView::Int64(x)) => seq![0u8] + be_bytes_u64(x as u64),
        Some(ValueView::Binary(bytes)) => seq![0u8] + length_prefixed(bytes),
    }
}

/// The bytes of the values `vs`, one after the other.
pub open spec fn column_values_bytes(vs: Seq<Option<ValueView>>) -> Seq<u8>
    decreases vs.len(),
{
    if vs.len() == 0 {
        Seq::empty()
    } else {
        column_values_bytes(vs.drop_last()) + column_value_bytes(vs.last())
    }
}

/// The bytes of a column: the code of its type, its number of values in four big-endian
/// bytes, then its values.
pub open spec fn column_bytes(data_type: TSDataType, vs: Seq<Option<ValueView>>) -> Seq<u8> {
    seq![data_type.code()] + be_bytes_u32((vs.len() as i32) as u32) + column_values_bytes(vs)
}

/// The abstract forms of the values `vs`.
pub open spec fn column_views(vs: Seq<ColumnValue>) -> Seq<Option<ValueView>> {
    vs.map_values(|v: ColumnValue| v@)
}

/// One more value adds its abstract form.
proof fn lemma_column_views_push(vs: Seq<ColumnValue>, v: ColumnValue)
    ensures
        column_views(vs.push(v)) == column_views(vs).push(v@),
{
    assert(column_views(vs.push(v)) =~= column_views(vs).push(v@));
}

/// Why the bytes of a column, or of a block, do not read.
pub enum ColumnFailure {
    /// The bytes end inside a value.
    Truncated,
    /// A type code that stands for no type.
    BadType,
    /// A negative number of values, times or columns.
    BadCount,
    /// A byte string of negative length.
    BadLength,
    /// A value of a floating-point type, which the library does not hold.
    Float,
}

/// What reading a value, or a run of values, at the front of some bytes gives: the value
/// and the number of bytes it took, or why it does not read.
pub enum ColumnStep<T> {
    /// The value, which took `len` bytes.
    Done { value: T, len: nat },
    /// It does not read.
    Failed { failure: ColumnFailure },
}

/// The value of a column of `data_type` at the front of `s`: a byte 1 for no value;
/// otherwise a byte 0, then the value as the column's type writes it. A column of a type
/// that holds no values the library reads has no value after the 0 byte.
pub open spec fn column_value_step(data_type: TSDataType, s: Seq<u8>) -> ColumnStep<Option<ValueView>> {
    if s.len() < 1 {
        ColumnStep::Failed { failure: ColumnFailure::Truncated }
    } else if s[0] == 1 {
        ColumnStep::Done { value: None, len: 1 }
    } else {
        let r = s.drop_first();
        match data_type {
            TSDataType::Boolean => if r.len() < 1 {
                ColumnStep::Failed { failure: ColumnFailure::Truncated }
            } else {
                ColumnStep::Done { value: Some(ValueView::Boolean(r[0] == 1)), len: 2 }
            },
            TSDataType::Int32 | TSDataType::Date => if r.len() < 4 {
                ColumnStep::Failed { failure: ColumnFailure::Truncated }
            } else {
                ColumnStep::Done { value: Some(ValueView::Int32(be_i32_at(r))), len: 5 }
            },
            TSDataType::Int64 | TSDataType::Timestamp => if r.len() < 8 {
                ColumnStep::Failed { failure: ColumnFailure::Truncated }
            } else {
                ColumnStep::Done { value: Some(ValueView::Int64(be_value_u64(r) as i64)), len: 9 }
            },
            TSDataType::Float | TSDataType::Double => ColumnStep::Failed { failure: ColumnFailure::Float },
            TSDataType::Text | TSDataType::Blob | TSDataType::String => if r.len() < 4 {
                ColumnStep::Failed { failure: ColumnFailure::Truncated }
            } else {
                let n = be_i32_at(r) as int;
                if n < 0 {
                    ColumnStep::Failed { failure: ColumnFailure::BadLength }
                } else if r.len() - 4 < n {
                    ColumnStep::Failed { failure: ColumnFailure::Truncated }
                } else {
                    ColumnStep::Done { value: Some(ValueView::Binary(r.subrange(4, 4 + n))), len: (5 + n) as nat }
                }
            },
            _ => ColumnStep::Done { value: None, len: 1 },
        }
    }
}

/// The `n` values of a column of `data_type` at the front of `s`, one after the other.
pub open spec fn column_values_scan(data_type: TSDataType, s: Seq<u8>, n: nat) -> ColumnStep<Seq<Option<ValueView>>>
    decreases n,
{
    if n == 0 {
        ColumnStep::Done { value: Seq::empty(), len: 0 }
    } else {
        match column_values_scan(data_type, s, (n - 1) as nat) {
            ColumnStep::Failed { failure } => ColumnStep::Failed { failure },
            ColumnStep::Done { value: vs, len } => match column_value_step(data_type, s.skip(len as int)) {
                ColumnStep::Failed { failure } => ColumnStep::Failed { failure },
                ColumnStep::Done { value: v, len: l } => ColumnStep::Done { value: vs.push(v), len: len + l },
            },
        }
    }
}

/// The column at the front of `s`: the code of its type, its number of values in four
/// big-endian bytes, then its values.
pub open spec fn column_scan(s: Seq<u8>) -> ColumnStep<(TSDataType, Seq<Option<ValueView>>)> {
    if s.len() < 1 {
        ColumnStep::Failed { failure: ColumnFailure::Truncated }
    } else {
        match TSDataType::from_code(s[0]) {
            None => ColumnStep::Failed { failure: ColumnFailure::BadType },
            Some(data_type) => {
                let r = s.drop_first();
                if r.len() < 4 {
                    ColumnStep::Failed { failure: ColumnFailure::Truncated }
                } else {
                    let n = be_i32_at(r) as int;
                    if n < 0 {
                        ColumnStep::Failed { failure: ColumnFailure::BadCount }
                    } else {
                        match column_values_scan(data_type, r.skip(4), n as nat) {
                            ColumnStep::Failed { failure } => ColumnStep::Failed { failure },
                            ColumnStep::Done { value: vs, len } => ColumnStep::Done {
                                value: (data_type, vs),
                                len: 5 + len,
                            },
                        }
                    }
                }
            },
        }
    }
}

/// Whether `r` is the error that `f` stands for: `Io` for bytes that end early,
/// `InvalidFileFormat` for a bad type code or count, `ReadError` for a negative byte-string
/// length, `Unsupported` for a floating-point value.
pub open spec fn column_error(f: ColumnFailure, e: TsFileError) -> bool {
    match f {
        ColumnFailure::Truncated => e is Io,
        ColumnFailure::BadType => e is InvalidFileFormat,
        ColumnFailure::BadCount => e is InvalidFileFormat,
        ColumnFailure::BadLength => e is ReadError,
        ColumnFailure::Float => e is Unsupported,
    }
}

/// Whether `v` is a value that a column of `data_type` writes and reads back.
pub open spec fn column_value_fits(data_type: TSDataType, v: Option<ValueView>) -> bool {
    match v {
        None => true,
        Some(ValueView::Boolean(_)) => data_type == TSDataType::Boolean,
        Some(ValueView::Int32(_)) => data_type == TSDataType::Int32 || data_type == TSDataType::Date,
        Some(ValueView::Int64(_)) => data_type == TSDataType::Int64 || data_type == TSDataType::Timestamp,
        Some(ValueView::Binary(b)) => (data_type == TSDataType::Text || data_type == TSDataType::Blob
            || data_type == TSDataType::String) && b.len() <= i32::MAX,
    }
}

/// A value that fits its column reads back as itself, taking exactly its bytes.
pub proof fn lemma_column_value_roundtrip(data_type: TSDataType, v: Option<ValueView>, rest: Seq<u8>)
    requires
        column_value_fits(data_type, v),
    ensures
        column_value_step(data_type, column_value_bytes(v) + rest) == (ColumnStep::Done {
            value: v,
            len: column_value_bytes(v).len(),
        }),
        (column_value_bytes(v) + rest).skip(column_value_bytes(v).len() as int) == rest,
{
    let b = column_value_bytes(v);
    let s = b + rest;
    assert(s.skip(b.len() as int) =~= rest);
    match v {
        None => {},
        Some(ValueView::Boolean(x)) => {
            assert(s.drop_first() =~= seq![bool_byte(x)] + rest);
            lemma_bool_roundtrip(x, rest);
        },
        Some(ValueView::Int32(x)) => {
            assert(s.drop_first() =~= crate::utils::byte_order::be_bytes_u32(x as u32) + rest);
            lemma_fixed_width_roundtrip(0, x, 0, rest);
        },
        Some(ValueView::Int64(x)) => {
            assert(s.drop_first() =~= crate::utils::byte_order::be_bytes_u64(x as u64) + rest);
            lemma_fixed_width_roundtrip(0, 0, x, rest);
        },
        Some(ValueView::Binary(bytes)) => {
            assert(s.drop_first() =~= length_prefixed(bytes) + rest);
            lemma_length_prefixed_roundtrip(bytes, rest);
        },
    }
}

/// Once a run of values fails, every longer run fails in the same way.
proof fn lemma_column_values_fail_on(data_type: TSDataType, s: Seq<u8>, k: nat, n: nat)
    requires
        k <= n,
        column_values_scan(data_type, s, k) is Failed,
    ensures
        column_values_scan(data_type, s, n) == column_values_scan(data_type, s, k),
    decreases n - k,
{
    if k < n {
        lemma_column_values_fail_on(data_type, s, k, (n - 1) as nat);
    }
}

/// A run of values that reads takes no more bytes than there are.
proof fn lemma_column_values_len(data_type: TSDataType, s: Seq<u8>, n: nat)
    ensures
        column_values_scan(data_type, s, n) matches ColumnStep::Done { len, .. } ==> len <= s.len(),
    decreases n,
{
    if n > 0 {
        lemma_column_values_len(data_type, s, (n - 1) as nat);
        if let ColumnStep::Done { value: _, len } = column_values_scan(data_type, s, (n - 1) as nat) {
            assert(s.skip(len as int).len() == s.len() - len);
        }
    }
}

/// A column that reads takes no more bytes than there are.
proof fn lemma_column_scan_len(s: Seq<u8>)
    ensures
        column_scan(s) matches ColumnStep::Done { len, .. } ==> len <= s.len(),
{
    if s.len() >= 5 {
        let r = s.drop_first();
        lemma_column_values_len(TSDataType::Boolean, r.skip(4), 0);
        if let Some(t) = TSDataType::from_code(s[0]) {
            let n = be_i32_at(r) as int;
            if n >= 0 {
                lemma_column_values_len(t, r.skip(4), n as nat);
            }
        }
    }
}

/// Values that fit their column read back as themselves, taking exactly their bytes.
pub proof fn lemma_column_values_roundtrip(data_type: TSDataType, vs: Seq<Option<ValueView>>, rest: Seq<u8>)
    requires
        forall|i: int| 0 <= i < vs.len() ==> column_value_fits(data_type, #[trigger] vs[i]),
    ensures
        column_values_scan(data_type, column_values_bytes(vs) + rest, vs.len()) == (ColumnStep::Done {
            value: vs,
            len: column_values_bytes(vs).len(),
        }),
    decreases vs.len(),
{
    if vs.len() > 0 {
        let front = vs.drop_last();
        let v = vs.last();
        let tail = column_value_bytes(v) + rest;
        assert(column_values_bytes(vs) + rest =~= column_values_bytes(front) + tail);
        assert forall|i: int| 0 <= i < front.len() implies column_value_fits(data_type, #[trigger] front[i]) by {
            assert(front[i] == vs[i]);
        }
        assert(column_value_fits(data_type, vs[vs.len() - 1]));
        lemma_column_values_roundtrip(data_type, front, tail);
        let s = column_values_bytes(vs) + rest;
        assert(s.skip(column_values_bytes(front).len() as int) =~= tail);
        lemma_column_value_roundtrip(data_type, v, rest);
        assert(front.push(v) =~= vs);
        assert((vs.len() - 1) as nat == front.len());
        assert(column_values_bytes(vs).len() == column_values_bytes(front).len() + column_value_bytes(v).len());
    } else {
        assert(vs =~= Seq::<Option<ValueView>>::empty());
        assert(column_values_bytes(vs) == Seq::<u8>::empty());
    }
}

/// A column whose values fit its type, and whose count fits in 31 bits, reads back as
/// itself: its type and its values, taking exactly its bytes.
pub proof fn lemma_column_roundtrip(data_type: TSDataType, vs: Seq<Option<ValueView>>, rest: Seq<u8>)
    requires
        vs.len() <= i32::MAX,
        forall|i: int| 0 <= i < vs.len() ==> column_value_fits(data_type, #[trigger] vs[i]),
    ensures
        column_scan(column_bytes(data_type, vs) + rest) == (ColumnStep::Done {
            value: (data_type, vs),
            len: column_bytes(data_type, vs).len(),
        }),
{
    let s = column_bytes(data_type, vs) + rest;
    let n = vs.len() as i32;
    lemma_codes_roundtrip(data_type, crate::common::enums::TSEncoding::Plain, crate::common::enums::CompressionType::Uncompressed);
    let r = s.drop_first();
    assert(r =~= crate::utils::byte_order::be_bytes_u32(n as u32) + (column_values_bytes(vs) + rest));
    lemma_fixed_width_roundtrip(0, n, 0, column_values_bytes(vs) + rest);
    lemma_column_values_roundtrip(data_type, vs, rest);
}

/// Reads one value of a column of `data_type` at the front of `reader`.
fn read_column_value(reader: &mut ByteReader, data_type: TSDataType) -> (r: TsFileResult<ColumnValue>)
    ensures
        match column_value_step(data_type, old(reader).rest()) {
            ColumnStep::Done { value, len } => r matches Ok(c) && c@ == value && final(reader).rest()
                == old(reader).rest().skip(len as int),
            ColumnStep::Failed { failure } => r matches Err(e) && column_error(failure, e),
        },
{
    let ghost s = reader.rest();
    let is_null = ReadWriteIOUtils::read_bool(reader)?;
    if is_null {
        assert(s.skip(1) =~= s.drop_first());
        return Ok(ColumnValue::Null);
    }
    let ghost r = reader.rest();
    assert(r == s.drop_first());
    match data_type {
        TSDataType::Boolean => {
            let b = ReadWriteIOUtils::read_bool(reader)?;
            assert(s.skip(2) =~= r.drop_first());
            Ok(ColumnValue::Boolean(b))
        },
        TSDataType::Int32 | TSDataType::Date => {
            let x = ReadWriteIOUtils::read_i32(reader)?;
            assert(s.skip(5) =~= r.skip(4));
            Ok(ColumnValue::Int32(x))
        },
        TSDataType::Int64 | TSDataType::Timestamp => {
            let x = ReadWriteIOUtils::read_i64(reader)?;
            assert(s.skip(9) =~= r.skip(8));
            Ok(ColumnValue::Int64(x))
        },
        TSDataType::Float | TSDataType::Double => Err(
            TsFileError::Unsupported("Floating-point columns are not read".to_string()),
        ),
        TSDataType::Text | TSDataType::Blob | TSDataType::String => {
            let b = ReadWriteIOUtils::read_binary(reader)?;
            proof {
                let n = be_i32_at(r) as int;
                assert(s.skip(5 + n) =~= r.skip(4 + n));
            }
            Ok(ColumnValue::Binary(b))
        },
        _ => {
            assert(s.skip(1) =~= s.drop_first());
            Ok(ColumnValue::Null)
        },
    }
}

/// The bytes of the times `ts`, each in eight big-endian bytes.
pub open spec fn times_bytes(ts: Seq<i64>) -> Seq<u8>
    decreases ts.len(),
{
    if ts.len() == 0 {
        Seq::empty()
    } else {
        times_bytes(ts.drop_last()) + be_bytes_u64(ts.last() as u64)
    }
}

/// The abstract form of a column: its type and its values.
pub open spec fn column_view(c: Column) -> (TSDataType, Seq<Option<ValueView>>) {
    (c.spec_data_type(), c.value_views())
}

/// The abstract forms of columns.
pub open spec fn column_list(cs: Seq<Column>) -> Seq<(TSDataType, Seq<Option<ValueView>>)> {
    cs.map_values(|c: Column| column_view(c))
}

/// The bytes of the columns `cs`, one after the other.
pub open spec fn columns_bytes(cs: Seq<(TSDataType, Seq<Option<ValueView>>)>) -> Seq<u8>
    decreases cs.len(),
{
    if cs.len() == 0 {
        Seq::empty()
    } else {
        columns_bytes(cs.drop_last()) + column_bytes(cs.last().0, cs.last().1)
    }
}

/// The bytes of a block: its number of rows in four big-endian bytes, its times, its
/// number of columns in four big-endian bytes, then its columns.
pub open spec fn block_bytes(ts: Seq<i64>, cs: Seq<(TSDataType, Seq<Option<ValueView>>)>) -> Seq<u8> {
    be_bytes_u32((ts.len() as i32) as u32) + times_bytes(ts) + be_bytes_u32((cs.len() as i32) as u32)
        + columns_bytes(cs)
}

/// The `n` times at the front of `s`.
pub open spec fn times_scan(s: Seq<u8>, n: nat) -> ColumnStep<Seq<i64>>
    decreases n,
{
    if n == 0 {
        ColumnStep::Done { value: Seq::empty(), len: 0 }
    } else {
        match times_scan(s, (n - 1) as nat) {
            ColumnStep::Failed { failure } => ColumnStep::Failed { failure },
            ColumnStep::Done { value: ts, len } => if s.len() - len < 8 {
                ColumnStep::Failed { failure: ColumnFailure::Truncated }
            } else {
                ColumnStep::Done { value: ts.push(be_value_u64(s.skip(len as int)) as i64), len: len + 8 }
            },
        }
    }
}

/// The `n` columns at the front of `s`, one after the other.
pub open spec fn columns_scan(s: Seq<u8>, n: nat) -> ColumnStep<Seq<(TSDataType, Seq<Option<ValueView>>)>>
    decreases n,
{
    if n == 0 {
        ColumnStep::Done { value: Seq::empty(), len: 0 }
    } else {
        match columns_scan(s, (n - 1) as nat) {
            ColumnStep::Failed { failure } => ColumnStep::Failed { failure },
            ColumnStep::Done { value: cs, len } => match column_scan(s.skip(len as int)) {
                ColumnStep::Failed { failure } => ColumnStep::Failed { failure },
                ColumnStep::Done { value: c, len: l } => ColumnStep::Done { value: cs.push(c), len: len + l },
            },
        }
    }
}

/// The block at the front of `s`: its number of rows, its times, its number of columns,
/// then its columns. A negative number of rows or columns does not read.
pub open spec fn block_scan(s: Seq<u8>) -> ColumnStep<(Seq<i64>, Seq<(TSDataType, Seq<Option<ValueView>>)>)> {
    if s.len() < 4 {
        ColumnStep::Failed { failure: ColumnFailure::Truncated }
    } else if (be_i32_at(s) as int) < 0 {
        ColumnStep::Failed { failure: ColumnFailure::BadCount }
    } else {
        match times_scan(s.skip(4), be_i32_at(s) as nat) {
            ColumnStep::Failed { failure } => ColumnStep::Failed { failure },
            ColumnStep::Done { value: ts, len } => {
                let r = s.skip((4 + len) as int);
                if r.len() < 4 {
                    ColumnStep::Failed { failure: ColumnFailure::Truncated }
                } else if (be_i32_at(r) as int) < 0 {
                    ColumnStep::Failed { failure: ColumnFailure::BadCount }
                } else {
                    match columns_scan(r.skip(4), be_i32_at(r) as nat) {
                        ColumnStep::Failed { failure } => ColumnStep::Failed { failure },
                        ColumnStep::Done { value: cs, len: l } => ColumnStep::Done {
                            value: (ts, cs),
                            len: 8 + len + l,
                        },
                    }
                }
            },
        }
    }
}

/// Once a run of times fails, every longer run fails in the same way.
proof fn lemma_times_fail_on(s: Seq<u8>, k: nat, n: nat)
    requires
        k <= n,
        times_scan(s, k) is Failed,
    ensures
        times_scan(s, n) == times_scan(s, k),
    decreases n - k,
{
    if k < n {
        lemma_times_fail_on(s, k, (n - 1) as nat);
    }
}

/// Once a run of columns fails, every longer run fails in the same way.
proof fn lemma_columns_fail_on(s: Seq<u8>, k: nat, n: nat)
    requires
        k <= n,
        columns_scan(s, k) is Failed,
    ensures
        columns_scan(s, n) == columns_scan(s, k),
    decreases n - k,
{
    if k < n {
        lemma_columns_fail_on(s, k, (n - 1) as nat);
    }
}

/// Whether a column reads back as itself: its count fits in 31 bits and its values fit
/// its type.
pub open spec fn column_fits(c: (TSDataType, Seq<Option<ValueView>>)) -> bool {
    &&& c.1.len() <= i32::MAX
    &&& forall|i: int| 0 <= i < c.1.len() ==> column_value_fits(c.0, #[trigger] c.1[i])
}

/// Times read back as themselves, taking exactly their bytes.
proof fn lemma_times_roundtrip(ts: Seq<i64>, rest: Seq<u8>)
    ensures
        times_scan(times_bytes(ts) + rest, ts.len()) == (ColumnStep::Done { value: ts, len: times_bytes(ts).len() }),
        times_bytes(ts).len() == 8 * ts.len(),
    decreases ts.len(),
{
    if ts.len() == 0 {
        assert(ts =~= Seq::<i64>::empty());
    } else {
        let front = ts.drop_last();
        let t = ts.last();
        let tail = be_bytes_u64(t as u64) + rest;
        assert(times_bytes(ts) + rest =~= times_bytes(front) + tail);
        lemma_times_roundtrip(front, tail);
        let s = times_bytes(ts) + rest;
        assert(s.skip(times_bytes(front).len() as int) =~= tail);
        lemma_fixed_width_roundtrip(0, 0, t, rest);
        assert(front.push(t) =~= ts);
        assert((ts.len() - 1) as nat == front.len());
    }
}

/// Columns that read back as themselves do so one after the other.
#[verifier::rlimit(40)]
proof fn lemma_columns_roundtrip(cs: Seq<(TSDataType, Seq<Option<ValueView>>)>, rest: Seq<u8>)
    requires
        forall|i: int| 0 <= i < cs.len() ==> column_fits(#[trigger] cs[i]),
    ensures
        columns_scan(columns_bytes(cs) + rest, cs.len()) == (ColumnStep::Done { value: cs, len: columns_bytes(cs).len() }),
    decreases cs.len(),
{
    if cs.len() == 0 {
        assert(cs =~= Seq::<(TSDataType, Seq<Option<ValueView>>)>::empty());
    } else {
        let front = cs.drop_last();
        let c = cs.last();
        let tail = column_bytes(c.0, c.1) + rest;
        assert(columns_bytes(cs) + rest =~= columns_bytes(front) + tail);
        assert forall|i: int| 0 <= i < front.len() implies column_fits(#[trigger] front[i]) by {
            assert(front[i] == cs[i]);
        }
        assert(column_fits(cs[cs.len() - 1]));
        lemma_columns_roundtrip(front, tail);
        let s = columns_bytes(cs) + rest;
        assert(s.skip(columns_bytes(front).len() as int) =~= tail);
        lemma_column_roundtrip(c.0, c.1, rest);
        assert(front.push(c) =~= cs);
        assert((cs.len() - 1) as nat == front.len());
    }
}

/// A block reads as its times and columns when its counts, its times and its columns read.
proof fn lemma_block_scan_parts(
    s: Seq<u8>,
    ts: Seq<i64>,
    cs: Seq<(TSDataType, Seq<Option<ValueView>>)>,
    lt: nat,
    lc: nat,
)
    requires
        s.len() >= 4,
        be_i32_at(s) as int == ts.len(),
        times_scan(s.skip(4), ts.len()) == (ColumnStep::Done { value: ts, len: lt }),
        s.skip((4 + lt) as int).len() >= 4,
        be_i32_at(s.skip((4 + lt) as int)) as int == cs.len(),
        columns_scan(s.skip((4 + lt) as int).skip(4), cs.len()) == (ColumnStep::Done { value: cs, len: lc }),
    ensures
        block_scan(s) == (ColumnStep::Done { value: (ts, cs), len: 8 + lt + lc }),
{
}

/// The times and the count of columns of a block read back, leaving its columns.
proof fn lemma_block_front(ts: Seq<i64>, m: i32, after: Seq<u8>)
    requires
        ts.len() <= i32::MAX,
    ensures
        ({
            let s = be_bytes_u32((ts.len() as i32) as u32) + times_bytes(ts) + be_bytes_u32(m as u32) + after;
            let lt = times_bytes(ts).len();
            &&& s.len() >= 4
            &&& be_i32_at(s) as int == ts.len()
            &&& times_scan(s.skip(4), ts.len()) == (ColumnStep::Done { value: ts, len: lt })
            &&& s.skip((4 + lt) as int).len() >= 4
            &&& be_i32_at(s.skip((4 + lt) as int)) == m
            &&& s.skip((4 + lt) as int).skip(4) == after
        }),
{
    let n = ts.len() as i32;
    let tb = times_bytes(ts);
    let tail = be_bytes_u32(m as u32) + after;
    let s = be_bytes_u32(n as u32) + tb + be_bytes_u32(m as u32) + after;
    assert(s == be_bytes_u32(n as u32) + (tb + tail)) by {
        assert(s =~= be_bytes_u32(n as u32) + (tb + tail));
    }
    assert(be_i32_at(s) == n && s.skip(4) == tb + tail) by {
        lemma_fixed_width_roundtrip(0, n, 0, tb + tail);
    }
    assert(times_scan(s.skip(4), ts.len()) == (ColumnStep::Done { value: ts, len: tb.len() })) by {
        lemma_times_roundtrip(ts, tail);
    }
    assert(s.skip((4 + tb.len()) as int) == tail) by {
        assert(s.skip((4 + tb.len()) as int) =~= tail);
    }
    assert(be_i32_at(tail) == m && tail.skip(4) == after) by {
        lemma_fixed_width_roundtrip(0, m, 0, after);
    }
}

/// A block whose counts fit in 31 bits and whose columns read back as themselves reads
/// back as itself: its times and its columns, taking exactly its bytes.
pub proof fn lemma_block_roundtrip(ts: Seq<i64>, cs: Seq<(TSDataType, Seq<Option<ValueView>>)>, rest: Seq<u8>)
    requires
        ts.len() <= i32::MAX,
        cs.len() <= i32::MAX,
        forall|i: int| 0 <= i < cs.len() ==> column_fits(#[trigger] cs[i]),
    ensures
        block_scan(block_bytes(ts, cs) + rest) == (ColumnStep::Done {
            value: (ts, cs),
            len: block_bytes(ts, cs).len(),
        }),
{
    let m = cs.len() as i32;
    let cb = columns_bytes(cs);
    let s = be_bytes_u32((ts.len() as i32) as u32) + times_bytes(ts) + be_bytes_u32(m as u32) + (cb + rest);
    assert(block_bytes(ts, cs) + rest == s) by {
        assert(block_bytes(ts, cs) + rest =~= s);
    }
    assert(block_scan(s) == (ColumnStep::Done { value: (ts, cs), len: 8 + times_bytes(ts).len() + cb.len() })) by {
        lemma_block_front(ts, m, cb + rest);
        lemma_columns_roundtrip(cs, rest);
        lemma_block_scan_parts(s, ts, cs, times_bytes(ts).len(), cb.len());
    }
    assert(block_bytes(ts, cs).len() == 8 + times_bytes(ts).len() + cb.len());
}

/// A copy of `v`.
fn copy_column_value(v: &ColumnValue) -> (c: ColumnValue)
    ensures
        c@ == v@,
{
    match v {
        ColumnValue::Boolean(b) => ColumnValue::Boolean(*b),
        ColumnValue::Int32(x) => ColumnValue::Int32(*x),
        ColumnValue::Int64(x) => ColumnValue::Int64(*x),
        ColumnValue::Binary(b) => {
            let bytes = crate::utils::byte_reader::copy_range(b.as_bytes(), 0, b.as_bytes().len());
            assert(bytes@ =~= b@);
            ColumnValue::Binary(Binary::new(bytes))
        },
        ColumnValue::Null => ColumnValue::Null,
    }
}

/// The values of one column, all of one type.
#[derive(Debug, Clone)]
pub struct Column {
    data_type: TSDataType,
    values: Vec<ColumnValue>,
}

impl Column {
    /// The type of the values.
    pub closed spec fn spec_data_type(&self) -> TSDataType {
        self.data_type
    }

    /// The values, each `None` where there is no value.
    pub closed spec fn value_views(&self) -> Seq<Option<ValueView>> {
        column_views(self.values@)
    }

    /// A column of `data_type` holding `values`.
    pub fn new(data_type: TSDataType, values: Vec<ColumnValue>) -> (c: Self)
        ensures
            c.spec_data_type() == data_type,
            c.value_views() == column_views(values@),
    {
        Column { data_type, values }
    }

    /// The type of the values.
    pub fn data_type(&self) -> (t: TSDataType)
        ensures
            t == self.spec_data_type(),
    {
        self.data_type
    }

    /// The number of positions, with or without a value.
    pub fn position_count(&self) -> (n: usize)
        ensures
            n == self.value_views().len(),
    {
        self.values.len()
    }

    /// The value at `position`, if there is such a position.
    pub fn get(&self, position: usize) -> (v: Option<&ColumnValue>)
        ensures
            position < self.value_views().len() ==> (v matches Some(x) && x@ == self.value_views()[position as int]),
            position >= self.value_views().len() ==> v is None,
    {
        if position < self.values.len() {
            Some(&self.values[position])
        } else {
            None
        }
    }

    /// The values, each `Null` where there is no value.
    pub fn values(&self) -> (v: &[ColumnValue])
        ensures
            column_views(v@) == self.value_views(),
    {
        self.values.as_slice()
    }

    /// The column of the `length` values from `offset`. A range past the end, or whose
    /// end overflows, is an `InvalidFileFormat` error.
    pub fn region(&self, offset: usize, length: usize) -> (r: TsFileResult<Column>)
        ensures
            offset + length <= self.value_views().len() ==> (r matches Ok(c) && c.spec_data_type()
                == self.spec_data_type() && c.value_views() == self.value_views().subrange(
                offset as int,
                offset + length,
            )),
            offset + length > self.value_views().len() ==> (r matches Err(TsFileError::InvalidFileFormat(_))),
    {
        assert(self.value_views().len() == self.values@.len());
        let end = match offset.checked_add(length) {
            Some(e) => e,
            None => {
                assert(self.values@.len() == self.values.len());
                return Err(TsFileError::InvalidFileFormat("Column region offset overflow".to_string()));
            },
        };
        if end > self.values.len() {
            return Err(TsFileError::InvalidFileFormat("Column region out of bounds".to_string()));
        }
        let ghost vs = self.value_views();
        let mut out: Vec<ColumnValue> = Vec::new();
        let mut i: usize = offset;
        assert(column_views(out@) =~= vs.subrange(offset as int, offset as int));
        while i < end
            invariant
                offset <= i <= end,
                end <= self.values@.len(),
                vs == self.value_views(),
                column_views(out@) == vs.subrange(offset as int, i as int),
            decreases end - i,
        {
            let v = copy_column_value(&self.values[i]);
            proof {
                lemma_column_views_push(out@, v);
            }
            out.push(v);
            assert(column_views(out@) =~= vs.subrange(offset as int, i + 1));
            i = i + 1;
        }
        Ok(Column::new(self.data_type, out))
    }

    /// The number of positions without a value.
    pub fn null_count(&self) -> (n: usize)
        ensures
            n == self.value_views().filter(|v: Option<ValueView>| v is None).len(),
    {
        let ghost vs = self.value_views();
        let mut n: usize = 0;
        let mut i: usize = 0;
        assert(vs.take(0) =~= Seq::<Option<ValueView>>::empty());
        assert(vs.take(0).filter(|v: Option<ValueView>| v is None) =~= Seq::<Option<ValueView>>::empty());
        while i < self.values.len()
            invariant
                i <= self.values@.len(),
                vs == self.value_views(),
                vs.len() == self.values@.len(),
                n == vs.take(i as int).filter(|v: Option<ValueView>| v is None).len(),
                n <= i,
            decreases self.values@.len() - i,
        {
            assert(vs.take(i + 1).drop_last() =~= vs.take(i as int));
            assert(vs[i as int] == self.values@[i as int]@);
            reveal(Seq::filter);
            if let ColumnValue::Null = &self.values[i] {
                n = n + 1;
            }
            i = i + 1;
        }
        assert(vs.take(vs.len() as int) =~= vs);
        n
    }

    /// The boolean at `position`, if it holds one.
    pub fn get_bool(&self, position: usize) -> (r: Option<bool>)
        ensures
            r == (if position < self.value_views().len() {
                match self.value_views()[position as int] {
                    Some(ValueView::Boolean(b)) => Some(b),
                    _ => None,
                }
            } else {
                None
            }),
    {
        match self.get(position) {
            Some(ColumnValue::Boolean(b)) => Some(*b),
            _ => None,
        }
    }

    /// The 32-bit integer at `position`, if it holds one.
    pub fn get_i32(&self, position: usize) -> (r: Option<i32>)
        ensures
            r == (if position < self.value_views().len() {
                match self.value_views()[position as int] {
                    Some(ValueView::Int32(x)) => Some(x),
                    _ => None,
                }
            } else {
                None
            }),
    {
        match self.get(position) {
            Some(ColumnValue::Int32(x)) => Some(*x),
            _ => None,
        }
    }

    /// The 64-bit integer at `position`, if it holds one.
    pub fn get_i64(&self, position: usize) -> (r: Option<i64>)
        ensures
            r == (if position < self.value_views().len() {
                match self.value_views()[position as int] {
                    Some(ValueView::Int64(x)) => Some(x),
                    _ => None,
                }
            } else {
                None
            }),
    {
        match self.get(position) {
            Some(ColumnValue::Int64(x)) => Some(*x),
            _ => None,
        }
    }

    /// The byte string at `position`, if it holds one.
    pub fn get_binary(&self, position: usize) -> (r: Option<&Binary>)
        ensures
            match (if position < self.value_views().len() { self.value_views()[position as int] } else { None }) {
                Some(ValueView::Binary(b)) => r matches Some(x) && x@ == b,
                _ => r is None,
            },
    {
        match self.get(position) {
            Some(ColumnValue::Binary(b)) => Some(b),
            _ => None,
        }
    }

    /// Whether there is no value at `position`, or no such position.
    pub fn is_null(&self, position: usize) -> (b: bool)
        ensures
            b == (position >= self.value_views().len() || self.value_views()[position as int] is None),
    {
        if position >= self.values.len() {
            return true;
        }
        match &self.values[position] {
            ColumnValue::Null => true,
            _ => false,
        }
    }

    /// Reads a column: the code of its type, its number of values, then each value. A
    /// short input is an `Io` error, an unknown type code or a negative count an
    /// `InvalidFileFormat` error, a byte string of negative length a `ReadError`, and a
    /// value of a floating-point type `Unsupported`.
    pub fn deserialize(reader: &mut ByteReader) -> (r: TsFileResult<Column>)
        ensures
            match column_scan(old(reader).rest()) {
                ColumnStep::Done { value: (t, vs), len } => r matches Ok(c) && c.spec_data_type() == t
                    && c.value_views() == vs && final(reader).rest() == old(reader).rest().skip(len as int),
                ColumnStep::Failed { failure } => r matches Err(e) && column_error(failure, e),
            },
    {
        let ghost s = reader.rest();
        let code = ReadWriteIOUtils::read_byte(reader)?;
        let data_type = TSDataType::deserialize(code)?;
        let ghost r = reader.rest();
        let count = ReadWriteIOUtils::read_i32(reader)?;
        if count < 0 {
            return Err(TsFileError::InvalidFileFormat("Negative column value count".to_string()));
        }
        let ghost body = reader.rest();
        assert(body == r.skip(4));
        let mut values: Vec<ColumnValue> = Vec::new();
        let mut i: i32 = 0;
        let ghost mut used: nat = 0;
        assert(column_views(values@) =~= Seq::<Option<ValueView>>::empty());
        assert(body.skip(0) =~= body);
        while i < count
            invariant
                0 <= i <= count,
                s == old(reader).rest(),
                s.len() >= 1,
                TSDataType::from_code(s[0]) == Some(data_type),
                r == s.drop_first(),
                r.len() >= 4,
                be_i32_at(r) == count,
                body == r.skip(4),
                column_values_scan(data_type, body, i as nat) == (ColumnStep::Done { value: column_views(values@), len: used }),
                used <= body.len(),
                reader.rest() == body.skip(used as int),
            decreases count - i,
        {
            proof {
                assert(((i + 1) as nat - 1) as nat == i as nat);
            }
            let v = match read_column_value(reader, data_type) {
                Ok(v) => v,
                Err(e) => {
                    proof {
                        let k = (i + 1) as nat;
                        assert((k - 1) as nat == i as nat);
                        assert(column_value_step(data_type, body.skip(used as int)) is Failed);
                        assert(column_values_scan(data_type, body, k) == match column_value_step(data_type, body.skip(used as int)) {
                            ColumnStep::Failed { failure } => ColumnStep::<Seq<Option<ValueView>>>::Failed { failure },
                            ColumnStep::Done { value: v, len: l } => ColumnStep::Done { value: column_views(values@).push(v), len: used + l },
                        });
                        lemma_column_values_fail_on(data_type, body, k, count as nat);
                    }
                    return Err(e);
                },
            };
            proof {
                let l = match column_value_step(data_type, body.skip(used as int)) {
                    ColumnStep::Done { len, .. } => len,
                    _ => 0,
                };
                lemma_column_views_push(values@, v);
                assert(body.skip(used as int).skip(l as int) =~= body.skip((used + l) as int));
                used = used + l;
            }
            values.push(v);
            i = i + 1;
        }
        proof {
            assert(s.drop_first() == r);
            assert(s.skip((5 + used) as int) =~= body.skip(used as int));
        }
        Ok(Column::new(data_type, values))
    }

    /// Appends the column to `writer`: the code of its type, its number of values, then
    /// each value. Returns the number of bytes appended.
    pub fn serialize(&self, writer: &mut Vec<u8>) -> (r: TsFileResult<usize>)
        ensures
            final(writer)@ == old(writer)@ + column_bytes(self.spec_data_type(), self.value_views()),
            r == Ok::<usize, TsFileError>(column_bytes(self.spec_data_type(), self.value_views()).len() as usize),
    {
        let start = writer.len();
        let ghost vs = self.value_views();
        let _ = ReadWriteIOUtils::write_byte(self.data_type.serialize(), writer)?;
        let _ = ReadWriteIOUtils::write_i32(#[verifier::truncate] (self.values.len() as i32), writer)?;
        let ghost head = writer@;
        assert(head == old(writer)@ + seq![self.data_type.code()] + be_bytes_u32((vs.len() as i32) as u32));
        let mut i: usize = 0;
        assert(vs.take(0) =~= Seq::<Option<ValueView>>::empty());
        assert(head =~= head + column_values_bytes(vs.take(0)));
        while i < self.values.len()
            invariant
                i <= self.values@.len(),
                vs == self.value_views(),
                vs.len() == self.values@.len(),
                writer@ == head + column_values_bytes(vs.take(i as int)),
            decreases self.values@.len() - i,
        {
            let ghost before = writer@;
            assert(vs.take(i + 1).drop_last() =~= vs.take(i as int));
            assert(vs.take(i + 1).last() == self.values@[i as int]@);
            match &self.values[i] {
                ColumnValue::Null => {
                    let _ = ReadWriteIOUtils::write_bool(true, writer);
                },
                ColumnValue::Boolean(b) => {
                    let _ = ReadWriteIOUtils::write_bool(false, writer);
                    let _ = ReadWriteIOUtils::write_bool(*b, writer);
                },
                ColumnValue::Int32(x) => {
                    let _ = ReadWriteIOUtils::write_bool(false, writer);
                    let _ = ReadWriteIOUtils::write_i32(*x, writer);
                },
                ColumnValue::Int64(x) => {
                    let _ = ReadWriteIOUtils::write_bool(false, writer);
                    let _ = ReadWriteIOUtils::write_i64(*x, writer);
                },
                ColumnValue::Binary(b) => {
                    let _ = ReadWriteIOUtils::write_bool(false, writer);
                    let _ = ReadWriteIOUtils::write_binary(b, writer);
                },
            }
            assert(writer@ =~= before + column_value_bytes(self.values@[i as int]@));
            assert(writer@ =~= head + column_values_bytes(vs.take(i + 1)));
            i = i + 1;
        }
        assert(vs.take(vs.len() as int) =~= vs);
        assert(writer@ =~= old(writer)@ + column_bytes(self.data_type, vs));
        Ok(writer.len() - start)
    }
}

/// The column value holding `v`, or no value.
fn column_value_of_point(v: Option<EncodableValue>) -> (c: ColumnValue)
    ensures
        c@ == match v {
            Some(x) => Some(x@),
            None => None,
        },
{
    match v {
        Some(EncodableValue::Boolean(b)) => ColumnValue::Boolean(b),
        Some(EncodableValue::Int32(x)) => ColumnValue::Int32(x),
        Some(EncodableValue::Int64(x)) => ColumnValue::Int64(x),
        Some(EncodableValue::Binary(b)) => ColumnValue::Binary(b),
        None => ColumnValue::Null,
    }
}

/// A block of rows: a column of times and columns of values, one value per time.
#[derive(Debug, Clone)]
pub struct TsBlock {
    time_column: Vec<i64>,
    value_columns: Vec<Column>,
}

impl TsBlock {
    /// The times of the rows.
    pub closed spec fn spec_times(&self) -> Seq<i64> {
        self.time_column@
    }

    /// The columns of values.
    pub closed spec fn spec_columns(&self) -> Seq<Column> {
        self.value_columns@
    }

    /// A block with the times `time_column` and the columns `value_columns`.
    pub fn new(time_column: Vec<i64>, value_columns: Vec<Column>) -> (b: Self)
        ensures
            b.spec_times() == time_column@,
            b.spec_columns() == value_columns@,
    {
        TsBlock { time_column, value_columns }
    }

    /// The number of rows.
    pub fn position_count(&self) -> (n: usize)
        ensures
            n == self.spec_times().len(),
    {
        self.time_column.len()
    }

    /// The time of row `index`, if there is such a row.
    pub fn time_by_index(&self, index: usize) -> (t: Option<i64>)
        ensures
            t == (if index < self.spec_times().len() { Some(self.spec_times()[index as int]) } else { None }),
    {
        if index < self.time_column.len() {
            Some(self.time_column[index])
        } else {
            None
        }
    }

    /// The times of the rows.
    pub fn times(&self) -> (t: &[i64])
        ensures
            t@ == self.spec_times(),
    {
        self.time_column.as_slice()
    }

    /// The columns of values.
    pub fn columns(&self) -> (c: &[Column])
        ensures
            c@ == self.spec_columns(),
    {
        self.value_columns.as_slice()
    }

    /// The number of columns of values.
    pub fn value_column_count(&self) -> (n: usize)
        ensures
            n == self.spec_columns().len(),
    {
        self.value_columns.len()
    }

    /// The column of values `index`, if there is one.
    pub fn column(&self, index: usize) -> (c: Option<&Column>)
        ensures
            c == (if index < self.spec_columns().len() { Some(&self.spec_columns()[index as int]) } else { None }),
    {
        if index < self.value_columns.len() {
            Some(&self.value_columns[index])
        } else {
            None
        }
    }

    /// Appends the block to `writer`: its number of rows, its times, its number of
    /// columns, then its columns. Returns the number of bytes appended.
    #[verifier::rlimit(40)]
    pub fn serialize(&self, writer: &mut Vec<u8>) -> (r: TsFileResult<usize>)
        ensures
            final(writer)@ == old(writer)@ + block_bytes(self.spec_times(), column_list(self.spec_columns())),
            r == Ok::<usize, TsFileError>(block_bytes(self.spec_times(), column_list(self.spec_columns())).len() as usize),
    {
        let start = writer.len();
        let ghost ts = self.time_column@;
        let ghost cs = column_list(self.value_columns@);
        let _ = ReadWriteIOUtils::write_i32(#[verifier::truncate] (self.time_column.len() as i32), writer)?;
        let ghost head = writer@;
        let mut i: usize = 0;
        assert(ts.take(0) =~= Seq::<i64>::empty());
        assert(head =~= head + times_bytes(ts.take(0)));
        while i < self.time_column.len()
            invariant
                i <= ts.len(),
                ts == self.time_column@,
                writer@ == head + times_bytes(ts.take(i as int)),
            decreases ts.len() - i,
        {
            assert(ts.take(i + 1).drop_last() =~= ts.take(i as int));
            let _ = ReadWriteIOUtils::write_i64(self.time_column[i], writer);
            assert(writer@ =~= head + times_bytes(ts.take(i + 1)));
            i = i + 1;
        }
        assert(ts.take(ts.len() as int) =~= ts);
        let _ = ReadWriteIOUtils::write_i32(#[verifier::truncate] (self.value_columns.len() as i32), writer)?;
        let ghost mid = writer@;
        let mut j: usize = 0;
        assert(cs.take(0) =~= Seq::<(TSDataType, Seq<Option<ValueView>>)>::empty());
        assert(mid =~= mid + columns_bytes(cs.take(0)));
        while j < self.value_columns.len()
            invariant
                j <= self.value_columns@.len(),
                cs == column_list(self.value_columns@),
                cs.len() == self.value_columns@.len(),
                writer@ == mid + columns_bytes(cs.take(j as int)),
            decreases self.value_columns@.len() - j,
        {
            assert(cs.take(j + 1).drop_last() =~= cs.take(j as int));
            assert(cs.take(j + 1).last() == column_view(self.value_columns@[j as int]));
            let _ = self.value_columns[j].serialize(writer);
            assert(writer@ =~= mid + columns_bytes(cs.take(j + 1)));
            j = j + 1;
        }
        assert(cs.take(cs.len() as int) =~= cs);
        assert(writer@ =~= old(writer)@ + block_bytes(ts, cs));
        Ok(writer.len() - start)
    }

    /// Reads a block: its number of rows, its times, its number of columns, then its
    /// columns. A short input is an `Io` error and a negative number of rows or columns an
    /// `InvalidFileFormat` error; a column that does not read gives its error.
    pub fn deserialize(reader: &mut ByteReader) -> (r: TsFileResult<TsBlock>)
        ensures
            match block_scan(old(reader).rest()) {
                ColumnStep::Done { value: (ts, cs), len } => r matches Ok(b) && b.spec_times() == ts
                    && column_list(b.spec_columns()) == cs && final(reader).rest() == old(reader).rest().skip(
                    len as int,
                ),
                ColumnStep::Failed { failure } => r matches Err(e) && column_error(failure, e),
            },
    {
        let ghost s = reader.rest();
        let count = ReadWriteIOUtils::read_i32(reader)?;
        if count < 0 {
            return Err(TsFileError::InvalidFileFormat("Negative block row count".to_string()));
        }
        let ghost body = reader.rest();
        let mut times: Vec<i64> = Vec::new();
        let mut i: i32 = 0;
        let ghost mut used: nat = 0;
        assert(times@ =~= Seq::<i64>::empty());
        assert(body.skip(0) =~= body);
        while i < count
            invariant
                0 <= i <= count,
                s == old(reader).rest(),
                s.len() >= 4,
                be_i32_at(s) == count,
                body == s.skip(4),
                times_scan(body, i as nat) == (ColumnStep::Done { value: times@, len: used }),
                used <= body.len(),
                reader.rest() == body.skip(used as int),
            decreases count - i,
        {
            proof {
                assert(((i + 1) as nat - 1) as nat == i as nat);
            }
            let t = match ReadWriteIOUtils::read_i64(reader) {
                Ok(t) => t,
                Err(e) => {
                    proof {
                        assert(times_scan(body, (i + 1) as nat) == ColumnStep::<Seq<i64>>::Failed {
                            failure: ColumnFailure::Truncated,
                        });
                        lemma_times_fail_on(body, (i + 1) as nat, count as nat);
                    }
                    return Err(e);
                },
            };
            proof {
                assert(body.skip(used as int).skip(8) =~= body.skip((used + 8) as int));
                used = used + 8;
            }
            times.push(t);
            i = i + 1;
        }
        let ghost r = reader.rest();
        let ghost tvals = times@;
        let ghost tused = used;
        assert(times_scan(s.skip(4), be_i32_at(s) as nat) == (ColumnStep::Done { value: tvals, len: tused }));
        assert(r == s.skip((4 + used) as int)) by {
            assert(body.skip(used as int) =~= s.skip((4 + used) as int));
        }
        let ncols = ReadWriteIOUtils::read_i32(reader)?;
        if ncols < 0 {
            return Err(TsFileError::InvalidFileFormat("Negative block column count".to_string()));
        }
        let ghost cbody = reader.rest();
        let mut columns: Vec<Column> = Vec::new();
        let mut j: i32 = 0;
        let ghost mut cused: nat = 0;
        assert(column_list(columns@) =~= Seq::<(TSDataType, Seq<Option<ValueView>>)>::empty());
        assert(cbody.skip(0) =~= cbody);
        while j < ncols
            invariant
                0 <= j <= ncols,
                s == old(reader).rest(),
                s.len() >= 4,
                be_i32_at(s) >= 0,
                times_scan(s.skip(4), be_i32_at(s) as nat) == (ColumnStep::Done { value: tvals, len: tused }),
                times@ == tvals,
                r == s.skip((4 + tused) as int),
                r.len() >= 4,
                be_i32_at(r) == ncols,
                cbody == r.skip(4),
                columns_scan(cbody, j as nat) == (ColumnStep::Done { value: column_list(columns@), len: cused }),
                cused <= cbody.len(),
                reader.rest() == cbody.skip(cused as int),
            decreases ncols - j,
        {
            proof {
                assert(((j + 1) as nat - 1) as nat == j as nat);
            }
            let c = match Column::deserialize(reader) {
                Ok(c) => c,
                Err(e) => {
                    proof {
                        let k = (j + 1) as nat;
                        assert(column_scan(cbody.skip(cused as int)) is Failed);
                        assert(columns_scan(cbody, k) == match column_scan(cbody.skip(cused as int)) {
                            ColumnStep::Failed { failure } => ColumnStep::<Seq<(TSDataType, Seq<Option<ValueView>>)>>::Failed { failure },
                            ColumnStep::Done { value: c, len: l } => ColumnStep::Done { value: column_list(columns@).push(c), len: cused + l },
                        });
                        lemma_columns_fail_on(cbody, k, ncols as nat);
                    }
                    return Err(e);
                },
            };
            proof {
                lemma_column_scan_len(cbody.skip(cused as int));
                let l = match column_scan(cbody.skip(cused as int)) {
                    ColumnStep::Done { len, .. } => len,
                    _ => 0,
                };
                assert(column_list(columns@.push(c)) =~= column_list(columns@).push(column_view(c)));
                assert(cbody.skip(cused as int).skip(l as int) =~= cbody.skip((cused + l) as int));
                cused = cused + l;
            }
            columns.push(c);
            j = j + 1;
        }
        proof {
            assert(s.skip((8 + tused + cused) as int) =~= cbody.skip(cused as int));
        }
        Ok(TsBlock::new(times, columns))
    }

    /// Whether the block has no row.
    pub fn is_empty(&self) -> (b: bool)
        ensures
            b == (self.spec_times().len() == 0),
    {
        self.time_column.len() == 0
    }
}

/// The type that `types` gives the first measurement named `name`, if any.
pub open spec fn measurement_type(types: Seq<(String, TSDataType)>, name: Seq<char>) -> Option<TSDataType>
    decreases types.len(),
{
    if types.len() == 0 {
        None
    } else if types[0].0@ == name {
        Some(types[0].1)
    } else {
        measurement_type(types.drop_first(), name)
    }
}

/// The type that `types` gives the first measurement named `name`, if any.
fn find_measurement_type(types: &Vec<(String, TSDataType)>, name: &str) -> (r: Option<TSDataType>)
    ensures
        r == measurement_type(types@, name@),
{
    let mut i: usize = 0;
    assert(types@.skip(0) =~= types@);
    while i < types.len()
        invariant
            i <= types@.len(),
            measurement_type(types@, name@) == measurement_type(types@.skip(i as int), name@),
        decreases types@.len() - i,
    {
        assert(types@.skip(i as int)[0] == types@[i as int]);
        if str_eq(types[i].0.as_str(), name) {
            return Some(types[i].1);
        }
        assert(types@.skip(i as int).drop_first() =~= types@.skip(i + 1));
        i = i + 1;
    }
    None
}

/// The type of each of `measurements` of the device `device_id`, as `types` gives it. The
/// first measurement that `types` lacks is a `MeasurementNotFound` error naming the device
/// and that measurement, joined by a dot.
pub fn measurement_data_types(
    device_id: &str,
    types: &Vec<(String, TSDataType)>,
    measurements: &[String],
) -> (r: TsFileResult<Vec<TSDataType>>)
    ensures
        (forall|j: int| 0 <= j < measurements@.len() ==> measurement_type(types@, (#[trigger] measurements@[j])@) is Some)
            ==> (r matches Ok(v) && v@ == Seq::new(
                measurements@.len(),
                |k: int| measurement_type(types@, measurements@[k]@)->0,
            )),
        (exists|j: int| 0 <= j < measurements@.len() && measurement_type(types@, (#[trigger] measurements@[j])@) is None) ==> (r matches Err(TsFileError::MeasurementNotFound(name)) && {
            let k = choose|k: int| 0 <= k < measurements@.len() && measurement_type(types@, (#[trigger] measurements@[k])@) is None
                && forall|j: int| 0 <= j < k ==> measurement_type(types@, (#[trigger] measurements@[j])@) is Some;
            name@ == device_id@ + "."@ + measurements@[k]@
        }),
{
    let mut data_types: Vec<TSDataType> = Vec::new();
    let mut i: usize = 0;
    while i < measurements.len()
        invariant
            i <= measurements@.len(),
            data_types@ == Seq::new(i as nat, |k: int| measurement_type(types@, measurements@[k]@)->0),
            forall|j: int| 0 <= j < i ==> measurement_type(types@, (#[trigger] measurements@[j])@) is Some,
        decreases measurements@.len() - i,
    {
        match find_measurement_type(types, measurements[i].as_str()) {
            Some(t) => {
                data_types.push(t);
                assert(data_types@ =~= Seq::new((i + 1) as nat, |k: int| measurement_type(types@, measurements@[k]@)->0));
            },
            None => {
                proof {
                    let k = choose|k: int| 0 <= k < measurements@.len() && measurement_type(types@, (#[trigger] measurements@[k])@) is None
                        && forall|j: int| 0 <= j < k ==> measurement_type(types@, (#[trigger] measurements@[j])@) is Some;
                    assert(0 <= i < measurements@.len() && measurement_type(types@, measurements@[i as int]@) is None
                        && forall|j: int| 0 <= j < i ==> measurement_type(types@, (#[trigger] measurements@[j])@) is Some);
                    if k < i {
                        assert(measurement_type(types@, measurements@[k]@) is Some);
                    } else if k > i {
                        assert(measurement_type(types@, measurements@[i as int]@) is Some);
                    }
                }
                return Err(TsFileError::MeasurementNotFound(join3(device_id, ".", measurements[i].as_str())));
            },
        }
        i = i + 1;
    }
    Ok(data_types)
}

/// The block that the points of the measurements of a device make, `points[j]` being
/// those of `measurements[j]` and `types` giving each measurement's type: one row for each
/// time at which some measurement has a point, in increasing order, and one column for
/// each measurement, of its type, holding at each row the value of the measurement's first
/// point at that time, or no value. A measurement that `types` lacks is a
/// `MeasurementNotFound` error naming the device and the first such measurement, joined by
/// a dot.
pub fn tsblock_from_points(
    device_id: &str,
    types: &Vec<(String, TSDataType)>,
    measurements: &[String],
    points: &Vec<Vec<(i64, EncodableValue)>>,
) -> (r: TsFileResult<TsBlock>)
    requires
        points@.len() == measurements@.len(),
    ensures
        (forall|j: int| 0 <= j < measurements@.len() ==> measurement_type(types@, (#[trigger] measurements@[j])@) is Some) ==> (r matches Ok(b) && {
            &&& forall|a: int, c: int| 0 <= a < c < b.spec_times().len() ==> b.spec_times()[a] < b.spec_times()[c]
            &&& forall|t: i64| has_time(columns_view(points@), t) <==> b.spec_times().contains(t)
            &&& b.spec_columns().len() == measurements@.len()
            &&& forall|j: int| 0 <= j < measurements@.len() ==> {
                &&& (#[trigger] b.spec_columns()[j]).spec_data_type() == measurement_type(types@, measurements@[j]@)->0
                &&& b.spec_columns()[j].value_views() == Seq::new(
                    b.spec_times().len(),
                    |a: int| first_at(point_views(points@[j]@), b.spec_times()[a]),
                )
            }
        }),
        (exists|j: int| 0 <= j < measurements@.len() && measurement_type(types@, (#[trigger] measurements@[j])@) is None) ==> (r matches Err(TsFileError::MeasurementNotFound(name)) && {
            let k = choose|k: int| 0 <= k < measurements@.len() && measurement_type(types@, (#[trigger] measurements@[k])@) is None
                && forall|j: int| 0 <= j < k ==> measurement_type(types@, (#[trigger] measurements@[j])@) is Some;
            name@ == device_id@ + "."@ + measurements@[k]@
        }),
{
    let data_types = measurement_data_types(device_id, types, measurements)?;
    let rows = align_rows(points);
    let mut times: Vec<i64> = Vec::with_capacity(rows.len());
    let mut r: usize = 0;
    while r < rows.len()
        invariant
            r <= rows@.len(),
            times@ == Seq::new(r as nat, |a: int| rows@[a].0),
        decreases rows@.len() - r,
    {
        times.push(rows[r].0);
        r = r + 1;
        assert(times@ =~= Seq::new(r as nat, |a: int| rows@[a].0));
    }
    let mut columns: Vec<Column> = Vec::with_capacity(points.len());
    let mut j: usize = 0;
    while j < points.len()
        invariant
            j <= points@.len(),
            points@.len() == measurements@.len(),
            data_types@.len() == measurements@.len(),
            times@ == Seq::new(rows@.len(), |a: int| rows@[a].0),
            columns@.len() == j,
            forall|c: int|
                0 <= c < rows@.len() ==> row_view((#[trigger] rows@[c]).1@) == Seq::new(
                    points@.len(),
                    |k: int| first_at(point_views(points@[k]@), rows@[c].0),
                ),
            forall|k: int| 0 <= k < j ==> {
                &&& (#[trigger] columns@[k]).spec_data_type() == data_types@[k]
                &&& columns@[k].value_views() == Seq::new(
                    times@.len(),
                    |a: int| first_at(point_views(points@[k]@), times@[a]),
                )
            },
        decreases points@.len() - j,
    {
        let mut values: Vec<ColumnValue> = Vec::with_capacity(rows.len());
        let mut a: usize = 0;
        while a < rows.len()
            invariant
                j < points@.len(),
                a <= rows@.len(),
                times@ == Seq::new(rows@.len(), |x: int| rows@[x].0),
                forall|c: int|
                    0 <= c < rows@.len() ==> row_view((#[trigger] rows@[c]).1@) == Seq::new(
                        points@.len(),
                        |k: int| first_at(point_views(points@[k]@), rows@[c].0),
                    ),
                column_views(values@) == Seq::new(
                    a as nat,
                    |x: int| first_at(point_views(points@[j as int]@), times@[x]),
                ),
            decreases rows@.len() - a,
        {
            let row = &rows[a].1;
            assert(row_view(row@) == Seq::new(points@.len(), |k: int| first_at(point_views(points@[k]@), rows@[a as int].0)));
            assert(row_view(row@).len() == points@.len());
            assert(row@.len() == row_view(row@).len());
            let v = match &row[j] {
                Some(x) => Some(crate::read::reader::page_reader::copy_value(x)),
                None => None,
            };
            assert(row_view(row@)[j as int] == match row@[j as int] {
                Some(x) => Some(x@),
                None => None,
            });
            let ghost before = values@;
            let cv = column_value_of_point(v);
            proof {
                lemma_column_views_push(before, cv);
            }
            values.push(cv);
            assert(column_views(values@) =~= Seq::new(
                (a + 1) as nat,
                |x: int| first_at(point_views(points@[j as int]@), times@[x]),
            ));
            a = a + 1;
        }
        let col = Column::new(data_types[j], values);
        columns.push(col);
        proof {
            assert forall|k: int| 0 <= k < j + 1 implies {
                &&& (#[trigger] columns@[k]).spec_data_type() == data_types@[k]
                &&& columns@[k].value_views() == Seq::new(
                    times@.len(),
                    |x: int| first_at(point_views(points@[k]@), times@[x]),
                )
            } by {}
        }
        j = j + 1;
    }
    let block = TsBlock::new(times, columns);
    proof {
        assert forall|t: i64| has_time(columns_view(points@), t) <==> block.spec_times().contains(t) by {
            if block.spec_times().contains(t) {
                let a = choose|a: int| 0 <= a < block.spec_times().len() && block.spec_times()[a] == t;
                assert(rows@[a].0 == t);
            }
            if has_time(columns_view(points@), t) {
                let a = choose|a: int| 0 <= a < rows@.len() && #[trigger] rows@[a].0 == t;
                assert(block.spec_times()[a] == t);
            }
        }
    }
    Ok(block)
}

} // verus!
