//! Summaries of the points of a page or chunk: count, time range, and per type the
//! first, last, smallest and largest values.

use vstd::prelude::*;
use vstd::wrapping::{i64_specs, u64_specs};

use crate::common::enums::TSDataType;
use crate::encoding::encoder::ValueView;
use crate::error::{TsFileError, TsFileResult};
use crate::utils::byte_order::{be_bytes_u32, be_bytes_u64};
use crate::encoding::decoder::{DecodeFailure, Step};
use crate::utils::byte_order::be_value_u64;
use crate::utils::byte_reader::ByteReader;
use crate::utils::read_write_for_encoding::{
    lemma_uvarint_roundtrip, lemma_uvarint_scan_bounds, uvarint_bytes, uvarint_decode, ReadWriteForEncodingUtils, VarIntScan,
};
use crate::utils::read_write_io_utils::{be_i32_at, length_prefixed, lemma_fixed_width_roundtrip, Binary, ReadWriteIOUtils};

verus! {

/// The value part of a summary.
#[derive(Debug, Clone)]
pub enum TypedStats {
    /// Booleans: first and last value, and how many were true.
    Boolean { first_value: bool, last_value: bool, sum_value: i64 },
    /// 32-bit integers: smallest, largest, first and last value.
    Integer { min_value: i32, max_value: i32, first_value: i32, last_value: i32 },
    /// 64-bit integers: smallest, largest, first and last value.
    Long { min_value: i64, max_value: i64, first_value: i64, last_value: i64 },
    /// Byte strings: first and last value.
    Binary { first_value: Binary, last_value: Binary },
    /// A type whose values are not summarised here.
    Other,
}

/// The abstract value part of a summary.
pub enum TypedStatsView {
    /// Booleans.
    Boolean { first_value: bool, last_value: bool, sum_value: i64 },
    /// 32-bit integers.
    Integer { min_value: i32, max_value: i32, first_value: i32, last_value: i32 },
    /// 64-bit integers.
    Long { min_value: i64, max_value: i64, first_value: i64, last_value: i64 },
    /// Byte strings.
    Binary { first_value: Seq<u8>, last_value: Seq<u8> },
    /// Not summarised.
    Other,
}

impl View for TypedStats {
    type V = TypedStatsView;

    open spec fn view(&self) -> TypedStatsView {
        match self {
            TypedStats::Boolean { first_value, last_value, sum_value } => TypedStatsView::Boolean {
                first_value: *first_value,
                last_value: *last_value,
                sum_value: *sum_value,
            },
            TypedStats::Integer { min_value, max_value, first_value, last_value } =>
                TypedStatsView::Integer {
                min_value: *min_value,
                max_value: *max_value,
                first_value: *first_value,
                last_value: *last_value,
            },
            TypedStats::Long { min_value, max_value, first_value, last_value } =>
                TypedStatsView::Long {
                min_value: *min_value,
                max_value: *max_value,
                first_value: *first_value,
                last_value: *last_value,
            },
            TypedStats::Binary { first_value, last_value } => TypedStatsView::Binary {
                first_value: first_value@,
                last_value: last_value@,
            },
            TypedStats::Other => TypedStatsView::Other,
        }
    }
}

/// A summary of points.
#[derive(Debug, Clone)]
pub struct Statistics {
    /// The type of the values summarised.
    pub data_type: TSDataType,
    /// The number of points.
    pub count: u64,
    /// The earliest time.
    pub start_time: i64,
    /// The latest time.
    pub end_time: i64,
    /// Whether no point has been summarised.
    pub is_empty: bool,
    /// The summary of the values.
    pub typed: TypedStats,
}

/// The abstract form of a summary.
pub struct StatisticsView {
    /// The type of the values summarised.
    pub data_type: TSDataType,
    /// The number of points.
    pub count: u64,
    /// The earliest time.
    pub start_time: i64,
    /// The latest time.
    pub end_time: i64,
    /// Whether no point has been summarised.
    pub is_empty: bool,
    /// The summary of the values.
    pub typed: TypedStatsView,
}

impl View for Statistics {
    type V = StatisticsView;

    open spec fn view(&self) -> StatisticsView {
        StatisticsView {
            data_type: self.data_type,
            count: self.count,
            start_time: self.start_time,
            end_time: self.end_time,
            is_empty: self.is_empty,
            typed: self.typed@,
        }
    }
}

/// The value summary of a type before any point.
pub open spec fn initial_typed(data_type: TSDataType) -> TypedStatsView {
    match data_type {
        TSDataType::Boolean => TypedStatsView::Boolean {
            first_value: false,
            last_value: false,
            sum_value: 0,
        },
        TSDataType::Int32 | TSDataType::Date => TypedStatsView::Integer {
            min_value: i32::MAX,
            max_value: i32::MIN,
            first_value: 0,
            last_value: 0,
        },
        TSDataType::Int64 | TSDataType::Timestamp => TypedStatsView::Long {
            min_value: i64::MAX,
            max_value: i64::MIN,
            first_value: 0,
            last_value: 0,
        },
        TSDataType::Text | TSDataType::String | TSDataType::Blob => TypedStatsView::Binary {
            first_value: Seq::empty(),
            last_value: Seq::empty(),
        },
        _ => TypedStatsView::Other,
    }
}

/// The summary of no point.
pub open spec fn initial_stats(data_type: TSDataType) -> StatisticsView {
    StatisticsView {
        data_type,
        count: 0,
        start_time: i64::MAX,
        end_time: i64::MIN,
        is_empty: true,
        typed: initial_typed(data_type),
    }
}

/// The smaller of two numbers.
pub open spec fn min_i64(a: i64, b: i64) -> i64 {
    if a <= b { a } else { b }
}

/// The larger of two numbers.
pub open spec fn max_i64(a: i64, b: i64) -> i64 {
    if a >= b { a } else { b }
}

/// `s` after one more point at time `t` with value `v`. The count wraps like a 64-bit
/// number; a value of another type than the summary's leaves the value summary as it is.
pub open spec fn updated(s: StatisticsView, t: i64, v: ValueView) -> StatisticsView {
    let e = s.is_empty;
    StatisticsView {
        data_type: s.data_type,
        count: u64_specs::wrapping_add(s.count, 1),
        start_time: if e { t } else { min_i64(s.start_time, t) },
        end_time: if e { t } else { max_i64(s.end_time, t) },
        is_empty: false,
        typed: match (s.typed, v) {
            (TypedStatsView::Boolean { first_value, sum_value, .. }, ValueView::Boolean(b)) =>
                TypedStatsView::Boolean {
                first_value: if e { b } else { first_value },
                last_value: b,
                sum_value: i64_specs::wrapping_add(sum_value, if b { 1 } else { 0 }),
            },
            (
                TypedStatsView::Integer { min_value, max_value, first_value, .. },
                ValueView::Int32(x),
            ) => TypedStatsView::Integer {
                min_value: if e || x < min_value { x } else { min_value },
                max_value: if e || x > max_value { x } else { max_value },
                first_value: if e { x } else { first_value },
                last_value: x,
            },
            (
                TypedStatsView::Long { min_value, max_value, first_value, .. },
                ValueView::Int64(x),
            ) => TypedStatsView::Long {
                min_value: if e || x < min_value { x } else { min_value },
                max_value: if e || x > max_value { x } else { max_value },
                first_value: if e { x } else { first_value },
                last_value: x,
            },
            (TypedStatsView::Binary { first_value, .. }, ValueView::Binary(bs)) =>
                TypedStatsView::Binary { first_value: if e { bs } else { first_value }, last_value: bs },
            (t, _) => t,
        },
    }
}

/// `s` after the points `ps`, one after the other.
pub open spec fn updated_with(s: StatisticsView, ps: Seq<(i64, ValueView)>) -> StatisticsView
    decreases ps.len(),
{
    if ps.len() == 0 {
        s
    } else {
        let front = updated_with(s, ps.drop_last());
        updated(front, ps.last().0, ps.last().1)
    }
}

/// The points `ps` with 64-bit values.
pub open spec fn long_points(ps: Seq<(i64, i64)>) -> Seq<(i64, ValueView)> {
    ps.map_values(|p: (i64, i64)| (p.0, ValueView::Int64(p.1)))
}

/// The points `ps` with 32-bit values.
pub open spec fn int_points(ps: Seq<(i64, i32)>) -> Seq<(i64, ValueView)> {
    ps.map_values(|p: (i64, i32)| (p.0, ValueView::Int32(p.1)))
}

/// Whether `st` summarises the times of `ps`: it counts them, is not empty, and its
/// start and end are the earliest and the latest of them.
pub open spec fn summarises_times<V>(st: StatisticsView, ps: Seq<(i64, V)>) -> bool {
    &&& !st.is_empty
    &&& st.count == ps.len()
    &&& forall|i: int| 0 <= i < ps.len() ==> st.start_time <= (#[trigger] ps[i]).0 <= st.end_time
    &&& exists|i: int| 0 <= i < ps.len() && (#[trigger] ps[i]).0 == st.start_time
    &&& exists|i: int| 0 <= i < ps.len() && (#[trigger] ps[i]).0 == st.end_time
}

/// Statistics of 64-bit values summarise them: after the points `ps` (at least one) on
/// empty statistics of a 64-bit type, the count is their number, the start and end are
/// the earliest and latest times, the minimum and maximum are the smallest and largest
/// values (each no larger, resp. no smaller, than every value, and one of them), and the
/// first and last values are those of the first and last points.
pub proof fn lemma_long_statistics_summarise(data_type: TSDataType, ps: Seq<(i64, i64)>)
    requires
        data_type == TSDataType::Int64 || data_type == TSDataType::Timestamp,
        ps.len() > 0,
        ps.len() <= u64::MAX,
    ensures
        ({
            let st = updated_with(initial_stats(data_type), long_points(ps));
            &&& summarises_times(st, ps)
            &&& st.data_type == data_type
            &&& st.typed matches TypedStatsView::Long { min_value, max_value, first_value, last_value } && {
                &&& forall|i: int| 0 <= i < ps.len() ==> min_value <= (#[trigger] ps[i]).1 <= max_value
                &&& exists|i: int| 0 <= i < ps.len() && (#[trigger] ps[i]).1 == min_value
                &&& exists|i: int| 0 <= i < ps.len() && (#[trigger] ps[i]).1 == max_value
                &&& first_value == ps[0].1
                &&& last_value == ps.last().1
            }
        }),
    decreases ps.len(),
{
    let lp = long_points(ps);
    let front = ps.drop_last();
    assert(lp.drop_last() =~= long_points(front));
    assert(lp.last() == (ps.last().0, ValueView::Int64(ps.last().1)));
    let st = updated_with(initial_stats(data_type), lp);
    if ps.len() == 1 {
        assert(long_points(front) =~= Seq::<(i64, ValueView)>::empty());
        assert(ps[0] == ps.last());
        assert(summarises_times(st, ps));
    } else {
        lemma_long_statistics_summarise(data_type, front);
        let a = updated_with(initial_stats(data_type), long_points(front));
        let n = ps.len() - 1;
        assert forall|i: int| 0 <= i < n implies ps[i] == #[trigger] front[i] by {}
        if let TypedStatsView::Long { min_value, max_value, .. } = a.typed {
            let i1 = choose|i: int| 0 <= i < front.len() && (#[trigger] front[i]).1 == min_value;
            let i2 = choose|i: int| 0 <= i < front.len() && (#[trigger] front[i]).1 == max_value;
            assert(ps[i1] == front[i1] && ps[i2] == front[i2]);
            assert(ps[n] == ps.last());
        }
        let j1 = choose|i: int| 0 <= i < front.len() && (#[trigger] front[i]).0 == a.start_time;
        let j2 = choose|i: int| 0 <= i < front.len() && (#[trigger] front[i]).0 == a.end_time;
        assert(ps[j1] == front[j1] && ps[j2] == front[j2]);
        assert(ps[0] == front[0]);
        assert(st == updated(a, ps.last().0, lp.last().1));
        assert forall|i: int| 0 <= i < ps.len() implies st.start_time <= (#[trigger] ps[i]).0 <= st.end_time by {
            if i < n {
                assert(front[i] == ps[i]);
            }
        }
        if let TypedStatsView::Long { min_value, max_value, .. } = st.typed {
            if let TypedStatsView::Long { min_value: m0, max_value: x0, .. } = a.typed {
                assert forall|i: int| 0 <= i < ps.len() implies min_value <= (#[trigger] ps[i]).1 <= max_value by {
                    if i < n {
                        assert(front[i] == ps[i]);
                        assert(m0 <= front[i].1 <= x0);
                    }
                }
            }
        }
        assert(summarises_times(st, ps));
    }
}

/// Statistics of 32-bit values summarise them, as for 64-bit values.
pub proof fn lemma_int_statistics_summarise(data_type: TSDataType, ps: Seq<(i64, i32)>)
    requires
        data_type == TSDataType::Int32 || data_type == TSDataType::Date,
        ps.len() > 0,
        ps.len() <= u64::MAX,
    ensures
        ({
            let st = updated_with(initial_stats(data_type), int_points(ps));
            &&& summarises_times(st, ps)
            &&& st.data_type == data_type
            &&& st.typed matches TypedStatsView::Integer { min_value, max_value, first_value, last_value } && {
                &&& forall|i: int| 0 <= i < ps.len() ==> min_value <= (#[trigger] ps[i]).1 <= max_value
                &&& exists|i: int| 0 <= i < ps.len() && (#[trigger] ps[i]).1 == min_value
                &&& exists|i: int| 0 <= i < ps.len() && (#[trigger] ps[i]).1 == max_value
                &&& first_value == ps[0].1
                &&& last_value == ps.last().1
            }
        }),
    decreases ps.len(),
{
    let lp = int_points(ps);
    let front = ps.drop_last();
    assert(lp.drop_last() =~= int_points(front));
    assert(lp.last() == (ps.last().0, ValueView::Int32(ps.last().1)));
    let st = updated_with(initial_stats(data_type), lp);
    if ps.len() == 1 {
        assert(int_points(front) =~= Seq::<(i64, ValueView)>::empty());
        assert(ps[0] == ps.last());
        assert(summarises_times(st, ps));
    } else {
        lemma_int_statistics_summarise(data_type, front);
        let a = updated_with(initial_stats(data_type), int_points(front));
        let n = ps.len() - 1;
        assert forall|i: int| 0 <= i < n implies ps[i] == #[trigger] front[i] by {}
        if let TypedStatsView::Integer { min_value, max_value, .. } = a.typed {
            let i1 = choose|i: int| 0 <= i < front.len() && (#[trigger] front[i]).1 == min_value;
            let i2 = choose|i: int| 0 <= i < front.len() && (#[trigger] front[i]).1 == max_value;
            assert(ps[i1] == front[i1] && ps[i2] == front[i2]);
            assert(ps[n] == ps.last());
        }
        let j1 = choose|i: int| 0 <= i < front.len() && (#[trigger] front[i]).0 == a.start_time;
        let j2 = choose|i: int| 0 <= i < front.len() && (#[trigger] front[i]).0 == a.end_time;
        assert(ps[j1] == front[j1] && ps[j2] == front[j2]);
        assert(ps[0] == front[0]);
        assert(st == updated(a, ps.last().0, lp.last().1));
        assert forall|i: int| 0 <= i < ps.len() implies st.start_time <= (#[trigger] ps[i]).0 <= st.end_time by {
            if i < n {
                assert(front[i] == ps[i]);
            }
        }
        if let TypedStatsView::Integer { min_value, max_value, .. } = st.typed {
            if let TypedStatsView::Integer { min_value: m0, max_value: x0, .. } = a.typed {
                assert forall|i: int| 0 <= i < ps.len() implies min_value <= (#[trigger] ps[i]).1 <= max_value by {
                    if i < n {
                        assert(front[i] == ps[i]);
                        assert(m0 <= front[i].1 <= x0);
                    }
                }
            }
        }
        assert(summarises_times(st, ps));
    }
}

/// `a` merged with `b`: an empty side gives the other; otherwise counts add up, the
/// time range widens, the first value comes from the side that starts earlier (`a` on a
/// tie) and the last from the side that ends later (`b` on a tie).
pub open spec fn merged(a: StatisticsView, b: StatisticsView) -> StatisticsView {
    if b.is_empty {
        a
    } else if a.is_empty {
        b
    } else {
        let b_first = b.start_time < a.start_time;
        let b_last = b.end_time >= a.end_time;
        StatisticsView {
            data_type: a.data_type,
            count: u64_specs::wrapping_add(a.count, b.count),
            start_time: min_i64(a.start_time, b.start_time),
            end_time: max_i64(a.end_time, b.end_time),
            is_empty: false,
            typed: match (a.typed, b.typed) {
                (
                    TypedStatsView::Boolean { first_value: f1, last_value: l1, sum_value: s1 },
                    TypedStatsView::Boolean { first_value: f2, last_value: l2, sum_value: s2 },
                ) => TypedStatsView::Boolean {
                    first_value: if b_first { f2 } else { f1 },
                    last_value: if b_last { l2 } else { l1 },
                    sum_value: i64_specs::wrapping_add(s1, s2),
                },
                (
                    TypedStatsView::Integer {
                        min_value: n1,
                        max_value: x1,
                        first_value: f1,
                        last_value: l1,
                    },
                    TypedStatsView::Integer {
                        min_value: n2,
                        max_value: x2,
                        first_value: f2,
                        last_value: l2,
                    },
                ) => TypedStatsView::Integer {
                    min_value: if n2 < n1 { n2 } else { n1 },
                    max_value: if x2 > x1 { x2 } else { x1 },
                    first_value: if b_first { f2 } else { f1 },
                    last_value: if b_last { l2 } else { l1 },
                },
                (
                    TypedStatsView::Long {
                        min_value: n1,
                        max_value: x1,
                        first_value: f1,
                        last_value: l1,
                    },
                    TypedStatsView::Long {
                        min_value: n2,
                        max_value: x2,
                        first_value: f2,
                        last_value: l2,
                    },
                ) => TypedStatsView::Long {
                    min_value: if n2 < n1 { n2 } else { n1 },
                    max_value: if x2 > x1 { x2 } else { x1 },
                    first_value: if b_first { f2 } else { f1 },
                    last_value: if b_last { l2 } else { l1 },
                },
                (
                    TypedStatsView::Binary { first_value: f1, last_value: l1 },
                    TypedStatsView::Binary { first_value: f2, last_value: l2 },
                ) => TypedStatsView::Binary {
                    first_value: if b_first { f2 } else { f1 },
                    last_value: if b_last { l2 } else { l1 },
                },
                (t, _) => t,
            },
        }
    }
}

/// Whether the value summary of `st` is a 64-bit one whose minimum and maximum are the
/// smallest and largest values of `ps`.
pub open spec fn long_bounds(st: StatisticsView, ps: Seq<(i64, i64)>) -> bool {
    st.typed matches TypedStatsView::Long { min_value, max_value, .. } && {
        &&& forall|i: int| 0 <= i < ps.len() ==> min_value <= (#[trigger] ps[i]).1 <= max_value
        &&& exists|i: int| 0 <= i < ps.len() && (#[trigger] ps[i]).1 == min_value
        &&& exists|i: int| 0 <= i < ps.len() && (#[trigger] ps[i]).1 == max_value
    }
}

/// Merging the statistics of two runs of 64-bit points summarises both runs together:
/// the count adds up, the time range is that of all the points, and the minimum and
/// maximum are the smallest and largest of all the values.
pub proof fn lemma_long_statistics_merge(data_type: TSDataType, xs: Seq<(i64, i64)>, ys: Seq<(i64, i64)>)
    requires
        data_type == TSDataType::Int64 || data_type == TSDataType::Timestamp,
        xs.len() > 0,
        ys.len() > 0,
        xs.len() + ys.len() <= u64::MAX,
    ensures
        ({
            let a = updated_with(initial_stats(data_type), long_points(xs));
            let b = updated_with(initial_stats(data_type), long_points(ys));
            let m = merged(a, b);
            &&& summarises_times(m, xs + ys)
            &&& long_bounds(m, xs + ys)
        }),
{
    lemma_long_statistics_summarise(data_type, xs);
    lemma_long_statistics_summarise(data_type, ys);
    let a = updated_with(initial_stats(data_type), long_points(xs));
    let b = updated_with(initial_stats(data_type), long_points(ys));
    let m = merged(a, b);
    let zs = xs + ys;
    assert forall|i: int| 0 <= i < xs.len() implies #[trigger] zs[i] == xs[i] by {}
    assert forall|i: int| 0 <= i < ys.len() implies #[trigger] zs[xs.len() + i] == ys[i] by {}
    assert forall|i: int| 0 <= i < zs.len() implies m.start_time <= (#[trigger] zs[i]).0 <= m.end_time by {
        if i < xs.len() {
            assert(zs[i] == xs[i]);
        } else {
            assert(zs[i] == ys[i - xs.len()]);
        }
    }
    let j1 = choose|i: int| 0 <= i < xs.len() && (#[trigger] xs[i]).0 == a.start_time;
    let j2 = choose|i: int| 0 <= i < xs.len() && (#[trigger] xs[i]).0 == a.end_time;
    let k1 = choose|i: int| 0 <= i < ys.len() && (#[trigger] ys[i]).0 == b.start_time;
    let k2 = choose|i: int| 0 <= i < ys.len() && (#[trigger] ys[i]).0 == b.end_time;
    assert(zs[j1] == xs[j1] && zs[j2] == xs[j2]);
    assert(zs[xs.len() + k1] == ys[k1] && zs[xs.len() + k2] == ys[k2]);
    assert(summarises_times(m, zs));
    if let TypedStatsView::Long { min_value: n1, max_value: x1, .. } = a.typed {
        if let TypedStatsView::Long { min_value: n2, max_value: x2, .. } = b.typed {
            let p1 = choose|i: int| 0 <= i < xs.len() && (#[trigger] xs[i]).1 == n1;
            let q1 = choose|i: int| 0 <= i < xs.len() && (#[trigger] xs[i]).1 == x1;
            let p2 = choose|i: int| 0 <= i < ys.len() && (#[trigger] ys[i]).1 == n2;
            let q2 = choose|i: int| 0 <= i < ys.len() && (#[trigger] ys[i]).1 == x2;
            assert(zs[p1] == xs[p1] && zs[q1] == xs[q1]);
            assert(zs[xs.len() + p2] == ys[p2] && zs[xs.len() + q2] == ys[q2]);
            if let TypedStatsView::Long { min_value, max_value, .. } = m.typed {
                assert forall|i: int| 0 <= i < zs.len() implies min_value <= (#[trigger] zs[i]).1 <= max_value by {
                    if i < xs.len() {
                        assert(zs[i] == xs[i]);
                    } else {
                        assert(zs[i] == ys[i - xs.len()]);
                    }
                }
            }
        }
    }
    assert(long_bounds(m, zs));
}

/// The bytes of the value summary.
pub open spec fn typed_bytes(t: TypedStatsView) -> Seq<u8> {
    match t {
        TypedStatsView::Boolean { first_value, last_value, sum_value } => seq![
            if first_value { 1u8 } else { 0u8 },
            if last_value { 1u8 } else { 0u8 },
        ] + be_bytes_u64(sum_value as u64),
        TypedStatsView::Integer { min_value, max_value, first_value, last_value } => be_bytes_u32(
            min_value as u32,
        ) + be_bytes_u32(max_value as u32) + be_bytes_u32(first_value as u32) + be_bytes_u32(
            last_value as u32,
        ),
        TypedStatsView::Long { min_value, max_value, first_value, last_value } => be_bytes_u64(
            min_value as u64,
        ) + be_bytes_u64(max_value as u64) + be_bytes_u64(first_value as u64) + be_bytes_u64(
            last_value as u64,
        ),
        TypedStatsView::Binary { first_value, last_value } => length_prefixed(first_value)
            + length_prefixed(last_value),
        TypedStatsView::Other => Seq::empty(),
    }
}

/// The bytes of a summary: the count (its low 32 bits, an unsigned varint), the start and
/// end time (eight big-endian bytes each), then the value summary.
pub open spec fn stats_bytes(s: StatisticsView) -> Seq<u8> {
    uvarint_bytes(s.count as u32) + be_bytes_u64(s.start_time as u64) + be_bytes_u64(
        s.end_time as u64,
    ) + typed_bytes(s.typed)
}

impl Binary {
    /// A copy of the bytes.
    pub(crate) fn duplicate(&self) -> (b: Binary)
        ensures
            b@ == self@,
    {
        Binary(vstd::slice::slice_to_vec(self.0.as_slice()))
    }
}

impl TypedStats {
    fn duplicate(&self) -> (t: TypedStats)
        ensures
            t@ == self@,
    {
        match self {
            TypedStats::Boolean { first_value, last_value, sum_value } => TypedStats::Boolean {
                first_value: *first_value,
                last_value: *last_value,
                sum_value: *sum_value,
            },
            TypedStats::Integer { min_value, max_value, first_value, last_value } =>
                TypedStats::Integer {
                min_value: *min_value,
                max_value: *max_value,
                first_value: *first_value,
                last_value: *last_value,
            },
            TypedStats::Long { min_value, max_value, first_value, last_value } => TypedStats::Long {
                min_value: *min_value,
                max_value: *max_value,
                first_value: *first_value,
                last_value: *last_value,
            },
            TypedStats::Binary { first_value, last_value } => TypedStats::Binary {
                first_value: first_value.duplicate(),
                last_value: last_value.duplicate(),
            },
            TypedStats::Other => TypedStats::Other,
        }
    }
}

impl Statistics {
    /// The summary of no point of `data_type`.
    pub fn new(data_type: TSDataType) -> (s: Statistics)
        ensures
            s@ == initial_stats(data_type),
    {
        let typed = match data_type {
            TSDataType::Boolean => TypedStats::Boolean {
                first_value: false,
                last_value: false,
                sum_value: 0,
            },
            TSDataType::Int32 | TSDataType::Date => TypedStats::Integer {
                min_value: i32::MAX,
                max_value: i32::MIN,
                first_value: 0,
                last_value: 0,
            },
            TSDataType::Int64 | TSDataType::Timestamp => TypedStats::Long {
                min_value: i64::MAX,
                max_value: i64::MIN,
                first_value: 0,
                last_value: 0,
            },
            TSDataType::Text | TSDataType::String | TSDataType::Blob => TypedStats::Binary {
                first_value: Binary::new(Vec::new()),
                last_value: Binary::new(Vec::new()),
            },
            _ => TypedStats::Other,
        };
        let s = Statistics {
            data_type,
            count: 0,
            start_time: i64::MAX,
            end_time: i64::MIN,
            is_empty: true,
            typed,
        };
        proof {
            if let TypedStatsView::Binary { first_value, last_value } = s.typed@ {
                assert(first_value =~= Seq::<u8>::empty());
                assert(last_value =~= Seq::<u8>::empty());
            }
        }
        s
    }

    /// The type of the values summarised.
    pub fn data_type(&self) -> (t: TSDataType)
        ensures
            t == self.data_type,
    {
        self.data_type
    }

    /// A copy of the summary.
    pub(crate) fn duplicate(&self) -> (s: Statistics)
        ensures
            s@ == self@,
    {
        Statistics {
            data_type: self.data_type,
            count: self.count,
            start_time: self.start_time,
            end_time: self.end_time,
            is_empty: self.is_empty,
            typed: self.typed.duplicate(),
        }
    }

    fn update_time(&mut self, t: i64)
        ensures
            final(self).data_type == old(self).data_type,
            final(self).count == u64_specs::wrapping_add(old(self).count, 1),
            final(self).start_time == if old(self).is_empty {
                t
            } else {
                min_i64(old(self).start_time, t)
            },
            final(self).end_time == if old(self).is_empty {
                t
            } else {
                max_i64(old(self).end_time, t)
            },
            final(self).is_empty == false,
            final(self).typed == old(self).typed,
    {
        if self.is_empty {
            self.start_time = t;
            self.end_time = t;
        } else {
            if t < self.start_time {
                self.start_time = t;
            }
            if t > self.end_time {
                self.end_time = t;
            }
        }
        self.count = self.count.wrapping_add(1);
        self.is_empty = false;
    }

    /// Counts one more point at time `t` with the boolean `value`.
    pub fn update_bool(&mut self, t: i64, value: bool)
        ensures
            final(self)@ == updated(old(self)@, t, ValueView::Boolean(value)),
    {
        let e = self.is_empty;
        let new_typed = match &self.typed {
            TypedStats::Boolean { first_value, sum_value, .. } => Some(
                TypedStats::Boolean {
                    first_value: if e { value } else { *first_value },
                    last_value: value,
                    sum_value: sum_value.wrapping_add(if value { 1 } else { 0 }),
                },
            ),
            _ => None,
        };
        self.update_time(t);
        if let Some(nt) = new_typed {
            self.typed = nt;
        }
    }

    /// Counts one more point at time `t` with the 32-bit `value`.
    pub fn update_i32(&mut self, t: i64, value: i32)
        ensures
            final(self)@ == updated(old(self)@, t, ValueView::Int32(value)),
    {
        let e = self.is_empty;
        let new_typed = match &self.typed {
            TypedStats::Integer { min_value, max_value, first_value, .. } => Some(
                TypedStats::Integer {
                    min_value: if e || value < *min_value { value } else { *min_value },
                    max_value: if e || value > *max_value { value } else { *max_value },
                    first_value: if e { value } else { *first_value },
                    last_value: value,
                },
            ),
            _ => None,
        };
        self.update_time(t);
        if let Some(nt) = new_typed {
            self.typed = nt;
        }
    }

    /// Counts one more point at time `t` with the 64-bit `value`.
    pub fn update_i64(&mut self, t: i64, value: i64)
        ensures
            final(self)@ == updated(old(self)@, t, ValueView::Int64(value)),
    {
        let e = self.is_empty;
        let new_typed = match &self.typed {
            TypedStats::Long { min_value, max_value, first_value, .. } => Some(
                TypedStats::Long {
                    min_value: if e || value < *min_value { value } else { *min_value },
                    max_value: if e || value > *max_value { value } else { *max_value },
                    first_value: if e { value } else { *first_value },
                    last_value: value,
                },
            ),
            _ => None,
        };
        self.update_time(t);
        if let Some(nt) = new_typed {
            self.typed = nt;
        }
    }

    /// Counts one more point at time `t` with the byte string `value`.
    pub fn update_binary(&mut self, t: i64, value: Binary)
        ensures
            final(self)@ == updated(old(self)@, t, ValueView::Binary(value@)),
    {
        let e = self.is_empty;
        let new_typed = match &self.typed {
            TypedStats::Binary { first_value, .. } => Some(
                TypedStats::Binary {
                    first_value: if e { value.duplicate() } else { first_value.duplicate() },
                    last_value: value,
                },
            ),
            _ => None,
        };
        self.update_time(t);
        if let Some(nt) = new_typed {
            self.typed = nt;
        }
    }

    /// Merges the summary `other` into this one.
    pub fn merge(&mut self, other: &Statistics)
        ensures
            final(self)@ == merged(old(self)@, other@),
    {
        if other.is_empty {
            return;
        }
        if self.is_empty {
            *self = other.duplicate();
            return;
        }
        let b_first = other.start_time < self.start_time;
        let b_last = other.end_time >= self.end_time;
        let new_typed = match (&self.typed, &other.typed) {
            (
                TypedStats::Boolean { first_value: f1, last_value: l1, sum_value: s1 },
                TypedStats::Boolean { first_value: f2, last_value: l2, sum_value: s2 },
            ) => Some(
                TypedStats::Boolean {
                    first_value: if b_first { *f2 } else { *f1 },
                    last_value: if b_last { *l2 } else { *l1 },
                    sum_value: s1.wrapping_add(*s2),
                },
            ),
            (
                TypedStats::Integer { min_value: n1, max_value: x1, first_value: f1, last_value: l1 },
                TypedStats::Integer { min_value: n2, max_value: x2, first_value: f2, last_value: l2 },
            ) => Some(
                TypedStats::Integer {
                    min_value: if *n2 < *n1 { *n2 } else { *n1 },
                    max_value: if *x2 > *x1 { *x2 } else { *x1 },
                    first_value: if b_first { *f2 } else { *f1 },
                    last_value: if b_last { *l2 } else { *l1 },
                },
            ),
            (
                TypedStats::Long { min_value: n1, max_value: x1, first_value: f1, last_value: l1 },
                TypedStats::Long { min_value: n2, max_value: x2, first_value: f2, last_value: l2 },
            ) => Some(
                TypedStats::Long {
                    min_value: if *n2 < *n1 { *n2 } else { *n1 },
                    max_value: if *x2 > *x1 { *x2 } else { *x1 },
                    first_value: if b_first { *f2 } else { *f1 },
                    last_value: if b_last { *l2 } else { *l1 },
                },
            ),
            (
                TypedStats::Binary { first_value: f1, last_value: l1 },
                TypedStats::Binary { first_value: f2, last_value: l2 },
            ) => Some(
                TypedStats::Binary {
                    first_value: if b_first { f2.duplicate() } else { f1.duplicate() },
                    last_value: if b_last { l2.duplicate() } else { l1.duplicate() },
                },
            ),
            _ => None,
        };
        self.count = self.count.wrapping_add(other.count);
        if other.start_time < self.start_time {
            self.start_time = other.start_time;
        }
        if other.end_time > self.end_time {
            self.end_time = other.end_time;
        }
        if let Some(nt) = new_typed {
            self.typed = nt;
        }
    }

    /// Appends the bytes of the summary.
    pub fn serialize(&self, out: &mut Vec<u8>) -> (r: TsFileResult<usize>)
        ensures
            final(out)@ == old(out)@ + stats_bytes(self@),
            r == Ok::<usize, TsFileError>(stats_bytes(self@).len() as usize),
    {
        let start = out.len();
        let _ = ReadWriteForEncodingUtils::write_unsigned_var_int_to_vec(self.count as u32, out);
        let _ = ReadWriteIOUtils::write_i64(self.start_time, out);
        let _ = ReadWriteIOUtils::write_i64(self.end_time, out);
        match &self.typed {
            TypedStats::Boolean { first_value, last_value, sum_value } => {
                let _ = ReadWriteIOUtils::write_bool(*first_value, out);
                let _ = ReadWriteIOUtils::write_bool(*last_value, out);
                let _ = ReadWriteIOUtils::write_i64(*sum_value, out);
            },
            TypedStats::Integer { min_value, max_value, first_value, last_value } => {
                let _ = ReadWriteIOUtils::write_i32(*min_value, out);
                let _ = ReadWriteIOUtils::write_i32(*max_value, out);
                let _ = ReadWriteIOUtils::write_i32(*first_value, out);
                let _ = ReadWriteIOUtils::write_i32(*last_value, out);
            },
            TypedStats::Long { min_value, max_value, first_value, last_value } => {
                let _ = ReadWriteIOUtils::write_i64(*min_value, out);
                let _ = ReadWriteIOUtils::write_i64(*max_value, out);
                let _ = ReadWriteIOUtils::write_i64(*first_value, out);
                let _ = ReadWriteIOUtils::write_i64(*last_value, out);
            },
            TypedStats::Binary { first_value, last_value } => {
                let _ = ReadWriteIOUtils::write_binary(first_value, out);
                let _ = ReadWriteIOUtils::write_binary(last_value, out);
            },
            TypedStats::Other => {},
        }
        proof {
            assert(out@ =~= old(out)@ + stats_bytes(self@));
        }
        Ok(out.len() - start)
    }
}

/// The length-prefixed byte string at the front of `s`: a big-endian 32-bit count, then
/// that many bytes. A negative count is malformed.
pub open spec fn prefixed_step(s: Seq<u8>) -> Step<Seq<u8>> {
    if s.len() < 4 {
        Step::Failed { failure: DecodeFailure::Truncated }
    } else {
        let n = be_i32_at(s) as int;
        if n < 0 {
            Step::Failed { failure: DecodeFailure::Malformed }
        } else if s.len() < 4 + n {
            Step::Failed { failure: DecodeFailure::Truncated }
        } else {
            Step::Done { value: s.subrange(4, 4 + n), len: (4 + n) as nat }
        }
    }
}

/// The value summary of `data_type` at the front of `s`, as `typed_bytes` lays it out.
#[verifier::opaque]
pub closed spec fn typed_step(data_type: TSDataType, s: Seq<u8>) -> Step<TypedStatsView> {
    match data_type {
        TSDataType::Boolean => if s.len() >= 10 {
            Step::Done {
                value: TypedStatsView::Boolean {
                    first_value: s[0] == 1,
                    last_value: s[1] == 1,
                    sum_value: be_value_u64(s.skip(2)) as i64,
                },
                len: 10,
            }
        } else {
            Step::Failed { failure: DecodeFailure::Truncated }
        },
        TSDataType::Int32 | TSDataType::Date => if s.len() >= 16 {
            Step::Done {
                value: TypedStatsView::Integer {
                    min_value: be_i32_at(s),
                    max_value: be_i32_at(s.skip(4)),
                    first_value: be_i32_at(s.skip(8)),
                    last_value: be_i32_at(s.skip(12)),
                },
                len: 16,
            }
        } else {
            Step::Failed { failure: DecodeFailure::Truncated }
        },
        TSDataType::Int64 | TSDataType::Timestamp => if s.len() >= 32 {
            Step::Done {
                value: TypedStatsView::Long {
                    min_value: be_value_u64(s) as i64,
                    max_value: be_value_u64(s.skip(8)) as i64,
                    first_value: be_value_u64(s.skip(16)) as i64,
                    last_value: be_value_u64(s.skip(24)) as i64,
                },
                len: 32,
            }
        } else {
            Step::Failed { failure: DecodeFailure::Truncated }
        },
        TSDataType::Text | TSDataType::String | TSDataType::Blob => match prefixed_step(s) {
            Step::Done { value: first, len: l1 } => match prefixed_step(s.skip(l1 as int)) {
                Step::Done { value: last, len: l2 } => Step::Done {
                    value: TypedStatsView::Binary { first_value: first, last_value: last },
                    len: l1 + l2,
                },
                Step::Failed { failure } => Step::Failed { failure },
            },
            Step::Failed { failure } => Step::Failed { failure },
        },
        _ => Step::Done { value: TypedStatsView::Other, len: 0 },
    }
}

/// The summary of `data_type` at the front of `s`, as `stats_bytes` lays it out; it is
/// empty exactly when its count is 0.
pub closed spec fn stats_step(data_type: TSDataType, s: Seq<u8>) -> Step<StatisticsView> {
    match uvarint_decode(s) {
        VarIntScan::Decoded { value: c, len: l } => if s.len() < l + 16 {
            Step::Failed { failure: DecodeFailure::Truncated }
        } else {
            match typed_step(data_type, s.skip(l + 16int)) {
                Step::Done { value: t, len: l2 } => Step::Done {
                    value: StatisticsView {
                        data_type,
                        count: c as u64,
                        start_time: be_value_u64(s.skip(l as int)) as i64,
                        end_time: be_value_u64(s.skip(l + 8int)) as i64,
                        is_empty: c == 0,
                        typed: t,
                    },
                    len: l + 16 + l2,
                },
                Step::Failed { failure } => Step::Failed { failure },
            }
        },
        VarIntScan::Truncated => Step::Failed { failure: DecodeFailure::Truncated },
        VarIntScan::Overlong => Step::Failed { failure: DecodeFailure::Malformed },
    }
}

/// Reads a length-prefixed byte string.
fn read_prefixed(reader: &mut ByteReader) -> (r: TsFileResult<Binary>)
    ensures
        match prefixed_step(old(reader).rest()) {
            Step::Done { value, len } => {
                &&& r matches Ok(b) && b@ == value
                &&& final(reader).rest() == old(reader).rest().skip(len as int)
            },
            Step::Failed { failure: DecodeFailure::Truncated } => r matches Err(TsFileError::Io(_)),
            Step::Failed { failure: DecodeFailure::Malformed } => r matches Err(
                TsFileError::DecodingError(_),
            ),
        },
{
    let ghost s = reader.rest();
    let n = ReadWriteIOUtils::read_i32(reader)?;
    if n < 0 {
        return Err(TsFileError::DecodingError("Negative binary length".to_string()));
    }
    let bytes = ReadWriteIOUtils::read_bytes(reader, n as usize)?;
    proof {
        assert(bytes@ =~= s.subrange(4, 4 + n));
        assert(reader.rest() =~= s.skip(4 + n));
    }
    Ok(Binary::new(bytes))
}

/// Reads the value summary of `data_type`.
fn read_typed(reader: &mut ByteReader, data_type: TSDataType) -> (r: TsFileResult<TypedStats>)
    ensures
        match typed_step(data_type, old(reader).rest()) {
            Step::Done { value, len } => {
                &&& r matches Ok(t) && t@ == value
                &&& final(reader).rest() == old(reader).rest().skip(len as int)
            },
            Step::Failed { failure: DecodeFailure::Truncated } => r matches Err(TsFileError::Io(_)),
            Step::Failed { failure: DecodeFailure::Malformed } => r matches Err(
                TsFileError::DecodingError(_),
            ),
        },
{
    proof {
        reveal(typed_step);
    }
    let ghost t = reader.rest();
    let typed = match data_type {
        TSDataType::Boolean => {
            if reader.remaining() < 10 {
                return Err(TsFileError::Io("failed to fill whole buffer".to_string()));
            }
            let first_value = ReadWriteIOUtils::read_bool(reader)?;
            let last_value = ReadWriteIOUtils::read_bool(reader)?;
            let sum_value = ReadWriteIOUtils::read_i64(reader)?;
            proof {
                assert(t.drop_first().drop_first() =~= t.skip(2));
                assert(t.skip(2).skip(8) =~= t.skip(10));
            }
            TypedStats::Boolean { first_value, last_value, sum_value }
        },
        TSDataType::Int32 | TSDataType::Date => {
            if reader.remaining() < 16 {
                return Err(TsFileError::Io("failed to fill whole buffer".to_string()));
            }
            let min_value = ReadWriteIOUtils::read_i32(reader)?;
            let max_value = ReadWriteIOUtils::read_i32(reader)?;
            let first_value = ReadWriteIOUtils::read_i32(reader)?;
            let last_value = ReadWriteIOUtils::read_i32(reader)?;
            proof {
                assert(t.skip(4).skip(4) =~= t.skip(8));
                assert(t.skip(8).skip(4) =~= t.skip(12));
                assert(t.skip(12).skip(4) =~= t.skip(16));
            }
            TypedStats::Integer { min_value, max_value, first_value, last_value }
        },
        TSDataType::Int64 | TSDataType::Timestamp => {
            if reader.remaining() < 32 {
                return Err(TsFileError::Io("failed to fill whole buffer".to_string()));
            }
            let min_value = ReadWriteIOUtils::read_i64(reader)?;
            let max_value = ReadWriteIOUtils::read_i64(reader)?;
            let first_value = ReadWriteIOUtils::read_i64(reader)?;
            let last_value = ReadWriteIOUtils::read_i64(reader)?;
            proof {
                assert(t.skip(8).skip(8) =~= t.skip(16));
                assert(t.skip(16).skip(8) =~= t.skip(24));
                assert(t.skip(24).skip(8) =~= t.skip(32));
            }
            TypedStats::Long { min_value, max_value, first_value, last_value }
        },
        TSDataType::Text | TSDataType::String | TSDataType::Blob => {
            let first_value = read_prefixed(reader)?;
            let ghost l1 = prefixed_step(t)->len;
            let last_value = read_prefixed(reader)?;
            proof {
                let l2 = prefixed_step(t.skip(l1 as int))->len;
                assert(t.skip(l1 as int).skip(l2 as int) =~= t.skip(l1 + l2 as int));
            }
            TypedStats::Binary { first_value, last_value }
        },
        _ => TypedStats::Other,
    };
    proof {
        if data_type == TSDataType::Float || data_type == TSDataType::Double || data_type
            == TSDataType::Vector || data_type == TSDataType::NullType {
            assert(t.skip(0) =~= t);
        }
    }
    Ok(typed)
}

impl Statistics {
    /// Reads a summary of `data_type` as `serialize` writes it. A short input is an `Io`
    /// error, bytes no writer produces a `DecodingError`.
    #[verifier::rlimit(40)]
    pub fn deserialize(reader: &mut ByteReader, data_type: TSDataType) -> (r: TsFileResult<Statistics>)
        ensures
            match stats_step(data_type, old(reader).rest()) {
                Step::Done { value, len } => {
                    &&& r matches Ok(st) && st@ == value
                    &&& final(reader).rest() == old(reader).rest().skip(len as int)
                },
                Step::Failed { failure: DecodeFailure::Truncated } => r matches Err(TsFileError::Io(_)),
                Step::Failed { failure: DecodeFailure::Malformed } => r matches Err(
                    TsFileError::DecodingError(_),
                ),
            },
    {
        let ghost s = reader.rest();
        let count = ReadWriteForEncodingUtils::read_unsigned_var_int(reader)?;
        let ghost l = match uvarint_decode(s) {
            VarIntScan::Decoded { len, .. } => len,
            _ => 0,
        };
        proof {
            lemma_uvarint_scan_bounds(s, 0, 0);
        }
        if reader.remaining() < 16 {
            return Err(TsFileError::Io("failed to fill whole buffer".to_string()));
        }
        let start_time = ReadWriteIOUtils::read_i64(reader)?;
        let end_time = ReadWriteIOUtils::read_i64(reader)?;
        let ghost t = reader.rest();
        proof {
            assert(s.skip(l as int).skip(8) =~= s.skip(l + 8int));
            assert(s.skip(l + 8int).skip(8) =~= s.skip(l + 16int));
            assert(t == s.skip(l + 16int));
        }
        let typed = read_typed(reader, data_type)?;
        proof {
            lemma_typed_step_len(data_type, t);
            if let Step::Done { len: l2, .. } = typed_step(data_type, t) {
                assert(s.skip(l + 16int).skip(l2 as int) =~= s.skip(l + 16 + l2 as int));
            }
        }
        Ok(Statistics { data_type, count: count as u64, start_time, end_time, is_empty: count == 0, typed })
    }
}

/// Whether the value summary `t` is of the kind that summaries of `data_type` hold, with
/// byte strings short enough for their length prefix.
pub open spec fn typed_fits(data_type: TSDataType, t: TypedStatsView) -> bool {
    match t {
        TypedStatsView::Boolean { .. } => data_type == TSDataType::Boolean,
        TypedStatsView::Integer { .. } => data_type == TSDataType::Int32 || data_type
            == TSDataType::Date,
        TypedStatsView::Long { .. } => data_type == TSDataType::Int64 || data_type
            == TSDataType::Timestamp,
        TypedStatsView::Binary { first_value, last_value } => (data_type == TSDataType::Text
            || data_type == TSDataType::String || data_type == TSDataType::Blob)
            && first_value.len() <= i32::MAX && last_value.len() <= i32::MAX,
        TypedStatsView::Other => !(data_type == TSDataType::Boolean || data_type
            == TSDataType::Int32 || data_type == TSDataType::Date || data_type == TSDataType::Int64
            || data_type == TSDataType::Timestamp || data_type == TSDataType::Text || data_type
            == TSDataType::String || data_type == TSDataType::Blob),
    }
}

/// Whether a summary reads back as itself: its value summary fits its type, its count
/// fits the 32 bits written, and it is empty exactly when its count is 0.
pub open spec fn stats_fit(s: StatisticsView) -> bool {
    &&& typed_fits(s.data_type, s.typed)
    &&& s.count <= u32::MAX
    &&& s.is_empty == (s.count == 0)
}

/// A length-prefixed byte string reads back as itself.
proof fn lemma_prefixed_roundtrip(bytes: Seq<u8>, rest: Seq<u8>)
    requires
        bytes.len() <= i32::MAX,
    ensures
        prefixed_step(length_prefixed(bytes) + rest) == (Step::Done {
            value: bytes,
            len: (4 + bytes.len()) as nat,
        }),
        (length_prefixed(bytes) + rest).skip(4 + bytes.len() as int) == rest,
{
    crate::utils::read_write_io_utils::lemma_length_prefixed_roundtrip(bytes, rest);
}

/// The goal of the value-summary round trip.
pub open spec fn typed_reads_back(data_type: TSDataType, t: TypedStatsView, rest: Seq<u8>) -> bool {
    &&& typed_step(data_type, typed_bytes(t) + rest) == (Step::Done {
        value: t,
        len: typed_bytes(t).len(),
    })
    &&& (typed_bytes(t) + rest).skip(typed_bytes(t).len() as int) == rest
}

proof fn lemma_typed_roundtrip_int(data_type: TSDataType, t: TypedStatsView, rest: Seq<u8>)
    requires
        typed_fits(data_type, t),
        t is Integer,
    ensures
        typed_reads_back(data_type, t, rest),
{
    reveal(typed_step);
    let s = typed_bytes(t) + rest;
    if let TypedStatsView::Integer { min_value, max_value, first_value, last_value } = t {
        let b1 = be_bytes_u32(min_value as u32);
        let b2 = be_bytes_u32(max_value as u32);
        let b3 = be_bytes_u32(first_value as u32);
        let b4 = be_bytes_u32(last_value as u32);
        assert(s =~= b1 + (b2 + (b3 + (b4 + rest))));
        assert(s.skip(4) =~= b2 + (b3 + (b4 + rest)));
        assert(s.skip(8) =~= b3 + (b4 + rest));
        assert(s.skip(12) =~= b4 + rest);
        assert(s.skip(16) =~= rest);
        lemma_fixed_width_roundtrip(0, min_value, 0, b2 + (b3 + (b4 + rest)));
        lemma_fixed_width_roundtrip(0, max_value, 0, b3 + (b4 + rest));
        lemma_fixed_width_roundtrip(0, first_value, 0, b4 + rest);
        lemma_fixed_width_roundtrip(0, last_value, 0, rest);
    }
}

proof fn lemma_typed_roundtrip_long(data_type: TSDataType, t: TypedStatsView, rest: Seq<u8>)
    requires
        typed_fits(data_type, t),
        t is Long,
    ensures
        typed_reads_back(data_type, t, rest),
{
    reveal(typed_step);
    let s = typed_bytes(t) + rest;
    if let TypedStatsView::Long { min_value, max_value, first_value, last_value } = t {
        let b1 = be_bytes_u64(min_value as u64);
        let b2 = be_bytes_u64(max_value as u64);
        let b3 = be_bytes_u64(first_value as u64);
        let b4 = be_bytes_u64(last_value as u64);
        assert(s =~= b1 + (b2 + (b3 + (b4 + rest))));
        assert(s.skip(8) =~= b2 + (b3 + (b4 + rest)));
        assert(s.skip(16) =~= b3 + (b4 + rest));
        assert(s.skip(24) =~= b4 + rest);
        assert(s.skip(32) =~= rest);
        lemma_fixed_width_roundtrip(0, 0, min_value, b2 + (b3 + (b4 + rest)));
        lemma_fixed_width_roundtrip(0, 0, max_value, b3 + (b4 + rest));
        lemma_fixed_width_roundtrip(0, 0, first_value, b4 + rest);
        lemma_fixed_width_roundtrip(0, 0, last_value, rest);
    }
}

#[verifier::rlimit(40)]
proof fn lemma_typed_roundtrip_other(data_type: TSDataType, t: TypedStatsView, rest: Seq<u8>)
    requires
        typed_fits(data_type, t),
        !(t is Integer),
        !(t is Long),
    ensures
        typed_reads_back(data_type, t, rest),
{
    reveal(typed_step);
    let s = typed_bytes(t) + rest;
    match t {
        TypedStatsView::Boolean { first_value, last_value, sum_value } => {
            lemma_fixed_width_roundtrip(0, 0, sum_value, rest);
            assert(s.skip(2) =~= be_bytes_u64(sum_value as u64) + rest);
            assert(s.skip(10) =~= rest);
        },
        TypedStatsView::Binary { first_value, last_value } => {
            let p1 = length_prefixed(first_value);
            let p2 = length_prefixed(last_value);
            assert(s =~= p1 + (p2 + rest));
            lemma_prefixed_roundtrip(first_value, p2 + rest);
            lemma_prefixed_roundtrip(last_value, rest);
            assert(s.skip(typed_bytes(t).len() as int) =~= rest);
        },
        TypedStatsView::Other => {
            assert(s =~= rest);
            assert(s.skip(0) =~= rest);
        },
        _ => {},
    }
}

/// A value summary reads back as itself and takes exactly its bytes.
pub proof fn lemma_typed_roundtrip(data_type: TSDataType, t: TypedStatsView, rest: Seq<u8>)
    requires
        typed_fits(data_type, t),
    ensures
        typed_reads_back(data_type, t, rest),
{
    if t is Integer {
        lemma_typed_roundtrip_int(data_type, t, rest);
    } else if t is Long {
        lemma_typed_roundtrip_long(data_type, t, rest);
    } else {
        lemma_typed_roundtrip_other(data_type, t, rest);
    }
}

/// A summary that fits reads back as itself and takes exactly its bytes.
#[verifier::rlimit(40)]
pub proof fn lemma_stats_roundtrip(sv: StatisticsView, rest: Seq<u8>)
    requires
        stats_fit(sv),
    ensures
        stats_step(sv.data_type, stats_bytes(sv) + rest) == (Step::Done {
            value: sv,
            len: stats_bytes(sv).len(),
        }),
        (stats_bytes(sv) + rest).skip(stats_bytes(sv).len() as int) == rest,
{
    let c = uvarint_bytes(sv.count as u32);
    let b1 = be_bytes_u64(sv.start_time as u64);
    let b2 = be_bytes_u64(sv.end_time as u64);
    let tb = typed_bytes(sv.typed);
    let s = stats_bytes(sv) + rest;
    assert(s =~= c + (b1 + (b2 + (tb + rest))));
    lemma_uvarint_roundtrip(sv.count as u32, b1 + (b2 + (tb + rest)));
    let l = c.len() as int;
    assert(s.skip(l) =~= b1 + (b2 + (tb + rest)));
    assert(s.skip(l + 8) =~= b2 + (tb + rest));
    assert(s.skip(l + 16) =~= tb + rest);
    lemma_fixed_width_roundtrip(0, 0, sv.start_time, b2 + (tb + rest));
    lemma_fixed_width_roundtrip(0, 0, sv.end_time, tb + rest);
    lemma_typed_roundtrip(sv.data_type, sv.typed, rest);
    assert(s.skip(stats_bytes(sv).len() as int) =~= rest);
}

/// A summary read from `s` takes at least one byte and no more than there are.
pub proof fn lemma_stats_step_len(data_type: TSDataType, s: Seq<u8>)
    ensures
        stats_step(data_type, s) matches Step::Done { len, .. } ==> 0 < len <= s.len(),
{
    lemma_uvarint_scan_bounds(s, 0, 0);
    if let VarIntScan::Decoded { len: l, .. } = uvarint_decode(s) {
        if s.len() >= l + 16 {
            lemma_typed_step_len(data_type, s.skip(l + 16int));
        }
    }
}

/// A value summary read from `s` takes no more bytes than there are.
proof fn lemma_typed_step_len(data_type: TSDataType, s: Seq<u8>)
    ensures
        typed_step(data_type, s) matches Step::Done { len, .. } ==> len <= s.len(),
{
    reveal(typed_step);
    if let Step::Done { len: l1, .. } = prefixed_step(s) {
        assert(l1 <= s.len());
    }
}

} // verus!