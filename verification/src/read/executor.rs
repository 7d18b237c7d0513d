//! The parts of a query that a space partition decides: which time ranges its chunks
//! cover, and which points fall in them.

use vstd::prelude::*;

use crate::common::enums::TSDataType;
use crate::encoding::encoder::{EncodableValue, ValueView};
use crate::error::{TsFileError, TsFileResult};
use crate::file::table_schema::TableSchema;
use crate::utils::text::str_eq;
use crate::write::schema::MeasurementSchema;
use crate::read::common::TimeRange;
use crate::read::controller::{
    closed_ranges, covers, lemma_merged_covers_union, merge_time_ranges, merged, ordered_by_min,
};
use crate::read::reader::page_reader::{copy_value, point_views};

verus! {

/// Whether some range of `ranges` holds the time `t`.
pub open spec fn in_some_range(ranges: Seq<TimeRange>, t: i64) -> bool {
    exists|i: int| 0 <= i < ranges.len() && (#[trigger] ranges[i]).has(t)
}

/// The points of `points` whose time some range of `ranges` holds, in order.
pub open spec fn kept_points(points: Seq<(i64, ValueView)>, ranges: Seq<TimeRange>) -> Seq<(i64, ValueView)>
    decreases points.len(),
{
    if points.len() == 0 {
        Seq::empty()
    } else {
        let rest = kept_points(points.drop_last(), ranges);
        if in_some_range(ranges, points.last().0) {
            rest.push(points.last())
        } else {
            rest
        }
    }
}

/// Whether some range of `ranges` holds the time `t`.
pub fn in_any_range(ranges: &Vec<TimeRange>, t: i64) -> (b: bool)
    ensures
        b == in_some_range(ranges@, t),
{
    let mut i: usize = 0;
    while i < ranges.len()
        invariant
            i <= ranges@.len(),
            forall|k: int| 0 <= k < i ==> !(#[trigger] ranges@[k]).has(t),
        decreases ranges@.len() - i,
    {
        if ranges[i].contains_time(t) {
            return true;
        }
        i = i + 1;
    }
    false
}

/// The points of `points` whose time some range of `ranges` holds, in order: the points of
/// a series that a space partition keeps.
pub fn keep_in_partitions(points: &Vec<(i64, EncodableValue)>, ranges: &Vec<TimeRange>) -> (out: Vec<
    (i64, EncodableValue),
>)
    ensures
        point_views(out@) == kept_points(point_views(points@), ranges@),
{
    let mut out: Vec<(i64, EncodableValue)> = Vec::new();
    let mut i: usize = 0;
    assert(point_views(points@).take(0) =~= Seq::<(i64, ValueView)>::empty());
    assert(point_views(out@) =~= Seq::<(i64, ValueView)>::empty());
    while i < points.len()
        invariant
            i <= points@.len(),
            point_views(out@) == kept_points(point_views(points@).take(i as int), ranges@),
        decreases points@.len() - i,
    {
        let ghost front = point_views(points@).take(i + 1);
        assert(front.drop_last() =~= point_views(points@).take(i as int));
        assert(front.last() == (points@[i as int].0, points@[i as int].1@));
        if in_any_range(ranges, points[i].0) {
            let ghost before = out@;
            out.push((points[i].0, copy_value(&points[i].1)));
            assert(point_views(out@) =~= point_views(before).push(front.last()));
        }
        i = i + 1;
    }
    assert(point_views(points@).take(points@.len() as int) =~= point_views(points@));
    out
}

/// The closed range from `start` to `end`.
pub open spec fn closed_range(start: i64, end: i64) -> TimeRange {
    TimeRange { min: start, max: end, left_closed: true, right_closed: true }
}

/// The time ranges of the chunks, each given by the offset of its header, its start time
/// and its end time, whose header offset lies in `[start, end)`, in order.
pub open spec fn partition_chunk_ranges(chunks: Seq<(u64, i64, i64)>, start: u64, end: u64) -> Seq<TimeRange>
    decreases chunks.len(),
{
    if chunks.len() == 0 {
        Seq::empty()
    } else {
        let rest = partition_chunk_ranges(chunks.drop_last(), start, end);
        let c = chunks.last();
        if start <= c.0 && c.0 < end {
            rest.push(closed_range(c.1, c.2))
        } else {
            rest
        }
    }
}

/// `sorted` with `r` placed after every range that does not start later than it.
pub open spec fn insert_by_min(sorted: Seq<TimeRange>, r: TimeRange) -> Seq<TimeRange>
    decreases sorted.len(),
{
    if sorted.len() == 0 || sorted.last().min <= r.min {
        sorted.push(r)
    } else {
        insert_by_min(sorted.drop_last(), r).push(sorted.last())
    }
}

/// `ranges` ordered by their lower ends; ranges with the same lower end keep their order.
pub open spec fn sorted_by_min(ranges: Seq<TimeRange>) -> Seq<TimeRange>
    decreases ranges.len(),
{
    if ranges.len() == 0 {
        Seq::empty()
    } else {
        insert_by_min(sorted_by_min(ranges.drop_last()), ranges.last())
    }
}

/// Placing a range keeps a list ordered by lower end ordered.
pub proof fn lemma_insert_by_min_sorted(sorted: Seq<TimeRange>, r: TimeRange)
    requires
        forall|a: int, b: int| 0 <= a < b < sorted.len() ==> sorted[a].min <= sorted[b].min,
    ensures
        forall|a: int, b: int|
            0 <= a < b < insert_by_min(sorted, r).len() ==> insert_by_min(sorted, r)[a].min <= insert_by_min(
                sorted,
                r,
            )[b].min,
        insert_by_min(sorted, r).len() == sorted.len() + 1,
        forall|x: TimeRange| #[trigger] insert_by_min(sorted, r).contains(x) <==> (sorted.contains(x) || x == r),
    decreases sorted.len(),
{
    let out = insert_by_min(sorted, r);
    if sorted.len() == 0 || sorted.last().min <= r.min {
        assert forall|x: TimeRange| #[trigger] out.contains(x) <==> (sorted.contains(x) || x == r) by {
            if out.contains(x) {
                let k = choose|k: int| 0 <= k < out.len() && out[k] == x;
                if k < sorted.len() {
                    assert(sorted[k] == x);
                }
            }
            if sorted.contains(x) {
                let k = choose|k: int| 0 <= k < sorted.len() && sorted[k] == x;
                assert(out[k] == x);
            }
            if x == r {
                assert(out[sorted.len() as int] == x);
            }
        }
    } else {
        let front = sorted.drop_last();
        lemma_insert_by_min_sorted(front, r);
        let inner = insert_by_min(front, r);
        assert forall|a: int, b: int| 0 <= a < b < out.len() implies out[a].min <= out[b].min by {
            if b == out.len() - 1 {
                assert(out[b] == sorted.last());
                let x = out[a];
                assert(out[a] == inner[a]);
                assert(inner.contains(x));
                if x != r {
                    assert(front.contains(x));
                    let k = choose|k: int| 0 <= k < front.len() && front[k] == x;
                    assert(sorted[k] == x);
                }
            } else {
                assert(out[a] == inner[a]);
                assert(out[b] == inner[b]);
            }
        }
        assert forall|x: TimeRange| #[trigger] out.contains(x) <==> (sorted.contains(x) || x == r) by {
            if out.contains(x) {
                let k = choose|k: int| 0 <= k < out.len() && out[k] == x;
                if k < inner.len() {
                    assert(inner[k] == x);
                    assert(inner.contains(x));
                    if x != r {
                        let j = choose|j: int| 0 <= j < front.len() && front[j] == x;
                        assert(sorted[j] == x);
                    }
                } else {
                    assert(sorted[sorted.len() - 1] == x);
                }
            }
            if sorted.contains(x) {
                let k = choose|k: int| 0 <= k < sorted.len() && sorted[k] == x;
                if k < front.len() {
                    assert(front[k] == x);
                    assert(inner.contains(x));
                    let j = choose|j: int| 0 <= j < inner.len() && inner[j] == x;
                    assert(out[j] == x);
                } else {
                    assert(out[out.len() - 1] == x);
                }
            }
            if x == r {
                assert(inner.contains(x));
                let j = choose|j: int| 0 <= j < inner.len() && inner[j] == x;
                assert(out[j] == x);
            }
        }
    }
}

/// The ranges ordered by lower end are in that order.
pub proof fn lemma_sorted_by_min(ranges: Seq<TimeRange>)
    ensures
        forall|a: int, b: int|
            0 <= a < b < sorted_by_min(ranges).len() ==> sorted_by_min(ranges)[a].min <= sorted_by_min(ranges)[b].min,
        sorted_by_min(ranges).len() == ranges.len(),
    decreases ranges.len(),
{
    if ranges.len() > 0 {
        lemma_sorted_by_min(ranges.drop_last());
        lemma_insert_by_min_sorted(sorted_by_min(ranges.drop_last()), ranges.last());
    }
}

/// Places `r` in `out` after every range that does not start later than it.
fn place_by_min(out: &mut Vec<TimeRange>, r: TimeRange)
    ensures
        final(out)@ == insert_by_min(old(out)@, r),
{
    let ghost before = out@;
    let mut k: usize = out.len();
    assert(before.take(k as int) =~= before);
    assert(before.skip(k as int) =~= Seq::<TimeRange>::empty());
    while k > 0 && out[k - 1].min > r.min
        invariant
            out@ == before,
            k <= before.len(),
            insert_by_min(before, r) == insert_by_min(before.take(k as int), r) + before.skip(k as int),
        decreases k,
    {
        let ghost t = before.take(k as int);
        assert(t.drop_last() =~= before.take(k - 1));
        assert(t.last() == before[k - 1]);
        assert(before.skip(k - 1) =~= seq![before[k - 1]] + before.skip(k as int));
        assert(insert_by_min(t, r) == insert_by_min(before.take(k - 1), r).push(before[k - 1]));
        assert(insert_by_min(before.take(k - 1), r).push(before[k - 1]) + before.skip(k as int)
            =~= insert_by_min(before.take(k - 1), r) + before.skip(k - 1));
        k = k - 1;
    }
    assert(insert_by_min(before.take(k as int), r) == before.take(k as int).push(r));
    out.insert(k, r);
    assert(out@ =~= before.take(k as int).push(r) + before.skip(k as int));
}

/// The time ranges that a space partition `[start, end)` covers: those of the chunks whose
/// header offset lies in it (each chunk given by that offset, its start time and its end
/// time), as closed ranges ordered by start time, then merged.
pub fn partition_time_ranges(chunks: &Vec<(u64, i64, i64)>, start: u64, end: u64) -> (out: Vec<TimeRange>)
    ensures
        out@ == merged(sorted_by_min(partition_chunk_ranges(chunks@, start, end))),
{
    let mut ranges: Vec<TimeRange> = Vec::new();
    let mut i: usize = 0;
    assert(chunks@.take(0) =~= Seq::<(u64, i64, i64)>::empty());
    while i < chunks.len()
        invariant
            i <= chunks@.len(),
            ranges@ == sorted_by_min(partition_chunk_ranges(chunks@.take(i as int), start, end)),
        decreases chunks@.len() - i,
    {
        let ghost front = chunks@.take(i + 1);
        assert(front.drop_last() =~= chunks@.take(i as int));
        let (offset, first, last) = chunks[i];
        let ghost rest = partition_chunk_ranges(chunks@.take(i as int), start, end);
        assert(front.last() == chunks@[i as int]);
        if start <= offset && offset < end {
            let r = TimeRange { min: first, max: last, left_closed: true, right_closed: true };
            assert(partition_chunk_ranges(front, start, end) == rest.push(r));
            assert(rest.push(r).drop_last() =~= rest);
            place_by_min(&mut ranges, r);
        } else {
            assert(partition_chunk_ranges(front, start, end) == rest);
        }
        i = i + 1;
    }
    assert(chunks@.take(chunks@.len() as int) =~= chunks@);
    merge_time_ranges(ranges)
}

/// The type of the first column of `columns` named `name`, if any.
pub open spec fn type_of_column(columns: Seq<MeasurementSchema>, name: Seq<char>) -> Option<TSDataType>
    decreases columns.len(),
{
    if columns.len() == 0 {
        None
    } else if columns[0].measurement_id@ == name {
        Some(columns[0].data_type)
    } else {
        type_of_column(columns.drop_first(), name)
    }
}

/// The type of the first column of `columns` named `name`, if any.
fn find_column_type(columns: &Vec<MeasurementSchema>, name: &str) -> (r: Option<TSDataType>)
    ensures
        r == type_of_column(columns@, name@),
{
    let mut i: usize = 0;
    assert(columns@.skip(0) =~= columns@);
    while i < columns.len()
        invariant
            i <= columns@.len(),
            type_of_column(columns@, name@) == type_of_column(columns@.skip(i as int), name@),
        decreases columns@.len() - i,
    {
        assert(columns@.skip(i as int)[0] == columns@[i as int]);
        if str_eq(columns[i].measurement_id.as_str(), name) {
            return Some(columns[i].data_type);
        }
        assert(columns@.skip(i as int).drop_first() =~= columns@.skip(i + 1));
        i = i + 1;
    }
    None
}

/// The types of the columns of a table query: `Text` for the device column, then the type
/// of each named column as the table's schema gives it. The first name that the schema
/// lacks is a `MeasurementNotFound` error carrying that name.
pub fn table_column_types(schema: &TableSchema, column_names: &[String]) -> (r: TsFileResult<Vec<TSDataType>>)
    ensures
        (forall|i: int| 0 <= i < column_names@.len() ==> type_of_column(schema.column_schemas@, (#[trigger] column_names@[i])@) is Some)
            ==> (r matches Ok(v) && v@ == seq![TSDataType::Text] + Seq::new(
                column_names@.len(),
                |i: int| type_of_column(schema.column_schemas@, column_names@[i]@)->0,
            )),
        (exists|i: int| 0 <= i < column_names@.len() && type_of_column(schema.column_schemas@, (#[trigger] column_names@[i])@) is None)
            ==> (r matches Err(TsFileError::MeasurementNotFound(name)) && ({
                let k = choose|k: int| 0 <= k < column_names@.len() && type_of_column(schema.column_schemas@, (#[trigger] column_names@[k])@) is None
                    && forall|j: int| 0 <= j < k ==> type_of_column(schema.column_schemas@, (#[trigger] column_names@[j])@) is Some;
                name@ == column_names@[k]@
            })),
{
    let ghost cols = schema.column_schemas@;
    let mut types: Vec<TSDataType> = Vec::new();
    types.push(TSDataType::Text);
    let mut i: usize = 0;
    while i < column_names.len()
        invariant
            cols == schema.column_schemas@,
            i <= column_names@.len(),
            types@ == seq![TSDataType::Text] + Seq::new(i as nat, |k: int| type_of_column(cols, column_names@[k]@)->0),
            forall|j: int| 0 <= j < i ==> type_of_column(cols, (#[trigger] column_names@[j])@) is Some,
        decreases column_names@.len() - i,
    {
        match find_column_type(&schema.column_schemas, column_names[i].as_str()) {
            Some(t) => {
                types.push(t);
                assert(types@ =~= seq![TSDataType::Text] + Seq::new((i + 1) as nat, |k: int| type_of_column(cols, column_names@[k]@)->0));
            },
            None => {
                proof {
                    let k = choose|k: int| 0 <= k < column_names@.len() && type_of_column(cols, (#[trigger] column_names@[k])@) is None
                        && forall|j: int| 0 <= j < k ==> type_of_column(cols, (#[trigger] column_names@[j])@) is Some;
                    assert(0 <= i < column_names@.len() && type_of_column(cols, column_names@[i as int]@) is None
                        && forall|j: int| 0 <= j < i ==> type_of_column(cols, (#[trigger] column_names@[j])@) is Some);
                    if k < i {
                        assert(type_of_column(cols, column_names@[k]@) is Some);
                    } else if k > i {
                        assert(type_of_column(cols, column_names@[i as int]@) is Some);
                    }
                }
                return Err(TsFileError::MeasurementNotFound(column_names[i].clone()));
            },
        }
        i = i + 1;
    }
    Ok(types)
}

/// The points of the chunks, one chunk after the other.
pub open spec fn flatten_points(chunks: Seq<Seq<(i64, ValueView)>>) -> Seq<(i64, ValueView)>
    decreases chunks.len(),
{
    if chunks.len() == 0 {
        Seq::empty()
    } else {
        flatten_points(chunks.drop_last()) + chunks.last()
    }
}

/// `sorted` with `p` placed after every point that is not later than it.
pub open spec fn insert_by_time(sorted: Seq<(i64, ValueView)>, p: (i64, ValueView)) -> Seq<(i64, ValueView)>
    decreases sorted.len(),
{
    if sorted.len() == 0 || sorted.last().0 <= p.0 {
        sorted.push(p)
    } else {
        insert_by_time(sorted.drop_last(), p).push(sorted.last())
    }
}

/// `points` ordered by time; points at the same time keep their order.
pub open spec fn sorted_by_time(points: Seq<(i64, ValueView)>) -> Seq<(i64, ValueView)>
    decreases points.len(),
{
    if points.len() == 0 {
        Seq::empty()
    } else {
        insert_by_time(sorted_by_time(points.drop_last()), points.last())
    }
}

/// The points of `points` that `range` holds, all of them when there is no range.
pub open spec fn in_range(points: Seq<(i64, ValueView)>, range: Option<TimeRange>) -> Seq<(i64, ValueView)>
    decreases points.len(),
{
    if points.len() == 0 {
        Seq::empty()
    } else {
        let rest = in_range(points.drop_last(), range);
        match range {
            Some(r) => if r.has(points.last().0) {
                rest.push(points.last())
            } else {
                rest
            },
            None => rest.push(points.last()),
        }
    }
}

/// The abstract forms of the chunks' points.
pub open spec fn chunks_view(chunks: Seq<Vec<(i64, EncodableValue)>>) -> Seq<Seq<(i64, ValueView)>> {
    chunks.map_values(|c: Vec<(i64, EncodableValue)>| point_views(c@))
}

/// Places `p` in `out` after every point that is not later than it.
fn place_by_time(out: &mut Vec<(i64, EncodableValue)>, p: (i64, EncodableValue))
    ensures
        point_views(final(out)@) == insert_by_time(point_views(old(out)@), (p.0, p.1@)),
{
    let ghost before = point_views(out@);
    let ghost pv = (p.0, p.1@);
    let mut k: usize = out.len();
    assert(before.take(k as int) =~= before);
    assert(before.skip(k as int) =~= Seq::<(i64, ValueView)>::empty());
    while k > 0 && out[k - 1].0 > p.0
        invariant
            pv == (p.0, p.1@),
            point_views(out@) == before,
            k <= before.len(),
            insert_by_time(before, pv) == insert_by_time(before.take(k as int), pv) + before.skip(k as int),
        decreases k,
    {
        let ghost t = before.take(k as int);
        assert(t.drop_last() =~= before.take(k - 1));
        assert(t.last() == before[k - 1]);
        assert(before[k - 1] == (out@[k - 1].0, out@[k - 1].1@));
        assert(t.last().0 > pv.0);
        assert(before.skip(k - 1) =~= seq![before[k - 1]] + before.skip(k as int));
        assert(insert_by_time(t, pv) == insert_by_time(before.take(k - 1), pv).push(before[k - 1]));
        assert(insert_by_time(before.take(k - 1), pv).push(before[k - 1]) + before.skip(k as int)
            =~= insert_by_time(before.take(k - 1), pv) + before.skip(k - 1));
        k = k - 1;
    }
    proof {
        if k > 0 {
            assert(before[k - 1].0 == out@[k - 1].0);
        }
    }
    assert(insert_by_time(before.take(k as int), pv) == before.take(k as int).push(pv));
    let ghost old_out = out@;
    out.insert(k, p);
    assert(point_views(out@) =~= before.take(k as int).push(pv) + before.skip(k as int)) by {
        assert(out@ =~= old_out.take(k as int).push(p) + old_out.skip(k as int));
    }
}

/// The points of a series, from the points of each of its chunks: all of them, ordered by
/// time (points at the same time keeping their order), then those that `range` holds when
/// there is a range.
pub fn series_points(chunks: Vec<Vec<(i64, EncodableValue)>>, range: Option<TimeRange>) -> (r: Vec<(i64, EncodableValue)>)
    ensures
        point_views(r@) == in_range(sorted_by_time(flatten_points(chunks_view(chunks@))), range),
{
    let ghost cv = chunks_view(chunks@);
    let mut sorted: Vec<(i64, EncodableValue)> = Vec::new();
    let mut j: usize = 0;
    assert(cv.take(0) =~= Seq::<Seq<(i64, ValueView)>>::empty());
    assert(point_views(sorted@) =~= Seq::<(i64, ValueView)>::empty());
    while j < chunks.len()
        invariant
            j <= chunks@.len(),
            cv == chunks_view(chunks@),
            point_views(sorted@) == sorted_by_time(flatten_points(cv.take(j as int))),
        decreases chunks@.len() - j,
    {
        let chunk = &chunks[j];
        let ghost base = flatten_points(cv.take(j as int));
        let ghost c = point_views(chunk@);
        assert(c == cv[j as int]);
        let mut i: usize = 0;
        assert(base + c.take(0) =~= base);
        while i < chunk.len()
            invariant
                i <= chunk@.len(),
                c == point_views(chunk@),
                point_views(sorted@) == sorted_by_time(base + c.take(i as int)),
            decreases chunk@.len() - i,
        {
            let ghost pre = base + c.take(i as int);
            assert((base + c.take(i + 1)).drop_last() =~= pre);
            assert((base + c.take(i + 1)).last() == c[i as int]);
            assert(c[i as int] == (chunk@[i as int].0, chunk@[i as int].1@));
            place_by_time(&mut sorted, (chunk[i].0, crate::read::reader::page_reader::copy_value(&chunk[i].1)));
            i = i + 1;
        }
        assert(c.take(c.len() as int) =~= c);
        assert(cv.take(j + 1).drop_last() =~= cv.take(j as int));
        assert(cv.take(j + 1).last() == c);
        j = j + 1;
    }
    assert(cv.take(cv.len() as int) =~= cv);
    let ghost all = point_views(sorted@);
    let mut out: Vec<(i64, EncodableValue)> = Vec::new();
    let mut i: usize = 0;
    assert(all.take(0) =~= Seq::<(i64, ValueView)>::empty());
    assert(point_views(out@) =~= Seq::<(i64, ValueView)>::empty());
    while i < sorted.len()
        invariant
            i <= sorted@.len(),
            all == point_views(sorted@),
            point_views(out@) == in_range(all.take(i as int), range),
        decreases sorted@.len() - i,
    {
        let ghost t = all.take(i + 1);
        assert(t.drop_last() =~= all.take(i as int));
        assert(t.last() == (sorted@[i as int].0, sorted@[i as int].1@));
        let keep = match &range {
            Some(r) => r.contains_time(sorted[i].0),
            None => true,
        };
        if keep {
            let ghost before = out@;
            out.push((sorted[i].0, crate::read::reader::page_reader::copy_value(&sorted[i].1)));
            assert(point_views(out@) =~= point_views(before).push(t.last()));
        }
        i = i + 1;
    }
    assert(all.take(all.len() as int) =~= all);
    out
}

/// Whether `range`, if any, holds the time `t`: every time when there is no range.
pub open spec fn range_holds(range: Option<TimeRange>, t: i64) -> bool {
    match range {
        Some(r) => r.has(t),
        None => true,
    }
}

/// Whether the points are in order of time.
pub open spec fn time_ordered(ps: Seq<(i64, ValueView)>) -> bool {
    forall|a: int, b: int| 0 <= a < b < ps.len() ==> ps[a].0 <= ps[b].0
}

/// Placing a point keeps points in order of time, and adds just that point.
proof fn lemma_insert_by_time(sorted: Seq<(i64, ValueView)>, p: (i64, ValueView))
    requires
        time_ordered(sorted),
    ensures
        time_ordered(insert_by_time(sorted, p)),
        insert_by_time(sorted, p).len() == sorted.len() + 1,
        forall|x: (i64, ValueView)| #[trigger] insert_by_time(sorted, p).contains(x) <==> (sorted.contains(x) || x == p),
    decreases sorted.len(),
{
    let out = insert_by_time(sorted, p);
    if sorted.len() == 0 || sorted.last().0 <= p.0 {
        assert forall|x: (i64, ValueView)| #[trigger] out.contains(x) <==> (sorted.contains(x) || x == p) by {
            if out.contains(x) {
                let k = choose|k: int| 0 <= k < out.len() && out[k] == x;
                if k < sorted.len() {
                    assert(sorted[k] == x);
                }
            }
            if sorted.contains(x) {
                let k = choose|k: int| 0 <= k < sorted.len() && sorted[k] == x;
                assert(out[k] == x);
            }
            if x == p {
                assert(out[sorted.len() as int] == x);
            }
        }
    } else {
        let front = sorted.drop_last();
        assert(time_ordered(front));
        lemma_insert_by_time(front, p);
        let inner = insert_by_time(front, p);
        assert forall|a: int, b: int| 0 <= a < b < out.len() implies out[a].0 <= out[b].0 by {
            if b == out.len() - 1 {
                assert(out[b] == sorted.last());
                let x = out[a];
                assert(out[a] == inner[a]);
                assert(inner.contains(x));
                if x != p {
                    assert(front.contains(x));
                    let k = choose|k: int| 0 <= k < front.len() && front[k] == x;
                    assert(sorted[k] == x);
                }
            } else {
                assert(out[a] == inner[a]);
                assert(out[b] == inner[b]);
            }
        }
        assert forall|x: (i64, ValueView)| #[trigger] out.contains(x) <==> (sorted.contains(x) || x == p) by {
            if out.contains(x) {
                let k = choose|k: int| 0 <= k < out.len() && out[k] == x;
                if k < inner.len() {
                    assert(inner[k] == x);
                    assert(inner.contains(x));
                    if x != p {
                        let j = choose|j: int| 0 <= j < front.len() && front[j] == x;
                        assert(sorted[j] == x);
                    }
                } else {
                    assert(sorted[sorted.len() - 1] == x);
                }
            }
            if sorted.contains(x) {
                let k = choose|k: int| 0 <= k < sorted.len() && sorted[k] == x;
                if k < front.len() {
                    assert(front[k] == x);
                    assert(inner.contains(x));
                    let j = choose|j: int| 0 <= j < inner.len() && inner[j] == x;
                    assert(out[j] == x);
                } else {
                    assert(out[out.len() - 1] == x);
                }
            }
            if x == p {
                assert(inner.contains(x));
                let j = choose|j: int| 0 <= j < inner.len() && inner[j] == x;
                assert(out[j] == x);
            }
        }
    }
}

/// Ordering by time keeps the points and puts them in order of time.
proof fn lemma_sorted_by_time(ps: Seq<(i64, ValueView)>)
    ensures
        time_ordered(sorted_by_time(ps)),
        sorted_by_time(ps).len() == ps.len(),
        forall|x: (i64, ValueView)| #[trigger] sorted_by_time(ps).contains(x) <==> ps.contains(x),
    decreases ps.len(),
{
    if ps.len() > 0 {
        let front = ps.drop_last();
        lemma_sorted_by_time(front);
        lemma_insert_by_time(sorted_by_time(front), ps.last());
        assert forall|x: (i64, ValueView)| #[trigger] sorted_by_time(ps).contains(x) <==> ps.contains(x) by {
            if ps.contains(x) {
                let k = choose|k: int| 0 <= k < ps.len() && ps[k] == x;
                if k < front.len() {
                    assert(front[k] == x);
                    assert(front.contains(x));
                }
            }
            if front.contains(x) {
                let k = choose|k: int| 0 <= k < front.len() && front[k] == x;
                assert(ps[k] == x);
            }
            if x == ps.last() {
                assert(ps[ps.len() - 1] == x);
            }
        }
    } else {
        assert(sorted_by_time(ps) =~= Seq::<(i64, ValueView)>::empty());
    }
}

/// The points of the chunks are those of some chunk.
proof fn lemma_flatten_points(chunks: Seq<Seq<(i64, ValueView)>>)
    ensures
        forall|x: (i64, ValueView)| #[trigger] flatten_points(chunks).contains(x) <==> exists|j: int|
            0 <= j < chunks.len() && (#[trigger] chunks[j]).contains(x),
    decreases chunks.len(),
{
    if chunks.len() > 0 {
        let front = chunks.drop_last();
        lemma_flatten_points(front);
        let a = flatten_points(front);
        let c = chunks.last();
        assert forall|x: (i64, ValueView)| #[trigger] flatten_points(chunks).contains(x) <==> exists|j: int|
            0 <= j < chunks.len() && (#[trigger] chunks[j]).contains(x) by {
            let f = a + c;
            if f.contains(x) {
                let k = choose|k: int| 0 <= k < f.len() && f[k] == x;
                if k < a.len() {
                    assert(a[k] == x);
                    assert(a.contains(x));
                    let j = choose|j: int| 0 <= j < front.len() && (#[trigger] front[j]).contains(x);
                    assert(chunks[j] == front[j]);
                } else {
                    assert(c[k - a.len()] == x);
                    assert(chunks[chunks.len() - 1].contains(x));
                }
            }
            if exists|j: int| 0 <= j < chunks.len() && (#[trigger] chunks[j]).contains(x) {
                let j = choose|j: int| 0 <= j < chunks.len() && (#[trigger] chunks[j]).contains(x);
                if j < front.len() {
                    assert(front[j] == chunks[j]);
                    assert(a.contains(x));
                    let k = choose|k: int| 0 <= k < a.len() && a[k] == x;
                    assert(f[k] == x);
                } else {
                    let k = choose|k: int| 0 <= k < c.len() && c[k] == x;
                    assert(f[a.len() + k] == x);
                }
            }
        }
    }
}

/// Keeping the points that the range holds keeps the order and keeps exactly those
/// points.
proof fn lemma_in_range(ps: Seq<(i64, ValueView)>, range: Option<TimeRange>)
    ensures
        time_ordered(ps) ==> time_ordered(in_range(ps, range)),
        forall|x: (i64, ValueView)| #[trigger] in_range(ps, range).contains(x) <==> (ps.contains(x) && range_holds(range, x.0)),
        forall|i: int| 0 <= i < in_range(ps, range).len() ==> exists|k: int| 0 <= k < ps.len() && ps[k] == #[trigger] in_range(ps, range)[i],
    decreases ps.len(),
{
    if ps.len() > 0 {
        let front = ps.drop_last();
        let p = ps.last();
        lemma_in_range(front, range);
        let a = in_range(front, range);
        let out = in_range(ps, range);
        if time_ordered(ps) {
            assert(time_ordered(front));
            if range_holds(range, p.0) {
                assert forall|i: int, j: int| 0 <= i < j < out.len() implies out[i].0 <= out[j].0 by {
                    if j == out.len() - 1 {
                        let k = choose|k: int| 0 <= k < front.len() && front[k] == #[trigger] a[i];
                        assert(ps[k] == front[k]);
                        assert(out[j] == ps[ps.len() - 1]);
                    } else {
                        assert(out[i] == a[i] && out[j] == a[j]);
                    }
                }
            }
        }
        assert forall|i: int| 0 <= i < out.len() implies exists|k: int| 0 <= k < ps.len() && ps[k] == #[trigger] out[i] by {
            if i < a.len() {
                assert(out[i] == a[i]);
                let k = choose|k: int| 0 <= k < front.len() && front[k] == #[trigger] a[i];
                assert(ps[k] == front[k]);
            } else {
                assert(ps[ps.len() - 1] == out[i]);
            }
        }
        assert forall|x: (i64, ValueView)| #[trigger] out.contains(x) <==> (ps.contains(x) && range_holds(range, x.0)) by {
            if out.contains(x) {
                let i = choose|i: int| 0 <= i < out.len() && out[i] == x;
                if i < a.len() {
                    assert(out[i] == a[i]);
                    assert(a.contains(x));
                    let k = choose|k: int| 0 <= k < front.len() && front[k] == x;
                    assert(ps[k] == x);
                } else {
                    assert(ps[ps.len() - 1] == x);
                }
            }
            if ps.contains(x) && range_holds(range, x.0) {
                let k = choose|k: int| 0 <= k < ps.len() && ps[k] == x;
                if k < front.len() {
                    assert(front[k] == x);
                    assert(a.contains(x));
                    let i = choose|i: int| 0 <= i < a.len() && a[i] == x;
                    assert(out[i] == x);
                } else {
                    assert(x == p);
                    assert(out[out.len() - 1] == x);
                }
            }
        }
    }
}

/// What `series_points` gives: in order of time, exactly the points of the chunks that
/// the range holds (as `TimeRange::contains_time` decides, each end closed or open), and
/// every point of the chunks when there is no range.
pub proof fn lemma_series_points(chunks: Seq<Seq<(i64, ValueView)>>, range: Option<TimeRange>)
    ensures
        ({
            let out = in_range(sorted_by_time(flatten_points(chunks)), range);
            &&& time_ordered(out)
            &&& forall|x: (i64, ValueView)| #[trigger] out.contains(x) <==> (range_holds(range, x.0) && exists|j: int|
                0 <= j < chunks.len() && (#[trigger] chunks[j]).contains(x))
        }),
{
    let f = flatten_points(chunks);
    lemma_flatten_points(chunks);
    lemma_sorted_by_time(f);
    lemma_in_range(sorted_by_time(f), range);
}

/// Ordering ranges by lower end keeps exactly the ranges there were.
proof fn lemma_sorted_by_min_keeps(ranges: Seq<TimeRange>)
    ensures
        forall|x: TimeRange| #[trigger] sorted_by_min(ranges).contains(x) <==> ranges.contains(x),
    decreases ranges.len(),
{
    if ranges.len() > 0 {
        let front = ranges.drop_last();
        lemma_sorted_by_min_keeps(front);
        lemma_sorted_by_min(front);
        lemma_insert_by_min_sorted(sorted_by_min(front), ranges.last());
        assert forall|x: TimeRange| #[trigger] sorted_by_min(ranges).contains(x) <==> ranges.contains(x) by {
            if ranges.contains(x) {
                let k = choose|k: int| 0 <= k < ranges.len() && ranges[k] == x;
                if k < front.len() {
                    assert(front[k] == x);
                    assert(front.contains(x));
                }
            }
            if front.contains(x) {
                let k = choose|k: int| 0 <= k < front.len() && front[k] == x;
                assert(ranges[k] == x);
            }
            if x == ranges.last() {
                assert(ranges[ranges.len() - 1] == x);
            }
        }
    } else {
        assert(sorted_by_min(ranges) =~= Seq::<TimeRange>::empty());
    }
}

/// Whether the chunk `c` lies in the partition `[start, end)`.
pub open spec fn in_partition(c: (u64, i64, i64), start: u64, end: u64) -> bool {
    start <= c.0 && c.0 < end
}

/// The ranges of a partition are the closed ranges of its chunks.
proof fn lemma_partition_chunk_ranges(chunks: Seq<(u64, i64, i64)>, start: u64, end: u64)
    ensures
        forall|x: TimeRange| #[trigger] partition_chunk_ranges(chunks, start, end).contains(x) <==> exists|k: int|
            0 <= k < chunks.len() && in_partition(#[trigger] chunks[k], start, end) && x == closed_range(chunks[k].1, chunks[k].2),
    decreases chunks.len(),
{
    if chunks.len() > 0 {
        let front = chunks.drop_last();
        let c = chunks.last();
        lemma_partition_chunk_ranges(front, start, end);
        let a = partition_chunk_ranges(front, start, end);
        let out = partition_chunk_ranges(chunks, start, end);
        assert forall|x: TimeRange| #[trigger] out.contains(x) <==> exists|k: int|
            0 <= k < chunks.len() && in_partition(#[trigger] chunks[k], start, end) && x == closed_range(chunks[k].1, chunks[k].2) by {
            if out.contains(x) {
                let i = choose|i: int| 0 <= i < out.len() && out[i] == x;
                if i < a.len() {
                    assert(a[i] == out[i]);
                    assert(a.contains(x));
                    let k = choose|k: int| 0 <= k < front.len() && in_partition(#[trigger] front[k], start, end) && x == closed_range(front[k].1, front[k].2);
                    assert(chunks[k] == front[k]);
                } else {
                    assert(in_partition(chunks[chunks.len() - 1], start, end));
                }
            }
            if exists|k: int| 0 <= k < chunks.len() && in_partition(#[trigger] chunks[k], start, end) && x == closed_range(chunks[k].1, chunks[k].2) {
                let k = choose|k: int| 0 <= k < chunks.len() && in_partition(#[trigger] chunks[k], start, end) && x == closed_range(chunks[k].1, chunks[k].2);
                if k < front.len() {
                    assert(front[k] == chunks[k]);
                    assert(a.contains(x));
                    let i = choose|i: int| 0 <= i < a.len() && a[i] == x;
                    assert(out[i] == x);
                } else {
                    assert(out[out.len() - 1] == x);
                }
            }
        }
    }
}

/// The merged time ranges of a space partition `[start, end)` cover exactly the times of
/// its chunks: a time lies in some of them just when some chunk whose header offset lies
/// in the partition has it between its start and end times (each chunk's start being no
/// later than its end). No time of a chunk is lost and none is added, whatever the order
/// of the chunks.
pub proof fn lemma_partition_time_ranges_cover(chunks: Seq<(u64, i64, i64)>, start: u64, end: u64, t: i64)
    requires
        forall|k: int| 0 <= k < chunks.len() && in_partition(#[trigger] chunks[k], start, end) ==> chunks[k].1 <= chunks[k].2,
    ensures
        covers(merged(sorted_by_min(partition_chunk_ranges(chunks, start, end))), t) <==> exists|k: int|
            0 <= k < chunks.len() && in_partition(#[trigger] chunks[k], start, end) && chunks[k].1 <= t <= chunks[k].2,
{
    let rs = partition_chunk_ranges(chunks, start, end);
    let sorted = sorted_by_min(rs);
    lemma_partition_chunk_ranges(chunks, start, end);
    lemma_sorted_by_min_keeps(rs);
    lemma_sorted_by_min(rs);
    assert(closed_ranges(sorted)) by {
        assert forall|i: int| 0 <= i < sorted.len() implies (#[trigger] sorted[i]).left_closed && sorted[i].right_closed
            && sorted[i].min <= sorted[i].max by {
            assert(sorted.contains(sorted[i]));
            assert(rs.contains(sorted[i]));
        }
    }
    assert(ordered_by_min(sorted));
    lemma_merged_covers_union(sorted, t);
    if covers(sorted, t) {
        let i = choose|i: int| 0 <= i < sorted.len() && (#[trigger] sorted[i]).has(t);
        assert(sorted.contains(sorted[i]));
        assert(rs.contains(sorted[i]));
    }
    if exists|k: int| 0 <= k < chunks.len() && in_partition(#[trigger] chunks[k], start, end) && chunks[k].1 <= t <= chunks[k].2 {
        let k = choose|k: int| 0 <= k < chunks.len() && in_partition(#[trigger] chunks[k], start, end) && chunks[k].1 <= t <= chunks[k].2;
        let x = closed_range(chunks[k].1, chunks[k].2);
        assert(rs.contains(x));
        assert(sorted.contains(x));
        let i = choose|i: int| 0 <= i < sorted.len() && sorted[i] == x;
        assert(sorted[i].has(t));
    }
}

} // verus!
