//! Rows of the values of several series, arranged by time.

use vstd::prelude::*;

use crate::common::enums::TSDataType;
use crate::encoding::encoder::{EncodableValue, ValueView};
use crate::read::block::{Column, ColumnValue, TsBlock};
use crate::utils::read_write_io_utils::{string_from_utf8, Binary};
use crate::utils::text::{bytes_debug, bytes_debug_text, str_eq};
use crate::write::record::{point_list, DataPoint, TSRecord};
use vstd::string::StringExecFns;
use vstd::utf8::{decode_utf8, valid_utf8};
use crate::read::reader::page_reader::{copy_value, point_views};
use crate::read::tsfile_sequence_reader::{columns_view, distinct_times, has_time, insert_sorted, row_view};

verus! {

/// The value of the last point of `column` at time `t`, if any.
pub open spec fn last_at(column: Seq<(i64, ValueView)>, t: i64) -> Option<ValueView>
    decreases column.len(),
{
    if column.len() == 0 {
        None
    } else if column.last().0 == t {
        Some(column.last().1)
    } else {
        last_at(column.drop_last(), t)
    }
}

/// The value of the last point of `column` at time `t`, if any.
fn find_last_at(column: &Vec<(i64, EncodableValue)>, t: i64) -> (r: Option<EncodableValue>)
    ensures
        match last_at(point_views(column@), t) {
            Some(v) => r matches Some(x) && x@ == v,
            None => r is None,
        },
{
    let mut i: usize = column.len();
    assert(point_views(column@).take(i as int) =~= point_views(column@));
    while i > 0
        invariant
            i <= column@.len(),
            last_at(point_views(column@), t) == last_at(point_views(column@).take(i as int), t),
        decreases i,
    {
        let ghost front = point_views(column@).take(i as int);
        assert(front.last() == (column@[i - 1].0, column@[i - 1].1@));
        if column[i - 1].0 == t {
            return Some(copy_value(&column[i - 1].1));
        }
        assert(front.drop_last() =~= point_views(column@).take(i - 1));
        i = i - 1;
    }
    None
}

/// The times of the rows: the selected ones when given, else every time at which some
/// series has a point.
pub open spec fn row_times(series: Seq<Seq<(i64, ValueView)>>, selected: Option<Seq<i64>>, t: i64) -> bool {
    match selected {
        Some(s) => s.contains(t),
        None => has_time(series, t),
    }
}

/// The selected times, if any, as a sequence.
pub open spec fn selection(selected: Option<&[i64]>) -> Option<Seq<i64>> {
    match selected {
        Some(s) => Some(s@),
        None => None,
    }
}

/// The points of several series arranged in rows: one row for each time, in increasing
/// order, each time once; the times are `selected` when given, and otherwise every time
/// at which some series has a point. A row holds, for each series, the value of its last
/// point at the row's time, or nothing.
pub fn rows_from_series_data(
    series: &Vec<Vec<(i64, EncodableValue)>>,
    selected: Option<&[i64]>,
) -> (rows: Vec<(i64, Vec<Option<EncodableValue>>)>)
    ensures
        forall|a: int, b: int| 0 <= a < b < rows@.len() ==> rows@[a].0 < rows@[b].0,
        forall|t: i64|
            #[trigger] row_times(columns_view(series@), selection(selected), t) <==> exists|r: int| 0 <= r < rows@.len() && #[trigger] rows@[r].0 == t,
        forall|r: int|
            0 <= r < rows@.len() ==> row_view((#[trigger] rows@[r]).1@) == Seq::new(
                series@.len(),
                |j: int| last_at(point_views(series@[j]@), rows@[r].0),
            ),
{
    let ghost sel = selection(selected);
    let times = match selected {
        Some(s) => {
            let mut times: Vec<i64> = Vec::new();
            let mut i: usize = 0;
            while i < s.len()
                invariant
                    i <= s@.len(),
                    forall|a: int, b: int| 0 <= a < b < times@.len() ==> times@[a] < times@[b],
                    forall|t: i64| s@.take(i as int).contains(t) <==> times@.contains(t),
                decreases s@.len() - i,
            {
                proof {
                    let pre = s@.take(i as int);
                    let pre1 = s@.take(i + 1);
                    assert(pre1 =~= pre.push(s@[i as int]));
                    assert forall|t: i64| #[trigger] pre1.contains(t) <==> (pre.contains(t) || t == s@[i as int]) by {
                        if pre1.contains(t) {
                            let k = choose|k: int| 0 <= k < pre1.len() && pre1[k] == t;
                            if k < i {
                                assert(pre[k] == t);
                            }
                        }
                        if pre.contains(t) {
                            let k = choose|k: int| 0 <= k < pre.len() && pre[k] == t;
                            assert(pre1[k] == t);
                        }
                        if t == s@[i as int] {
                            assert(pre1[i as int] == t);
                        }
                    }
                }
                insert_sorted(&mut times, s[i]);
                i = i + 1;
            }
            assert(s@.take(s@.len() as int) =~= s@);
            times
        },
        None => distinct_times(series),
    };
    assert(forall|t: i64| #[trigger] row_times(columns_view(series@), sel, t) <==> times@.contains(t));
    let mut rows: Vec<(i64, Vec<Option<EncodableValue>>)> = Vec::with_capacity(times.len());
    let mut r: usize = 0;
    while r < times.len()
        invariant
            r <= times@.len(),
            rows@.len() == r,
            forall|a: int, b: int| 0 <= a < b < times@.len() ==> times@[a] < times@[b],
            forall|a: int| 0 <= a < r ==> (#[trigger] rows@[a]).0 == times@[a],
            forall|a: int|
                0 <= a < r ==> row_view((#[trigger] rows@[a]).1@) == Seq::new(
                    series@.len(),
                    |k: int| last_at(point_views(series@[k]@), rows@[a].0),
                ),
        decreases times@.len() - r,
    {
        let t = times[r];
        let mut row: Vec<Option<EncodableValue>> = Vec::with_capacity(series.len());
        let mut k: usize = 0;
        while k < series.len()
            invariant
                k <= series@.len(),
                row@.len() == k,
                forall|c: int| 0 <= c < k ==> (#[trigger] row_view(row@)[c]) == last_at(point_views(series@[c]@), t),
            decreases series@.len() - k,
        {
            let v = find_last_at(&series[k], t);
            let ghost before = row@;
            row.push(v);
            proof {
                assert forall|c: int| 0 <= c < k + 1 implies (#[trigger] row_view(row@)[c]) == last_at(point_views(series@[c]@), t) by {
                    if c < k {
                        assert(row@[c] == before[c]);
                        assert(row_view(row@)[c] == row_view(before)[c]);
                    }
                }
            }
            k = k + 1;
        }
        proof {
            assert(row_view(row@) =~= Seq::new(series@.len(), |c: int| last_at(point_views(series@[c]@), t)));
        }
        rows.push((t, row));
        r = r + 1;
    }
    proof {
        assert forall|t: i64| #[trigger] row_times(columns_view(series@), sel, t) <==> exists|a: int| 0 <= a < rows@.len() && #[trigger] rows@[a].0 == t by {
            if times@.contains(t) {
                let a = choose|a: int| 0 <= a < times@.len() && times@[a] == t;
                assert(rows@[a].0 == t);
            }
            if exists|a: int| 0 <= a < rows@.len() && #[trigger] rows@[a].0 == t {
                let a = choose|a: int| 0 <= a < rows@.len() && #[trigger] rows@[a].0 == t;
                assert(times@[a] == t);
            }
        }
    }
    rows
}

/// The value at row `row` of `c`, or none.
pub open spec fn value_at(c: Column, row: int) -> Option<ValueView> {
    if 0 <= row < c.value_views().len() {
        c.value_views()[row]
    } else {
        None
    }
}

/// The value that a record takes from a value `v` of a column of `data_type`: the value
/// when it is of that type, and none otherwise.
pub open spec fn record_value(data_type: TSDataType, v: Option<ValueView>) -> Option<ValueView> {
    match v {
        Some(ValueView::Boolean(_)) => if data_type == TSDataType::Boolean { v } else { None },
        Some(ValueView::Int32(_)) => if data_type == TSDataType::Int32 || data_type == TSDataType::Date { v } else { None },
        Some(ValueView::Int64(_)) => if data_type == TSDataType::Int64 || data_type == TSDataType::Timestamp { v } else { None },
        Some(ValueView::Binary(_)) => if data_type == TSDataType::Text || data_type == TSDataType::Blob
            || data_type == TSDataType::String { v } else { None },
        None => None,
    }
}

/// The points that the columns `start` to `end` (excluded) give a record at row `row`:
/// for each, in order, its name and its value, when it has one of its type.
pub open spec fn record_points(
    columns: Seq<Column>,
    names: Seq<String>,
    types: Seq<TSDataType>,
    row: int,
    start: int,
    end: int,
) -> Seq<(Seq<char>, Option<ValueView>)>
    decreases end - start,
{
    if end <= start {
        Seq::empty()
    } else {
        let rest = record_points(columns, names, types, row, start, end - 1);
        match record_value(types[end - 1], value_at(columns[end - 1], row)) {
            Some(v) => rest.push((names[end - 1]@, Some(v))),
            None => rest,
        }
    }
}

/// Whether the first column is the device column.
pub open spec fn has_device_column(names: Seq<String>) -> bool {
    names.len() > 0 && names[0]@ == "device_id"@
}

/// The text of a byte string that is not UTF-8: its debug text between `<binary ` and `>`.
fn binary_text(bytes: &[u8]) -> (s: String)
    ensures
        s@ == "<binary "@ + bytes_debug_text(bytes@) + ">"@,
{
    let mut s = String::from_str("<binary ");
    let list = bytes_debug(bytes);
    s.append(list.as_str());
    s.append(">");
    s
}

/// The point of `name` holding `v`, when `v` is a value of `data_type`.
fn data_point_of(name: &String, data_type: TSDataType, v: &ColumnValue) -> (p: Option<DataPoint>)
    ensures
        match record_value(data_type, v@) {
            Some(x) => p matches Some(d) && d@ == (name@, Some(x)),
            None => p is None,
        },
{
    match v {
        ColumnValue::Boolean(b) => if data_type == TSDataType::Boolean {
            Some(DataPoint::new_bool(String::from_str(name.as_str()), *b))
        } else {
            None
        },
        ColumnValue::Int32(x) => if data_type == TSDataType::Int32 || data_type == TSDataType::Date {
            Some(DataPoint::new_i32(String::from_str(name.as_str()), *x))
        } else {
            None
        },
        ColumnValue::Int64(x) => if data_type == TSDataType::Int64 || data_type == TSDataType::Timestamp {
            Some(DataPoint::new_i64(String::from_str(name.as_str()), *x))
        } else {
            None
        },
        ColumnValue::Binary(b) => if data_type == TSDataType::Text || data_type == TSDataType::Blob
            || data_type == TSDataType::String {
            let bytes = crate::utils::byte_reader::copy_range(b.as_bytes(), 0, b.as_bytes().len());
            assert(bytes@ =~= b@);
            Some(DataPoint::new_text(String::from_str(name.as_str()), Binary::new(bytes)))
        } else {
            None
        },
        ColumnValue::Null => None,
    }
}

/// The record of row `row` of `block`, whose columns are named `names` and of the types
/// `types`: the row's time (0 past the last row); as device, the text of the row's value
/// in the first column when that column is `device_id` and holds a byte string there
/// (its debug text between `<binary ` and `>` when it is not UTF-8), and `table_name`
/// otherwise; then, for each other column in order, its name and its value at the row,
/// when it has one of the column's type.
pub fn record_from_block(
    block: &TsBlock,
    row: usize,
    names: &[String],
    types: &[TSDataType],
    table_name: &str,
) -> (r: TSRecord)
    requires
        names@.len() == types@.len(),
        names@.len() <= block.spec_columns().len(),
    ensures
        r.timestamp == (if row < block.spec_times().len() { block.spec_times()[row as int] } else { 0 }),
        has_device_column(names@) ==> match value_at(block.spec_columns()[0], row as int) {
            Some(ValueView::Binary(b)) => if valid_utf8(b) {
                r.device_id@ == decode_utf8(b)
            } else {
                r.device_id@ == "<binary "@ + bytes_debug_text(b) + ">"@
            },
            _ => r.device_id@ == table_name@,
        },
        !has_device_column(names@) ==> r.device_id@ == table_name@,
        point_list(r.data_points@) == record_points(
            block.spec_columns(),
            names@,
            types@,
            row as int,
            if has_device_column(names@) { 1 } else { 0 },
            names@.len() as int,
        ),
{
    let timestamp = match block.time_by_index(row) {
        Some(t) => t,
        None => 0,
    };
    let has_device = names.len() > 0 && str_eq(names[0].as_str(), "device_id");
    let mut device_id = String::from_str(table_name);
    if has_device {
        let first = block.column(0).unwrap();
        match first.get(row) {
            Some(ColumnValue::Binary(b)) => {
                let bytes = crate::utils::byte_reader::copy_range(b.as_bytes(), 0, b.as_bytes().len());
                assert(bytes@ =~= b@);
                device_id = match string_from_utf8(bytes) {
                    Ok(text) => text,
                    Err(_) => binary_text(b.as_bytes()),
                };
            },
            _ => {},
        }
    }
    let mut record = TSRecord::new(timestamp, device_id);
    let start: usize = if has_device { 1 } else { 0 };
    let mut i: usize = start;
    assert(point_list(record.data_points@) =~= Seq::<(Seq<char>, Option<ValueView>)>::empty());
    while i < names.len()
        invariant
            start <= i <= names@.len(),
            names@.len() == types@.len(),
            names@.len() <= block.spec_columns().len(),
            record.timestamp == timestamp,
            record.device_id == device_id,
            point_list(record.data_points@) == record_points(block.spec_columns(), names@, types@, row as int, start as int, i as int),
        decreases names@.len() - i,
    {
        let column = block.column(i).unwrap();
        let ghost before = record.data_points@;
        let value = match column.get(row) {
            Some(v) => data_point_of(&names[i], types[i], v),
            None => data_point_of(&names[i], types[i], &ColumnValue::Null),
        };
        match value {
            Some(p) => {
                record.add_tuple(p);
                assert(point_list(record.data_points@) =~= point_list(before).push(p@));
            },
            None => {},
        }
        i = i + 1;
    }
    record
}

/// Whether the field `i` of `fields` is missing or holds no value.
pub open spec fn field_is_null(fields: Seq<Option<ValueView>>, i: int) -> bool {
    i >= fields.len() || fields[i] is None
}

/// The settings that decide which rows of a data set are left out, and how many are
/// skipped and returned.
pub struct DataSetView {
    /// The rows: each a time and its fields.
    pub rows: Seq<(i64, Seq<Option<ValueView>>)>,
    /// The next row to look at.
    pub cursor: nat,
    /// The number of rows still to skip.
    pub offset: nat,
    /// The most rows to return, none when 0.
    pub limit: nat,
    /// The number of rows returned.
    pub returned: nat,
    /// Whether rows with a null field are left out.
    pub without_any_null: bool,
    /// Whether rows with only null fields are left out.
    pub without_all_null: bool,
    /// The fields that the two rules look at, all of them when none or empty.
    pub null_columns: Option<Seq<usize>>,
}

impl DataSetView {
    /// Whether some field that the rules look at is null.
    pub open spec fn any_null(self, fields: Seq<Option<ValueView>>) -> bool {
        match self.null_columns {
            Some(ix) if ix.len() > 0 => exists|k: int| 0 <= k < ix.len() && field_is_null(fields, #[trigger] ix[k] as int),
            _ => exists|i: int| 0 <= i < fields.len() && (#[trigger] fields[i]) is None,
        }
    }

    /// Whether every field that the rules look at is null.
    pub open spec fn all_null(self, fields: Seq<Option<ValueView>>) -> bool {
        match self.null_columns {
            Some(ix) if ix.len() > 0 => forall|k: int| 0 <= k < ix.len() ==> field_is_null(fields, #[trigger] ix[k] as int),
            _ => forall|i: int| 0 <= i < fields.len() ==> (#[trigger] fields[i]) is None,
        }
    }

    /// Whether the rules leave out the row with `fields`.
    pub open spec fn left_out(self, fields: Seq<Option<ValueView>>) -> bool {
        (self.without_any_null && self.any_null(fields)) || (self.without_all_null && self.all_null(fields))
    }

    /// Whether the limit of rows has been reached.
    pub open spec fn limit_reached(self) -> bool {
        self.limit > 0 && self.returned >= self.limit
    }

    /// The data set after looking for the next row from `cursor` with `offset` rows still
    /// to skip: the rows left out and the rows skipped are passed, then the first other row
    /// is returned unless the limit is reached.
    pub open spec fn next_from(self, cursor: nat, offset: nat) -> (DataSetView, Option<nat>)
        decreases self.rows.len() - cursor,
    {
        if cursor >= self.rows.len() {
            (DataSetView { cursor, offset, ..self }, None)
        } else if self.left_out(self.rows[cursor as int].1) {
            self.next_from(cursor + 1, offset)
        } else if offset > 0 {
            self.next_from(cursor + 1, (offset - 1) as nat)
        } else if self.limit_reached() {
            (DataSetView { cursor: cursor + 1, offset, ..self }, None)
        } else {
            (DataSetView { cursor: cursor + 1, offset, returned: self.returned + 1, ..self }, Some(cursor))
        }
    }

    /// Whether a row remains to be returned from `cursor` with `offset` rows still to skip.
    pub open spec fn remains_from(self, cursor: nat, offset: nat) -> bool
        decreases self.rows.len() - cursor,
    {
        if cursor >= self.rows.len() {
            false
        } else if self.left_out(self.rows[cursor as int].1) {
            self.remains_from(cursor + 1, offset)
        } else if offset > 0 {
            self.remains_from(cursor + 1, (offset - 1) as nat)
        } else {
            true
        }
    }
}

/// The abstract forms of rows.
pub open spec fn rows_view(rows: Seq<(i64, Vec<Option<EncodableValue>>)>) -> Seq<(i64, Seq<Option<ValueView>>)> {
    rows.map_values(|r: (i64, Vec<Option<EncodableValue>>)| (r.0, row_view(r.1@)))
}

/// The rows of a query, read one by one, with rows left out for null fields, an offset
/// and a limit.
pub struct QueryDataSet {
    columns: Vec<String>,
    rows: Vec<(i64, Vec<Option<EncodableValue>>)>,
    cursor: usize,
    row_limit: usize,
    row_offset: usize,
    already_returned_row_num: usize,
    without_any_null: bool,
    without_all_null: bool,
    without_null_columns_index: Option<Vec<usize>>,
}

impl QueryDataSet {
    /// The abstract state.
    pub closed spec fn view(&self) -> DataSetView {
        DataSetView {
            rows: rows_view(self.rows@),
            cursor: self.cursor as nat,
            offset: self.row_offset as nat,
            limit: self.row_limit as nat,
            returned: self.already_returned_row_num as nat,
            without_any_null: self.without_any_null,
            without_all_null: self.without_all_null,
            null_columns: match self.without_null_columns_index {
                Some(v) => Some(v@),
                None => None,
            },
        }
    }

    /// The names of the columns.
    pub closed spec fn column_names(&self) -> Seq<String> {
        self.columns@
    }

    /// Whether the counters stay within their types.
    pub closed spec fn wf(&self) -> bool {
        self.cursor <= self.rows@.len() && self.already_returned_row_num <= self.cursor
    }

    /// A data set of `rows` under `columns`, read from the first row, with no row left
    /// out, no offset and no limit.
    pub fn new(columns: Vec<String>, rows: Vec<(i64, Vec<Option<EncodableValue>>)>) -> (d: Self)
        ensures
            d.wf(),
            d.column_names() == columns@,
            d.view() == (DataSetView {
                rows: rows_view(rows@),
                cursor: 0,
                offset: 0,
                limit: 0,
                returned: 0,
                without_any_null: false,
                without_all_null: false,
                null_columns: None,
            }),
    {
        QueryDataSet {
            columns,
            rows,
            cursor: 0,
            row_limit: 0,
            row_offset: 0,
            already_returned_row_num: 0,
            without_any_null: false,
            without_all_null: false,
            without_null_columns_index: None,
        }
    }

    /// Sets the most rows to return; 0 for no limit.
    pub fn set_row_limit(&mut self, row_limit: usize)
        requires
            old(self).wf(),
        ensures
            final(self).wf(),
            final(self).column_names() == old(self).column_names(),
            final(self).view() == (DataSetView { limit: row_limit as nat, ..old(self).view() }),
    {
        self.row_limit = row_limit;
    }

    /// Sets the number of rows to skip.
    pub fn set_row_offset(&mut self, row_offset: usize)
        requires
            old(self).wf(),
        ensures
            final(self).wf(),
            final(self).column_names() == old(self).column_names(),
            final(self).view() == (DataSetView { offset: row_offset as nat, ..old(self).view() }),
    {
        self.row_offset = row_offset;
    }

    /// Sets whether rows with a null field are left out.
    pub fn set_without_any_null(&mut self, without_any_null: bool)
        requires
            old(self).wf(),
        ensures
            final(self).wf(),
            final(self).column_names() == old(self).column_names(),
            final(self).view() == (DataSetView { without_any_null, ..old(self).view() }),
    {
        self.without_any_null = without_any_null;
    }

    /// Sets whether rows with only null fields are left out.
    pub fn set_without_all_null(&mut self, without_all_null: bool)
        requires
            old(self).wf(),
        ensures
            final(self).wf(),
            final(self).column_names() == old(self).column_names(),
            final(self).view() == (DataSetView { without_all_null, ..old(self).view() }),
    {
        self.without_all_null = without_all_null;
    }

    /// Sets the fields that the null rules look at; none or an empty list for all.
    pub fn set_without_null_columns_index(&mut self, index: Option<Vec<usize>>)
        requires
            old(self).wf(),
        ensures
            final(self).wf(),
            final(self).column_names() == old(self).column_names(),
            final(self).view() == (DataSetView {
                null_columns: match index {
                    Some(v) => Some(v@),
                    None => None,
                },
                ..old(self).view()
            }),
    {
        self.without_null_columns_index = index;
    }

    /// Whether the null rules leave out the row `r`.
    fn left_out(&self, r: usize) -> (b: bool)
        requires
            r < self.rows@.len(),
        ensures
            b == self.view().left_out(self.view().rows[r as int].1),
    {
        let fields = &self.rows[r].1;
        let ghost fv = row_view(fields@);
        let ghost v = self.view();
        assert(v.rows[r as int].1 == fv);
        let mut any_null = false;
        let mut all_null = true;
        let mut looked = false;
        if let Some(ix) = &self.without_null_columns_index {
            if ix.len() > 0 {
                looked = true;
                let mut k: usize = 0;
                while k < ix.len()
                    invariant
                        k <= ix@.len(),
                        fv == row_view(fields@),
                        fv.len() == fields@.len(),
                        any_null == exists|j: int| 0 <= j < k && field_is_null(fv, #[trigger] ix@[j] as int),
                        all_null == forall|j: int| 0 <= j < k ==> field_is_null(fv, #[trigger] ix@[j] as int),
                    decreases ix@.len() - k,
                {
                    let i = ix[k];
                    let null = i >= fields.len() || fields[i].is_none();
                    proof {
                        if i < fields@.len() {
                            assert(fv[i as int] is None <==> fields@[i as int] is None);
                        }
                    }
                    any_null = any_null || null;
                    all_null = all_null && null;
                    k = k + 1;
                }
            }
        }
        if !looked {
            let mut i: usize = 0;
            while i < fields.len()
                invariant
                    i <= fields@.len(),
                    fv == row_view(fields@),
                    fv.len() == fields@.len(),
                    any_null == exists|j: int| 0 <= j < i && (#[trigger] fv[j]) is None,
                    all_null == forall|j: int| 0 <= j < i ==> (#[trigger] fv[j]) is None,
                decreases fields@.len() - i,
            {
                assert(fv[i as int] is None <==> fields@[i as int] is None);
                let null = fields[i].is_none();
                any_null = any_null || null;
                all_null = all_null && null;
                i = i + 1;
            }
        }
        (self.without_any_null && any_null) || (self.without_all_null && all_null)
    }

    /// Whether a row remains to be returned: the limit is not reached, and past the rows
    /// left out and the rows still to skip there is one.
    pub fn has_next(&self) -> (b: bool)
        requires
            self.wf(),
        ensures
            b == (!self.view().limit_reached() && self.view().remains_from(self.view().cursor, self.view().offset)),
    {
        if self.row_limit > 0 && self.already_returned_row_num >= self.row_limit {
            return false;
        }
        let ghost v = self.view();
        let mut probe_cursor = self.cursor;
        let mut probe_offset = self.row_offset;
        while probe_cursor < self.rows.len()
            invariant
                v == self.view(),
                !v.limit_reached(),
                probe_cursor <= self.rows@.len(),
                v.rows.len() == self.rows@.len(),
                v.remains_from(v.cursor, v.offset) == v.remains_from(probe_cursor as nat, probe_offset as nat),
            decreases self.rows@.len() - probe_cursor,
        {
            let skip = self.left_out(probe_cursor);
            probe_cursor = probe_cursor + 1;
            if skip {
                continue;
            }
            if probe_offset > 0 {
                probe_offset = probe_offset - 1;
                continue;
            }
            return true;
        }
        false
    }

    /// The next row: past the rows left out and the rows still to skip, the first other
    /// row, unless the limit is reached; none when no row remains.
    pub fn next(&mut self) -> (r: Option<(i64, Vec<Option<EncodableValue>>)>)
        requires
            old(self).wf(),
        ensures
            final(self).wf(),
            final(self).column_names() == old(self).column_names(),
            ({
                let (after, found) = old(self).view().next_from(old(self).view().cursor, old(self).view().offset);
                &&& final(self).view() == after
                &&& match found {
                    Some(i) => r matches Some(row) && (row.0, row_view(row.1@)) == old(self).view().rows[i as int],
                    None => r is None,
                }
            }),
    {
        let ghost v0 = self.view();
        while self.cursor < self.rows.len()
            invariant
                self.wf(),
                v0 == old(self).view(),
                self.column_names() == old(self).column_names(),
                v0.rows == self.view().rows,
                v0.limit == self.view().limit,
                v0.returned == self.view().returned,
                v0.without_any_null == self.view().without_any_null,
                v0.without_all_null == self.view().without_all_null,
                v0.null_columns == self.view().null_columns,
                v0.rows.len() == self.rows@.len(),
                v0.next_from(v0.cursor, v0.offset) == v0.next_from(self.cursor as nat, self.row_offset as nat),
            decreases self.rows@.len() - self.cursor,
        {
            let index = self.cursor;
            let ghost o0 = self.row_offset as nat;
            let skip = self.left_out(index);
            assert(skip == v0.left_out(v0.rows[index as int].1));
            self.cursor = self.cursor + 1;
            if skip {
                continue;
            }
            if self.row_offset > 0 {
                self.row_offset = self.row_offset - 1;
                continue;
            }
            if self.row_limit > 0 && self.already_returned_row_num >= self.row_limit {
                assert(v0.next_from(index as nat, o0) == (DataSetView { cursor: (index + 1) as nat, offset: o0, ..v0 }, None::<nat>));
                assert(self.view() == DataSetView { cursor: (index + 1) as nat, offset: o0, ..v0 });
                return None;
            }
            assert(v0.next_from(index as nat, o0) == (DataSetView {
                cursor: (index + 1) as nat,
                offset: o0,
                returned: v0.returned + 1,
                ..v0
            }, Some(index as nat)));
            self.already_returned_row_num = self.already_returned_row_num + 1;
            assert(self.view() == DataSetView { cursor: (index + 1) as nat, offset: o0, returned: v0.returned + 1, ..v0 });
            let row = &self.rows[index];
            let mut fields: Vec<Option<EncodableValue>> = Vec::new();
            let mut k: usize = 0;
            while k < row.1.len()
                invariant
                    k <= row.1@.len(),
                    row_view(fields@) == row_view(row.1@).take(k as int),
                decreases row.1@.len() - k,
            {
                let f = match &row.1[k] {
                    Some(x) => Some(crate::read::reader::page_reader::copy_value(x)),
                    None => None,
                };
                let ghost before = fields@;
                fields.push(f);
                assert(row_view(fields@) =~= row_view(row.1@).take(k + 1)) by {
                    assert(fields@ == before.push(f));
                    assert(row_view(fields@) =~= row_view(before).push(row_view(row.1@)[k as int]));
                }
                k = k + 1;
            }
            assert(row_view(row.1@).take(row.1@.len() as int) =~= row_view(row.1@));
            assert(v0.rows[index as int] == (row.0, row_view(row.1@)));
            return Some((row.0, fields));
        }
        None
    }

    /// Starts reading again from the first row, with no row returned yet.
    pub fn reset(&mut self)
        requires
            old(self).wf(),
        ensures
            final(self).wf(),
            final(self).column_names() == old(self).column_names(),
            final(self).view() == (DataSetView { cursor: 0, returned: 0, ..old(self).view() }),
    {
        self.cursor = 0;
        self.already_returned_row_num = 0;
    }
}

/// `has_next` and `next` agree: a row remains to be returned (the limit is not reached,
/// and past the rows that the null rules leave out and the rows still to skip there is
/// one) exactly when looking for the next row finds one; when it does, the row found is
/// one that the null rules keep, at or after the cursor.
pub proof fn lemma_has_next_agrees_with_next(v: DataSetView, cursor: nat, offset: nat)
    ensures
        (!v.limit_reached() && v.remains_from(cursor, offset)) == (v.next_from(cursor, offset).1 is Some),
        v.next_from(cursor, offset).1 matches Some(i) ==> cursor <= i < v.rows.len() && !v.left_out(v.rows[i as int].1),
    decreases v.rows.len() - cursor,
{
    if cursor < v.rows.len() {
        if v.left_out(v.rows[cursor as int].1) {
            lemma_has_next_agrees_with_next(v, cursor + 1, offset);
        } else if offset > 0 {
            lemma_has_next_agrees_with_next(v, cursor + 1, (offset - 1) as nat);
        }
    }
}

} // verus!
