//! Reading an aligned series: the value chunks read at the times of its time chunk.

use vstd::prelude::*;

use crate::encoding::encoder::{EncodableValue, ValueView};
use crate::error::{TsFileError, TsFileResult};
use crate::read::reader::chunk_reader::{chunk_points, has_page_statistics, ChunkReader, ReadFailure};
use crate::read::reader::page_reader::point_views;
use crate::read::tsfile_sequence_reader::{find_at, first_at, row_view};

verus! {

/// The points that `reader` reads, when it reads.
pub open spec fn reader_points(reader: ChunkReader) -> Result<Seq<(i64, ValueView)>, ReadFailure> {
    chunk_points(
        reader.chunk_header().data_type,
        reader.chunk_header().encoding_type,
        reader.chunk_header().compression_type,
        has_page_statistics(reader.chunk_header().chunk_type),
        reader.data(),
    )
}

/// Reads every value chunk, then gives one row per time of `times`, in their order,
/// holding for each value chunk the value of its first point at that time, or nothing.
/// The first value chunk that does not read stops the reading with its error.
pub fn read_aligned_rows(times: &Vec<i64>, value_chunks: &Vec<ChunkReader>) -> (r: TsFileResult<
    Vec<(i64, Vec<Option<EncodableValue>>)>,
>)
    ensures
        (forall|k: int| 0 <= k < value_chunks@.len() ==> #[trigger] reader_points(value_chunks@[k]) is Ok)
            ==> (r matches Ok(rows) && rows@.len() == times@.len() && forall|a: int|
            0 <= a < rows@.len() ==> (#[trigger] rows@[a]).0 == times@[a] && row_view(rows@[a].1@)
                == Seq::new(
                value_chunks@.len(),
                |k: int| first_at(reader_points(value_chunks@[k])->Ok_0, times@[a]),
            )),
        r is Err ==> exists|k: int|
            0 <= k < value_chunks@.len() && (forall|c: int| 0 <= c < k ==> #[trigger] reader_points(value_chunks@[c]) is Ok)
                && match #[trigger] reader_points(value_chunks@[k]) {
                Err(ReadFailure::Truncated) => r matches Err(TsFileError::Io(_)),
                Err(ReadFailure::Malformed) => r matches Err(TsFileError::DecodingError(_)),
                Err(ReadFailure::Unsupported) => r matches Err(TsFileError::Unsupported(_)),
                Ok(_) => false,
            },
{
    let mut series: Vec<Vec<(i64, EncodableValue)>> = Vec::with_capacity(value_chunks.len());
    let mut k: usize = 0;
    while k < value_chunks.len()
        invariant
            k <= value_chunks@.len(),
            series@.len() == k,
            forall|c: int| 0 <= c < k ==> #[trigger] reader_points(value_chunks@[c]) is Ok,
            forall|c: int| 0 <= c < k ==> point_views((#[trigger] series@[c])@) == reader_points(value_chunks@[c])->Ok_0,
        decreases value_chunks@.len() - k,
    {
        let points = match value_chunks[k].read_all() {
            Ok(p) => p,
            Err(e) => {
                proof {
                    let ki = k as int;
                    assert(!(reader_points(value_chunks@[ki]) is Ok));
                    assert(0 <= ki < value_chunks@.len() && (forall|c: int| 0 <= c < ki ==> #[trigger] reader_points(value_chunks@[c]) is Ok));
                }
                return Err(e);
            },
        };
        series.push(points);
        k = k + 1;
    }
    let mut rows: Vec<(i64, Vec<Option<EncodableValue>>)> = Vec::with_capacity(times.len());
    let mut a: usize = 0;
    while a < times.len()
        invariant
            a <= times@.len(),
            series@.len() == value_chunks@.len(),
            forall|c: int| 0 <= c < series@.len() ==> #[trigger] reader_points(value_chunks@[c]) is Ok,
            forall|c: int| 0 <= c < series@.len() ==> point_views((#[trigger] series@[c])@) == reader_points(value_chunks@[c])->Ok_0,
            rows@.len() == a,
            forall|b: int|
                0 <= b < a ==> (#[trigger] rows@[b]).0 == times@[b] && row_view(rows@[b].1@) == Seq::new(
                    value_chunks@.len(),
                    |c: int| first_at(reader_points(value_chunks@[c])->Ok_0, times@[b]),
                ),
        decreases times@.len() - a,
    {
        let t = times[a];
        let mut row: Vec<Option<EncodableValue>> = Vec::with_capacity(series.len());
        let mut c: usize = 0;
        while c < series.len()
            invariant
                c <= series@.len(),
                series@.len() == value_chunks@.len(),
                forall|d: int| 0 <= d < series@.len() ==> point_views((#[trigger] series@[d])@) == reader_points(value_chunks@[d])->Ok_0,
                row@.len() == c,
                forall|d: int|
                    0 <= d < c ==> (#[trigger] row_view(row@)[d]) == first_at(
                        reader_points(value_chunks@[d])->Ok_0,
                        t,
                    ),
            decreases series@.len() - c,
        {
            let v = find_at(&series[c], t);
            let ghost before = row@;
            row.push(v);
            proof {
                assert(point_views(series@[c as int]@) == reader_points(value_chunks@[c as int])->Ok_0);
                assert forall|d: int| 0 <= d < c + 1 implies (#[trigger] row_view(row@)[d]) == first_at(
                    reader_points(value_chunks@[d])->Ok_0,
                    t,
                ) by {
                    if d < c {
                        assert(row@[d] == before[d]);
                        assert(row_view(row@)[d] == row_view(before)[d]);
                    }
                }
            }
            c = c + 1;
        }
        proof {
            assert(row_view(row@) =~= Seq::new(
                value_chunks@.len(),
                |d: int| first_at(reader_points(value_chunks@[d])->Ok_0, t),
            ));
        }
        rows.push((t, row));
        a = a + 1;
    }
    Ok(rows)
}

} // verus!
