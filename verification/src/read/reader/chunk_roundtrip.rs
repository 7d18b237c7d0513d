//! What the pages of a chunk writer read back as.

use vstd::prelude::*;

use crate::common::enums::{CompressionType, TSDataType, TSEncoding};
use crate::encoding::decoder::{column_supported, int64_views};
use crate::encoding::encoder::{accepts, kind_for, longs, EncoderKind, ValueView};
use crate::encoding::ts2diff::ts2diff_bytes;
use crate::error::TsFileResult;
use crate::file::header::chunk_type_for;
use crate::file::meta_marker::{CHUNK_HEADER, ONLY_ONE_PAGE_CHUNK_HEADER};
use crate::file::statistics::{initial_stats, stats_fit, StatisticsView};
use crate::read::reader::chunk_reader::{
    chunk_points, has_page_statistics, lemma_chunk_page_roundtrip, page_fits, stored_page, ReadFailure,
};
use crate::read::reader::page_reader::{column_value_of, zip_points};
use crate::write::chunk::chunk_writer::{
    after_write, empty_chunk, ChunkWriter, flushed, lemma_stored_pages_push, stored_page_bytes, stored_pages,
    with_point, write_succeeds, ChunkState, WrittenPage,
};
use crate::write::chunk::page_writer::page_bytes;

verus! {

/// The points of the finished pages, one page after the other.
pub open spec fn list_points(list: Seq<WrittenPage>) -> Seq<(i64, ValueView)>
    decreases list.len(),
{
    if list.len() == 0 {
        Seq::empty()
    } else {
        zip_points(longs(list[0].times), list[0].values) + list_points(list.drop_first())
    }
}

/// The points that `s` holds: those of the finished pages, then those of the page being
/// written.
pub open spec fn written_points(s: ChunkState) -> Seq<(i64, ValueView)> {
    list_points(s.page_list) + zip_points(longs(s.times), s.values)
}

/// The state after writing the points `(ts[i], vs[i])` into `s`, in order.
pub open spec fn written_all(
    s: ChunkState,
    ts: Seq<i64>,
    vs: Seq<ValueView>,
    kind: EncoderKind,
    capacity: usize,
    threshold: usize,
    compression: CompressionType,
) -> ChunkState
    decreases ts.len(),
{
    if ts.len() == 0 || vs.len() == 0 {
        s
    } else {
        after_write(
            written_all(s, ts.drop_last(), vs.drop_last(), kind, capacity, threshold, compression),
            ts.last(),
            vs.last(),
            kind,
            capacity,
            threshold,
            compression,
        )
    }
}

/// Whether `times` and `values` are columns of a page of `data_type` in `encoding`: one
/// value per time, each time a 64-bit integer, each value one that the column reads.
pub open spec fn columns_ok(
    data_type: TSDataType,
    encoding: TSEncoding,
    times: Seq<ValueView>,
    values: Seq<ValueView>,
) -> bool {
    &&& times.len() == values.len()
    &&& forall|i: int| 0 <= i < times.len() ==> #[trigger] times[i] is Int64
    &&& forall|i: int| 0 <= i < values.len() ==> column_value_of(data_type, encoding, #[trigger] values[i])
}

/// Whether `st` summarises `n` points of `data_type` and reads back as itself.
pub open spec fn stats_ok(data_type: TSDataType, st: StatisticsView, n: nat) -> bool {
    &&& st.data_type == data_type
    &&& stats_fit(st)
    &&& st.count == n
}

/// Whether `p` is a finished page of `data_type` in `encoding` with at least one point.
pub open spec fn page_ok(data_type: TSDataType, encoding: TSEncoding, p: WrittenPage) -> bool {
    &&& columns_ok(data_type, encoding, p.times, p.values)
    &&& p.values.len() > 0
    &&& stats_ok(data_type, p.stats, p.values.len())
}

/// Whether `p` fits the sizes that its page header and time column record: its bytes in
/// 32 unsigned bits and its time column in 31.
pub open spec fn page_in_limits(kind: EncoderKind, p: WrittenPage) -> bool {
    &&& page_bytes(p.times, kind, p.values).len() <= u32::MAX
    &&& ts2diff_bytes(longs(p.times)).len() <= i32::MAX
}

/// Whether `s` is what successful writes leave in a chunk of `data_type` in `encoding`:
/// finished pages stored as their list says, each with its points and statistics, and a
/// page being written whose count and statistics match its points.
pub open spec fn chunk_ok(data_type: TSDataType, encoding: TSEncoding, s: ChunkState) -> bool {
    &&& column_supported(data_type, encoding)
    &&& s.num_pages == s.page_list.len()
    &&& s.pages == stored_pages(s.page_list, kind_for(data_type, encoding), s.page_list.len() > 1)
    &&& forall|i: int| 0 <= i < s.page_list.len() ==> page_ok(data_type, encoding, #[trigger] s.page_list[i])
    &&& s.page_list.len() <= list_points(s.page_list).len()
    &&& columns_ok(data_type, encoding, s.times, s.values)
    &&& s.points == s.values.len()
    &&& stats_ok(data_type, s.page_stats, s.values.len())
    &&& s.points == 0 ==> s.page_stats == initial_stats(data_type)
}

/// Adding a page adds its points after those of the pages before it.
proof fn lemma_list_points_push(list: Seq<WrittenPage>, p: WrittenPage)
    ensures
        list_points(list.push(p)) == list_points(list) + zip_points(longs(p.times), p.values),
    decreases list.len(),
{
    if list.len() == 0 {
        assert(list.push(p).drop_first() =~= Seq::<WrittenPage>::empty());
        assert(list_points(list.push(p).drop_first()) == Seq::<(i64, ValueView)>::empty());
        assert(list_points(list.push(p)) =~= list_points(list) + zip_points(longs(p.times), p.values));
    } else {
        assert(list.push(p).drop_first() =~= list.drop_first().push(p));
        lemma_list_points_push(list.drop_first(), p);
        assert(list_points(list.push(p)) =~= list_points(list) + zip_points(longs(p.times), p.values));
    }
}

/// An empty chunk is one that successful writes leave, holding no point.
pub proof fn lemma_empty_chunk_ok(data_type: TSDataType, encoding: TSEncoding)
    requires
        column_supported(data_type, encoding),
    ensures
        chunk_ok(data_type, encoding, empty_chunk(data_type)),
        written_points(empty_chunk(data_type)) == Seq::<(i64, ValueView)>::empty(),
{
    let s = empty_chunk(data_type);
    assert(stored_pages(s.page_list, kind_for(data_type, encoding), false) == Seq::<u8>::empty());
    assert(zip_points(longs(s.times), s.values) =~= Seq::<(i64, ValueView)>::empty());
    assert(written_points(s) =~= Seq::<(i64, ValueView)>::empty());
}

/// Finishing the page of a well-written chunk without compression keeps it well written
/// and keeps its points.
proof fn lemma_flush_keeps(data_type: TSDataType, encoding: TSEncoding, s: ChunkState)
    requires
        chunk_ok(data_type, encoding, s),
        s.num_pages < u32::MAX,
    ensures
        ({
            let f = flushed(s, kind_for(data_type, encoding), CompressionType::Uncompressed);
            &&& chunk_ok(data_type, encoding, f)
            &&& written_points(f) == written_points(s)
            &&& f.points == 0
        }),
{
    let kind = kind_for(data_type, encoding);
    let f = flushed(s, kind, CompressionType::Uncompressed);
    if s.points > 0 {
        let p = WrittenPage { times: s.times, values: s.values, stats: s.page_stats };
        let list = s.page_list.push(p);
        lemma_list_points_push(s.page_list, p);
        assert(f.page_list == list);
        assert forall|i: int| 0 <= i < list.len() implies page_ok(data_type, encoding, #[trigger] list[i]) by {
            if i < s.page_list.len() {
                assert(list[i] == s.page_list[i]);
            }
        }
        assert(zip_points(longs(s.times), s.values).len() == s.values.len());
        assert(zip_points(longs(f.times), f.values) =~= Seq::<(i64, ValueView)>::empty());
        assert(written_points(f) =~= written_points(s));
    }
}

/// Writing a value that the column reads into a well-written chunk, without compression,
/// succeeds, keeps the chunk well written, and adds the point after those it held.
proof fn lemma_write_keeps(
    data_type: TSDataType,
    encoding: TSEncoding,
    s: ChunkState,
    t: i64,
    v: ValueView,
    capacity: usize,
    threshold: usize,
)
    requires
        chunk_ok(data_type, encoding, s),
        column_value_of(data_type, encoding, v),
        written_points(s).len() + 1 < u32::MAX,
    ensures
        ({
            let kind = kind_for(data_type, encoding);
            let a = after_write(s, t, v, kind, capacity, threshold, CompressionType::Uncompressed);
            &&& write_succeeds(s, t, v, kind, capacity, threshold, CompressionType::Uncompressed)
            &&& chunk_ok(data_type, encoding, a)
            &&& written_points(a) == written_points(s).push((t, v))
        }),
{
    let kind = kind_for(data_type, encoding);
    assert(accepts(kind, v));
    let m = with_point(s, t, v);
    let cur = zip_points(longs(s.times), s.values);
    assert(cur.len() == s.values.len());
    assert(written_points(s).len() == list_points(s.page_list).len() + s.values.len());
    assert(zip_points(longs(m.times), m.values) =~= cur.push((t, v)));
    assert(written_points(m) =~= written_points(s).push((t, v)));
    assert(chunk_ok(data_type, encoding, m));
    lemma_flush_keeps(data_type, encoding, m);
}

/// Finished pages stored one after the other, their headers carrying statistics exactly
/// when `multi`, read back as their points.
proof fn lemma_stored_pages_read(
    data_type: TSDataType,
    encoding: TSEncoding,
    list: Seq<WrittenPage>,
    multi: bool,
)
    requires
        column_supported(data_type, encoding),
        forall|i: int| 0 <= i < list.len() ==> page_ok(data_type, encoding, #[trigger] list[i]),
        forall|i: int| 0 <= i < list.len() ==> page_in_limits(kind_for(data_type, encoding), #[trigger] list[i]),
    ensures
        chunk_points(
            data_type,
            encoding,
            CompressionType::Uncompressed,
            multi,
            stored_pages(list, kind_for(data_type, encoding), multi),
        ) == Ok::<Seq<(i64, ValueView)>, ReadFailure>(list_points(list)),
    decreases list.len(),
{
    let kind = kind_for(data_type, encoding);
    if list.len() > 0 {
        let p = list[0];
        assert(page_ok(data_type, encoding, p));
        assert(page_in_limits(kind, p));
        let ts = longs(p.times);
        assert(int64_views(ts) =~= p.times);
        let stats: Option<StatisticsView> = if multi { Some(p.stats) } else { None };
        let rest = stored_pages(list.drop_first(), kind, multi);
        assert(stored_page_bytes(p, kind, multi) == stored_page(data_type, encoding, ts, p.values, stats));
        assert(page_fits(data_type, encoding, ts, p.values));
        assert forall|i: int| 0 <= i < list.drop_first().len() implies page_ok(
            data_type,
            encoding,
            #[trigger] list.drop_first()[i],
        ) && page_in_limits(kind, list.drop_first()[i]) by {
            assert(list.drop_first()[i] == list[i + 1]);
        }
        lemma_stored_pages_read(data_type, encoding, list.drop_first(), multi);
        lemma_chunk_page_roundtrip(data_type, encoding, multi, ts, p.values, stats, rest);
    }
}

/// The marker of a chunk says that its page headers carry statistics exactly when it
/// has several pages.
proof fn lemma_marker_statistics(num_pages: u32)
    ensures
        has_page_statistics(chunk_type_for(num_pages, 0)) == (num_pages > 1),
{
    assert(chunk_type_for(2, 0) == CHUNK_HEADER) by (bit_vector);
    assert(has_page_statistics(CHUNK_HEADER)) by (bit_vector);
    assert(chunk_type_for(1, 0) == ONLY_ONE_PAGE_CHUNK_HEADER) by (bit_vector);
    assert(!has_page_statistics(ONLY_ONE_PAGE_CHUNK_HEADER)) by (bit_vector);
}

/// A well-written chunk whose pages are all finished reads back as the points it holds,
/// under the marker that its number of pages gives.
proof fn lemma_finished_chunk_reads(data_type: TSDataType, encoding: TSEncoding, f: ChunkState)
    requires
        chunk_ok(data_type, encoding, f),
        f.points == 0,
        forall|i: int| 0 <= i < f.page_list.len() ==> page_in_limits(kind_for(data_type, encoding), #[trigger] f.page_list[i]),
    ensures
        chunk_points(
            data_type,
            encoding,
            CompressionType::Uncompressed,
            has_page_statistics(chunk_type_for(f.num_pages, 0)),
            f.pages,
        ) == Ok::<Seq<(i64, ValueView)>, ReadFailure>(written_points(f)),
{
    lemma_marker_statistics(f.num_pages);
    lemma_stored_pages_read(data_type, encoding, f.page_list, f.page_list.len() > 1);
    assert(zip_points(longs(f.times), f.values) =~= Seq::<(i64, ValueView)>::empty());
    assert(written_points(f) =~= list_points(f.page_list));
}

/// Successful writes from an empty chunk leave a well-written chunk that holds exactly
/// the points written.
proof fn lemma_written_all_ok(
    data_type: TSDataType,
    encoding: TSEncoding,
    ts: Seq<i64>,
    vs: Seq<ValueView>,
    capacity: usize,
    threshold: usize,
)
    requires
        column_supported(data_type, encoding),
        ts.len() == vs.len(),
        ts.len() + 1 < u32::MAX,
        forall|i: int| 0 <= i < vs.len() ==> column_value_of(data_type, encoding, #[trigger] vs[i]),
    ensures
        ({
            let s = written_all(
                empty_chunk(data_type),
                ts,
                vs,
                kind_for(data_type, encoding),
                capacity,
                threshold,
                CompressionType::Uncompressed,
            );
            &&& chunk_ok(data_type, encoding, s)
            &&& written_points(s) == zip_points(ts, vs)
        }),
    decreases ts.len(),
{
    let kind = kind_for(data_type, encoding);
    let comp = CompressionType::Uncompressed;
    if ts.len() == 0 {
        lemma_empty_chunk_ok(data_type, encoding);
        assert(zip_points(ts, vs) =~= Seq::<(i64, ValueView)>::empty());
    } else {
        let ts0 = ts.drop_last();
        let vs0 = vs.drop_last();
        lemma_prefix_reads(data_type, encoding, vs, vs0);
        lemma_written_all_ok(data_type, encoding, ts0, vs0, capacity, threshold);
        let s0 = written_all(empty_chunk(data_type), ts0, vs0, kind, capacity, threshold, comp);
        lemma_write_keeps(data_type, encoding, s0, ts.last(), vs.last(), capacity, threshold);
        lemma_zip_push(ts, vs);
    }
}

/// The values of a prefix are values of the whole.
proof fn lemma_prefix_reads(data_type: TSDataType, encoding: TSEncoding, vs: Seq<ValueView>, prefix: Seq<ValueView>)
    requires
        prefix.len() <= vs.len(),
        forall|i: int| 0 <= i < prefix.len() ==> prefix[i] == vs[i],
        forall|i: int| 0 <= i < vs.len() ==> column_value_of(data_type, encoding, #[trigger] vs[i]),
    ensures
        forall|i: int| 0 <= i < prefix.len() ==> column_value_of(data_type, encoding, #[trigger] prefix[i]),
        prefix.len() < vs.len() ==> column_value_of(data_type, encoding, vs[prefix.len() as int]),
{
    assert forall|i: int| 0 <= i < prefix.len() implies column_value_of(data_type, encoding, #[trigger] prefix[i]) by {
        assert(prefix[i] == vs[i]);
    }
    if prefix.len() < vs.len() {
        assert(column_value_of(data_type, encoding, vs[prefix.len() as int]));
    }
}

/// The points of columns with one more entry end with that entry.
proof fn lemma_zip_push(ts: Seq<i64>, vs: Seq<ValueView>)
    requires
        ts.len() == vs.len(),
        ts.len() > 0,
    ensures
        zip_points(ts, vs) == zip_points(ts.drop_last(), vs.drop_last()).push((ts.last(), vs.last())),
{
    assert(zip_points(ts, vs) =~= zip_points(ts.drop_last(), vs.drop_last()).push((ts.last(), vs.last())));
}

/// Each of the writes from an empty chunk, of values that the column reads, succeeds.
proof fn lemma_written_all_succeeds(
    data_type: TSDataType,
    encoding: TSEncoding,
    ts: Seq<i64>,
    vs: Seq<ValueView>,
    capacity: usize,
    threshold: usize,
)
    requires
        column_supported(data_type, encoding),
        ts.len() == vs.len(),
        ts.len() + 1 < u32::MAX,
        forall|i: int| 0 <= i < vs.len() ==> column_value_of(data_type, encoding, #[trigger] vs[i]),
    ensures
        forall|k: int|
            0 <= k < ts.len() ==> write_succeeds(
                #[trigger] written_all(
                    empty_chunk(data_type),
                    ts.take(k),
                    vs.take(k),
                    kind_for(data_type, encoding),
                    capacity,
                    threshold,
                    CompressionType::Uncompressed,
                ),
                ts[k],
                vs[k],
                kind_for(data_type, encoding),
                capacity,
                threshold,
                CompressionType::Uncompressed,
            ),
{
    let kind = kind_for(data_type, encoding);
    let comp = CompressionType::Uncompressed;
    assert forall|k: int| 0 <= k < ts.len() implies write_succeeds(
        #[trigger] written_all(empty_chunk(data_type), ts.take(k), vs.take(k), kind, capacity, threshold, comp),
        ts[k],
        vs[k],
        kind,
        capacity,
        threshold,
        comp,
    ) by {
        let tk = ts.take(k);
        let vk = vs.take(k);
        lemma_prefix_reads(data_type, encoding, vs, vk);
        lemma_written_all_ok(data_type, encoding, tk, vk, capacity, threshold);
        let sk = written_all(empty_chunk(data_type), tk, vk, kind, capacity, threshold, comp);
        assert(written_points(sk).len() == k);
        lemma_write_keeps(data_type, encoding, sk, ts[k], vs[k], capacity, threshold);
    }
}

/// The round trip of a chunk: points written one by one into an empty chunk (as a new
/// chunk writer holds, and as `lemma_write_to_leaves_empty_chunk` shows finishing a chunk
/// leaves it), each time with a value of the
/// type and encoding that the chunk's column reads, are all taken; once the chunk is
/// finished without compression, its pages, read under the marker that the number of
/// pages gives (statistics in every page header once there are several pages), are
/// exactly those points, each time with its value, in order. This holds for any page
/// capacity and size threshold, so for any number of pages, as long as each page fits
/// the sizes that its header and time column record.
pub proof fn lemma_written_chunk_reads_back(
    data_type: TSDataType,
    encoding: TSEncoding,
    ts: Seq<i64>,
    vs: Seq<ValueView>,
    capacity: usize,
    threshold: usize,
)
    requires
        column_supported(data_type, encoding),
        ts.len() == vs.len(),
        ts.len() + 1 < u32::MAX,
        forall|i: int| 0 <= i < vs.len() ==> column_value_of(data_type, encoding, #[trigger] vs[i]),
        ({
            let kind = kind_for(data_type, encoding);
            let comp = CompressionType::Uncompressed;
            let f = flushed(written_all(empty_chunk(data_type), ts, vs, kind, capacity, threshold, comp), kind, comp);
            forall|i: int| 0 <= i < f.page_list.len() ==> page_in_limits(kind, #[trigger] f.page_list[i])
        }),
    ensures
        forall|k: int|
            0 <= k < ts.len() ==> write_succeeds(
                #[trigger] written_all(
                    empty_chunk(data_type),
                    ts.take(k),
                    vs.take(k),
                    kind_for(data_type, encoding),
                    capacity,
                    threshold,
                    CompressionType::Uncompressed,
                ),
                ts[k],
                vs[k],
                kind_for(data_type, encoding),
                capacity,
                threshold,
                CompressionType::Uncompressed,
            ),
        ({
            let kind = kind_for(data_type, encoding);
            let comp = CompressionType::Uncompressed;
            let f = flushed(written_all(empty_chunk(data_type), ts, vs, kind, capacity, threshold, comp), kind, comp);
            chunk_points(data_type, encoding, comp, has_page_statistics(chunk_type_for(f.num_pages, 0)), f.pages)
                == Ok::<Seq<(i64, ValueView)>, ReadFailure>(zip_points(ts, vs))
        }),
{
    let kind = kind_for(data_type, encoding);
    let comp = CompressionType::Uncompressed;
    lemma_written_all_ok(data_type, encoding, ts, vs, capacity, threshold);
    lemma_written_all_succeeds(data_type, encoding, ts, vs, capacity, threshold);
    let s = written_all(empty_chunk(data_type), ts, vs, kind, capacity, threshold, comp);
    assert(s.page_list.len() <= written_points(s).len());
    lemma_flush_keeps(data_type, encoding, s);
    lemma_finished_chunk_reads(data_type, encoding, flushed(s, kind, comp));
}

/// Finishing, without compression, a chunk that successful writes filled from an empty
/// chunk succeeds and leaves an empty chunk again, so that the round trip above holds for
/// every chunk that a writer produces, one after the other.
pub proof fn lemma_write_to_leaves_empty_chunk(
    a: ChunkWriter,
    b: ChunkWriter,
    before: Seq<u8>,
    after: Seq<u8>,
    r: TsFileResult<(usize, usize)>,
    encoding: TSEncoding,
    ts: Seq<i64>,
    vs: Seq<ValueView>,
)
    requires
        column_supported(a.config().1, encoding),
        a.value_kind() == kind_for(a.config().1, encoding),
        a.applied_compression() == CompressionType::Uncompressed,
        ts.len() == vs.len(),
        ts.len() + 1 < u32::MAX,
        forall|i: int| 0 <= i < vs.len() ==> column_value_of(a.config().1, encoding, #[trigger] vs[i]),
        a.state() == written_all(
            empty_chunk(a.config().1),
            ts,
            vs,
            a.value_kind(),
            a.page_capacity(),
            a.threshold(),
            CompressionType::Uncompressed,
        ),
        ChunkWriter::wrote_chunk(a, b, before, after, r),
    ensures
        r is Ok,
        b.state() == empty_chunk(a.config().1),
{
    let dt = a.config().1;
    let comp = CompressionType::Uncompressed;
    lemma_written_all_ok(dt, encoding, ts, vs, a.page_capacity(), a.threshold());
    let s = a.state();
    assert(s.page_list.len() <= written_points(s).len());
    lemma_flush_keeps(dt, encoding, s);
    let f = flushed(s, a.value_kind(), comp);
    assert(f.values.len() == 0);
    assert(f.times =~= Seq::<ValueView>::empty());
    assert(f.values =~= Seq::<ValueView>::empty());
    assert(b.state() =~= empty_chunk(dt));
}

} // verus!
