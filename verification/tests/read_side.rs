use tsfile::common::enums::{CompressionType, TSDataType, TSEncoding};
use tsfile::file::header::ChunkHeader;
use tsfile::read::api::TsFileReaderBuilder;
use tsfile::read::common::{Chunk, Path, TimeRange, TimeSeries};
use tsfile::read::controller::{merge_time_ranges, ControllerBuilder};
use tsfile::read::filter::{compare_i64, compare_range_i64, OperatorType};
use tsfile::read::query::{DeviceTaskIterator, QueryExecutorBuilder, TableQueryOrdering};
use tsfile::read::reader::block_reader::EmptyTsBlockReader;
use tsfile::read::reader::chunk_reader::ChunkReader;
use tsfile::read::reader::page_reader::PageReader;
use tsfile::read::result_set::QueryExpression;

#[test]
fn time_range_ends() {
    let closed = TimeRange::new(0, 10);
    assert!(closed.contains_time(0));
    assert!(closed.contains_time(10));
    assert!(!closed.contains_time(11));
    let open = TimeRange::with_bounds(0, 10, false, false);
    assert!(!open.contains_time(0));
    assert!(!open.contains_time(10));
    assert!(open.contains_time(5));
    assert!(closed.contains_range(TimeRange::new(2, 8)));
    assert!(!open.contains_range(TimeRange::new(0, 8)));
}

#[test]
fn intersection_is_symmetric() {
    let a = TimeRange::new(0, 5);
    let b = TimeRange::new(5, 9);
    let c = TimeRange::new(6, 9);
    assert!(a.intersects(b) && b.intersects(a));
    assert!(!a.intersects(c) && !c.intersects(a));
    let wide = TimeRange::new(-100, 100);
    assert!(wide.intersects(a) && a.intersects(wide));
}

#[test]
fn open_ranges_with_equal_ends_do_not_intersect_by_ends() {
    let a = TimeRange::with_bounds(0, 10, false, false);
    assert!(!a.intersects(a));
}

#[test]
fn merge_joins_touching_and_keeps_gaps() {
    let merged = merge_time_ranges(vec![
        TimeRange::new(1, 3),
        TimeRange::new(4, 6),
        TimeRange::new(5, 9),
        TimeRange::new(20, 30),
    ]);
    assert_eq!(merged, vec![TimeRange::new(1, 9), TimeRange::new(20, 30)]);
    assert!(merge_time_ranges(vec![]).is_empty());
}

#[test]
fn merge_closes_ends_only_where_both_are_closed() {
    let merged = merge_time_ranges(vec![
        TimeRange::with_bounds(0, 5, true, false),
        TimeRange::with_bounds(3, 7, true, true),
    ]);
    assert_eq!(merged, vec![TimeRange::with_bounds(0, 7, true, false)]);
}

#[test]
fn merge_at_the_top_of_the_time_line() {
    let merged = merge_time_ranges(vec![
        TimeRange::with_bounds(0, i64::MAX, true, false),
        TimeRange::with_bounds(i64::MAX, i64::MAX, false, true),
    ]);
    assert_eq!(merged.len(), 1);
    assert_eq!(merged[0].max, i64::MAX);
}

#[test]
fn comparisons_on_times() {
    assert!(compare_i64(3, OperatorType::Gt, 2));
    assert!(!compare_i64(2, OperatorType::Gt, 2));
    assert!(compare_i64(2, OperatorType::GtEq, 2));
    assert!(compare_i64(1, OperatorType::Lt, 2));
    assert!(compare_i64(2, OperatorType::LtEq, 2));
    assert!(compare_i64(2, OperatorType::Eq, 2));
    assert!(compare_i64(1, OperatorType::NotEq, 2));
}

#[test]
fn range_test_matches_some_value() {
    assert!(compare_range_i64(0, 10, OperatorType::Eq, 5));
    assert!(!compare_range_i64(0, 10, OperatorType::Eq, 11));
    assert!(!compare_range_i64(4, 4, OperatorType::NotEq, 4));
    assert!(compare_range_i64(4, 5, OperatorType::NotEq, 4));
    assert!(compare_range_i64(0, 10, OperatorType::Gt, 9));
    assert!(!compare_range_i64(0, 10, OperatorType::Gt, 10));
    assert!(compare_range_i64(0, 10, OperatorType::Lt, 1));
    assert!(!compare_range_i64(0, 10, OperatorType::Lt, 0));
}

#[test]
fn paths_and_series() {
    let p = Path::new("root.d1".to_string(), "s1".to_string());
    assert_eq!(p.full_path(), "root.d1.s1");
    let list = TimeSeries::path_list("d".to_string(), &["a".to_string(), "b".to_string()]);
    assert_eq!(list.len(), 2);
    assert_eq!(list[1], TimeSeries::new("d".to_string(), "b".to_string()));
}

#[test]
fn device_tasks_in_device_order() {
    let devices = vec!["d1".to_string(), "d2".to_string()];
    let columns = vec!["c".to_string()];
    let mut it = DeviceTaskIterator::new(&devices, &columns);
    let first = it.next().unwrap();
    assert_eq!(first.device_id, "d1");
    assert_eq!(first.column_names, columns);
    assert_eq!(it.next().unwrap().device_id, "d2");
    assert!(it.next().is_none());
    assert_ne!(TableQueryOrdering::Device, TableQueryOrdering::Time);
}

#[test]
fn query_expression_and_chunks() {
    let q = QueryExpression::new("d".to_string(), vec!["s".to_string()])
        .with_time_range(TimeRange::new(1, 2));
    assert_eq!(q.time_range, Some(TimeRange::new(1, 2)));
    let header = ChunkHeader::new(
        "s".to_string(),
        0,
        TSDataType::Int64,
        CompressionType::Uncompressed,
        TSEncoding::Plain,
        0,
    );
    let chunk = Chunk::new(header.clone(), vec![1]);
    assert!(chunk.statistics.is_none());
    assert!(chunk.delete_interval_list.is_empty());
    let _ = ChunkReader::new(header, vec![1, 2]);
    let _ = PageReader::new(TSDataType::Int64, TSEncoding::Plain, vec![]);
    assert!(!EmptyTsBlockReader.has_next());
    let _ = TsFileReaderBuilder::new("a.tsfile");
    let _ = ControllerBuilder::new("a.tsfile");
    let _ = QueryExecutorBuilder::new("a.tsfile");
}
