use tsfile::common::enums::{CompressionType, TSDataType, TSEncoding};
use tsfile::encoding::encoder::EncodableValue;
use tsfile::error::TsFileError;
use tsfile::file::header::{ChunkHeader, PageHeader};
use tsfile::file::table_schema::TableSchema;
use tsfile::read::block::{measurement_data_types, tsblock_from_points, Column, ColumnValue, TsBlock};
use tsfile::read::common::TimeRange;
use tsfile::read::dataset::{record_from_block, rows_from_series_data, QueryDataSet};
use tsfile::read::executor::{keep_in_partitions, partition_time_ranges, series_points, table_column_types};
use tsfile::read::filter::{compare_bool, compare_str, OperatorType};
use tsfile::read::reader::chunk_reader::ChunkReader;
use tsfile::read::tsfile_sequence_reader::{read_file_metadata_region, TsFileSequenceReader};
use tsfile::utils::byte_reader::ByteReader;
use tsfile::utils::read_write_for_encoding::ReadWriteForEncodingUtils;
use tsfile::utils::read_write_io_utils::Binary;
use tsfile::write::chunk::chunk_writer::ChunkWriter;
use tsfile::write::chunk::page_writer::PageWriter;
use tsfile::write::schema::MeasurementSchema;

fn as_i64(v: &EncodableValue) -> i64 {
    match v {
        EncodableValue::Int64(x) => *x,
        other => panic!("unexpected {:?}", other),
    }
}

fn written_chunk(points: i64) -> (Vec<u8>, usize) {
    let mut c = ChunkWriter::new(
        "s1".to_string(),
        TSDataType::Int64,
        TSEncoding::Plain,
        CompressionType::Uncompressed,
    );
    for t in 0..points {
        c.write_i64(t, 3 * t - 7).unwrap();
    }
    let mut out = Vec::new();
    let (header_size, _) = c.write_to(&mut out).unwrap();
    (out, header_size)
}

#[test]
fn multi_page_chunk_written_reads_back() {
    let (out, header_size) = written_chunk(20000);
    assert_eq!(out[0], 1);
    let mut r = ByteReader::new(out[1..header_size].to_vec());
    let header = ChunkHeader::deserialize(&mut r, out[0]).unwrap();
    let points = ChunkReader::new(header, out[header_size..].to_vec()).read_all().unwrap();
    assert_eq!(points.len(), 20000);
    for (i, (t, v)) in points.iter().enumerate() {
        let i = i as i64;
        assert_eq!(*t, i);
        assert_eq!(as_i64(v), 3 * i - 7);
    }
}

#[test]
fn first_page_of_multi_page_chunk_has_statistics() {
    let (out, header_size) = written_chunk(20000);
    let mut r = ByteReader::new(out[header_size..].to_vec());
    let first = PageHeader::deserialize(&mut r, TSDataType::Int64, true).unwrap();
    let stats = first.statistics.expect("statistics on the first page");
    assert!(stats.count > 0);
    assert_eq!(stats.start_time, 0);
    assert_eq!(stats.end_time, stats.count as i64 - 1);
}

#[test]
fn single_page_chunk_has_one_page_marker() {
    let (out, header_size) = written_chunk(10);
    assert_eq!(out[0], 5);
    let mut r = ByteReader::new(out[1..header_size].to_vec());
    let header = ChunkHeader::deserialize(&mut r, out[0]).unwrap();
    let points = ChunkReader::new(header, out[header_size..].to_vec()).read_all().unwrap();
    assert_eq!(points.len(), 10);
}

#[test]
fn has_data_follows_writes() {
    let mut c = ChunkWriter::new(
        "s".to_string(),
        TSDataType::Int32,
        TSEncoding::Plain,
        CompressionType::Uncompressed,
    );
    assert!(!c.has_data());
    c.write_i32(1, 5).unwrap();
    assert!(c.has_data());
    let mut out = Vec::new();
    c.write_to(&mut out).unwrap();
    assert!(!c.has_data());
    c.write_i32(2, 6).unwrap();
    assert!(c.has_data());
}

#[test]
fn page_is_full_at_capacity() {
    let p = PageWriter::new(TSDataType::Int64, TSEncoding::Plain, 0);
    assert!(p.is_full());
    let mut p = PageWriter::new(TSDataType::Int64, TSEncoding::Plain, 5);
    for t in 0..5i64 {
        assert!(!p.is_full());
        p.write_i64(t, t).unwrap();
        assert_eq!(p.point_count(), (t + 1) as usize);
    }
    assert!(p.is_full());
    assert!(p.flush().unwrap().is_some());
    assert!(!p.is_full());
}

#[test]
fn flush_to_page_bytes_matches_flush() {
    let mut a = PageWriter::new(TSDataType::Int64, TSEncoding::Ts2diff, 100);
    let mut b = PageWriter::new(TSDataType::Int64, TSEncoding::Ts2diff, 100);
    for t in 0..20i64 {
        a.write_i64(t * 3, t).unwrap();
        b.write_i64(t * 3, t).unwrap();
    }
    let (data, stats) = a.flush_to_page_bytes().unwrap();
    let page = b.flush().unwrap().unwrap();
    assert_eq!(data, page.data);
    assert_eq!(stats.count, 20);
    assert_eq!(a.point_count(), 0);
    let (empty, _) = a.flush_to_page_bytes().unwrap();
    assert_eq!(empty, vec![0, 0, 0, 0]);
}

#[test]
fn zigzag_examples() {
    assert_eq!(ReadWriteForEncodingUtils::zigzag_decode(199), -100);
    assert_eq!(ReadWriteForEncodingUtils::zigzag_decode(u32::MAX), i32::MIN);
    assert_eq!(ReadWriteForEncodingUtils::zigzag_encode(-100), 199);
    assert_eq!(ReadWriteForEncodingUtils::zigzag_encode(i32::MAX), u32::MAX - 1);
    for v in [0, 1, -1, 12345, i32::MIN, i32::MAX] {
        assert_eq!(ReadWriteForEncodingUtils::zigzag_decode(ReadWriteForEncodingUtils::zigzag_encode(v)), v);
    }
}

fn pt(t: i64, v: i64) -> (i64, EncodableValue) {
    (t, EncodableValue::Int64(v))
}

fn ints(row: &[Option<EncodableValue>]) -> Vec<Option<i64>> {
    row.iter().map(|v| v.as_ref().map(as_i64)).collect()
}

#[test]
fn rows_take_the_last_point_at_each_time() {
    let series = vec![vec![pt(3, 30), pt(1, 10), pt(3, 31)], vec![pt(2, 200)]];
    let rows = rows_from_series_data(&series, None);
    let got: Vec<(i64, Vec<Option<i64>>)> = rows.iter().map(|(t, r)| (*t, ints(r))).collect();
    assert_eq!(
        got,
        vec![
            (1, vec![Some(10), None]),
            (2, vec![None, Some(200)]),
            (3, vec![Some(31), None]),
        ]
    );
}

#[test]
fn rows_at_selected_times() {
    let series = vec![vec![pt(1, 10), pt(2, 20)]];
    let selected = [5i64, 2, 2, -1];
    let rows = rows_from_series_data(&series, Some(&selected));
    let got: Vec<(i64, Vec<Option<i64>>)> = rows.iter().map(|(t, r)| (*t, ints(r))).collect();
    assert_eq!(got, vec![(-1, vec![None]), (2, vec![Some(20)]), (5, vec![None])]);
}

#[test]
fn partitions_keep_points_in_their_ranges() {
    let points = vec![pt(1, 1), pt(5, 5), pt(10, 10), pt(20, 20)];
    let ranges = vec![TimeRange::new(0, 5), TimeRange::with_bounds(10, 15, false, true)];
    let kept = keep_in_partitions(&points, &ranges);
    let got: Vec<i64> = kept.iter().map(|(t, _)| *t).collect();
    assert_eq!(got, vec![1, 5]);
    assert!(keep_in_partitions(&points, &Vec::new()).is_empty());
}

#[test]
fn partition_ranges_merge_chunks_in_the_partition() {
    let chunks = vec![(100u64, 50i64, 60i64), (10, 1, 5), (20, 4, 9), (300, 0, 1000), (30, 20, 25)];
    let ranges = partition_time_ranges(&chunks, 10, 200);
    let got: Vec<(i64, i64)> = ranges.iter().map(|r| (r.min, r.max)).collect();
    assert_eq!(got, vec![(1, 9), (20, 25), (50, 60)]);
    assert!(partition_time_ranges(&chunks, 400, 500).is_empty());
}

#[test]
fn column_serializes_values_and_nulls() {
    let c = Column::new(
        TSDataType::Int32,
        vec![ColumnValue::Int32(-2), ColumnValue::Null, ColumnValue::Boolean(true)],
    );
    assert_eq!(c.position_count(), 3);
    assert!(c.is_null(1));
    assert!(c.is_null(7));
    assert!(!c.is_null(0));
    let mut out = Vec::new();
    let n = c.serialize(&mut out).unwrap();
    assert_eq!(out, vec![1, 0, 0, 0, 3, 0, 0xFF, 0xFF, 0xFF, 0xFE, 1, 0, 1]);
    assert_eq!(n, out.len());
    let b = Column::new(TSDataType::Text, vec![ColumnValue::Binary(Binary::new(vec![7, 8])), ColumnValue::Int64(1)]);
    let mut out = Vec::new();
    b.serialize(&mut out).unwrap();
    assert_eq!(out, vec![5, 0, 0, 0, 2, 0, 0, 0, 0, 2, 7, 8, 0, 0, 0, 0, 0, 0, 0, 0, 1]);
}

#[test]
fn compare_booleans_and_texts() {
    assert!(compare_bool(true, OperatorType::Gt, false));
    assert!(!compare_bool(false, OperatorType::GtEq, true));
    assert!(compare_bool(true, OperatorType::Eq, true));
    assert!(compare_str("abc", OperatorType::Lt, "abd"));
    assert!(compare_str("ab", OperatorType::Lt, "abc"));
    assert!(compare_str("b", OperatorType::Gt, "abc"));
    assert!(compare_str("x", OperatorType::Eq, "x"));
    assert!(!compare_str("x", OperatorType::NotEq, "x"));
    assert!(compare_str("", OperatorType::LtEq, ""));
}

fn schema() -> TableSchema {
    TableSchema::new(
        "t".to_string(),
        vec![
            MeasurementSchema::new("a".to_string(), TSDataType::Int64, TSEncoding::Plain, CompressionType::Uncompressed),
            MeasurementSchema::new("b".to_string(), TSDataType::Boolean, TSEncoding::Plain, CompressionType::Uncompressed),
        ],
    )
}

#[test]
fn table_column_types_follow_the_schema() {
    let names = vec!["b".to_string(), "a".to_string()];
    assert_eq!(
        table_column_types(&schema(), &names).unwrap(),
        vec![TSDataType::Text, TSDataType::Boolean, TSDataType::Int64]
    );
    let missing = vec!["a".to_string(), "zz".to_string(), "yy".to_string()];
    match table_column_types(&schema(), &missing) {
        Err(TsFileError::MeasurementNotFound(name)) => assert_eq!(name, "zz"),
        other => panic!("unexpected {:?}", other),
    }
}

fn file_with_footer(meta: &[u8], size: i32, magic: &[u8]) -> Vec<u8> {
    let mut f = b"TsFile".to_vec();
    f.push(4);
    f.extend([0u8; 5]);
    f.extend_from_slice(meta);
    f.extend(size.to_be_bytes());
    f.extend_from_slice(magic);
    f
}

#[test]
fn footer_locates_metadata() {
    let f = file_with_footer(&[9, 9, 9], 3, b"TsFile");
    assert_eq!(read_file_metadata_region(&f).unwrap(), (12, 3));
    let bad_size = file_with_footer(&[9, 9, 9], 0, b"TsFile");
    assert!(matches!(read_file_metadata_region(&bad_size), Err(TsFileError::InvalidFileFormat(_))));
    let bad_magic = file_with_footer(&[9, 9, 9], 3, b"TsFilf");
    assert!(matches!(read_file_metadata_region(&bad_magic), Err(TsFileError::InvalidMagicString)));
    let too_big = file_with_footer(&[9, 9, 9], 100, b"TsFile");
    assert!(matches!(read_file_metadata_region(&too_big), Err(TsFileError::InvalidFileFormat(_))));
    assert!(matches!(read_file_metadata_region(b"TsFile"), Err(TsFileError::Io(_))));
}

#[test]
fn tsblock_from_points_aligns_first_points() {
    let types = vec![("a".to_string(), TSDataType::Int64), ("b".to_string(), TSDataType::Int64)];
    let names = vec!["b".to_string(), "a".to_string()];
    let points = vec![vec![pt(2, 20), pt(2, 21)], vec![pt(1, 10), pt(3, 30)]];
    let block = tsblock_from_points("d1", &types, &names, &points).unwrap();
    assert_eq!(block.position_count(), 3);
    assert_eq!(block.time_by_index(0), Some(1));
    assert_eq!(block.time_by_index(2), Some(3));
    assert_eq!(block.time_by_index(3), None);
    assert_eq!(block.value_column_count(), 2);
    let b = block.column(0).unwrap();
    assert!(b.is_null(0));
    assert!(matches!(b.get(1), Some(ColumnValue::Int64(20))));
    let a = block.column(1).unwrap();
    assert!(matches!(a.get(2), Some(ColumnValue::Int64(30))));
    let missing = vec!["a".to_string(), "c".to_string()];
    match tsblock_from_points("d1", &types, &missing, &vec![vec![], vec![]]) {
        Err(TsFileError::MeasurementNotFound(name)) => assert_eq!(name, "d1.c"),
        other => panic!("unexpected {:?}", other.is_ok()),
    }
}

#[test]
fn record_from_block_reads_a_row() {
    let device = Column::new(
        TSDataType::String,
        vec![ColumnValue::Binary(Binary::new(b"dev7".to_vec())), ColumnValue::Null],
    );
    let temp = Column::new(TSDataType::Int32, vec![ColumnValue::Int32(5), ColumnValue::Int32(6)]);
    let flag = Column::new(TSDataType::Boolean, vec![ColumnValue::Null, ColumnValue::Int32(1)]);
    let block = TsBlock::new(vec![100, 200], vec![device, temp, flag]);
    let names = vec!["device_id".to_string(), "temp".to_string(), "flag".to_string()];
    let types = vec![TSDataType::String, TSDataType::Int32, TSDataType::Boolean];
    let r = record_from_block(&block, 0, &names, &types, "table1");
    assert_eq!(r.timestamp, 100);
    assert_eq!(r.device_id, "dev7");
    assert_eq!(r.data_points.len(), 1);
    assert_eq!(r.data_points[0].measurement_id, "temp");
    let r = record_from_block(&block, 1, &names, &types, "table1");
    assert_eq!(r.device_id, "table1");
    assert_eq!(r.data_points.len(), 1);
    let plain = vec!["x".to_string()];
    let r = record_from_block(&block, 1, &plain, &[TSDataType::String], "table1");
    assert_eq!(r.device_id, "table1");
    assert!(r.data_points.is_empty());
}

#[test]
fn record_from_block_with_undecodable_device_and_past_the_end() {
    let device = Column::new(TSDataType::String, vec![ColumnValue::Binary(Binary::new(vec![255, 0, 7]))]);
    let block = TsBlock::new(vec![100], vec![device]);
    let names = vec!["device_id".to_string()];
    let r = record_from_block(&block, 0, &names, &[TSDataType::String], "t");
    assert_eq!(r.device_id, "<binary [255, 0, 7]>");
    assert_eq!(r.device_id, format!("<binary {:?}>", vec![255u8, 0, 7]));
    let r = record_from_block(&block, 5, &names, &[TSDataType::String], "t");
    assert_eq!(r.timestamp, 0);
    assert_eq!(r.device_id, "t");
    assert!(r.data_points.is_empty());
}

#[test]
fn column_reads_back() {
    let c = Column::new(
        TSDataType::Text,
        vec![ColumnValue::Binary(Binary::new(vec![1, 2, 3])), ColumnValue::Null, ColumnValue::Binary(Binary::new(vec![]))],
    );
    let mut out = Vec::new();
    c.serialize(&mut out).unwrap();
    out.push(42);
    let mut r = ByteReader::new(out);
    let back = Column::deserialize(&mut r).unwrap();
    assert_eq!(back.data_type(), TSDataType::Text);
    assert_eq!(back.position_count(), 3);
    assert_eq!(back.get_binary(0).unwrap().as_bytes(), &[1, 2, 3]);
    assert!(back.is_null(1));
    assert_eq!(back.null_count(), 1);
    assert_eq!(r.remaining(), 1);
}

#[test]
fn column_read_errors() {
    let mut r = ByteReader::new(vec![1, 0, 0]);
    assert!(matches!(Column::deserialize(&mut r), Err(TsFileError::Io(_))));
    let mut r = ByteReader::new(vec![99, 0, 0, 0, 0]);
    assert!(matches!(Column::deserialize(&mut r), Err(TsFileError::InvalidFileFormat(_))));
    let mut r = ByteReader::new(vec![1, 0xFF, 0xFF, 0xFF, 0xFF]);
    assert!(matches!(Column::deserialize(&mut r), Err(TsFileError::InvalidFileFormat(_))));
    let mut r = ByteReader::new(vec![3, 0, 0, 0, 2, 1, 0, 0, 0, 0, 0]);
    assert!(matches!(Column::deserialize(&mut r), Err(TsFileError::Unsupported(_))));
    let mut r = ByteReader::new(vec![5, 0, 0, 0, 1, 0, 0xFF, 0xFF, 0xFF, 0xFF]);
    assert!(matches!(Column::deserialize(&mut r), Err(TsFileError::ReadError(_))));
    let mut r = ByteReader::new(vec![1, 0, 0, 0, 2, 0, 0, 0, 0, 9]);
    assert!(matches!(Column::deserialize(&mut r), Err(TsFileError::Io(_))));
}

#[test]
fn column_getters() {
    let c = Column::new(TSDataType::Int64, vec![ColumnValue::Int64(4), ColumnValue::Int32(3), ColumnValue::Boolean(true)]);
    assert_eq!(c.get_i64(0), Some(4));
    assert_eq!(c.get_i64(1), None);
    assert_eq!(c.get_i32(1), Some(3));
    assert_eq!(c.get_bool(2), Some(true));
    assert_eq!(c.get_bool(9), None);
    assert_eq!(c.null_count(), 0);
}

#[test]
fn block_reads_back() {
    let a = Column::new(TSDataType::Int32, vec![ColumnValue::Int32(1), ColumnValue::Null]);
    let b = Column::new(TSDataType::Boolean, vec![ColumnValue::Boolean(false), ColumnValue::Boolean(true)]);
    let block = TsBlock::new(vec![-5, 7], vec![a, b]);
    let mut out = Vec::new();
    let n = block.serialize(&mut out).unwrap();
    assert_eq!(n, out.len());
    assert_eq!(&out[0..4], &[0, 0, 0, 2]);
    let mut r = ByteReader::new(out);
    let back = TsBlock::deserialize(&mut r).unwrap();
    assert_eq!(back.times(), &[-5, 7]);
    assert_eq!(back.value_column_count(), 2);
    assert_eq!(back.column(0).unwrap().get_i32(0), Some(1));
    assert!(back.column(0).unwrap().is_null(1));
    assert_eq!(back.column(1).unwrap().get_bool(1), Some(true));
    assert_eq!(r.remaining(), 0);
    let mut bad = ByteReader::new(vec![0xFF, 0xFF, 0xFF, 0xFF]);
    assert!(matches!(TsBlock::deserialize(&mut bad), Err(TsFileError::InvalidFileFormat(_))));
    let mut short = ByteReader::new(vec![0, 0, 0, 1, 0, 0]);
    assert!(matches!(TsBlock::deserialize(&mut short), Err(TsFileError::Io(_))));
}

#[test]
fn series_points_sort_and_filter() {
    let chunks = vec![vec![pt(5, 50), pt(1, 10)], vec![pt(3, 30), pt(1, 11)]];
    let all = series_points(chunks.clone(), None);
    let got: Vec<(i64, i64)> = all.iter().map(|(t, v)| (*t, as_i64(v))).collect();
    assert_eq!(got, vec![(1, 10), (1, 11), (3, 30), (5, 50)]);
    let some = series_points(chunks, Some(TimeRange::new(2, 5)));
    let got: Vec<i64> = some.iter().map(|(t, _)| *t).collect();
    assert_eq!(got, vec![3, 5]);
}

#[test]
fn data_types_name_the_missing_path() {
    let types = vec![("a".to_string(), TSDataType::Int64)];
    assert_eq!(measurement_data_types("d", &types, &["a".to_string()]).unwrap(), vec![TSDataType::Int64]);
    match measurement_data_types("d", &types, &["a".to_string(), "b".to_string()]) {
        Err(TsFileError::MeasurementNotFound(p)) => assert_eq!(p, "d.b"),
        other => panic!("unexpected {:?}", other.is_ok()),
    }
}

#[test]
fn sequence_reader_keeps_metadata_location() {
    let f = file_with_footer(&[9, 9, 9], 3, b"TsFile");
    let mut reader = TsFileSequenceReader::new(f);
    assert_eq!(reader.read_file_metadata().unwrap(), (12, 3));
    assert_eq!(reader.read_file_metadata().unwrap(), (12, 3));
    let mut bad = TsFileSequenceReader::new(file_with_footer(&[9], 1, b"TsFilX"));
    assert!(matches!(bad.read_file_metadata(), Err(TsFileError::InvalidMagicString)));
}

#[test]
fn undecodable_text_is_a_read_error() {
    let mut r = ByteReader::new(vec![0, 0, 0, 1, 0xFF]);
    match tsfile::utils::read_write_io_utils::ReadWriteIOUtils::read_string(&mut r) {
        Err(TsFileError::ReadError(m)) => assert!(m.starts_with("Invalid UTF-8: ")),
        other => panic!("unexpected {:?}", other.is_ok()),
    }
}

fn row(t: i64, fields: Vec<Option<i64>>) -> (i64, Vec<Option<EncodableValue>>) {
    (t, fields.into_iter().map(|f| f.map(EncodableValue::Int64)).collect())
}

fn data_set() -> QueryDataSet {
    QueryDataSet::new(
        vec!["a".to_string(), "b".to_string()],
        vec![
            row(1, vec![Some(1), None]),
            row(2, vec![None, None]),
            row(3, vec![Some(3), Some(30)]),
            row(4, vec![Some(4), Some(40)]),
        ],
    )
}

#[test]
fn data_set_reads_all_rows() {
    let mut d = data_set();
    let mut times = Vec::new();
    while d.has_next() {
        times.push(d.next().unwrap().0);
    }
    assert_eq!(times, vec![1, 2, 3, 4]);
    assert!(d.next().is_none());
    d.reset();
    assert_eq!(d.next().unwrap().0, 1);
}

#[test]
fn data_set_leaves_out_null_rows_and_applies_offset_and_limit() {
    let mut d = data_set();
    d.set_without_any_null(true);
    d.set_row_offset(1);
    d.set_row_limit(5);
    assert!(d.has_next());
    assert_eq!(d.next().unwrap().0, 4);
    assert!(!d.has_next());
    let mut d = data_set();
    d.set_without_all_null(true);
    d.set_row_limit(2);
    assert_eq!(d.next().unwrap().0, 1);
    assert_eq!(d.next().unwrap().0, 3);
    assert!(!d.has_next());
    assert!(d.next().is_none());
    let mut d = data_set();
    d.set_without_any_null(true);
    d.set_without_null_columns_index(Some(vec![0]));
    let times: Vec<i64> = std::iter::from_fn(|| d.next().map(|r| r.0)).collect();
    assert_eq!(times, vec![1, 3, 4]);
}

#[test]
fn column_region_and_values() {
    let c = Column::new(TSDataType::Int32, vec![ColumnValue::Int32(1), ColumnValue::Int32(2), ColumnValue::Null]);
    let r = c.region(1, 2).unwrap();
    assert_eq!(r.position_count(), 2);
    assert_eq!(r.get_i32(0), Some(2));
    assert!(r.is_null(1));
    assert!(matches!(c.region(2, 2), Err(TsFileError::InvalidFileFormat(_))));
    assert!(matches!(c.region(usize::MAX, 2), Err(TsFileError::InvalidFileFormat(_))));
    assert_eq!(c.values().len(), 3);
    let b = TsBlock::new(vec![1], vec![c]);
    assert_eq!(b.columns().len(), 1);
}

#[test]
fn negative_length_message_quotes_the_length() {
    let mut r = ByteReader::new(vec![0xFF, 0xFF, 0xFF, 0xFE]);
    match tsfile::utils::read_write_io_utils::ReadWriteIOUtils::read_string(&mut r) {
        Err(TsFileError::ReadError(m)) => assert_eq!(m, "Negative string length: -2"),
        other => panic!("unexpected {:?}", other.is_ok()),
    }
}
