use tsfile::common::enums::{CompressionType, TSDataType, TSEncoding};
use tsfile::compress::{create_compressor, create_decompressor};
use tsfile::encoding::encoder::{create_encoder, EncodableValue};
use tsfile::error::TsFileError;
use tsfile::file::header::{ChunkHeader, PageHeader};
use tsfile::file::statistics::{Statistics, TypedStats};
use tsfile::utils::read_write_io_utils::Binary;
use tsfile::write::chunk::chunk_group_writer::ChunkGroupWriter;
use tsfile::write::chunk::chunk_writer::ChunkWriter;
use tsfile::write::chunk::page_writer::PageWriter;
use tsfile::write::schema::{MeasurementSchema, Schema};

fn ts2diff_of_one_two_three() -> Vec<u8> {
    // two deltas, width 0, smallest delta 1, first value 1, nothing packed
    vec![
        0, 0, 0, 2, 0, 0, 0, 0, 0, 0, 0, 0, 0, 0, 0, 1, 0, 0, 0, 0, 0, 0, 0, 1,
    ]
}

#[test]
fn ts2diff_encoder_writes_block_layout() {
    let mut e = create_encoder(TSDataType::Int64, TSEncoding::Ts2diff);
    let mut out = Vec::new();
    for t in [1i64, 2, 3] {
        e.encode_i64(t, &mut out).unwrap();
    }
    e.flush(&mut out).unwrap();
    assert_eq!(out, ts2diff_of_one_two_three());
}

#[test]
fn ts2diff_packs_adjusted_deltas() {
    let mut e = create_encoder(TSDataType::Int64, TSEncoding::Ts2diff);
    let mut out = Vec::new();
    for t in [10i64, 11, 13] {
        e.encode_i64(t, &mut out).unwrap();
    }
    e.flush(&mut out).unwrap();
    // deltas 1 and 2, smallest 1, adjusted 0 and 1, width 1: bits 0,1 -> 0b0100_0000
    assert_eq!(
        out,
        vec![0, 0, 0, 2, 0, 0, 0, 1, 0, 0, 0, 0, 0, 0, 0, 1, 0, 0, 0, 0, 0, 0, 0, 10, 0x40]
    );
}

#[test]
fn plain_encoder_writes_var_int_and_big_endian_values() {
    let mut e = create_encoder(TSDataType::Int32, TSEncoding::Plain);
    let mut out = Vec::new();
    e.encode_value(EncodableValue::Int32(258), &mut out).unwrap();
    e.encode_value(EncodableValue::Boolean(true), &mut out).unwrap();
    e.encode_value(EncodableValue::Int64(-2), &mut out).unwrap();
    e.flush(&mut out).unwrap();
    assert_eq!(out, vec![0x84, 0x04, 1, 0xFF, 0xFF, 0xFF, 0xFF, 0xFF, 0xFF, 0xFF, 0xFE]);
}

#[test]
fn unsupported_encoding_is_refused() {
    let mut e = create_encoder(TSDataType::Int64, TSEncoding::Gorilla);
    let mut out = Vec::new();
    assert!(e.encode_i64(1, &mut out).is_err());
    assert!(out.is_empty());
}

#[test]
fn page_writer_flushes_time_then_values() {
    let mut p = PageWriter::new(TSDataType::Int64, TSEncoding::Plain, 100);
    assert!(p.flush().unwrap().is_none());
    p.write_i64(1, 10).unwrap();
    p.write_i64(2, 20).unwrap();
    p.write_i64(3, 30).unwrap();
    assert_eq!(p.point_count(), 3);
    assert!(!p.is_full());
    let page = p.flush().unwrap().unwrap();
    assert_eq!(page.point_count, 3);
    let mut expected = vec![0, 0, 0, 24];
    expected.extend(ts2diff_of_one_two_three());
    for v in [10i64, 20, 30] {
        expected.extend(v.to_be_bytes());
    }
    assert_eq!(page.data, expected);
    assert_eq!(page.statistics.count, 3);
    assert_eq!(page.statistics.start_time, 1);
    assert_eq!(page.statistics.end_time, 3);
    assert_eq!(p.point_count(), 0);
}

#[test]
fn page_writer_is_full_at_its_point_limit() {
    let mut p = PageWriter::new(TSDataType::Boolean, TSEncoding::Plain, 2);
    p.write_bool(1, true).unwrap();
    assert!(!p.is_full());
    p.write_bool(2, false).unwrap();
    assert!(p.is_full());
}

#[test]
fn chunk_writer_single_page_layout() {
    let mut c = ChunkWriter::new(
        "s1".to_string(),
        TSDataType::Int64,
        TSEncoding::Plain,
        CompressionType::Uncompressed,
    );
    assert!(!c.has_data());
    c.write_i64(1, 10).unwrap();
    c.write_i64(2, 20).unwrap();
    c.write_i64(3, 30).unwrap();
    assert!(c.has_data());
    let mut out = Vec::new();
    let (header_size, data_size) = c.write_to(&mut out).unwrap();
    assert_eq!(header_size, 8);
    assert_eq!(data_size, 54);
    assert_eq!(out.len(), 62);
    assert_eq!(&out[..10], &[5, 4, b's', b'1', 54, 2, 0, 0, 52, 52]);
    assert!(!c.has_data());
    assert_eq!(c.num_pages(), 0);
}

#[test]
fn chunk_writer_refuses_wrong_value_type() {
    let mut c = ChunkWriter::new(
        "s1".to_string(),
        TSDataType::Int64,
        TSEncoding::Ts2diff,
        CompressionType::Uncompressed,
    );
    assert!(c.write_bool(1, true).is_err());
}

#[test]
fn compressed_chunk_is_unsupported() {
    let comp = create_compressor(CompressionType::Uncompressed);
    assert_eq!(comp.compress(&[1, 2, 3]).unwrap(), vec![1, 2, 3]);
    let dec = create_decompressor(CompressionType::Uncompressed);
    assert_eq!(dec.decompress(&[1, 2], 2).unwrap(), vec![1, 2]);
    let snappy = create_compressor(CompressionType::Snappy);
    assert!(matches!(snappy.compress(&[1]), Err(TsFileError::Unsupported(_))));
}

#[test]
fn statistics_track_times_and_extremes() {
    let mut s = Statistics::new(TSDataType::Int32);
    assert!(s.is_empty);
    s.update_i32(5, 7);
    s.update_i32(2, -3);
    s.update_i32(9, 4);
    assert_eq!(s.count, 3);
    assert_eq!(s.start_time, 2);
    assert_eq!(s.end_time, 9);
    match &s.typed {
        TypedStats::Integer { min_value, max_value, first_value, last_value } => {
            assert_eq!((*min_value, *max_value, *first_value, *last_value), (-3, 7, 7, 4));
        }
        other => panic!("unexpected {:?}", other),
    }
    let mut t = Statistics::new(TSDataType::Int32);
    t.update_i32(1, 100);
    s.merge(&t);
    assert_eq!(s.count, 4);
    assert_eq!(s.start_time, 1);
}

#[test]
fn binary_statistics_keep_first_and_last() {
    let mut s = Statistics::new(TSDataType::Text);
    s.update_binary(1, Binary::from_str("a"));
    s.update_binary(2, Binary::from_str("b"));
    match &s.typed {
        TypedStats::Binary { first_value, last_value } => {
            assert_eq!(first_value.as_bytes(), b"a");
            assert_eq!(last_value.as_bytes(), b"b");
        }
        other => panic!("unexpected {:?}", other),
    }
}

#[test]
fn page_header_without_statistics() {
    let h = PageHeader::new(52, 52, None);
    let mut out = Vec::new();
    h.serialize(&mut out).unwrap();
    assert_eq!(out, vec![52, 52]);
}

#[test]
fn chunk_header_marker_for_several_pages() {
    let h = ChunkHeader::new(
        "s".to_string(),
        3,
        TSDataType::Boolean,
        CompressionType::Uncompressed,
        TSEncoding::Plain,
        2,
    );
    let mut out = Vec::new();
    h.serialize(&mut out).unwrap();
    assert_eq!(out, vec![1, 2, b's', 3, 0, 0, 0]);
}

#[test]
fn schema_registers_and_finds_measurements() {
    let mut schema = Schema::new();
    schema.register_timeseries(
        "d1".to_string(),
        MeasurementSchema::new(
            "s1".to_string(),
            TSDataType::Int64,
            TSEncoding::Ts2diff,
            CompressionType::Uncompressed,
        ),
    );
    let found = schema.get_schema("d1", "s1").unwrap();
    assert_eq!(found.data_type, TSDataType::Int64);
    assert!(schema.get_schema("d1", "s2").is_none());
    assert!(schema.get_schema("d2", "s1").is_none());
}

#[test]
fn group_writes_values_by_schema() {
    let schemas = vec![
        MeasurementSchema::new(
            "s1".to_string(),
            TSDataType::Int32,
            TSEncoding::Plain,
            CompressionType::Uncompressed,
        ),
        MeasurementSchema::new(
            "s2".to_string(),
            TSDataType::Boolean,
            TSEncoding::Plain,
            CompressionType::Uncompressed,
        ),
    ];
    let mut g = ChunkGroupWriter::new("d1".to_string());
    g.write_value(1, "s1", Some(EncodableValue::Int32(5)), &schemas).unwrap();
    g.write_value(1, "s2", Some(EncodableValue::Boolean(true)), &schemas).unwrap();
    g.write_value(2, "s1", None, &schemas).unwrap();
    g.write_value(2, "s1", Some(EncodableValue::Int32(6)), &schemas).unwrap();
    match g.write_value(3, "s9", Some(EncodableValue::Int32(1)), &schemas) {
        Err(TsFileError::MeasurementNotFound(m)) => assert_eq!(m, "d1.s9"),
        other => panic!("unexpected {:?}", other),
    }
    let writers = g.into_chunk_writers();
    assert_eq!(writers.len(), 2);
    assert_eq!(writers[0].measurement_id, "s1");
    assert_eq!(writers[1].measurement_id, "s2");
    assert!(writers[0].has_data());
}
