use tsfile::common::enums::{CompressionType, TSDataType, TSEncoding};
use tsfile::error::TsFileError;
use tsfile::file::header::ChunkHeader;
use tsfile::read::reader::chunk_reader::ChunkReader;
use tsfile::encoding::encoder::EncodableValue;
use tsfile::read::tsfile_sequence_reader::{align_rows, read_all_chunks, read_chunk_data};
use tsfile::utils::read_write_io_utils::ReadWriteIOUtils;
use tsfile::write::chunk::chunk_writer::ChunkWriter;

fn file_with_one_group() -> (Vec<u8>, usize) {
    let mut data = b"TsFile\x04".to_vec();
    let start = data.len();
    data.push(0);
    ReadWriteIOUtils::write_var_int_string("root.d1", &mut data).unwrap();
    let mut c = ChunkWriter::new(
        "s1".to_string(),
        TSDataType::Int64,
        TSEncoding::Plain,
        CompressionType::Uncompressed,
    );
    c.write_i64(5, 50).unwrap();
    c.write_i64(6, 60).unwrap();
    c.write_to(&mut data).unwrap();
    data.push(4);
    data.extend([0u8; 16]);
    c.write_i64(7, 70).unwrap();
    c.write_to(&mut data).unwrap();
    data.push(2);
    data.extend([9, 9, 9]);
    (data, start)
}

#[test]
fn scan_finds_chunks_with_their_device() {
    let (data, start) = file_with_one_group();
    let end = data.len() as u64;
    let chunks = read_all_chunks(data, start, end).unwrap();
    assert_eq!(chunks.len(), 2);
    for c in &chunks {
        assert_eq!(c.device_id, "root.d1");
        assert_eq!(c.chunk_header.measurement_id, "s1");
        assert_eq!(c.chunk_header.data_type, TSDataType::Int64);
        assert_eq!(c.chunk_header.chunk_type, 5);
        assert_eq!(c.chunk_data.len(), c.chunk_header.data_size as usize);
    }
    let points = ChunkReader::new(chunks[1].chunk_header.clone(), chunks[1].chunk_data.clone())
        .read_all()
        .unwrap();
    assert_eq!(points.len(), 1);
    assert_eq!(points[0].0, 7);
}

#[test]
fn scan_stops_at_the_index_offset() {
    let (data, start) = file_with_one_group();
    let chunks = read_all_chunks(data, start, (start + 1) as u64).unwrap();
    assert!(chunks.is_empty());
}

#[test]
fn unknown_marker_is_an_error() {
    let data = vec![0, 0, 0, 9];
    assert!(matches!(read_all_chunks(data, 3, 4), Err(TsFileError::InvalidMarker(9))));
}

#[test]
fn chunk_running_past_the_end_is_an_io_error() {
    let mut data = vec![];
    let h = ChunkHeader::new(
        "s".to_string(),
        10,
        TSDataType::Boolean,
        CompressionType::Uncompressed,
        TSEncoding::Plain,
        1,
    );
    h.serialize(&mut data).unwrap();
    data.extend([1, 2, 3]);
    let end = data.len() as u64;
    assert!(matches!(read_all_chunks(data, 0, end), Err(TsFileError::Io(_))));
}

#[test]
fn rows_align_columns_by_time() {
    let a = vec![(3i64, EncodableValue::Int64(30)), (1, EncodableValue::Int64(10)), (3, EncodableValue::Int64(99))];
    let b = vec![(2i64, EncodableValue::Boolean(true)), (3, EncodableValue::Boolean(false))];
    let rows = align_rows(&vec![a, b]);
    let times: Vec<i64> = rows.iter().map(|r| r.0).collect();
    assert_eq!(times, vec![1, 2, 3]);
    assert!(matches!(rows[0].1.as_slice(), [Some(EncodableValue::Int64(10)), None]));
    assert!(matches!(rows[1].1.as_slice(), [None, Some(EncodableValue::Boolean(true))]));
    assert!(matches!(
        rows[2].1.as_slice(),
        [Some(EncodableValue::Int64(30)), Some(EncodableValue::Boolean(false))]
    ));
    assert!(align_rows(&vec![]).is_empty());
}

#[test]
fn chunk_data_reads_like_the_chunk_reader() {
    let (data, start) = file_with_one_group();
    let end = data.len() as u64;
    let chunks = read_all_chunks(data, start, end).unwrap();
    let points = read_chunk_data(&chunks[0].chunk_header, &chunks[0].chunk_data).unwrap();
    let times: Vec<i64> = points.iter().map(|p| p.0).collect();
    assert_eq!(times, vec![5, 6]);
}
