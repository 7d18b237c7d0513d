use tsfile::common::enums::{CompressionType, TSDataType, TSEncoding};
use tsfile::encoding::encoder::EncodableValue;
use tsfile::error::TsFileError;
use tsfile::file::header::ChunkHeader;
use tsfile::read::reader::aligned_chunk_reader::read_aligned_rows;
use tsfile::read::reader::chunk_reader::ChunkReader;
use tsfile::write::chunk::chunk_writer::ChunkWriter;

fn chunk_of(points: &[(i64, i32)]) -> ChunkReader {
    let mut c = ChunkWriter::new(
        "v".to_string(),
        TSDataType::Int32,
        TSEncoding::Plain,
        CompressionType::Uncompressed,
    );
    for &(t, v) in points {
        c.write_i32(t, v).unwrap();
    }
    let mut out = Vec::new();
    let (header_size, data_size) = c.write_to(&mut out).unwrap();
    let header = ChunkHeader::new(
        "v".to_string(),
        data_size as u32,
        TSDataType::Int32,
        CompressionType::Uncompressed,
        TSEncoding::Plain,
        1,
    );
    ChunkReader::new(header, out[header_size..].to_vec())
}

#[test]
fn aligned_values_follow_the_time_column() {
    let a = chunk_of(&[(1, 10), (3, 30)]);
    let b = chunk_of(&[(2, 200), (3, 300)]);
    let rows = read_aligned_rows(&vec![1, 2, 3, 4], &vec![a, b]).unwrap();
    assert_eq!(rows.len(), 4);
    assert!(matches!(rows[0].1.as_slice(), [Some(EncodableValue::Int32(10)), None]));
    assert!(matches!(rows[1].1.as_slice(), [None, Some(EncodableValue::Int32(200))]));
    assert!(matches!(
        rows[2].1.as_slice(),
        [Some(EncodableValue::Int32(30)), Some(EncodableValue::Int32(300))]
    ));
    assert!(matches!(rows[3].1.as_slice(), [None, None]));
}

#[test]
fn an_unreadable_value_chunk_stops_the_read() {
    let header = ChunkHeader::new(
        "v".to_string(),
        1,
        TSDataType::Int32,
        CompressionType::Uncompressed,
        TSEncoding::Plain,
        1,
    );
    let broken = ChunkReader::new(header, vec![0x80]);
    let r = read_aligned_rows(&vec![1], &vec![chunk_of(&[(1, 1)]), broken]);
    assert!(matches!(r, Err(TsFileError::Io(_))));
}
