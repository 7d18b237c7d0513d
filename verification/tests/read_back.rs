use tsfile::common::enums::{CompressionType, TSDataType, TSEncoding};
use tsfile::encoding::decoder::{decode_plain_values, decode_values};
use tsfile::encoding::encoder::{create_encoder, EncodableValue};
use tsfile::encoding::ts2diff_decoder::decode_ts2diff;
use tsfile::error::TsFileError;
use tsfile::file::header::{ChunkHeader, PageHeader};
use tsfile::file::statistics::{Statistics, TypedStats};
use tsfile::read::reader::chunk_reader::ChunkReader;
use tsfile::read::reader::page_reader::PageReader;
use tsfile::utils::byte_reader::ByteReader;
use tsfile::utils::read_write_io_utils::Binary;
use tsfile::write::chunk::chunk_writer::ChunkWriter;
use tsfile::write::chunk::page_writer::PageWriter;

fn as_i64(v: &EncodableValue) -> i64 {
    match v {
        EncodableValue::Int64(x) => *x,
        other => panic!("unexpected {:?}", other),
    }
}

#[test]
fn ts2diff_decodes_what_it_encodes() {
    let values: Vec<i64> = (0..300).map(|i| i * i - 7 * i + (i % 5) * 1000).collect();
    let mut e = create_encoder(TSDataType::Int64, TSEncoding::Ts2diff);
    let mut out = Vec::new();
    for &v in &values {
        e.encode_i64(v, &mut out).unwrap();
    }
    e.flush(&mut out).unwrap();
    assert_eq!(decode_ts2diff(out).unwrap(), values);
}

#[test]
fn ts2diff_handles_wrapping_deltas() {
    let values = vec![i64::MAX, i64::MIN, 0, -1, i64::MAX];
    let mut e = create_encoder(TSDataType::Int64, TSEncoding::Ts2diff);
    let mut out = Vec::new();
    for &v in &values {
        e.encode_i64(v, &mut out).unwrap();
    }
    e.flush(&mut out).unwrap();
    assert_eq!(decode_ts2diff(out).unwrap(), values);
}

#[test]
fn ts2diff_decoding_errors() {
    assert!(matches!(decode_ts2diff(vec![0, 0, 0]), Err(TsFileError::Io(_))));
    let mut bad = vec![0xFF, 0xFF, 0xFF, 0xFF];
    bad.extend([0u8; 20]);
    assert!(matches!(decode_ts2diff(bad), Err(TsFileError::DecodingError(_))));
    let mut wide = vec![0, 0, 0, 1, 0, 0, 0, 65];
    wide.extend([0u8; 16]);
    assert!(matches!(decode_ts2diff(wide), Err(TsFileError::DecodingError(_))));
    let mut short = vec![0, 0, 0, 2, 0, 0, 0, 8];
    short.extend([0u8; 16]);
    short.push(1);
    assert!(matches!(decode_ts2diff(short), Err(TsFileError::Io(_))));
    assert_eq!(decode_ts2diff(vec![]).unwrap(), Vec::<i64>::new());
}

#[test]
fn plain_values_decode() {
    let bytes = vec![0x84, 0x04, 0x01];
    let vs = decode_plain_values(TSDataType::Int32, bytes).unwrap();
    assert!(matches!(vs.as_slice(), [EncodableValue::Int32(258), EncodableValue::Int32(-1)]));
    let vs = decode_plain_values(TSDataType::Boolean, vec![1, 0, 7]).unwrap();
    assert!(matches!(
        vs.as_slice(),
        [EncodableValue::Boolean(true), EncodableValue::Boolean(false), EncodableValue::Boolean(true)]
    ));
    let vs = decode_plain_values(TSDataType::Text, vec![4, b'h', b'i']).unwrap();
    match vs.as_slice() {
        [EncodableValue::Binary(b)] => assert_eq!(b.as_bytes(), b"hi"),
        other => panic!("unexpected {:?}", other),
    }
    assert!(matches!(decode_plain_values(TSDataType::Int64, vec![1, 2, 3]), Err(TsFileError::Io(_))));
    assert!(matches!(decode_plain_values(TSDataType::Text, vec![1]), Err(TsFileError::DecodingError(_))));
    assert!(matches!(decode_plain_values(TSDataType::Float, vec![]), Err(TsFileError::Unsupported(_))));
    assert!(matches!(
        decode_values(TSDataType::Int32, TSEncoding::Ts2diff, vec![]),
        Err(TsFileError::Unsupported(_))
    ));
}

#[test]
fn flushed_page_reads_back() {
    let mut p = PageWriter::new(TSDataType::Int32, TSEncoding::Plain, 100);
    for (t, v) in [(10i64, 5i32), (20, -6), (35, 7)] {
        p.write_i32(t, v).unwrap();
    }
    let page = p.flush().unwrap().unwrap();
    let points = PageReader::new(TSDataType::Int32, TSEncoding::Plain, page.data).read_all().unwrap();
    let got: Vec<(i64, i32)> = points
        .iter()
        .map(|(t, v)| match v {
            EncodableValue::Int32(x) => (*t, *x),
            other => panic!("unexpected {:?}", other),
        })
        .collect();
    assert_eq!(got, vec![(10, 5), (20, -6), (35, 7)]);
}

#[test]
fn page_with_bad_time_length_is_malformed() {
    let r = PageReader::new(TSDataType::Int64, TSEncoding::Plain, vec![0, 0, 0, 9, 1]).read_all();
    assert!(matches!(r, Err(TsFileError::DecodingError(_))));
    let r = PageReader::new(TSDataType::Int64, TSEncoding::Plain, vec![0xFF, 0, 0, 0]).read_all();
    assert!(matches!(r, Err(TsFileError::DecodingError(_))));
    let r = PageReader::new(TSDataType::Int64, TSEncoding::Plain, vec![0, 0]).read_all();
    assert!(matches!(r, Err(TsFileError::Io(_))));
    let r = PageReader::new(TSDataType::Double, TSEncoding::Plain, vec![]).read_all();
    assert!(matches!(r, Err(TsFileError::Unsupported(_))));
}

#[test]
fn single_page_chunk_reads_back() {
    let mut c = ChunkWriter::new(
        "s1".to_string(),
        TSDataType::Int64,
        TSEncoding::Ts2diff,
        CompressionType::Uncompressed,
    );
    for t in 0..50i64 {
        c.write_i64(1000 + t * 10, t * t).unwrap();
    }
    let mut out = Vec::new();
    let (header_size, data_size) = c.write_to(&mut out).unwrap();
    let header = ChunkHeader::new(
        "s1".to_string(),
        data_size as u32,
        TSDataType::Int64,
        CompressionType::Uncompressed,
        TSEncoding::Ts2diff,
        1,
    );
    let data = out[header_size..].to_vec();
    let points = ChunkReader::new(header, data).read_all().unwrap();
    assert_eq!(points.len(), 50);
    for (i, (t, v)) in points.iter().enumerate() {
        let i = i as i64;
        assert_eq!(*t, 1000 + i * 10);
        assert_eq!(as_i64(v), i * i);
    }
}

#[test]
fn chunk_with_statistics_on_every_page_reads_back() {
    let mut data = Vec::new();
    let mut expected = Vec::new();
    for page_no in 0..2i64 {
        let mut p = PageWriter::new(TSDataType::Int64, TSEncoding::Plain, 10);
        for k in 0..3i64 {
            let t = page_no * 100 + k;
            p.write_i64(t, -t).unwrap();
            expected.push((t, -t));
        }
        let page = p.flush().unwrap().unwrap();
        let n = page.data.len() as u32;
        PageHeader::new(n, n, Some(page.statistics)).serialize(&mut data).unwrap();
        data.extend(page.data);
    }
    let header = ChunkHeader::new(
        "s".to_string(),
        data.len() as u32,
        TSDataType::Int64,
        CompressionType::Uncompressed,
        TSEncoding::Plain,
        2,
    );
    let points = ChunkReader::new(header, data).read_all().unwrap();
    let got: Vec<(i64, i64)> = points.iter().map(|(t, v)| (*t, as_i64(v))).collect();
    assert_eq!(got, expected);
}

#[test]
fn compressed_chunk_is_not_read() {
    let mut p = PageWriter::new(TSDataType::Boolean, TSEncoding::Plain, 10);
    p.write_bool(1, true).unwrap();
    let page = p.flush().unwrap().unwrap();
    let n = page.data.len() as u32;
    let mut data = Vec::new();
    PageHeader::new(n, n, None).serialize(&mut data).unwrap();
    data.extend(page.data);
    let header = ChunkHeader::new(
        "b".to_string(),
        data.len() as u32,
        TSDataType::Boolean,
        CompressionType::Gzip,
        TSEncoding::Plain,
        1,
    );
    assert!(matches!(ChunkReader::new(header, data).read_all(), Err(TsFileError::Unsupported(_))));
}

#[test]
fn statistics_read_back() {
    let mut s = Statistics::new(TSDataType::Text);
    s.update_binary(3, Binary::from_str("x"));
    s.update_binary(9, Binary::from_str("yz"));
    let mut buf = Vec::new();
    s.serialize(&mut buf).unwrap();
    let mut r = ByteReader::new(buf);
    let back = Statistics::deserialize(&mut r, TSDataType::Text).unwrap();
    assert_eq!(r.remaining(), 0);
    assert_eq!(back.count, 2);
    assert_eq!((back.start_time, back.end_time), (3, 9));
    assert!(!back.is_empty);
    match &back.typed {
        TypedStats::Binary { first_value, last_value } => {
            assert_eq!(first_value.as_bytes(), b"x");
            assert_eq!(last_value.as_bytes(), b"yz");
        }
        other => panic!("unexpected {:?}", other),
    }
}

#[test]
fn page_header_reads_back() {
    let mut s = Statistics::new(TSDataType::Int32);
    s.update_i32(1, 2);
    let h = PageHeader::new(300, 300, Some(s));
    let mut buf = Vec::new();
    h.serialize(&mut buf).unwrap();
    let mut r = ByteReader::new(buf);
    let back = PageHeader::deserialize(&mut r, TSDataType::Int32, true).unwrap();
    assert_eq!((back.uncompressed_size, back.compressed_size), (300, 300));
    assert_eq!(back.statistics.unwrap().count, 1);
    assert_eq!(r.remaining(), 0);
}
