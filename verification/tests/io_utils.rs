use tsfile::common::enums::{CompressionType, TSDataType, TSEncoding};
use tsfile::error::TsFileError;
use tsfile::utils::byte_reader::ByteReader;
use tsfile::utils::read_write_for_encoding::ReadWriteForEncodingUtils;
use tsfile::utils::read_write_io_utils::{Binary, ReadWriteIOUtils};

#[test]
fn test_unsigned_var_int_roundtrip() {
    let values = [0u32, 1, 127, 128, 16383, 16384, u32::MAX / 2];
    for &v in &values {
        let mut buf = Vec::new();
        let written = ReadWriteForEncodingUtils::write_unsigned_var_int(v, &mut buf).unwrap();
        let mut cursor = ByteReader::new(buf.clone());
        let read = ReadWriteForEncodingUtils::read_unsigned_var_int(&mut cursor).unwrap();
        assert_eq!(v, read, "value={}", v);
        assert_eq!(written, buf.len());
    }
}

#[test]
fn test_signed_var_int_roundtrip() {
    let values = [0i32, 1, -1, 100, -100, i32::MAX / 2, i32::MIN / 2];
    for &v in &values {
        let mut buf = Vec::new();
        ReadWriteForEncodingUtils::write_var_int(v, &mut buf).unwrap();
        let mut cursor = ByteReader::new(buf.clone());
        let read = ReadWriteForEncodingUtils::read_var_int(&mut cursor).unwrap();
        assert_eq!(v, read, "value={}", v);
    }
}

#[test]
fn test_bool_roundtrip() {
    let mut buf = Vec::new();
    ReadWriteIOUtils::write_bool(true, &mut buf).unwrap();
    ReadWriteIOUtils::write_bool(false, &mut buf).unwrap();
    let mut cursor = ByteReader::new(buf.clone());
    assert_eq!(ReadWriteIOUtils::read_bool(&mut cursor).unwrap(), true);
    assert_eq!(ReadWriteIOUtils::read_bool(&mut cursor).unwrap(), false);
}

#[test]
fn test_i32_roundtrip() {
    let values = [0i32, 1, -1, i32::MAX, i32::MIN];
    for &v in &values {
        let mut buf = Vec::new();
        ReadWriteIOUtils::write_i32(v, &mut buf).unwrap();
        let mut cursor = ByteReader::new(buf.clone());
        let read = ReadWriteIOUtils::read_i32(&mut cursor).unwrap();
        assert_eq!(v, read);
    }
}

#[test]
fn test_string_roundtrip() {
    let s = "hello, TsFile!";
    let mut buf = Vec::new();
    ReadWriteIOUtils::write_string(s, &mut buf).unwrap();
    let mut cursor = ByteReader::new(buf.clone());
    let read = ReadWriteIOUtils::read_string(&mut cursor).unwrap();
    assert_eq!(s, read);
}

#[test]
fn test_var_int_string_roundtrip() {
    let s = "test_measurement_id";
    let mut buf = Vec::new();
    ReadWriteIOUtils::write_var_int_string(s, &mut buf).unwrap();
    let mut cursor = ByteReader::new(buf.clone());
    let read = ReadWriteIOUtils::read_var_int_string(&mut cursor).unwrap();
    assert_eq!(s, read);
}

#[test]
fn unsigned_var_int_bytes_are_little_endian_groups_of_seven() {
    let mut buf = Vec::new();
    let n = ReadWriteForEncodingUtils::write_unsigned_var_int(300, &mut buf).unwrap();
    assert_eq!(n, 2);
    assert_eq!(buf, vec![0xAC, 0x02]);
    assert_eq!(ReadWriteForEncodingUtils::u_var_int_size(300), 2);
    assert_eq!(ReadWriteForEncodingUtils::u_var_int_size(0), 1);
    assert_eq!(ReadWriteForEncodingUtils::u_var_int_size(u32::MAX), 5);
}

#[test]
fn signed_var_int_uses_zigzag() {
    let mut buf = Vec::new();
    ReadWriteForEncodingUtils::write_var_int(-1, &mut buf).unwrap();
    assert_eq!(buf, vec![0x01]);
    let mut buf = Vec::new();
    ReadWriteForEncodingUtils::write_var_int(1, &mut buf).unwrap();
    assert_eq!(buf, vec![0x02]);
    assert_eq!(ReadWriteForEncodingUtils::var_int_size(-64), 1);
    assert_eq!(ReadWriteForEncodingUtils::var_int_size(64), 2);
}

#[test]
fn var_int_from_slice_reports_consumed_bytes() {
    let data = [0xAC, 0x02, 0x07];
    let (v, n) = ReadWriteForEncodingUtils::read_unsigned_var_int_from_slice(&data).unwrap();
    assert_eq!((v, n), (300, 2));
    let (v, n) = ReadWriteForEncodingUtils::read_var_int_from_slice(&[0x03]).unwrap();
    assert_eq!((v, n), (-2, 1));
}

#[test]
fn truncated_var_int_is_an_error() {
    let mut r = ByteReader::new(vec![0x80]);
    assert!(ReadWriteForEncodingUtils::read_unsigned_var_int(&mut r).is_err());
    assert!(ReadWriteForEncodingUtils::read_unsigned_var_int_from_slice(&[0x80, 0x80]).is_err());
}

#[test]
fn fixed_width_integers_are_big_endian() {
    let mut buf = Vec::new();
    assert_eq!(ReadWriteIOUtils::write_i16(0x0102, &mut buf).unwrap(), 2);
    assert_eq!(ReadWriteIOUtils::write_i32(0x01020304, &mut buf).unwrap(), 4);
    assert_eq!(ReadWriteIOUtils::write_i64(-2, &mut buf).unwrap(), 8);
    assert_eq!(
        buf,
        vec![1, 2, 1, 2, 3, 4, 0xFF, 0xFF, 0xFF, 0xFF, 0xFF, 0xFF, 0xFF, 0xFE]
    );
    let mut r = ByteReader::new(buf.clone());
    assert_eq!(ReadWriteIOUtils::read_i16(&mut r).unwrap(), 0x0102);
    assert_eq!(ReadWriteIOUtils::read_i32(&mut r).unwrap(), 0x01020304);
    assert_eq!(ReadWriteIOUtils::read_i64(&mut r).unwrap(), -2);
    assert_eq!(r.remaining(), 0);
}

#[test]
fn i64_roundtrip_extremes() {
    for &v in &[0i64, 1, -1, i64::MAX, i64::MIN] {
        let mut buf = Vec::new();
        ReadWriteIOUtils::write_i64(v, &mut buf).unwrap();
        let mut r = ByteReader::new(buf);
        assert_eq!(ReadWriteIOUtils::read_i64(&mut r).unwrap(), v);
    }
}

#[test]
fn fixed_width_from_slice() {
    let (v, n) = ReadWriteIOUtils::read_i32_from_slice(&[0, 0, 1, 0, 9]).unwrap();
    assert_eq!((v, n), (256, 4));
    let (v, n) = ReadWriteIOUtils::read_i64_from_slice(&[0, 0, 0, 0, 0, 0, 0, 7]).unwrap();
    assert_eq!((v, n), (7, 8));
    assert!(ReadWriteIOUtils::read_i32_from_slice(&[0, 0, 1]).is_err());
    assert!(ReadWriteIOUtils::read_i64_from_slice(&[0; 7]).is_err());
}

#[test]
fn short_input_is_an_io_error_and_consumes_nothing() {
    let mut r = ByteReader::new(vec![1, 2, 3]);
    match ReadWriteIOUtils::read_i32(&mut r) {
        Err(TsFileError::Io(_)) => {}
        other => panic!("unexpected {:?}", other),
    }
    assert_eq!(r.position(), 0);
    assert_eq!(ReadWriteIOUtils::read_i16(&mut r).unwrap(), 0x0102);
}

#[test]
fn string_layout_is_length_then_bytes() {
    let mut buf = Vec::new();
    let n = ReadWriteIOUtils::write_string("ab", &mut buf).unwrap();
    assert_eq!(n, 6);
    assert_eq!(buf, vec![0, 0, 0, 2, b'a', b'b']);
    let mut buf = Vec::new();
    let n = ReadWriteIOUtils::write_var_int_string("ab", &mut buf).unwrap();
    assert_eq!(n, 3);
    assert_eq!(buf, vec![4, b'a', b'b']);
}

#[test]
fn negative_string_length_is_a_read_error() {
    let mut r = ByteReader::new(vec![0xFF, 0xFF, 0xFF, 0xFE]);
    match ReadWriteIOUtils::read_string(&mut r) {
        Err(TsFileError::ReadError(m)) => assert_eq!(m, "Negative string length: -2"),
        other => panic!("unexpected {:?}", other),
    }
}

#[test]
fn invalid_utf8_is_rejected() {
    let mut r = ByteReader::new(vec![0, 0, 0, 1, 0xFF]);
    assert!(ReadWriteIOUtils::read_string(&mut r).is_err());
}

#[test]
fn binary_roundtrip() {
    let b = Binary::new(vec![1, 2, 3]);
    let mut buf = Vec::new();
    ReadWriteIOUtils::write_binary(&b, &mut buf).unwrap();
    assert_eq!(buf, vec![0, 0, 0, 3, 1, 2, 3]);
    let mut r = ByteReader::new(buf);
    let back = ReadWriteIOUtils::read_binary(&mut r).unwrap();
    assert_eq!(back.as_bytes(), &[1, 2, 3]);
    assert_eq!(back.len(), 3);
    assert!(!back.is_empty());
    assert!(Binary::from_str("").is_empty());
}

#[test]
fn enum_codes_roundtrip() {
    let mut buf = Vec::new();
    ReadWriteIOUtils::write_data_type(TSDataType::Int64, &mut buf).unwrap();
    ReadWriteIOUtils::write_encoding(TSEncoding::Ts2diff, &mut buf).unwrap();
    ReadWriteIOUtils::write_compression_type(CompressionType::Uncompressed, &mut buf).unwrap();
    let mut r = ByteReader::new(buf);
    assert_eq!(ReadWriteIOUtils::read_data_type(&mut r).unwrap(), TSDataType::Int64);
    assert_eq!(ReadWriteIOUtils::read_encoding(&mut r).unwrap(), TSEncoding::Ts2diff);
    assert_eq!(
        ReadWriteIOUtils::read_compression_type(&mut r).unwrap(),
        CompressionType::Uncompressed
    );
}

#[test]
fn unknown_type_code_is_invalid_format() {
    let mut r = ByteReader::new(vec![200]);
    assert!(matches!(
        ReadWriteIOUtils::read_data_type(&mut r),
        Err(TsFileError::InvalidFileFormat(_))
    ));
}

#[test]
fn skip_and_read_bytes() {
    let mut r = ByteReader::new(vec![1, 2, 3, 4, 5]);
    ReadWriteIOUtils::skip(&mut r, 2).unwrap();
    assert_eq!(ReadWriteIOUtils::read_bytes(&mut r, 2).unwrap(), vec![3, 4]);
    assert!(ReadWriteIOUtils::skip(&mut r, 2).is_err());
    assert_eq!(ReadWriteIOUtils::read_byte(&mut r).unwrap(), 5);
    assert!(ReadWriteIOUtils::read_byte(&mut r).is_err());
}

#[test]
fn bit_widths_and_padded_little_endian() {
    assert_eq!(ReadWriteForEncodingUtils::get_int_max_bit_width(&[1, 2, 7]), 3);
    assert_eq!(ReadWriteForEncodingUtils::get_int_max_bit_width(&[]), 1);
    assert_eq!(ReadWriteForEncodingUtils::get_int_max_bit_width(&[-1]), 32);
    assert_eq!(ReadWriteForEncodingUtils::get_long_max_bit_width(&[255, 256]), 9);
    let mut buf = Vec::new();
    ReadWriteForEncodingUtils::write_int_little_endian_padded_on_bit_width(0x0102, &mut buf, 12)
        .unwrap();
    assert_eq!(buf, vec![0x02, 0x01]);
    let mut r = ByteReader::new(buf);
    let v = ReadWriteForEncodingUtils::read_int_little_endian_padded_on_bit_width(&mut r, 12)
        .unwrap();
    assert_eq!(v, 0x0102);
}
