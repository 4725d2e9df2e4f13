use memscan::codec::{
    decode_f32_bits, decode_f64_bits, decode_i32, decode_i32_text, decode_i64, decode_i64_text,
    decode_string_text, encode_f32_bits, encode_f64_bits, encode_i32, encode_i64, encode_string,
    first_zero_index, format_i32, format_i64, parse_data_type, parse_i32, parse_i64,
    string_patch_bytes, DataType,
};

#[test]
fn parse_i32_accepts_plain_decimal() {
    assert_eq!(parse_i32(b"100"), Some(100));
    assert_eq!(parse_i32(b"-42"), Some(-42));
    assert_eq!(parse_i32(b"+7"), Some(7));
    assert_eq!(parse_i32(b"007"), Some(7));
    assert_eq!(parse_i32(b"0"), Some(0));
}

#[test]
fn parse_i32_bounds() {
    assert_eq!(parse_i32(b"2147483647"), Some(i32::MAX));
    assert_eq!(parse_i32(b"-2147483648"), Some(i32::MIN));
    assert_eq!(parse_i32(b"2147483648"), None);
    assert_eq!(parse_i32(b"-2147483649"), None);
}

#[test]
fn parse_i32_rejects_malformed_text() {
    assert_eq!(parse_i32(b""), None);
    assert_eq!(parse_i32(b"-"), None);
    assert_eq!(parse_i32(b"+"), None);
    assert_eq!(parse_i32(b"abc"), None);
    assert_eq!(parse_i32(b"12x"), None);
    assert_eq!(parse_i32(b" 12"), None);
    assert_eq!(parse_i32(b"1 2"), None);
    assert_eq!(parse_i32(b"--5"), None);
}

#[test]
fn parse_i64_bounds() {
    assert_eq!(parse_i64(b"9223372036854775807"), Some(i64::MAX));
    assert_eq!(parse_i64(b"-9223372036854775808"), Some(i64::MIN));
    assert_eq!(parse_i64(b"9223372036854775808"), None);
    assert_eq!(parse_i64(b"-9223372036854775809"), None);
    assert_eq!(parse_i64(b"99999999999999999999999999"), None);
}

#[test]
fn format_matches_expected_text() {
    assert_eq!(format_i32(0), b"0".to_vec());
    assert_eq!(format_i32(100), b"100".to_vec());
    assert_eq!(format_i32(-1), b"-1".to_vec());
    assert_eq!(format_i32(i32::MIN), b"-2147483648".to_vec());
    assert_eq!(format_i64(i64::MIN), b"-9223372036854775808".to_vec());
    assert_eq!(format_i64(i64::MAX), b"9223372036854775807".to_vec());
}

#[test]
fn little_endian_patterns_are_exact() {
    assert_eq!(encode_i32(100), vec![100, 0, 0, 0]);
    assert_eq!(encode_i32(-1), vec![0xff, 0xff, 0xff, 0xff]);
    assert_eq!(encode_i64(1), vec![1, 0, 0, 0, 0, 0, 0, 0]);
    assert_eq!(encode_i32(0x0403_0201), vec![1, 2, 3, 4]);
}

#[test]
fn round_trip_i32_through_text_and_bytes() {
    let v = parse_i32(b"100").unwrap();
    let bytes = encode_i32(v);
    let back = decode_i32(&bytes);
    assert_eq!(back, 100);
    assert_eq!(decode_i32_text(&bytes), b"100".to_vec());
}

#[test]
fn round_trip_i64_through_text_and_bytes() {
    let v = parse_i64(b"-123456789012345").unwrap();
    let bytes = encode_i64(v);
    let back = decode_i64(&bytes);
    assert_eq!(back, -123456789012345);
    assert_eq!(decode_i64_text(&bytes), b"-123456789012345".to_vec());
}

#[test]
fn round_trip_f32_through_bits() {
    let v: f32 = "3.5".parse().unwrap();
    let bytes = encode_f32_bits(v.to_bits());
    assert_eq!(bytes.len(), 4);
    assert_eq!(bytes, v.to_le_bytes().to_vec());
    let back = f32::from_bits(decode_f32_bits(&bytes));
    assert_eq!(back, 3.5f32);
}

#[test]
fn round_trip_f64_through_bits() {
    let v: f64 = "-0.25".parse().unwrap();
    let bytes = encode_f64_bits(v.to_bits());
    assert_eq!(bytes.len(), 8);
    assert_eq!(bytes, v.to_le_bytes().to_vec());
    let back = f64::from_bits(decode_f64_bits(&bytes));
    assert_eq!(back, -0.25f64);
}

#[test]
fn string_pattern_has_no_terminator() {
    assert_eq!(encode_string(b"hello"), Some(b"hello".to_vec()));
    assert_eq!(encode_string(b""), None);
}

#[test]
fn string_decode_stops_at_first_zero_and_elides_unprintable() {
    assert_eq!(decode_string_text(b"cat\0xx\0"), b"cat".to_vec());
    assert_eq!(decode_string_text(&[99, 1, 97, 116, 0, 50]), b"cat".to_vec());
    assert_eq!(decode_string_text(b"no zero"), b"no zero".to_vec());
    assert_eq!(decode_string_text(b"\0abc"), b"".to_vec());
}

#[test]
fn first_zero_index_finds_the_terminator() {
    assert_eq!(first_zero_index(b"cat\0\0\0"), 3);
    assert_eq!(first_zero_index(b"cat"), 3);
    assert_eq!(first_zero_index(b""), 0);
    assert_eq!(first_zero_index(b"\0cat"), 0);
}

#[test]
fn string_patch_clears_longer_old_content() {
    // old content "elephant" is longer: the patch pads with zeros over
    // the whole old content plus its terminator
    let patched = string_patch_bytes(b"elephant\0junk", b"cat");
    assert_eq!(patched, b"cat\0\0\0\0\0\0".to_vec());
    assert_eq!(patched.len(), 9);
}

#[test]
fn string_patch_appends_terminator_when_growing() {
    let patched = string_patch_bytes(b"hi\0", b"world");
    assert_eq!(patched, b"world\0".to_vec());
}

#[test]
fn data_type_names_parse() {
    assert_eq!(parse_data_type(b"i32"), Some(DataType::I32));
    assert_eq!(parse_data_type(b"i64"), Some(DataType::I64));
    assert_eq!(parse_data_type(b"f32"), Some(DataType::F32));
    assert_eq!(parse_data_type(b"f64"), Some(DataType::F64));
    assert_eq!(parse_data_type(b"string"), Some(DataType::String(256)));
    assert_eq!(parse_data_type(b"string:32"), Some(DataType::String(32)));
    assert_eq!(parse_data_type(b"string:1"), Some(DataType::String(1)));
    assert_eq!(parse_data_type(b"string:1024"), Some(DataType::String(1024)));
}

#[test]
fn data_type_names_reject_bad_input() {
    assert_eq!(parse_data_type(b"int"), None);
    assert_eq!(parse_data_type(b""), None);
    assert_eq!(parse_data_type(b"string:0"), None);
    assert_eq!(parse_data_type(b"string:1025"), None);
    assert_eq!(parse_data_type(b"string:abc"), None);
    assert_eq!(parse_data_type(b"string:"), None);
    assert_eq!(parse_data_type(b"I32"), None);
}
