use wirecodec::data_reader::DataReader;
use wirecodec::data_writer::{to_bytes, DataWriter};
use wirecodec::CryptoError;

#[test]
fn writer_reader_round_trip() {
    let mut w = DataWriter::new();
    w.write_data(&"hello wire");
    w.write_data(&0xDEADBEEFu32);
    w.write_data(&0x1234u16);
    w.write_short_data(vec![9u8, 8, 7, 6]);

    let mut r = DataReader::new(w.into_bytes());
    let s: String = r.read_data().unwrap();
    assert_eq!(s, "hello wire");
    let a: u32 = r.read_data().unwrap();
    assert_eq!(a, 0xDEADBEEF);
    let b: u16 = r.read_data().unwrap();
    assert_eq!(b, 0x1234);
    let blob: Vec<u8> = r.read_data_short().unwrap();
    assert_eq!(blob, vec![9u8, 8, 7, 6]);
    assert_eq!(r.len(), 0);
}

#[test]
fn string_normal_form_prefix_counts_itself() {
    // the 4-byte prefix holds payload length + 4
    let bytes = to_bytes(&"abc");
    assert_eq!(bytes, vec![0, 0, 0, 7, b'a', b'b', b'c']);
}

#[test]
fn non_ascii_string_round_trip() {
    let mut w = DataWriter::new();
    let original = String::from("caf\u{e9} \u{4e2d}\u{6587}");
    w.write_data(&original);
    w.write_short_data(original.clone());
    let mut r = DataReader::new(w.into_bytes());
    let long: String = r.read_data().unwrap();
    let short: String = r.read_data_short().unwrap();
    assert_eq!(long, original);
    assert_eq!(short, original);
}

#[test]
fn invalid_utf8_is_replaced_not_an_error() {
    // short form: length 2, then two bytes that are not valid UTF-8
    let mut r = DataReader::new(vec![0, 2, 0xFF, 0xFE]);
    let s: String = r.read_data_short().unwrap();
    assert_eq!(s, "\u{FFFD}\u{FFFD}");
}

#[test]
fn integer_read_write_round_trips() {
    let mut w = DataWriter::new();
    w.write_data(&0xABu8);
    w.write_data(&0xFFFFFFFFFFFFFFFFu64);
    let mut r = DataReader::new(w.into_bytes());
    assert_eq!(r.read_data::<u8>().unwrap(), 0xAB);
    assert_eq!(r.read_data::<u64>().unwrap(), 0xFFFFFFFFFFFFFFFF);

    // signed values come back in two's complement
    let mut r2 = DataReader::new(vec![0xFF, 0xFE, 0x1D, 0xC0]);
    assert_eq!(r2.read_data::<i32>().unwrap(), -123456);
    let mut r3 = DataReader::new(vec![0xFF; 8]);
    assert_eq!(r3.read_data::<i64>().unwrap(), -1);
}

#[test]
fn underflow_fails_without_consuming() {
    let mut r = DataReader::new(vec![0x12, 0x34]);
    assert_eq!(r.read_data::<u32>().unwrap_err(), CryptoError::Io);
    assert_eq!(r.len(), 2);
    assert_eq!(r.read_data::<u16>().unwrap(), 0x1234);
}

#[test]
fn read_available_drains_the_rest() {
    let mut r = DataReader::new(vec![1, 2, 3, 4, 5]);
    let _ = r.read_data::<u16>().unwrap();
    assert_eq!(r.read_available(), vec![3, 4, 5]);
}

#[test]
fn read_limited_takes_exactly_the_given_size() {
    let mut r = DataReader::new(vec![1, 2, 3, 4, 5]);
    let v: Vec<u8> = r.read_data_limited(3).unwrap();
    assert_eq!(v, vec![1, 2, 3]);
    assert_eq!(r.len(), 2);
}

#[test]
fn uni_package_layout() {
    let mut w = DataWriter::new();
    w.write_in_uni_package("ab", &[1, 2], &[], &[9]);
    let inner: Vec<u8> = vec![
        0, 0, 0, 6, b'a', b'b', // command name, self-prefixed
        0, 0, 0, 8, // fixed 8
        0, 2, 1, 2, // session id, short form
        0, 0, 0, 4, // no extra data
    ];
    let mut expected: Vec<u8> = vec![0, 0, 0, (inner.len() + 4) as u8];
    expected.extend_from_slice(&inner);
    expected.extend_from_slice(&[0, 0, 0, 5, 9]);
    assert_eq!(w.into_bytes(), expected);
}

#[test]
fn uni_package_with_extra_data() {
    let mut w = DataWriter::new();
    w.write_in_uni_package("x", &[], &[7, 8], &[]);
    let inner: Vec<u8> = vec![
        0, 0, 0, 5, b'x', // command name
        0, 0, 0, 8, // fixed 8
        0, 0, // empty session id
        0, 0, 0, 6, // extra data length + 4, counting the prefix itself
        7, 8, // the raw extra data bytes
    ];
    let mut expected: Vec<u8> = vec![0, 0, 0, (inner.len() + 4) as u8];
    expected.extend_from_slice(&inner);
    expected.extend_from_slice(&[0, 0, 0, 4]);
    assert_eq!(w.into_bytes(), expected);
}

#[test]
fn tlv_limited_size_truncates_silently() {
    let mut w = DataWriter::new();
    w.write_tlv_limited_size(&[1, 2, 3, 4, 5, 6, 7, 8, 9], 4);
    assert_eq!(w.into_bytes(), vec![0, 4, 1, 2, 3, 4]);

    let mut w2 = DataWriter::new();
    w2.write_tlv_limited_size(&[1, 2], 4);
    assert_eq!(w2.into_bytes(), vec![0, 2, 1, 2]);
}

#[test]
fn tlv_package_prefixes_length_plus_offset() {
    let mut w = DataWriter::new();
    w.write_in_tlv_package(2, &[7, 8]);
    assert_eq!(w.into_bytes(), vec![0, 0, 0, 4, 7, 8]);
}

#[test]
fn encrypted_write_requires_a_full_key() {
    let mut w = DataWriter::new();
    let res = w.encrypted_write(b"tiny", b"payload");
    assert_eq!(res, Err(CryptoError::Size(16, 4)));
    assert_eq!(w.into_bytes(), Vec::<u8>::new());

    let mut w2 = DataWriter::new();
    w2.encrypted_write(b"0123456789ABCDEF", b"payload").unwrap();
    let ct = w2.into_bytes();
    let tea = wirecodec::tea::Tea::new(b"0123456789ABCDEF").unwrap();
    assert_eq!(tea.decrypt(&ct).unwrap(), b"payload".to_vec());
}

#[test]
fn to_bytes_encodes_the_normal_form() {
    assert_eq!(to_bytes(&0xABCDu16), vec![0xAB, 0xCD]);
    assert_eq!(to_bytes(&true), vec![1]);
    assert_eq!(to_bytes(&false), vec![0]);
}

#[test]
fn nested_writer_composition() {
    let mut inner = DataWriter::new();
    inner.write_data(&0xAABBu16);
    let mut outer = DataWriter::new();
    outer.write_data(&inner);
    outer.write_short_data(inner);
    assert_eq!(outer.into_bytes(), vec![0xAA, 0xBB, 0, 2, 0xAA, 0xBB]);
}
