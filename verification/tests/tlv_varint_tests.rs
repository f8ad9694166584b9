use wirecodec::data_reader::DataReader;
use wirecodec::data_writer::DataWriter;
use wirecodec::protobuf::{decode_svarint, decode_uvarint, encode_svarint, encode_uvarint, VarInt};
use wirecodec::CryptoError;

fn tlv_bytes(entries: &[(u16, &[u8])], tag_size: usize) -> Vec<u8> {
    let mut w = DataWriter::new();
    for (tag, value) in entries {
        match tag_size {
            1 => w.write_data(&(*tag as u8)),
            2 => w.write_data(tag),
            4 => w.write_data(&(*tag as u32)),
            _ => panic!("unsupported width"),
        }
        w.write_short_data(*value);
    }
    w.into_bytes()
}

#[test]
fn tlv_round_trip_width_one() {
    let entries: [(u16, &[u8]); 3] = [(1, &[0xAA]), (2, &[0xBB, 0xCC]), (3, &[])];
    let mut r = DataReader::new(tlv_bytes(&entries, 1));
    let map = r.read_tlv_map(1).unwrap();
    assert_eq!(map.len(), 3);
    assert_eq!(map[&1], vec![0xAA]);
    assert_eq!(map[&2], vec![0xBB, 0xCC]);
    assert_eq!(map[&3], Vec::<u8>::new());
}

#[test]
fn tlv_round_trip_width_two_and_four() {
    let entries: [(u16, &[u8]); 2] = [(0x1122, &[1]), (0x0FFE, &[2, 3])];
    let mut r = DataReader::new(tlv_bytes(&entries, 2));
    let map = r.read_tlv_map(2).unwrap();
    assert_eq!(map.len(), 2);
    assert_eq!(map[&0x1122], vec![1]);
    assert_eq!(map[&0x0FFE], vec![2, 3]);

    let mut r4 = DataReader::new(tlv_bytes(&entries, 4));
    let map4 = r4.read_tlv_map(4).unwrap();
    assert_eq!(map4.len(), 2);
    assert_eq!(map4[&0x1122], vec![1]);
    assert_eq!(map4[&0x0FFE], vec![2, 3]);
}

#[test]
fn tlv_last_write_wins_on_duplicate_tags() {
    let entries: [(u16, &[u8]); 3] = [(7, &[1]), (9, &[2]), (7, &[3, 4])];
    let mut r = DataReader::new(tlv_bytes(&entries, 1));
    let map = r.read_tlv_map(1).unwrap();
    assert_eq!(map.len(), 2);
    assert_eq!(map[&7], vec![3, 4]);
    assert_eq!(map[&9], vec![2]);
}

#[test]
fn tlv_sentinel_tag_stops_parsing() {
    let mut data = tlv_bytes(&[(5, &[0x11])], 1);
    data.push(255); // sentinel: no length or value follows
    data.extend_from_slice(&[9, 9, 9]);
    let mut r = DataReader::new(data);
    let map = r.read_tlv_map(1).unwrap();
    assert_eq!(map.len(), 1);
    assert_eq!(map[&5], vec![0x11]);
    // parsing stopped right after the sentinel
    assert_eq!(r.read_available(), vec![9, 9, 9]);
}

#[test]
fn tlv_truncated_tail_yields_partial_map() {
    // a full record, then fewer than tag_size bytes remaining
    let mut data = tlv_bytes(&[(0x0102, &[0xAB])], 2);
    data.push(0x01);
    let mut r = DataReader::new(data);
    let map = r.read_tlv_map(2).unwrap();
    assert_eq!(map.len(), 1);
    assert_eq!(map[&0x0102], vec![0xAB]);
}

#[test]
fn tlv_empty_input_yields_empty_map() {
    let mut r = DataReader::new(Vec::new());
    let map = r.read_tlv_map(2).unwrap();
    assert!(map.is_empty());
}

#[test]
fn tlv_truncated_record_is_an_error() {
    // a tag with no length field behind it
    let mut r = DataReader::new(vec![0x05]);
    assert_eq!(r.read_tlv_map(1).unwrap_err(), CryptoError::Io);
    // a length promising more bytes than remain
    let mut r2 = DataReader::new(vec![0x05, 0x00, 0x04, 0x01]);
    assert_eq!(r2.read_tlv_map(1).unwrap_err(), CryptoError::Io);
}

#[test]
fn tlv_unsupported_tag_width_is_rejected() {
    let mut r = DataReader::new(vec![1, 2, 3, 4, 5, 6]);
    assert_eq!(r.read_tlv_map(3).unwrap_err(), CryptoError::TagWidth(3));
    assert_eq!(r.read_tlv_map(0).unwrap_err(), CryptoError::TagWidth(0));
    // the reader is untouched
    assert_eq!(r.len(), 6);
}

#[test]
fn uvarint_known_encodings() {
    assert_eq!(encode_uvarint(0), vec![0]);
    assert_eq!(encode_uvarint(1), vec![1]);
    assert_eq!(encode_uvarint(127), vec![0x7F]);
    assert_eq!(encode_uvarint(128), vec![0x80, 0x01]);
    assert_eq!(encode_uvarint(300), vec![0xAC, 0x02]);
    assert_eq!(
        encode_uvarint(u64::MAX),
        vec![0xFF, 0xFF, 0xFF, 0xFF, 0xFF, 0xFF, 0xFF, 0xFF, 0xFF, 0x01]
    );
}

#[test]
fn uvarint_round_trips() {
    for n in [0u64, 1, 127, 128, 300, 16383, 16384, 0xFFFF_FFFF, u64::MAX] {
        let enc = encode_uvarint(n);
        let (back, used) = decode_uvarint(&enc).unwrap();
        assert_eq!(back, n);
        assert_eq!(used, enc.len());
    }
}

#[test]
fn svarint_zigzag_values() {
    // the zig-zag encoding of -1 is 1, of 0 is 0, of 1 is 2
    assert_eq!(encode_svarint(0), vec![0]);
    assert_eq!(encode_svarint(-1), vec![1]);
    assert_eq!(encode_svarint(1), vec![2]);
    assert_eq!(encode_svarint(-2), vec![3]);
}

#[test]
fn svarint_round_trips() {
    for n in [0i64, 1, -1, 63, -64, 64, i64::MAX, i64::MIN, -123456789] {
        let enc = encode_svarint(n);
        let (back, used) = decode_svarint(&enc).unwrap();
        assert_eq!(back, n);
        assert_eq!(used, enc.len());
    }
}

#[test]
fn decode_uvarint_rejects_truncated_input() {
    assert!(decode_uvarint(&[]).is_none());
    assert!(decode_uvarint(&[0x80]).is_none());
    // an encoding of a value past 64 bits is rejected
    assert!(decode_uvarint(&[0xFF, 0xFF, 0xFF, 0xFF, 0xFF, 0xFF, 0xFF, 0xFF, 0xFF, 0x7F]).is_none());
}

#[test]
fn writer_implements_the_varint_sink() {
    let mut w = DataWriter::new();
    let n1 = w.uvarint(300);
    let n2 = w.svarint(-1);
    assert_eq!(n1, 2);
    assert_eq!(n2, 1);
    assert_eq!(w.into_bytes(), vec![0xAC, 0x02, 0x01]);
}
