use wirecodec::proto_msg::{DataEncoder, DynamicProtoMessage, ProtoValue};
use wirecodec::protobuf::VarInt;

#[test]
fn scalar_field_matches_protobuf_wire_format() {
    // field 1 (key 1 << 3), varint value 150: the classic 08 96 01
    let mut msg = DynamicProtoMessage::new();
    msg.fields.push((8, ProtoValue::U64(150)));
    assert_eq!(msg.encode().unwrap(), vec![0x08, 0x96, 0x01]);
}

#[test]
fn bool_and_signed_fields() {
    let mut msg = DynamicProtoMessage::new();
    msg.fields.push((8, ProtoValue::Bool(true)));
    msg.fields.push((16, ProtoValue::I32(-1)));
    msg.fields.push((24, ProtoValue::I64(1)));
    // bool writes 1; signed values are zig-zag encoded
    assert_eq!(msg.encode().unwrap(), vec![8, 1, 16, 1, 24, 2]);
}

#[test]
fn string_field_is_length_delimited() {
    let mut msg = DynamicProtoMessage::new();
    msg.fields.push((16, ProtoValue::Str(String::from("hi"))));
    // key 16 | wire type 2 = 18, then length 2, then the bytes
    assert_eq!(msg.encode().unwrap(), vec![18, 2, b'h', b'i']);
}

#[test]
fn byte_blob_writes_each_byte_as_its_own_field() {
    let mut msg = DynamicProtoMessage::new();
    msg.fields.push((8, ProtoValue::Bytes(vec![0x41, 0x42])));
    // by this design's convention: (key|2, byte) per byte
    assert_eq!(msg.encode().unwrap(), vec![10, 0x41, 10, 0x42]);
}

#[test]
fn repeated_u64_field() {
    let mut msg = DynamicProtoMessage::new();
    msg.fields.push((8, ProtoValue::U64List(vec![1, 300])));
    assert_eq!(msg.encode().unwrap(), vec![8, 1, 8, 0xAC, 0x02]);
}

#[test]
fn nested_message_is_length_delimited() {
    let mut inner = DynamicProtoMessage::new();
    inner.fields.push((8, ProtoValue::U64(150)));
    let mut outer = DynamicProtoMessage::new();
    outer.fields.push((24, ProtoValue::Msg(Box::new(inner))));
    // key 24 | 2 = 26, length 3, then the inner encoding
    assert_eq!(outer.encode().unwrap(), vec![26, 3, 0x08, 0x96, 0x01]);
}

#[test]
fn empty_message_encodes_to_nothing() {
    let msg = DynamicProtoMessage::new();
    assert_eq!(msg.encode().unwrap(), Vec::<u8>::new());
}

#[test]
fn data_encoder_writes_varints() {
    let mut enc = DataEncoder::new();
    enc.uvarint(128);
    enc.svarint(-2);
    assert_eq!(enc.into_bytes(), vec![0x80, 0x01, 0x03]);
}
