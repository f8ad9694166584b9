//! The dynamic, runtime-typed protobuf message: a field map from numeric
//! keys to polymorphic values, serialized as concatenated varint-framed
//! fields in field order.
use crate::protobuf::{svarint_bytes, uvarint_bytes, VarInt};
use crate::CryptoResult;
use vstd::prelude::*;
use vstd::utf8::encode_utf8;

verus! {

/// Output buffer for the protobuf encoders.
pub struct DataEncoder {
    buff: Vec<u8>,
}

impl View for DataEncoder {
    type V = Seq<u8>;

    closed spec fn view(&self) -> Seq<u8> {
        self.buff@
    }
}

impl DataEncoder {
    pub fn new() -> (r: Self)
        ensures
            r@ == Seq::<u8>::empty(),
    {
        DataEncoder { buff: Vec::new() }
    }

    /// Hands out the bytes written so far, consuming the encoder.
    pub fn into_bytes(self) -> (r: Vec<u8>)
        ensures
            r@ == self@,
    {
        self.buff
    }

    /// Appends raw bytes with no framing.
    pub fn write_raw(&mut self, data: &[u8])
        ensures
            final(self)@ == old(self)@ + data@,
    {
        self.buff.extend_from_slice(data);
    }
}

impl VarInt for DataEncoder {
    open spec fn out(&self) -> Seq<u8> {
        self@
    }

    fn uvarint(&mut self, data: u64) -> (n: usize) {
        let b = crate::protobuf::encode_uvarint(data);
        self.write_raw(b.as_slice());
        b.len()
    }

    fn svarint(&mut self, data: i64) -> (n: usize) {
        let b = crate::protobuf::encode_svarint(data);
        self.write_raw(b.as_slice());
        b.len()
    }
}

/// A runtime-typed field value: the closed set of scalar, string, byte,
/// repeated and nested-message shapes the dynamic message can carry.
pub enum ProtoValue {
    Bool(bool),
    I32(i32),
    I64(i64),
    U32(u32),
    U64(u64),
    Str(String),
    Bytes(Vec<u8>),
    U64List(Vec<u64>),
    Msg(Box<DynamicProtoMessage>),
}

/// A mapping from a 64-bit field key (already shifted, low bits free for
/// the wire type) to a polymorphic field value, encoded in field order.
pub struct DynamicProtoMessage {
    pub fields: Vec<(u64, ProtoValue)>,
}

/// The encoding of a byte sequence under one key: by this design's
/// convention every byte becomes its own length-delimited-keyed field.
pub open spec fn bytes_fields_form(key: u64, bs: Seq<u8>) -> Seq<u8>
    decreases bs.len(),
{
    if bs.len() == 0 {
        Seq::empty()
    } else {
        uvarint_bytes(key | 2) + uvarint_bytes(bs[0] as u64) + bytes_fields_form(key, bs.skip(1))
    }
}

/// The encoding of a repeated unsigned scalar under one key.
pub open spec fn u64_fields_form(key: u64, l: Seq<u64>) -> Seq<u8>
    decreases l.len(),
{
    if l.len() == 0 {
        Seq::empty()
    } else {
        uvarint_bytes(key) + uvarint_bytes(l[0]) + u64_fields_form(key, l.skip(1))
    }
}

/// The encoding of one field value under its key: the varint field key
/// (with its wire type bits) followed by the value's payload.
pub open spec fn field_form_of(key: u64, v: ProtoValue) -> Seq<u8>
    decreases v,
{
    match v {
        ProtoValue::Bool(b) => uvarint_bytes(key) + uvarint_bytes(
            if b {
                1u64
            } else {
                0u64
            },
        ),
        ProtoValue::I32(x) => uvarint_bytes(key) + svarint_bytes(x as i64),
        ProtoValue::I64(x) => uvarint_bytes(key) + svarint_bytes(x),
        ProtoValue::U32(x) => uvarint_bytes(key) + uvarint_bytes(x as u64),
        ProtoValue::U64(x) => uvarint_bytes(key) + uvarint_bytes(x),
        ProtoValue::Str(s) => uvarint_bytes(key | 2) + uvarint_bytes(
            encode_utf8(s@).len() as u64,
        ) + encode_utf8(s@),
        ProtoValue::Bytes(bs) => bytes_fields_form(key, bs@),
        ProtoValue::U64List(l) => u64_fields_form(key, l@),
        ProtoValue::Msg(m) => uvarint_bytes(key | 2) + uvarint_bytes(
            msg_form(m.fields@).len() as u64,
        ) + msg_form(m.fields@),
    }
}

/// The encoding of a whole message: each field's self-encoding, in order.
pub open spec fn msg_form(fields: Seq<(u64, ProtoValue)>) -> Seq<u8>
    decreases fields,
{
    if fields.len() == 0 {
        Seq::empty()
    } else {
        field_form_of(fields[0].0, fields[0].1) + msg_form(fields.skip(1))
    }
}

/// Splitting a field list anywhere splits its encoding.
pub proof fn lemma_msg_form_take(fields: Seq<(u64, ProtoValue)>, i: int)
    requires
        0 <= i < fields.len(),
    ensures
        msg_form(fields.take(i + 1)) == msg_form(fields.take(i)) + field_form_of(
            fields[i].0,
            fields[i].1,
        ),
    decreases i,
{
    if i == 0 {
        assert(fields.take(0) =~= Seq::<(u64, ProtoValue)>::empty());
        assert(fields.take(1)[0] == fields[0]);
        assert(fields.take(1).skip(1) =~= Seq::<(u64, ProtoValue)>::empty());
        assert(msg_form(fields.take(1)) =~= msg_form(fields.take(0)) + field_form_of(
            fields[0].0,
            fields[0].1,
        ));
    } else {
        lemma_msg_form_take(fields.skip(1), i - 1);
        assert(fields.take(i + 1)[0] == fields[0]);
        assert(fields.take(i + 1).skip(1) =~= fields.skip(1).take(i));
        assert(fields.take(i).skip(1) =~= fields.skip(1).take(i - 1));
        assert(fields.take(i)[0] == fields[0]);
        assert(fields.skip(1)[i - 1] == fields[i]);
    }
}

/// A value that can serialize itself as one or more varint-framed fields
/// under a given (pre-shifted) field key.
pub trait WriteToVarInt {
    /// The field bytes this value writes under `key`.
    spec fn field_form(&self, key: u64) -> Seq<u8>;

    fn write_to_varint(&self, writer: &mut DataEncoder, key: u64)
        ensures
            final(writer)@ == old(writer)@ + self.field_form(key),
    ;
}

impl WriteToVarInt for bool {
    open spec fn field_form(&self, key: u64) -> Seq<u8> {
        uvarint_bytes(key) + uvarint_bytes(
            if *self {
                1u64
            } else {
                0u64
            },
        )
    }

    fn write_to_varint(&self, writer: &mut DataEncoder, key: u64) {
        writer.uvarint(key);
        writer.uvarint(if *self {
            1
        } else {
            0
        });
    }
}

impl WriteToVarInt for i32 {
    open spec fn field_form(&self, key: u64) -> Seq<u8> {
        uvarint_bytes(key) + svarint_bytes(*self as i64)
    }

    fn write_to_varint(&self, writer: &mut DataEncoder, key: u64) {
        writer.uvarint(key);
        writer.svarint(*self as i64);
    }
}

impl WriteToVarInt for i64 {
    open spec fn field_form(&self, key: u64) -> Seq<u8> {
        uvarint_bytes(key) + svarint_bytes(*self)
    }

    fn write_to_varint(&self, writer: &mut DataEncoder, key: u64) {
        writer.uvarint(key);
        writer.svarint(*self);
    }
}

impl WriteToVarInt for u32 {
    open spec fn field_form(&self, key: u64) -> Seq<u8> {
        uvarint_bytes(key) + uvarint_bytes(*self as u64)
    }

    fn write_to_varint(&self, writer: &mut DataEncoder, key: u64) {
        writer.uvarint(key);
        writer.uvarint(*self as u64);
    }
}

impl WriteToVarInt for u64 {
    open spec fn field_form(&self, key: u64) -> Seq<u8> {
        uvarint_bytes(key) + uvarint_bytes(*self)
    }

    fn write_to_varint(&self, writer: &mut DataEncoder, key: u64) {
        writer.uvarint(key);
        writer.uvarint(*self);
    }
}

impl WriteToVarInt for String {
    open spec fn field_form(&self, key: u64) -> Seq<u8> {
        uvarint_bytes(key | 2) + uvarint_bytes(encode_utf8(self@).len() as u64) + encode_utf8(
            self@,
        )
    }

    fn write_to_varint(&self, writer: &mut DataEncoder, key: u64) {
        writer.uvarint(key | 2);
        let bs: &[u8] = self.as_str().as_bytes();
        writer.uvarint(bs.len() as u64);
        writer.write_raw(bs);
    }
}

impl WriteToVarInt for Vec<u8> {
    open spec fn field_form(&self, key: u64) -> Seq<u8> {
        bytes_fields_form(key, self@)
    }

    fn write_to_varint(&self, writer: &mut DataEncoder, key: u64) {
        proof {
            assert(self@.skip(0) =~= self@);
        }
        let mut i: usize = 0;
        while i < self.len()
            invariant
                i <= self.len(),
                old(writer)@ + bytes_fields_form(key, self@) == writer@ + bytes_fields_form(
                    key,
                    self@.skip(i as int),
                ),
            decreases self.len() - i,
        {
            writer.uvarint(key | 2);
            writer.uvarint(self[i] as u64);
            proof {
                assert(self@.skip(i as int)[0] == self@[i as int]);
                assert(self@.skip(i as int).skip(1) =~= self@.skip(i + 1));
            }
            i = i + 1;
        }
        proof {
            assert(self@.skip(self@.len() as int) =~= Seq::<u8>::empty());
            assert(writer@ + Seq::<u8>::empty() =~= writer@);
        }
    }
}

impl WriteToVarInt for Vec<u64> {
    open spec fn field_form(&self, key: u64) -> Seq<u8> {
        u64_fields_form(key, self@)
    }

    fn write_to_varint(&self, writer: &mut DataEncoder, key: u64) {
        proof {
            assert(self@.skip(0) =~= self@);
        }
        let mut i: usize = 0;
        while i < self.len()
            invariant
                i <= self.len(),
                old(writer)@ + u64_fields_form(key, self@) == writer@ + u64_fields_form(
                    key,
                    self@.skip(i as int),
                ),
            decreases self.len() - i,
        {
            writer.uvarint(key);
            writer.uvarint(self[i]);
            proof {
                assert(self@.skip(i as int)[0] == self@[i as int]);
                assert(self@.skip(i as int).skip(1) =~= self@.skip(i + 1));
            }
            i = i + 1;
        }
        proof {
            assert(self@.skip(self@.len() as int) =~= Seq::<u64>::empty());
            assert(writer@ + Seq::<u8>::empty() =~= writer@);
        }
    }
}

impl WriteToVarInt for DynamicProtoMessage {
    open spec fn field_form(&self, key: u64) -> Seq<u8> {
        uvarint_bytes(key | 2) + uvarint_bytes(msg_form(self.fields@).len() as u64) + msg_form(
            self.fields@,
        )
    }

    fn write_to_varint(&self, writer: &mut DataEncoder, key: u64) {
        writer.uvarint(key | 2);
        let sub = match self.encode() {
            Ok(v) => v,
            Err(_) => {
                proof {
                    assert(false);
                }
                Vec::new()
            },
        };
        writer.uvarint(sub.len() as u64);
        writer.write_raw(sub.as_slice());
    }
}

impl ProtoValue {
    /// Writes this value as one (or, for byte and repeated fields, a run
    /// of) varint-framed field(s) under `key`.
    pub fn write_field(&self, writer: &mut DataEncoder, key: u64)
        ensures
            final(writer)@ == old(writer)@ + field_form_of(key, *self),
        decreases self,
    {
        match self {
            ProtoValue::Bool(b) => b.write_to_varint(writer, key),
            ProtoValue::I32(x) => x.write_to_varint(writer, key),
            ProtoValue::I64(x) => x.write_to_varint(writer, key),
            ProtoValue::U32(x) => x.write_to_varint(writer, key),
            ProtoValue::U64(x) => x.write_to_varint(writer, key),
            ProtoValue::Str(st) => st.write_to_varint(writer, key),
            ProtoValue::Bytes(bs) => bs.write_to_varint(writer, key),
            ProtoValue::U64List(l) => l.write_to_varint(writer, key),
            ProtoValue::Msg(m) => {
                writer.uvarint(key | 2);
                let sub = match m.encode() {
                    Ok(v) => v,
                    Err(_) => {
                        proof {
                            assert(false);
                        }
                        Vec::new()
                    },
                };
                writer.uvarint(sub.len() as u64);
                writer.write_raw(sub.as_slice());
            },
        }
    }
}

impl DynamicProtoMessage {
    pub fn new() -> (r: Self)
        ensures
            r.fields@ == Seq::<(u64, ProtoValue)>::empty(),
    {
        DynamicProtoMessage { fields: Vec::new() }
    }

    /// Serializes the message: each field's encoding, concatenated in
    /// field order.
    pub fn encode(&self) -> (res: CryptoResult<Vec<u8>>)
        ensures
            res is Ok,
            res matches Ok(v) ==> v@ == msg_form(self.fields@),
        decreases self,
    {
        let mut encoder = DataEncoder::new();
        let mut i: usize = 0;
        while i < self.fields.len()
            invariant
                i <= self.fields.len(),
                encoder@ == msg_form(self.fields@.take(i as int)),
            decreases self.fields@.len() - i,
        {
            let key = self.fields[i].0;
            self.fields[i].1.write_field(&mut encoder, key);
            proof {
                lemma_msg_form_take(self.fields@, i as int);
            }
            i = i + 1;
        }
        proof {
            assert(self.fields@.take(self.fields@.len() as int) =~= self.fields@);
        }
        Ok(encoder.into_bytes())
    }
}

} // verus!
