//! Normal-form and short-form encodings of the wire value types.
//!
//! Fixed-width integers are big-endian. Byte blobs have no inherent framing
//! in normal form; their short form carries a 2-byte length. Strings are
//! UTF-8; the normal form carries a 4-byte length that counts the prefix
//! itself (payload length + 4), the short form a plain 2-byte payload length.
use crate::codec::WriteTo;
use crate::data_writer::DataWriter;
use crate::wire::{be16_of, be32_of, be64_of};
use vstd::prelude::*;
use vstd::utf8::encode_utf8;

verus! {

impl<'a> WriteTo for &'a [u8] {
    open spec fn long_form(&self) -> Seq<u8> {
        self@
    }

    open spec fn long_writable(&self) -> bool {
        true
    }

    open spec fn short_form(&self) -> Seq<u8> {
        be16_of(self@.len() as u16) + self@
    }

    open spec fn short_writable(&self) -> bool {
        self@.len() <= 0xFFFF
    }

    fn write_to(&self, w: &mut DataWriter) {
        w.write_raw(self);
    }

    fn write_short_to(&self, w: &mut DataWriter) {
        w.write_u16_be(self.len() as u16);
        w.write_raw(self);
    }
}

impl WriteTo for Vec<u8> {
    open spec fn long_form(&self) -> Seq<u8> {
        self@
    }

    open spec fn long_writable(&self) -> bool {
        true
    }

    open spec fn short_form(&self) -> Seq<u8> {
        be16_of(self@.len() as u16) + self@
    }

    open spec fn short_writable(&self) -> bool {
        self@.len() <= 0xFFFF
    }

    fn write_to(&self, w: &mut DataWriter) {
        w.write_raw(self.as_slice());
    }

    fn write_short_to(&self, w: &mut DataWriter) {
        w.write_u16_be(self.len() as u16);
        w.write_raw(self.as_slice());
    }
}

impl WriteTo for u8 {
    open spec fn long_form(&self) -> Seq<u8> {
        seq![*self]
    }

    open spec fn long_writable(&self) -> bool {
        true
    }

    fn write_to(&self, w: &mut DataWriter) {
        w.write_u8(*self);
    }

    fn write_short_to(&self, w: &mut DataWriter) {
        w.write_u8(*self);
    }
}

impl WriteTo for u16 {
    open spec fn long_form(&self) -> Seq<u8> {
        be16_of(*self)
    }

    open spec fn long_writable(&self) -> bool {
        true
    }

    fn write_to(&self, w: &mut DataWriter) {
        w.write_u16_be(*self);
    }

    fn write_short_to(&self, w: &mut DataWriter) {
        w.write_u16_be(*self);
    }
}

impl WriteTo for u32 {
    open spec fn long_form(&self) -> Seq<u8> {
        be32_of(*self)
    }

    open spec fn long_writable(&self) -> bool {
        true
    }

    fn write_to(&self, w: &mut DataWriter) {
        w.write_u32_be(*self);
    }

    fn write_short_to(&self, w: &mut DataWriter) {
        w.write_u32_be(*self);
    }
}

impl WriteTo for u64 {
    open spec fn long_form(&self) -> Seq<u8> {
        be64_of(*self)
    }

    open spec fn long_writable(&self) -> bool {
        true
    }

    fn write_to(&self, w: &mut DataWriter) {
        w.write_u64_be(*self);
    }

    fn write_short_to(&self, w: &mut DataWriter) {
        w.write_u64_be(*self);
    }
}

impl WriteTo for bool {
    open spec fn long_form(&self) -> Seq<u8> {
        seq![if *self { 1u8 } else { 0u8 }]
    }

    open spec fn long_writable(&self) -> bool {
        true
    }

    fn write_to(&self, w: &mut DataWriter) {
        w.write_u8(if *self { 1 } else { 0 });
    }

    fn write_short_to(&self, w: &mut DataWriter) {
        w.write_u8(if *self { 1 } else { 0 });
    }
}

impl WriteTo for DataWriter {
    open spec fn long_form(&self) -> Seq<u8> {
        self@
    }

    open spec fn long_writable(&self) -> bool {
        true
    }

    open spec fn short_form(&self) -> Seq<u8> {
        be16_of(self@.len() as u16) + self@
    }

    open spec fn short_writable(&self) -> bool {
        self@.len() <= 0xFFFF
    }

    fn write_to(&self, w: &mut DataWriter) {
        w.write_raw(self.as_bytes());
    }

    fn write_short_to(&self, w: &mut DataWriter) {
        w.write_u16_be(self.as_bytes().len() as u16);
        w.write_raw(self.as_bytes());
    }
}

/// Normal form of a string: a 4-byte big-endian length that includes the
/// 4 prefix bytes themselves, then the UTF-8 payload.
pub open spec fn string_long_form(chars: Seq<char>) -> Seq<u8> {
    be32_of((encode_utf8(chars).len() + 4) as u32) + encode_utf8(chars)
}

/// Short form of a string: a plain 2-byte big-endian payload length,
/// then the UTF-8 payload.
pub open spec fn string_short_form(chars: Seq<char>) -> Seq<u8> {
    be16_of(encode_utf8(chars).len() as u16) + encode_utf8(chars)
}

impl<'a> WriteTo for &'a str {
    open spec fn long_form(&self) -> Seq<u8> {
        string_long_form(self@)
    }

    open spec fn long_writable(&self) -> bool {
        encode_utf8(self@).len() + 4 <= u32::MAX
    }

    open spec fn short_form(&self) -> Seq<u8> {
        string_short_form(self@)
    }

    open spec fn short_writable(&self) -> bool {
        encode_utf8(self@).len() <= 0xFFFF
    }

    fn write_to(&self, w: &mut DataWriter) {
        let bytes: &[u8] = self.as_bytes();
        w.write_u32_be((bytes.len() + 4) as u32);
        w.write_raw(bytes);
    }

    fn write_short_to(&self, w: &mut DataWriter) {
        let bytes: &[u8] = self.as_bytes();
        w.write_u16_be(bytes.len() as u16);
        w.write_raw(bytes);
    }
}

impl WriteTo for String {
    open spec fn long_form(&self) -> Seq<u8> {
        string_long_form(self@)
    }

    open spec fn long_writable(&self) -> bool {
        encode_utf8(self@).len() + 4 <= u32::MAX
    }

    open spec fn short_form(&self) -> Seq<u8> {
        string_short_form(self@)
    }

    open spec fn short_writable(&self) -> bool {
        encode_utf8(self@).len() <= 0xFFFF
    }

    fn write_to(&self, w: &mut DataWriter) {
        let bytes: &[u8] = self.as_str().as_bytes();
        w.write_u32_be((bytes.len() + 4) as u32);
        w.write_raw(bytes);
    }

    fn write_short_to(&self, w: &mut DataWriter) {
        let bytes: &[u8] = self.as_str().as_bytes();
        w.write_u16_be(bytes.len() as u16);
        w.write_raw(bytes);
    }
}

} // verus!
