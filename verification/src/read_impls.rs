//! Decoders for the wire value types, each proved against the parse
//! function that its `ReadFrom` impl declares.
use crate::codec::{ReadFrom, WriteTo};
use crate::data_reader::DataReader;
use crate::wire::{be16_from, be16_of, be32_from, be32_of, be64_from, lemma_be16_of_from, lemma_be32_of_from};
use crate::{CryptoError, CryptoResult};
use vstd::prelude::*;
use crate::write_impls::string_long_form;
use vstd::utf8::{decode_utf8, encode_utf8, valid_utf8};

verus! {

/// What `String::from_utf8_lossy` returns on bytes that are not valid
/// UTF-8: each ill-formed sequence is replaced. The result depends on the
/// bytes alone; this name stands for it.
pub uninterp spec fn lossy_decode(bytes: Seq<u8>) -> Seq<char>;

/// The characters a byte blob decodes to: on valid UTF-8 exactly the
/// characters that encoded it, otherwise the lossy replacement decoding.
pub open spec fn utf8_decoded(bytes: Seq<u8>) -> Seq<char> {
    if valid_utf8(bytes) {
        decode_utf8(bytes)
    } else {
        lossy_decode(bytes)
    }
}

/// Relies on `String::from_utf8_lossy`: decodes UTF-8 bytes into the
/// characters that encoded them, replacing invalid sequences rather than
/// failing.
#[verifier::external_body]
fn from_utf8_lossy_string(bytes: &[u8]) -> (r: String)
    ensures
        r@ == lossy_decode(bytes@),
        valid_utf8(bytes@) ==> r@ == decode_utf8(bytes@),
{
    String::from_utf8_lossy(bytes).to_string()
}

impl ReadFrom for u8 {
    open spec fn parse(data: Seq<u8>) -> Option<(u8, nat)> {
        if data.len() >= 1 {
            Some((data[0], 1nat))
        } else {
            None
        }
    }

    fn read_from(r: &mut DataReader) -> (res: CryptoResult<Self>) {
        r.read_byte()
    }

    fn read_from_with_size(size: usize, r: &mut DataReader) -> (res: CryptoResult<Self>) {
        r.read_byte()
    }

    fn read_short_from(r: &mut DataReader) -> (res: CryptoResult<Self>) {
        r.read_byte()
    }
}

impl ReadFrom for u16 {
    open spec fn parse(data: Seq<u8>) -> Option<(u16, nat)> {
        if data.len() >= 2 {
            Some((be16_from(data), 2nat))
        } else {
            None
        }
    }

    fn read_from(r: &mut DataReader) -> (res: CryptoResult<Self>) {
        let v = match r.read_bytes(2) {
            Ok(v) => v,
            Err(e) => {
                return Err(e);
            },
        };
        Ok((v[0] as u16) << 8 | (v[1] as u16))
    }

    fn read_from_with_size(size: usize, r: &mut DataReader) -> (res: CryptoResult<Self>) {
        Self::read_from(r)
    }

    fn read_short_from(r: &mut DataReader) -> (res: CryptoResult<Self>) {
        Self::read_from(r)
    }
}

impl ReadFrom for u32 {
    open spec fn parse(data: Seq<u8>) -> Option<(u32, nat)> {
        if data.len() >= 4 {
            Some((be32_from(data), 4nat))
        } else {
            None
        }
    }

    fn read_from(r: &mut DataReader) -> (res: CryptoResult<Self>) {
        let v = match r.read_bytes(4) {
            Ok(v) => v,
            Err(e) => {
                return Err(e);
            },
        };
        Ok((v[0] as u32) << 24 | (v[1] as u32) << 16 | (v[2] as u32) << 8 | (v[3] as u32))
    }

    fn read_from_with_size(size: usize, r: &mut DataReader) -> (res: CryptoResult<Self>) {
        Self::read_from(r)
    }

    fn read_short_from(r: &mut DataReader) -> (res: CryptoResult<Self>) {
        Self::read_from(r)
    }
}

impl ReadFrom for u64 {
    open spec fn parse(data: Seq<u8>) -> Option<(u64, nat)> {
        if data.len() >= 8 {
            Some((be64_from(data), 8nat))
        } else {
            None
        }
    }

    fn read_from(r: &mut DataReader) -> (res: CryptoResult<Self>) {
        let v = match r.read_bytes(8) {
            Ok(v) => v,
            Err(e) => {
                return Err(e);
            },
        };
        Ok((v[0] as u64) << 56 | (v[1] as u64) << 48 | (v[2] as u64) << 40 | (v[3] as u64) << 32 | (
        v[4] as u64) << 24 | (v[5] as u64) << 16 | (v[6] as u64) << 8 | (v[7] as u64))
    }

    fn read_from_with_size(size: usize, r: &mut DataReader) -> (res: CryptoResult<Self>) {
        Self::read_from(r)
    }

    fn read_short_from(r: &mut DataReader) -> (res: CryptoResult<Self>) {
        Self::read_from(r)
    }
}

/// The signed 32-bit value carried by four big-endian bytes, two's complement.
pub open spec fn i32_from_be(s: Seq<u8>) -> i32 {
    let x = be32_from(s);
    if x <= 0x7FFF_FFFF {
        x as i32
    } else {
        (x - 0x1_0000_0000) as i32
    }
}

/// The signed 64-bit value carried by eight big-endian bytes, two's complement.
pub open spec fn i64_from_be(s: Seq<u8>) -> i64 {
    let x = be64_from(s);
    if x <= 0x7FFF_FFFF_FFFF_FFFF {
        x as i64
    } else {
        (x - 0x1_0000_0000_0000_0000) as i64
    }
}

impl ReadFrom for i32 {
    open spec fn parse(data: Seq<u8>) -> Option<(i32, nat)> {
        if data.len() >= 4 {
            Some((i32_from_be(data), 4nat))
        } else {
            None
        }
    }

    fn read_from(r: &mut DataReader) -> (res: CryptoResult<Self>) {
        let x = match u32::read_from(r) {
            Ok(x) => x,
            Err(e) => {
                return Err(e);
            },
        };
        if x <= 0x7FFF_FFFF {
            Ok(x as i32)
        } else {
            let m: u32 = (0xFFFF_FFFF - x) + 1;
            Ok((-(m as i64)) as i32)
        }
    }

    fn read_from_with_size(size: usize, r: &mut DataReader) -> (res: CryptoResult<Self>) {
        Self::read_from(r)
    }

    fn read_short_from(r: &mut DataReader) -> (res: CryptoResult<Self>) {
        Self::read_from(r)
    }
}

impl ReadFrom for i64 {
    open spec fn parse(data: Seq<u8>) -> Option<(i64, nat)> {
        if data.len() >= 8 {
            Some((i64_from_be(data), 8nat))
        } else {
            None
        }
    }

    fn read_from(r: &mut DataReader) -> (res: CryptoResult<Self>) {
        let x = match u64::read_from(r) {
            Ok(x) => x,
            Err(e) => {
                return Err(e);
            },
        };
        if x <= 0x7FFF_FFFF_FFFF_FFFF {
            Ok(x as i64)
        } else {
            let m: u64 = (0xFFFF_FFFF_FFFF_FFFF - x) + 1;
            Ok((-(m as i128)) as i64)
        }
    }

    fn read_from_with_size(size: usize, r: &mut DataReader) -> (res: CryptoResult<Self>) {
        Self::read_from(r)
    }

    fn read_short_from(r: &mut DataReader) -> (res: CryptoResult<Self>) {
        Self::read_from(r)
    }
}

impl ReadFrom for Vec<u8> {
    open spec fn parse(data: Seq<u8>) -> Option<(Seq<u8>, nat)> {
        Self::parse_short(data)
    }

    open spec fn parse_with_size(data: Seq<u8>, size: nat) -> Option<(Seq<u8>, nat)> {
        if data.len() >= size {
            Some((data.take(size as int), size))
        } else {
            None
        }
    }

    open spec fn parse_short(data: Seq<u8>) -> Option<(Seq<u8>, nat)> {
        if data.len() < 2 {
            None
        } else {
            let n = be16_from(data) as nat;
            if data.len() >= 2 + n {
                Some((data.subrange(2, 2 + n as int), 2 + n))
            } else {
                None
            }
        }
    }

    fn read_from(r: &mut DataReader) -> (res: CryptoResult<Self>) {
        Self::read_short_from(r)
    }

    fn read_from_with_size(size: usize, r: &mut DataReader) -> (res: CryptoResult<Self>) {
        r.read_bytes(size)
    }

    fn read_short_from(r: &mut DataReader) -> (res: CryptoResult<Self>) {
        let ghost pre = old(r).remaining();
        if r.len() < 2 {
            return Err(CryptoError::Io);
        }
        let b0 = r.peek(0).unwrap();
        let b1 = r.peek(1).unwrap();
        let n: usize = ((b0 as u16) << 8 | (b1 as u16)) as usize;
        if r.len() - 2 < n {
            return Err(CryptoError::Io);
        }
        let _prefix = match r.read_bytes(2) {
            Ok(v) => v,
            Err(e) => {
                return Err(e);
            },
        };
        let body = match r.read_bytes(n) {
            Ok(v) => v,
            Err(e) => {
                return Err(e);
            },
        };
        proof {
            assert(body@ =~= pre.subrange(2, 2 + n as int));
            assert(pre.skip(2).skip(n as int) =~= pre.skip(2 + n as int));
        }
        Ok(body)
    }
}

/// Strings are UTF-8, lossily decoded. The normal form's 4-byte stored
/// length (payload length + 4) is carried on the wire as a signed 32-bit
/// quantity, so stored lengths past `0x7FFF_FFFF` are rejected as
/// malformed rather than read.
impl ReadFrom for String {
    open spec fn parse(data: Seq<u8>) -> Option<(Seq<char>, nat)> {
        if data.len() < 4 {
            None
        } else {
            let n = be32_from(data) as nat;
            if 4 <= n <= 0x7FFF_FFFF && data.len() >= n {
                Some((utf8_decoded(data.subrange(4, n as int)), n))
            } else {
                None
            }
        }
    }

    open spec fn parse_with_size(data: Seq<u8>, size: nat) -> Option<(Seq<char>, nat)> {
        if data.len() >= size {
            Some((utf8_decoded(data.take(size as int)), size))
        } else {
            None
        }
    }

    open spec fn parse_short(data: Seq<u8>) -> Option<(Seq<char>, nat)> {
        if data.len() < 2 {
            None
        } else {
            let n = be16_from(data) as nat;
            if data.len() >= 2 + n {
                Some((utf8_decoded(data.subrange(2, 2 + n as int)), 2 + n))
            } else {
                None
            }
        }
    }

    fn read_from(r: &mut DataReader) -> (res: CryptoResult<Self>) {
        let ghost pre = old(r).remaining();
        if r.len() < 4 {
            return Err(CryptoError::Io);
        }
        let b0 = r.peek(0).unwrap();
        let b1 = r.peek(1).unwrap();
        let b2 = r.peek(2).unwrap();
        let b3 = r.peek(3).unwrap();
        let x: u32 = (b0 as u32) << 24 | (b1 as u32) << 16 | (b2 as u32) << 8 | (b3 as u32);
        if x < 4 || x > 0x7FFF_FFFF {
            return Err(CryptoError::Io);
        }
        let n: usize = x as usize;
        if r.len() < n {
            return Err(CryptoError::Io);
        }
        let _prefix = match r.read_bytes(4) {
            Ok(v) => v,
            Err(e) => {
                return Err(e);
            },
        };
        let body = match r.read_bytes(n - 4) {
            Ok(v) => v,
            Err(e) => {
                return Err(e);
            },
        };
        proof {
            assert(body@ =~= pre.subrange(4, n as int));
            assert(pre.skip(4).skip(n - 4) =~= pre.skip(n as int));
        }
        Ok(from_utf8_lossy_string(body.as_slice()))
    }

    fn read_from_with_size(size: usize, r: &mut DataReader) -> (res: CryptoResult<Self>) {
        let body = match r.read_bytes(size) {
            Ok(v) => v,
            Err(e) => {
                return Err(e);
            },
        };
        Ok(from_utf8_lossy_string(body.as_slice()))
    }

    fn read_short_from(r: &mut DataReader) -> (res: CryptoResult<Self>) {
        let ghost pre = old(r).remaining();
        if r.len() < 2 {
            return Err(CryptoError::Io);
        }
        let b0 = r.peek(0).unwrap();
        let b1 = r.peek(1).unwrap();
        let n: usize = ((b0 as u16) << 8 | (b1 as u16)) as usize;
        if r.len() - 2 < n {
            return Err(CryptoError::Io);
        }
        let _prefix = match r.read_bytes(2) {
            Ok(v) => v,
            Err(e) => {
                return Err(e);
            },
        };
        let body = match r.read_bytes(n) {
            Ok(v) => v,
            Err(e) => {
                return Err(e);
            },
        };
        proof {
            assert(body@ =~= pre.subrange(2, 2 + n as int));
            assert(pre.skip(2).skip(n as int) =~= pre.skip(2 + n as int));
        }
        Ok(from_utf8_lossy_string(body.as_slice()))
    }
}

/// A `u16` written in normal form and read back, with anything after it,
/// yields the value written.
pub proof fn lemma_u16_round_trip(x: u16, rest: Seq<u8>)
    ensures
        <u16 as ReadFrom>::parse(WriteTo::long_form(&x) + rest) == Some((x, 2nat)),
{
    lemma_be16_of_from(x);
    let data = WriteTo::long_form(&x) + rest;
    assert(data[0] == be16_of(x)[0] && data[1] == be16_of(x)[1]);
    assert(be16_from(data) == be16_from(be16_of(x)));
}

/// A `u32` written in normal form and read back, with anything after it,
/// yields the value written.
pub proof fn lemma_u32_round_trip(x: u32, rest: Seq<u8>)
    ensures
        <u32 as ReadFrom>::parse(WriteTo::long_form(&x) + rest) == Some((x, 4nat)),
{
    lemma_be32_of_from(x);
    let data = WriteTo::long_form(&x) + rest;
    assert(data[0] == be32_of(x)[0] && data[1] == be32_of(x)[1] && data[2] == be32_of(x)[2]
        && data[3] == be32_of(x)[3]);
    assert(be32_from(data) == be32_from(be32_of(x)));
}

/// A byte blob written in short form and read back, with anything after
/// it, yields the bytes written.
pub proof fn lemma_blob_short_round_trip(v: Seq<u8>, rest: Seq<u8>)
    requires
        v.len() <= 0xFFFF,
    ensures
        <Vec<u8> as ReadFrom>::parse_short(be16_of(v.len() as u16) + v + rest) == Some(
            (v, (2 + v.len()) as nat),
        ),
{
    lemma_be16_of_from(v.len() as u16);
    let data = be16_of(v.len() as u16) + v + rest;
    assert(data[0] == be16_of(v.len() as u16)[0] && data[1] == be16_of(v.len() as u16)[1]);
    assert(be16_from(data) == v.len());
    assert(data.subrange(2, 2 + v.len() as int) =~= v);
}

/// A string written in normal form and read back, with anything after it,
/// yields exactly the characters written.
pub proof fn lemma_string_round_trip(s: Seq<char>, rest: Seq<u8>)
    requires
        encode_utf8(s).len() + 4 <= 0x7FFF_FFFF,
    ensures
        <String as ReadFrom>::parse(string_long_form(s) + rest) == Some(
            (s, (encode_utf8(s).len() + 4) as nat),
        ),
{
    broadcast use vstd::utf8::encode_utf8_valid_utf8;
    broadcast use vstd::utf8::encode_utf8_decode_utf8;

    let payload = encode_utf8(s);
    let n: u32 = (payload.len() + 4) as u32;
    lemma_be32_of_from(n);
    let data = string_long_form(s) + rest;
    assert(data[0] == be32_of(n)[0] && data[1] == be32_of(n)[1] && data[2] == be32_of(n)[2]
        && data[3] == be32_of(n)[3]);
    assert(be32_from(data) == n);
    assert(data.subrange(4, n as int) =~= payload);
    assert(utf8_decoded(payload) == s);
}

} // verus!
