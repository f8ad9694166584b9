//! The growable, append-only output buffer that every encoder writes into.
use crate::codec::WriteTo;
use crate::wire::{be16_of, be32_of, be64_of};
use crate::tea::{tea_cipher_len, tea_decrypt_ok, tea_encrypt_bytes, tea_fill, tea_head, tea_key_spec, tea_plain_of, Tea};
use crate::write_impls::string_long_form;
use vstd::utf8::encode_utf8;
use vstd::prelude::*;

verus! {

/// Append-only output buffer; its view is the byte sequence written so far.
///
/// Nested length-prefixed sub-packages are built with an independent
/// temporary writer whose buffer is taken back out with [`Self::into_bytes`]
/// (or borrowed with [`Self::as_bytes`]) and then framed into the outer
/// writer, as [`Self::write_in_tlv_package`] expects.
pub struct DataWriter {
    buff: Vec<u8>,
}

impl View for DataWriter {
    type V = Seq<u8>;

    closed spec fn view(&self) -> Seq<u8> {
        self.buff@
    }
}

impl DataWriter {
    pub fn new() -> (w: Self)
        ensures
            w@ == Seq::<u8>::empty(),
    {
        DataWriter { buff: Vec::new() }
    }

    /// Borrows the bytes written so far.
    pub fn as_bytes(&self) -> (r: &[u8])
        ensures
            r@ == self@,
    {
        self.buff.as_slice()
    }

    /// Hands out the bytes written so far, consuming the writer.
    pub fn into_bytes(self) -> (r: Vec<u8>)
        ensures
            r@ == self@,
    {
        self.buff
    }

    /// Appends raw bytes with no framing.
    pub fn write_raw(&mut self, data: &[u8])
        ensures
            final(self)@ == old(self)@ + data@,
    {
        self.buff.extend_from_slice(data);
    }

    pub fn write_u8(&mut self, x: u8)
        ensures
            final(self)@ == old(self)@ + seq![x],
    {
        self.buff.push(x);
        assert(final(self)@ =~= old(self)@ + seq![x]);
    }

    pub fn write_u16_be(&mut self, x: u16)
        ensures
            final(self)@ == old(self)@ + be16_of(x),
    {
        proof {
            assert(((x >> 8) & 0xff) < 256 && (x & 0xff) < 256) by (bit_vector);
        }
        self.buff.push(((x >> 8) & 0xff) as u8);
        self.buff.push((x & 0xff) as u8);
        assert(final(self)@ =~= old(self)@ + be16_of(x));
    }

    pub fn write_u32_be(&mut self, x: u32)
        ensures
            final(self)@ == old(self)@ + be32_of(x),
    {
        proof {
            assert(((x >> 24) & 0xff) < 256 && ((x >> 16) & 0xff) < 256 && ((x >> 8) & 0xff) < 256
                && (x & 0xff) < 256) by (bit_vector);
        }
        self.buff.push(((x >> 24) & 0xff) as u8);
        self.buff.push(((x >> 16) & 0xff) as u8);
        self.buff.push(((x >> 8) & 0xff) as u8);
        self.buff.push((x & 0xff) as u8);
        assert(final(self)@ =~= old(self)@ + be32_of(x));
    }

    pub fn write_u64_be(&mut self, x: u64)
        ensures
            final(self)@ == old(self)@ + be64_of(x),
    {
        proof {
            assert(((x >> 56) & 0xff) < 256 && ((x >> 48) & 0xff) < 256 && ((x >> 40) & 0xff) < 256
                && ((x >> 32) & 0xff) < 256 && ((x >> 24) & 0xff) < 256 && ((x >> 16) & 0xff) < 256
                && ((x >> 8) & 0xff) < 256 && (x & 0xff) < 256) by (bit_vector);
        }
        self.buff.push(((x >> 56) & 0xff) as u8);
        self.buff.push(((x >> 48) & 0xff) as u8);
        self.buff.push(((x >> 40) & 0xff) as u8);
        self.buff.push(((x >> 32) & 0xff) as u8);
        self.buff.push(((x >> 24) & 0xff) as u8);
        self.buff.push(((x >> 16) & 0xff) as u8);
        self.buff.push(((x >> 8) & 0xff) as u8);
        self.buff.push((x & 0xff) as u8);
        assert(final(self)@ =~= old(self)@ + be64_of(x));
    }

    /// Writes a typed value in its normal form.
    pub fn write_data<T: WriteTo>(&mut self, data: &T)
        requires
            data.long_writable(),
        ensures
            final(self)@ == old(self)@ + data.long_form(),
    {
        data.write_to(self)
    }

    /// Writes a typed value in its short (length-prefixed) form.
    pub fn write_short_data<T: WriteTo>(&mut self, data: T)
        requires
            data.short_writable(),
        ensures
            final(self)@ == old(self)@ + data.short_form(),
    {
        data.write_short_to(self)
    }
}

/// The inner block of the standard outer envelope: the command name as a
/// self-length-prefixed string, a fixed 8, the session id as a short blob,
/// and either a bare 4 (no extra data) or the extra data's length plus 4
/// followed by the raw extra data bytes (the prefix counts itself, so no
/// further length precedes them).
pub open spec fn uni_inner_form(cmd: Seq<char>, session: Seq<u8>, extra: Seq<u8>) -> Seq<u8> {
    string_long_form(cmd) + be32_of(8u32) + be16_of(session.len() as u16) + session + (
    if extra.len() == 0 {
        be32_of(4u32)
    } else {
        be32_of((extra.len() + 4) as u32) + extra
    })
}

/// The standard outer envelope: the inner block and the body, each
/// preceded by a 4-byte big-endian length that counts the prefix itself.
pub open spec fn uni_package_form(
    cmd: Seq<char>,
    session: Seq<u8>,
    extra: Seq<u8>,
    body: Seq<u8>,
) -> Seq<u8> {
    let inner = uni_inner_form(cmd, session, extra);
    be32_of((inner.len() + 4) as u32) + inner + be32_of((body.len() + 4) as u32) + body
}

/// A blob written in short form, truncated to `limit` bytes when longer.
pub open spec fn tlv_limited_form(data: Seq<u8>, limit: nat) -> Seq<u8> {
    if data.len() <= limit {
        be16_of(data.len() as u16) + data
    } else {
        be16_of(limit as u16) + data.take(limit as int)
    }
}

impl DataWriter {
    /// Writes a 4-byte big-endian length equal to the sub-package's length
    /// plus a caller-supplied header offset, then the sub-package itself.
    pub fn write_in_tlv_package(&mut self, offset: usize, sub: &[u8])
        requires
            sub@.len() + offset <= u32::MAX,
        ensures
            final(self)@ == old(self)@ + be32_of((sub@.len() + offset) as u32) + sub@,
    {
        self.write_u32_be((sub.len() + offset) as u32);
        self.write_raw(sub);
    }

    /// Writes the protocol's standard outer envelope around `body`.
    pub fn write_in_uni_package(
        &mut self,
        command_name: &str,
        session_id: &[u8],
        extra_data: &[u8],
        body: &[u8],
    )
        requires
            session_id@.len() <= 0xFFFF,
            encode_utf8(command_name@).len() + 24 + session_id@.len() + extra_data@.len()
                <= u32::MAX,
            body@.len() + 4 <= u32::MAX,
        ensures
            final(self)@ == old(self)@ + uni_package_form(
                command_name@,
                session_id@,
                extra_data@,
                body@,
            ),
    {
        let mut wt = DataWriter::new();
        wt.write_data(&command_name);
        wt.write_data(&8u32);
        wt.write_short_data(session_id);
        if extra_data.len() == 0 {
            wt.write_data(&0x04u32);
        } else {
            wt.write_data(&((extra_data.len() + 4) as u32));
            wt.write_data(&extra_data);
        }
        let inner = wt.into_bytes();
        proof {
            assert(inner@ =~= uni_inner_form(command_name@, session_id@, extra_data@));
        }
        self.write_u32_be((inner.len() + 4) as u32);
        self.write_raw(inner.as_slice());
        self.write_u32_be((body.len() + 4) as u32);
        self.write_raw(body);
        proof {
            assert(final(self)@ =~= old(self)@ + uni_package_form(
                command_name@,
                session_id@,
                extra_data@,
                body@,
            ));
        }
    }

    /// TEA-encrypts `data` under `key` and appends the ciphertext in
    /// normal (unprefixed) form. Fails exactly when the key is shorter
    /// than 16 bytes, leaving the buffer untouched.
    pub fn encrypted_write(&mut self, key: &[u8], data: &[u8]) -> (res: crate::CryptoResult<()>)
        requires
            data@.len() + 17 <= usize::MAX,
        ensures
            res is Ok <==> key@.len() >= 16,
            res is Err ==> res == Err::<(), crate::CryptoError>(
                crate::CryptoError::Size(16, key@.len() as usize),
            ) && final(self)@ == old(self)@,
            res is Ok ==> ({
                let ct = final(self)@.skip(old(self)@.len() as int);
                &&& final(self)@ == old(self)@ + ct
                &&& ct.len() == tea_cipher_len(data@.len())
                &&& tea_decrypt_ok(tea_key_spec(key@), ct)
                &&& tea_plain_of(tea_key_spec(key@), ct) == data@
                &&& exists|p: Seq<u8>|
                    p.len() == tea_fill(data@.len()) - 1 && ct == tea_encrypt_bytes(
                        tea_key_spec(key@),
                        tea_head(data@.len()),
                        p,
                        data@,
                    )
            }),
    {
        let tea = match Tea::new(key) {
            Ok(t) => t,
            Err(e) => {
                return Err(e);
            },
        };
        let ct = match tea.encrypt(data) {
            Ok(c) => c,
            Err(e) => {
                return Err(e);
            },
        };
        self.write_raw(ct.as_slice());
        proof {
            assert(final(self)@.skip(old(self)@.len() as int) =~= ct@);
            let p = choose|p: Seq<u8>|
                p.len() == tea_fill(data@.len()) - 1 && ct@ == tea_encrypt_bytes(
                    tea_key_spec(key@),
                    tea_head(data@.len()),
                    p,
                    data@,
                );
            assert(final(self)@.skip(old(self)@.len() as int) == tea_encrypt_bytes(
                tea_key_spec(key@),
                tea_head(data@.len()),
                p,
                data@,
            ));
        }
        Ok(())
    }

    /// Writes `data` in short form, silently truncated to `limit` bytes
    /// when it is longer.
    pub fn write_tlv_limited_size(&mut self, data: &[u8], limit: usize)
        requires
            data@.len() <= limit ==> data@.len() <= 0xFFFF,
            data@.len() > limit ==> limit <= 0xFFFF,
        ensures
            final(self)@ == old(self)@ + tlv_limited_form(data@, limit as nat),
    {
        if data.len() <= limit {
            self.write_short_data(data);
        } else {
            let head = vstd::slice::slice_subrange(data, 0, limit);
            self.write_short_data(head);
        }
    }
}

/// Encodes a single value in its normal form into a fresh byte buffer.
pub fn to_bytes<T: WriteTo>(data: &T) -> (r: Vec<u8>)
    requires
        data.long_writable(),
    ensures
        r@ == data.long_form(),
{
    let mut w = DataWriter::new();
    w.write_data(data);
    w.into_bytes()
}

} // verus!
