//! The TEA block cipher: a 16-round Feistel network on 64-bit blocks
//! under a 128-bit key, with CBC-like block chaining and the padding
//! scheme of the wire protocol, proved invertible end to end.
use crate::wire::{be32_from, be64_from, be64_of};
use crate::{CryptoError, CryptoResult};
use vstd::prelude::*;
use vstd::wrapping::u32_specs;

verus! {

/// The four 32-bit words of a cipher key.
pub type TeaKey = (u32, u32, u32, u32);

/// The additive constant of the round schedule.
pub open spec fn spec_delta() -> u32 {
    0x9e3779b9u32
}

/// The running sum used by round `i`: (i + 1) times the delta constant,
/// with wrapping 32-bit addition.
pub open spec fn sum_at(i: nat) -> u32
    decreases i,
{
    if i == 0 {
        spec_delta()
    } else {
        u32_specs::wrapping_add(sum_at((i - 1) as nat), spec_delta())
    }
}

/// The Feistel mixing term: combines one half with the round sum and two
/// key words, all additions wrapping.
pub open spec fn tea_mx(v: u32, ka: u32, kb: u32, sum: u32) -> u32 {
    u32_specs::wrapping_add(v, sum) ^ u32_specs::wrapping_add(v << 4, ka)
        ^ u32_specs::wrapping_add(v >> 5, kb)
}

/// One encryption round at the given round sum.
pub open spec fn enc_round(k: TeaKey, sum: u32, v: (u32, u32)) -> (u32, u32) {
    let v0 = u32_specs::wrapping_add(v.0, tea_mx(v.1, k.0, k.1, sum));
    let v1 = u32_specs::wrapping_add(v.1, tea_mx(v0, k.2, k.3, sum));
    (v0, v1)
}

/// One decryption round at the given round sum: the exact inverse of
/// [`enc_round`], with wrapping subtraction.
pub open spec fn dec_round(k: TeaKey, sum: u32, v: (u32, u32)) -> (u32, u32) {
    let v1 = u32_specs::wrapping_sub(v.1, tea_mx(v.0, k.2, k.3, sum));
    let v0 = u32_specs::wrapping_sub(v.0, tea_mx(v1, k.0, k.1, sum));
    (v0, v1)
}

/// The first `n` encryption rounds applied to `v`.
pub open spec fn enc_upto(k: TeaKey, n: nat, v: (u32, u32)) -> (u32, u32)
    decreases n,
{
    if n == 0 {
        v
    } else {
        enc_round(k, sum_at((n - 1) as nat), enc_upto(k, (n - 1) as nat, v))
    }
}

/// The inverses of the first `n` rounds, applied in reverse round order.
pub open spec fn dec_from(k: TeaKey, n: nat, v: (u32, u32)) -> (u32, u32)
    decreases n,
{
    if n == 0 {
        v
    } else {
        dec_from(k, (n - 1) as nat, dec_round(k, sum_at((n - 1) as nat), v))
    }
}

/// A decryption round undoes the encryption round at the same sum.
pub proof fn lemma_round_inverse(k: TeaKey, sum: u32, v: (u32, u32))
    ensures
        dec_round(k, sum, enc_round(k, sum, v)) == v,
{
}

/// The reversed rounds undo the first `n` rounds.
pub proof fn lemma_feistel_inverse(k: TeaKey, n: nat, v: (u32, u32))
    ensures
        dec_from(k, n, enc_upto(k, n, v)) == v,
    decreases n,
{
    if n > 0 {
        lemma_round_inverse(k, sum_at((n - 1) as nat), enc_upto(k, (n - 1) as nat, v));
        lemma_feistel_inverse(k, (n - 1) as nat, v);
    }
}

/// The high 32 bits of a block.
pub open spec fn block_hi(x: u64) -> u32 {
    (x >> 32) as u32
}

/// The low 32 bits of a block.
pub open spec fn block_lo(x: u64) -> u32 {
    (x & 0xFFFF_FFFF) as u32
}

/// The block assembled from two 32-bit halves.
pub open spec fn block_glue(v: (u32, u32)) -> u64 {
    (v.0 as u64) << 32 | (v.1 as u64)
}

/// The 16-round encryption of one 64-bit block.
pub open spec fn tea_encode_block(k: TeaKey, x: u64) -> u64 {
    block_glue(enc_upto(k, 16, (block_hi(x), block_lo(x))))
}

/// The 16-round decryption of one 64-bit block.
pub open spec fn tea_decode_block(k: TeaKey, x: u64) -> u64 {
    block_glue(dec_from(k, 16, (block_hi(x), block_lo(x))))
}

pub proof fn lemma_glue_split(v: (u32, u32))
    ensures
        block_hi(block_glue(v)) == v.0,
        block_lo(block_glue(v)) == v.1,
{
    let a = v.0;
    let b = v.1;
    assert(((a as u64) << 32 | (b as u64)) >> 32 == a as u64) by (bit_vector);
    assert(((a as u64) << 32 | (b as u64)) & 0xFFFF_FFFF == b as u64) by (bit_vector);
}

pub proof fn lemma_split_glue(x: u64)
    ensures
        block_glue((block_hi(x), block_lo(x))) == x,
{
    assert((x >> 32) << 32 | (x & 0xFFFF_FFFF) == x) by (bit_vector);
    assert(x >> 32 <= 0xFFFF_FFFFu64) by (bit_vector);
    assert(x & 0xFFFF_FFFF <= 0xFFFF_FFFFu64) by (bit_vector);
    assert(((x >> 32) as u32) as u64 == x >> 32);
    assert(((x & 0xFFFF_FFFF) as u32) as u64 == x & 0xFFFF_FFFF);
}

/// Decrypting an encrypted block under the same key gives the block back.
pub proof fn lemma_block_inverse(k: TeaKey, x: u64)
    ensures
        tea_decode_block(k, tea_encode_block(k, x)) == x,
{
    let v = (block_hi(x), block_lo(x));
    lemma_glue_split(enc_upto(k, 16, v));
    lemma_feistel_inverse(k, 16, v);
    lemma_split_glue(x);
}

/// The cipher: a key of exactly four 32-bit words.
pub struct Tea {
    k: [u32; 4],
}

/// The key words carried by the first 16 bytes of a key, big-endian.
pub open spec fn tea_key_spec(key: Seq<u8>) -> TeaKey
    recommends
        key.len() >= 16,
{
    (be32_from(key), be32_from(key.skip(4)), be32_from(key.skip(8)), be32_from(key.skip(12)))
}

impl Tea {
    /// The four key words.
    pub closed spec fn key(&self) -> TeaKey {
        (self.k[0], self.k[1], self.k[2], self.k[3])
    }

    /// Builds a cipher from the first 16 bytes of `key`; fails when fewer
    /// than 16 bytes are supplied.
    pub fn new(key: &[u8]) -> (res: CryptoResult<Tea>)
        ensures
            key@.len() < 16 ==> res == Err::<Tea, CryptoError>(
                CryptoError::Size(16, key@.len() as usize),
            ),
            key@.len() >= 16 ==> (res matches Ok(t) && t.key() == tea_key_spec(key@)),
    {
        if key.len() < 16 {
            return Err(CryptoError::Size(16, key.len()));
        }
        let w0 = (key[0] as u32) << 24 | (key[1] as u32) << 16 | (key[2] as u32) << 8 | (
        key[3] as u32);
        let w1 = (key[4] as u32) << 24 | (key[5] as u32) << 16 | (key[6] as u32) << 8 | (
        key[7] as u32);
        let w2 = (key[8] as u32) << 24 | (key[9] as u32) << 16 | (key[10] as u32) << 8 | (
        key[11] as u32);
        let w3 = (key[12] as u32) << 24 | (key[13] as u32) << 16 | (key[14] as u32) << 8 | (
        key[15] as u32);
        proof {
            assert(key@.skip(4)[0] == key@[4] && key@.skip(4)[1] == key@[5] && key@.skip(4)[2]
                == key@[6] && key@.skip(4)[3] == key@[7]);
            assert(key@.skip(8)[0] == key@[8] && key@.skip(8)[1] == key@[9] && key@.skip(8)[2]
                == key@[10] && key@.skip(8)[3] == key@[11]);
            assert(key@.skip(12)[0] == key@[12] && key@.skip(12)[1] == key@[13] && key@.skip(12)[2]
                == key@[14] && key@.skip(12)[3] == key@[15]);
        }
        Ok(Tea { k: [w0, w1, w2, w3] })
    }

    /// Encrypts one 64-bit block.
    pub fn encode(&self, src: u64) -> (r: u64)
        ensures
            r == tea_encode_block(self.key(), src),
    {
        proof {
            assert(src >> 32 <= 0xFFFF_FFFFu64) by (bit_vector);
            assert(src & 0xFFFF_FFFF <= 0xFFFF_FFFFu64) by (bit_vector);
        }
        let mut v0: u32 = (src >> 32) as u32;
        let mut v1: u32 = (src & 0xFFFF_FFFF) as u32;
        let k0 = self.k[0];
        let k1 = self.k[1];
        let k2 = self.k[2];
        let k3 = self.k[3];
        let mut sum: u32 = 0;
        let mut r: usize = 0;
        while r < 16
            invariant
                r <= 16,
                (k0, k1, k2, k3) == self.key(),
                (v0, v1) == enc_upto(self.key(), r as nat, (block_hi(src), block_lo(src))),
                sum == if r == 0 {
                    0u32
                } else {
                    sum_at((r - 1) as nat)
                },
            decreases 16 - r,
        {
            sum = sum.wrapping_add(0x9e3779b9);
            proof {
                assert(sum == sum_at(r as nat));
            }
            v0 = v0.wrapping_add(
                v1.wrapping_add(sum) ^ (v1 << 4).wrapping_add(k0) ^ (v1 >> 5).wrapping_add(k1),
            );
            v1 = v1.wrapping_add(
                v0.wrapping_add(sum) ^ (v0 << 4).wrapping_add(k2) ^ (v0 >> 5).wrapping_add(k3),
            );
            r = r + 1;
        }
        let out: u64 = (v0 as u64) << 32 | (v1 as u64);
        proof {
            assert(out == block_glue((v0, v1)));
        }
        out
    }

    /// Decrypts one 64-bit block.
    pub fn decode(&self, src: u64) -> (r: u64)
        ensures
            r == tea_decode_block(self.key(), src),
    {
        proof {
            assert(src >> 32 <= 0xFFFF_FFFFu64) by (bit_vector);
            assert(src & 0xFFFF_FFFF <= 0xFFFF_FFFFu64) by (bit_vector);
        }
        let mut v0: u32 = (src >> 32) as u32;
        let mut v1: u32 = (src & 0xFFFF_FFFF) as u32;
        let k0 = self.k[0];
        let k1 = self.k[1];
        let k2 = self.k[2];
        let k3 = self.k[3];
        let mut r: usize = 16;
        while r > 0
            invariant
                r <= 16,
                (k0, k1, k2, k3) == self.key(),
                dec_from(self.key(), r as nat, (v0, v1)) == dec_from(
                    self.key(),
                    16,
                    (block_hi(src), block_lo(src)),
                ),
            decreases r,
        {
            let sum = sum_at_exec(r - 1);
            v1 = v1.wrapping_sub(
                v0.wrapping_add(sum) ^ (v0 << 4).wrapping_add(k2) ^ (v0 >> 5).wrapping_add(k3),
            );
            v0 = v0.wrapping_sub(
                v1.wrapping_add(sum) ^ (v1 << 4).wrapping_add(k0) ^ (v1 >> 5).wrapping_add(k1),
            );
            r = r - 1;
        }
        let out: u64 = (v0 as u64) << 32 | (v1 as u64);
        proof {
            assert(out == block_glue((v0, v1)));
        }
        out
    }
}

/// The ciphertext blocks of the given plaintext blocks under CBC-like
/// chaining: each block is XORed with the previous ciphertext block,
/// encrypted, then XORed with the previous pre-encryption value.
pub open spec fn enc_chain(k: TeaKey, blocks: Seq<u64>, tr: u64, to: u64) -> Seq<u64>
    decreases blocks.len(),
{
    if blocks.len() == 0 {
        Seq::empty()
    } else {
        let buff = blocks[0] ^ tr;
        let c = tea_encode_block(k, buff) ^ to;
        seq![c] + enc_chain(k, blocks.skip(1), c, buff)
    }
}

/// The inverse chaining: XOR with the running value, decrypt, XOR with
/// the previous raw ciphertext block.
pub open spec fn dec_chain(k: TeaKey, cts: Seq<u64>, v2: u64, holder: u64) -> Seq<u64>
    decreases cts.len(),
{
    if cts.len() == 0 {
        Seq::empty()
    } else {
        let d = tea_decode_block(k, v2 ^ cts[0]);
        seq![d ^ holder] + dec_chain(k, cts.skip(1), d, cts[0])
    }
}

pub proof fn lemma_enc_chain_len(k: TeaKey, blocks: Seq<u64>, tr: u64, to: u64)
    ensures
        enc_chain(k, blocks, tr, to).len() == blocks.len(),
    decreases blocks.len(),
{
    if blocks.len() > 0 {
        let buff = blocks[0] ^ tr;
        let c = tea_encode_block(k, buff) ^ to;
        lemma_enc_chain_len(k, blocks.skip(1), c, buff);
    }
}

pub proof fn lemma_dec_chain_len(k: TeaKey, cts: Seq<u64>, v2: u64, holder: u64)
    ensures
        dec_chain(k, cts, v2, holder).len() == cts.len(),
    decreases cts.len(),
{
    if cts.len() > 0 {
        let d = tea_decode_block(k, v2 ^ cts[0]);
        lemma_dec_chain_len(k, cts.skip(1), d, cts[0]);
    }
}

/// The inverse chaining undoes the chaining, block for block.
pub proof fn lemma_chain_inverse(k: TeaKey, blocks: Seq<u64>, tr: u64, to: u64)
    ensures
        dec_chain(k, enc_chain(k, blocks, tr, to), to, tr) == blocks,
    decreases blocks.len(),
{
    if blocks.len() == 0 {
        assert(dec_chain(k, enc_chain(k, blocks, tr, to), to, tr) =~= blocks);
    } else {
        let b = blocks[0];
        let buff = b ^ tr;
        let c = tea_encode_block(k, buff) ^ to;
        let cts = enc_chain(k, blocks, tr, to);
        assert(cts[0] == c);
        assert(cts.skip(1) =~= enc_chain(k, blocks.skip(1), c, buff));
        let e = tea_encode_block(k, buff);
        assert(to ^ (e ^ to) == e) by (bit_vector);
        lemma_block_inverse(k, buff);
        assert(tea_decode_block(k, to ^ cts[0]) == buff);
        assert((b ^ tr) ^ tr == b) by (bit_vector);
        lemma_chain_inverse(k, blocks.skip(1), c, buff);
        assert(dec_chain(k, cts, to, tr) =~= blocks);
    }
}

/// The 64-bit blocks carried by a byte sequence, 8 big-endian bytes each.
pub open spec fn blocks_of(b: Seq<u8>) -> Seq<u64> {
    Seq::new((b.len() / 8) as nat, |i: int| be64_from(b.subrange(8 * i, 8 * i + 8)))
}

/// The bytes of a sequence of 64-bit blocks, 8 big-endian bytes each.
pub open spec fn bytes_of_blocks(ws: Seq<u64>) -> Seq<u8>
    decreases ws.len(),
{
    if ws.len() == 0 {
        Seq::empty()
    } else {
        be64_of(ws[0]) + bytes_of_blocks(ws.skip(1))
    }
}

pub proof fn lemma_bytes_of_blocks_len(ws: Seq<u64>)
    ensures
        bytes_of_blocks(ws).len() == 8 * ws.len(),
    decreases ws.len(),
{
    if ws.len() > 0 {
        lemma_bytes_of_blocks_len(ws.skip(1));
    }
}

pub proof fn lemma_bytes_of_blocks_push(ws: Seq<u64>, w: u64)
    ensures
        bytes_of_blocks(ws.push(w)) == bytes_of_blocks(ws) + be64_of(w),
    decreases ws.len(),
{
    if ws.len() == 0 {
        assert(ws.push(w)[0] == w);
        assert(ws.push(w).skip(1) =~= Seq::<u64>::empty());
        assert(bytes_of_blocks(Seq::<u64>::empty()) == Seq::<u8>::empty());
        assert(bytes_of_blocks(ws.push(w).skip(1)) == Seq::<u8>::empty());
        assert(bytes_of_blocks(ws.push(w)) =~= bytes_of_blocks(ws) + be64_of(w));
    } else {
        lemma_bytes_of_blocks_push(ws.skip(1), w);
        lemma_bytes_of_blocks_len(ws);
        lemma_bytes_of_blocks_len(ws.skip(1));
        lemma_bytes_of_blocks_len(ws.push(w));
        assert(ws.push(w)[0] == ws[0]);
        assert(ws.push(w).skip(1) =~= ws.skip(1).push(w));
        assert(bytes_of_blocks(ws.push(w).skip(1)) == bytes_of_blocks(ws.skip(1).push(w)));
        assert(bytes_of_blocks(ws.push(w)) =~= bytes_of_blocks(ws) + be64_of(w));
    }
}

/// Reading blocks back from written blocks is the identity.
pub proof fn lemma_blocks_of_bytes_of(ws: Seq<u64>)
    ensures
        blocks_of(bytes_of_blocks(ws)) == ws,
    decreases ws.len(),
{
    lemma_bytes_of_blocks_len(ws);
    let b = bytes_of_blocks(ws);
    if ws.len() == 0 {
        assert(blocks_of(b) =~= ws);
    } else {
        let rest = bytes_of_blocks(ws.skip(1));
        lemma_bytes_of_blocks_len(ws.skip(1));
        lemma_blocks_of_bytes_of(ws.skip(1));
        assert(b.subrange(0, 8) =~= be64_of(ws[0]));
        crate::wire::lemma_be64_of_from(ws[0]);
        assert(blocks_of(b)[0] == ws[0]);
        assert forall|i: int| 1 <= i < ws.len() implies blocks_of(b)[i] == ws[i] by {
            assert(b.subrange(8 * i, 8 * i + 8) =~= rest.subrange(8 * (i - 1), 8 * (i - 1) + 8));
            assert(blocks_of(rest)[i - 1] == ws.skip(1)[i - 1]);
        }
        assert(blocks_of(b) =~= ws);
    }
}

/// Writing the blocks read from aligned bytes is the identity.
pub proof fn lemma_bytes_of_blocks_of(b: Seq<u8>)
    requires
        b.len() % 8 == 0,
    ensures
        bytes_of_blocks(blocks_of(b)) == b,
    decreases b.len(),
{
    if b.len() == 0 {
        assert(bytes_of_blocks(blocks_of(b)) =~= b);
    } else {
        let ws = blocks_of(b);
        let tail = b.skip(8);
        lemma_bytes_of_blocks_of(tail);
        assert(ws[0] == be64_from(b.subrange(0, 8)));
        crate::wire::lemma_be64_from_of(b.subrange(0, 8));
        assert(ws.skip(1) =~= blocks_of(tail)) by {
            assert forall|i: int| 0 <= i < ws.len() - 1 implies ws.skip(1)[i] == blocks_of(tail)[i]
            by {
                assert(b.subrange(8 * (i + 1), 8 * (i + 1) + 8) =~= tail.subrange(
                    8 * i,
                    8 * i + 8,
                ));
            }
        }
        assert(bytes_of_blocks(ws) =~= b);
    }
}

/// The random-padding length for a plaintext of `n` bytes.
pub open spec fn tea_fill(n: nat) -> nat {
    (10 - (n + 1) % 8) as nat
}

/// The ciphertext length for a plaintext of `n` bytes.
pub open spec fn tea_cipher_len(n: nat) -> nat {
    tea_fill(n) + n + 7
}

/// The format byte: top three bits set, low bits the padding length
/// minus 3.
pub open spec fn tea_head(n: nat) -> u8 {
    ((tea_fill(n) - 3) as u8) | 0xF8
}

/// The ciphertext length is the plaintext length rounded into the padding
/// scheme: a multiple of 8, at least 16 bytes, and at least 10 bytes more
/// than the plaintext.
pub proof fn lemma_cipher_len(n: nat)
    ensures
        tea_cipher_len(n) % 8 == 0,
        tea_cipher_len(n) == 8 * ((n + 1) / 8) + 16,
        16 <= tea_cipher_len(n),
        n + 10 <= tea_cipher_len(n) <= n + 17,
        3 <= tea_fill(n) <= 10,
{
    assert(8 * ((n + 1) / 8) + (n + 1) % 8 == n + 1);
}

/// The buffer that is chained through the cipher: the format byte, the
/// random padding, the plaintext, and seven trailing zero bytes.
pub open spec fn tea_padded(head: u8, pad: Seq<u8>, src: Seq<u8>) -> Seq<u8> {
    seq![head] + pad + src + seq![0u8, 0u8, 0u8, 0u8, 0u8, 0u8, 0u8]
}

/// The full encryption of `src` with the given format byte and padding.
pub open spec fn tea_encrypt_bytes(k: TeaKey, head: u8, pad: Seq<u8>, src: Seq<u8>) -> Seq<u8> {
    bytes_of_blocks(enc_chain(k, blocks_of(tea_padded(head, pad, src)), 0, 0))
}

/// The decrypted byte stream of an aligned ciphertext, before extraction.
pub open spec fn tea_deciphered(k: TeaKey, data: Seq<u8>) -> Seq<u8> {
    bytes_of_blocks(dec_chain(k, blocks_of(data), 0, 0))
}

/// True when an aligned ciphertext's decrypted stream yields a plaintext
/// range that lies inside the buffer.
pub open spec fn tea_decrypt_ok(k: TeaKey, data: Seq<u8>) -> bool {
    &&& data.len() >= 16
    &&& data.len() % 8 == 0
    &&& (tea_deciphered(k, data)[0] & 7) + 3 <= data.len() - 7
}

/// The plaintext recovered from an aligned ciphertext: the decrypted
/// stream between the padding (whose length the first byte encodes) and
/// the seven trailing bytes.
pub open spec fn tea_plain_of(k: TeaKey, data: Seq<u8>) -> Seq<u8>
    recommends
        tea_decrypt_ok(k, data),
{
    let outs = tea_deciphered(k, data);
    outs.subrange(((outs[0] & 7) + 3) as int, data.len() - 7)
}

/// Decrypting an encryption of `src` recovers exactly `src`, whatever
/// random padding the encryption drew.
pub proof fn lemma_tea_round_trip(k: TeaKey, pad: Seq<u8>, src: Seq<u8>)
    requires
        pad.len() == tea_fill(src.len()) - 1,
    ensures
        tea_encrypt_bytes(k, tea_head(src.len()), pad, src).len() == tea_cipher_len(src.len()),
        tea_decrypt_ok(k, tea_encrypt_bytes(k, tea_head(src.len()), pad, src)),
        tea_plain_of(k, tea_encrypt_bytes(k, tea_head(src.len()), pad, src)) == src,
{
    lemma_cipher_len(src.len());
    let n = src.len();
    let fill = tea_fill(n);
    let head = tea_head(n);
    let padded = tea_padded(head, pad, src);
    assert(padded.len() == tea_cipher_len(n));
    let blocks = blocks_of(padded);
    assert(blocks.len() == padded.len() / 8);
    let cts = enc_chain(k, blocks, 0, 0);
    lemma_enc_chain_len(k, blocks, 0, 0);
    let ct = bytes_of_blocks(cts);
    lemma_bytes_of_blocks_len(cts);
    assert(ct.len() == tea_cipher_len(n));
    // the decrypted stream is the padded buffer again
    lemma_blocks_of_bytes_of(cts);
    lemma_chain_inverse(k, blocks, 0, 0);
    lemma_bytes_of_blocks_of(padded);
    assert(tea_deciphered(k, ct) == padded);
    // the first byte encodes the padding length
    assert(padded[0] == head);
    let f: u8 = (fill - 3) as u8;
    assert(f <= 7 ==> ((f | 0xF8) & 7) == f) by (bit_vector);
    assert((head & 7) + 3 == fill);
    // extraction yields exactly the plaintext
    assert(padded.subrange(fill as int, padded.len() - 7) =~= src);
}

/// Relies on `rand::thread_rng` and `RngCore::fill_bytes`: `n`
/// cryptographically secure random bytes; only the length is promised.
#[verifier::external_body]
fn random_bytes(n: usize) -> (r: Vec<u8>)
    ensures
        r@.len() == n,
{
    let mut v = vec![0u8; n];
    rand::RngCore::fill_bytes(&mut rand::thread_rng(), v.as_mut_slice());
    v
}

impl Tea {
    /// Encrypts `src`: pads it with the format byte, random padding and
    /// seven zero bytes, then chains the block cipher over the buffer.
    /// Whatever padding was drawn, decrypting the result recovers `src`.
    pub fn encrypt(&self, src: &[u8]) -> (res: CryptoResult<Vec<u8>>)
        requires
            src@.len() + 17 <= usize::MAX,
        ensures
            res is Ok,
            res matches Ok(ct) ==> ct@.len() == tea_cipher_len(src@.len()) && tea_decrypt_ok(
                self.key(),
                ct@,
            ) && tea_plain_of(self.key(), ct@) == src@,
            res matches Ok(ct) ==> exists|p: Seq<u8>|
                p.len() == tea_fill(src@.len()) - 1 && ct@ == tea_encrypt_bytes(
                    self.key(),
                    tea_head(src@.len()),
                    p,
                    src@,
                ),
    {
        proof {
            lemma_cipher_len(src@.len());
        }
        let n = src.len();
        let fill: usize = 10 - (n + 1) % 8;
        let total: usize = fill + n + 7;
        let head: u8 = ((fill - 3) as u8) | 0xF8;
        let pad = random_bytes(fill - 1);
        let mut dst: Vec<u8> = Vec::with_capacity(total);
        dst.push(head);
        dst.extend_from_slice(pad.as_slice());
        dst.extend_from_slice(src);
        dst.push(0);
        dst.push(0);
        dst.push(0);
        dst.push(0);
        dst.push(0);
        dst.push(0);
        dst.push(0);
        proof {
            assert(dst@ =~= tea_padded(head, pad@, src@));
            assert(head == tea_head(src@.len()));
            lemma_tea_round_trip(self.key(), pad@, src@);
        }
        let ghost k = self.key();
        let ghost blocks = blocks_of(dst@);
        let nb = total / 8;
        let mut out: Vec<u8> = Vec::with_capacity(total);
        let mut tr: u64 = 0;
        let mut to: u64 = 0;
        let ghost mut obs: Seq<u64> = Seq::empty();
        let mut i: usize = 0;
        proof {
            assert(blocks.skip(0) =~= blocks);
            assert(obs + enc_chain(k, blocks, 0, 0) =~= enc_chain(k, blocks, 0, 0));
        }
        while i < nb
            invariant
                i <= nb,
                nb == blocks.len(),
                k == self.key(),
                blocks == blocks_of(dst@),
                dst@.len() == 8 * nb,
                8 * nb == total,
                enc_chain(k, blocks, 0, 0) == obs + enc_chain(k, blocks.skip(i as int), tr, to),
                obs.len() == i,
                out@ == bytes_of_blocks(obs),
            decreases nb - i,
        {
            let base = 8 * i;
            let b: u64 = (dst[base] as u64) << 56 | (dst[base + 1] as u64) << 48 | (dst[base
                + 2] as u64) << 40 | (dst[base + 3] as u64) << 32 | (dst[base + 4] as u64) << 24 | (
            dst[base + 5] as u64) << 16 | (dst[base + 6] as u64) << 8 | (dst[base + 7] as u64);
            proof {
                let ii = i as int;
                let sub = dst@.subrange(8 * ii, 8 * ii + 8);
                assert(sub[0] == dst@[8 * ii] && sub[1] == dst@[8 * ii + 1] && sub[2] == dst@[8 * ii
                    + 2] && sub[3] == dst@[8 * ii + 3] && sub[4] == dst@[8 * ii + 4] && sub[5]
                    == dst@[8 * ii + 5] && sub[6] == dst@[8 * ii + 6] && sub[7] == dst@[8 * ii
                    + 7]);
                assert(b == blocks[ii]);
            }
            let buff = b ^ tr;
            let c = self.encode(buff) ^ to;
            proof {
                assert(((c >> 56) & 0xFF) < 256 && ((c >> 48) & 0xFF) < 256 && ((c >> 40) & 0xFF)
                    < 256 && ((c >> 32) & 0xFF) < 256 && ((c >> 24) & 0xFF) < 256 && ((c >> 16)
                    & 0xFF) < 256 && ((c >> 8) & 0xFF) < 256 && (c & 0xFF) < 256) by (bit_vector);
            }
            out.push(((c >> 56) & 0xFF) as u8);
            out.push(((c >> 48) & 0xFF) as u8);
            out.push(((c >> 40) & 0xFF) as u8);
            out.push(((c >> 32) & 0xFF) as u8);
            out.push(((c >> 24) & 0xFF) as u8);
            out.push(((c >> 16) & 0xFF) as u8);
            out.push(((c >> 8) & 0xFF) as u8);
            out.push((c & 0xFF) as u8);
            proof {
                let ii = i as int;
                assert(blocks.skip(ii)[0] == blocks[ii]);
                assert(blocks.skip(ii).skip(1) =~= blocks.skip(ii + 1));
                assert(enc_chain(k, blocks.skip(ii), tr, to) == seq![c] + enc_chain(
                    k,
                    blocks.skip(ii + 1),
                    c,
                    buff,
                ));
                lemma_bytes_of_blocks_push(obs, c);
                let obs2 = obs.push(c);
                assert(obs + (seq![c] + enc_chain(k, blocks.skip(ii + 1), c, buff)) =~= obs2
                    + enc_chain(k, blocks.skip(ii + 1), c, buff));
                assert(out@ =~= bytes_of_blocks(obs2));
                obs = obs2;
            }
            to = buff;
            tr = c;
            i = i + 1;
        }
        proof {
            assert(blocks.skip(nb as int) =~= Seq::<u64>::empty());
            assert(obs + Seq::<u64>::empty() =~= obs);
            assert(out@ == tea_encrypt_bytes(k, head, pad@, src@));
            assert(pad@.len() == tea_fill(src@.len()) - 1 && out@ == tea_encrypt_bytes(
                self.key(),
                tea_head(src@.len()),
                pad@,
                src@,
            ));
        }
        Ok(out)
    }

    /// Decrypts an encrypted buffer. Fails on a length under 16 bytes or
    /// not a multiple of 8, and on a decrypted padding marker that points
    /// outside the buffer; otherwise returns exactly the plaintext slice
    /// between the padding and the seven trailing bytes.
    pub fn decrypt(&self, data: &[u8]) -> (res: CryptoResult<Vec<u8>>)
        ensures
            (data@.len() < 16 || data@.len() % 8 != 0) <==> res == Err::<Vec<u8>, CryptoError>(
                CryptoError::GroupAble(data@.len() as usize),
            ),
            tea_decrypt_ok(self.key(), data@) ==> (res matches Ok(v) && v@ == tea_plain_of(
                self.key(),
                data@,
            )),
            (data@.len() >= 16 && data@.len() % 8 == 0 && !tea_decrypt_ok(self.key(), data@))
                ==> res == Err::<Vec<u8>, CryptoError>(
                CryptoError::Size(
                    ((tea_deciphered(self.key(), data@)[0] & 7) + 3) as usize,
                    (data@.len() - 7) as usize,
                ),
            ),
    {
        let n = data.len();
        if n < 16 || n % 8 != 0 {
            return Err(CryptoError::GroupAble(n));
        }
        let ghost k = self.key();
        let ghost cts = blocks_of(data@);
        let nb = n / 8;
        let mut out: Vec<u8> = Vec::with_capacity(n);
        let mut v2: u64 = 0;
        let mut holder: u64 = 0;
        let ghost mut obs: Seq<u64> = Seq::empty();
        let mut i: usize = 0;
        proof {
            assert(cts.skip(0) =~= cts);
            assert(obs + dec_chain(k, cts, 0, 0) =~= dec_chain(k, cts, 0, 0));
        }
        while i < nb
            invariant
                i <= nb,
                nb == cts.len(),
                k == self.key(),
                cts == blocks_of(data@),
                data@.len() == 8 * nb,
                8 * nb == n,
                dec_chain(k, cts, 0, 0) == obs + dec_chain(k, cts.skip(i as int), v2, holder),
                obs.len() == i,
                out@ == bytes_of_blocks(obs),
            decreases nb - i,
        {
            let base = 8 * i;
            let c: u64 = (data[base] as u64) << 56 | (data[base + 1] as u64) << 48 | (data[base
                + 2] as u64) << 40 | (data[base + 3] as u64) << 32 | (data[base + 4] as u64) << 24
                | (data[base + 5] as u64) << 16 | (data[base + 6] as u64) << 8 | (data[base
                + 7] as u64);
            proof {
                let ii = i as int;
                let sub = data@.subrange(8 * ii, 8 * ii + 8);
                assert(sub[0] == data@[8 * ii] && sub[1] == data@[8 * ii + 1] && sub[2] == data@[8
                    * ii + 2] && sub[3] == data@[8 * ii + 3] && sub[4] == data@[8 * ii + 4]
                    && sub[5] == data@[8 * ii + 5] && sub[6] == data@[8 * ii + 6] && sub[7]
                    == data@[8 * ii + 7]);
                assert(c == cts[ii]);
            }
            let d = self.decode(v2 ^ c);
            let w = d ^ holder;
            proof {
                assert(((w >> 56) & 0xFF) < 256 && ((w >> 48) & 0xFF) < 256 && ((w >> 40) & 0xFF)
                    < 256 && ((w >> 32) & 0xFF) < 256 && ((w >> 24) & 0xFF) < 256 && ((w >> 16)
                    & 0xFF) < 256 && ((w >> 8) & 0xFF) < 256 && (w & 0xFF) < 256) by (bit_vector);
            }
            out.push(((w >> 56) & 0xFF) as u8);
            out.push(((w >> 48) & 0xFF) as u8);
            out.push(((w >> 40) & 0xFF) as u8);
            out.push(((w >> 32) & 0xFF) as u8);
            out.push(((w >> 24) & 0xFF) as u8);
            out.push(((w >> 16) & 0xFF) as u8);
            out.push(((w >> 8) & 0xFF) as u8);
            out.push((w & 0xFF) as u8);
            proof {
                let ii = i as int;
                assert(cts.skip(ii)[0] == cts[ii]);
                assert(cts.skip(ii).skip(1) =~= cts.skip(ii + 1));
                assert(dec_chain(k, cts.skip(ii), v2, holder) == seq![w] + dec_chain(
                    k,
                    cts.skip(ii + 1),
                    d,
                    c,
                ));
                lemma_bytes_of_blocks_push(obs, w);
                let obs2 = obs.push(w);
                assert(obs + (seq![w] + dec_chain(k, cts.skip(ii + 1), d, c)) =~= obs2 + dec_chain(
                    k,
                    cts.skip(ii + 1),
                    d,
                    c,
                ));
                assert(out@ =~= bytes_of_blocks(obs2));
                obs = obs2;
            }
            v2 = d;
            holder = c;
            i = i + 1;
        }
        proof {
            assert(cts.skip(nb as int) =~= Seq::<u64>::empty());
            assert(obs + Seq::<u64>::empty() =~= obs);
            assert(out@ == tea_deciphered(k, data@));
            lemma_dec_chain_len(k, cts, 0, 0);
            lemma_bytes_of_blocks_len(dec_chain(k, cts, 0, 0));
            assert(out@.len() == data@.len());
        }
        let first = out[0];
        proof {
            assert((first & 7) <= 7) by (bit_vector);
        }
        let start: usize = ((first & 7) + 3) as usize;
        if start > n - 7 {
            return Err(CryptoError::Size(start, n - 7));
        }
        let plain_slice = vstd::slice::slice_subrange(out.as_slice(), start, n - 7);
        let plain = vstd::slice::slice_to_vec(plain_slice);
        proof {
            assert(plain@ == tea_plain_of(k, data@));
        }
        Ok(plain)
    }
}

/// The round sum for round `i`, computed by repeated wrapping addition.
pub fn sum_at_exec(i: usize) -> (r: u32)
    requires
        i < 16,
    ensures
        r == sum_at(i as nat),
{
    let mut sum: u32 = 0x9e3779b9;
    let mut j: usize = 0;
    while j < i
        invariant
            j <= i,
            sum == sum_at(j as nat),
        decreases i - j,
    {
        sum = sum.wrapping_add(0x9e3779b9);
        j = j + 1;
    }
    sum
}

} // verus!
