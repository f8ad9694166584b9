//! Protobuf-compatible variable-length integer encoding: little-endian
//! base-128 varints for unsigned values, the zig-zag transform for signed
//! ones, and the round-trip laws tying encoding and decoding together.
use vstd::prelude::*;

verus! {

/// The base-128 varint encoding of `n`: 7 payload bits per byte, low
/// group first, continuation bit set on every byte but the last.
pub open spec fn uvarint_bytes(n: u64) -> Seq<u8>
    decreases n,
{
    if n < 0x80 {
        seq![n as u8]
    } else {
        seq![((n % 0x80) + 0x80) as u8] + uvarint_bytes(n / 0x80)
    }
}

/// Parse of a varint from the front of `data`: the value and the bytes
/// consumed, or `None` on empty input, a truncated varint, or a value
/// that does not fit 64 bits.
pub open spec fn uvarint_parse(data: Seq<u8>) -> Option<(u64, nat)>
    decreases data.len(),
{
    if data.len() == 0 {
        None
    } else {
        let b = data[0];
        if b < 0x80 {
            Some((b as u64, 1nat))
        } else {
            match uvarint_parse(data.skip(1)) {
                None => None,
                Some((v, used)) => {
                    if (b - 0x80) + 0x80 * v > u64::MAX {
                        None
                    } else {
                        Some((((b - 0x80) + 0x80 * v) as u64, used + 1))
                    }
                },
            }
        }
    }
}

/// The zig-zag transform: maps small-magnitude signed values to small
/// unsigned ones (0 to 0, -1 to 1, 1 to 2, -2 to 3, ...).
pub open spec fn zigzag(n: i64) -> u64 {
    if n >= 0 {
        (2 * n) as u64
    } else {
        (-2 * n - 1) as u64
    }
}

/// The inverse of the zig-zag transform.
pub open spec fn unzigzag(u: u64) -> i64 {
    if u % 2 == 0 {
        (u / 2) as i64
    } else {
        (-(u / 2) - 1) as i64
    }
}

/// The encoding of a signed value: the varint of its zig-zag transform.
pub open spec fn svarint_bytes(n: i64) -> Seq<u8> {
    uvarint_bytes(zigzag(n))
}

/// Parse of a signed varint from the front of `data`.
pub open spec fn svarint_parse(data: Seq<u8>) -> Option<(i64, nat)> {
    match uvarint_parse(data) {
        None => None,
        Some((u, used)) => Some((unzigzag(u), used)),
    }
}

/// A parsed varint consumes at least one and at most all of the bytes.
pub proof fn lemma_uvarint_parse_len(data: Seq<u8>)
    ensures
        uvarint_parse(data) matches Some(p) ==> 1 <= p.1 <= data.len(),
    decreases data.len(),
{
    if data.len() > 0 && data[0] >= 0x80 {
        lemma_uvarint_parse_len(data.skip(1));
    }
}

/// Decoding an encoded unsigned varint, with anything after it, yields
/// the value encoded.
pub proof fn lemma_uvarint_round_trip(n: u64, rest: Seq<u8>)
    ensures
        uvarint_parse(uvarint_bytes(n) + rest) == Some((n, uvarint_bytes(n).len())),
    decreases n,
{
    let data = uvarint_bytes(n) + rest;
    if n < 0x80 {
        assert(data[0] == n as u8);
    } else {
        assert(data[0] == ((n % 0x80) + 0x80) as u8);
        assert(data.skip(1) =~= uvarint_bytes(n / 0x80) + rest);
        lemma_uvarint_round_trip(n / 0x80, rest);
        assert((data[0] - 0x80) + 0x80 * (n / 0x80) == n);
    }
}

/// The zig-zag transform is invertible.
pub proof fn lemma_zigzag_round_trip(n: i64)
    ensures
        unzigzag(zigzag(n)) == n,
{
}

/// Decoding an encoded signed varint, with anything after it, yields the
/// value encoded.
pub proof fn lemma_svarint_round_trip(n: i64, rest: Seq<u8>)
    ensures
        svarint_parse(svarint_bytes(n) + rest) == Some((n, svarint_bytes(n).len())),
{
    lemma_uvarint_round_trip(zigzag(n), rest);
    lemma_zigzag_round_trip(n);
}

/// Encodes `n` as a base-128 varint.
pub fn encode_uvarint(n: u64) -> (r: Vec<u8>)
    ensures
        r@ == uvarint_bytes(n),
{
    let mut out: Vec<u8> = Vec::new();
    let mut ld: u64 = n;
    while ld >= 0x80
        invariant
            out@ + uvarint_bytes(ld) == uvarint_bytes(n),
        decreases ld,
    {
        out.push(((ld % 0x80) + 0x80) as u8);
        proof {
            assert(out@ + uvarint_bytes(ld / 0x80) =~= uvarint_bytes(n));
        }
        ld = ld / 0x80;
    }
    out.push(ld as u8);
    proof {
        assert(out@ =~= uvarint_bytes(n));
    }
    out
}

/// Encodes `n` with the zig-zag transform, then as a varint.
pub fn encode_svarint(n: i64) -> (r: Vec<u8>)
    ensures
        r@ == svarint_bytes(n),
{
    let u: u64 = if n >= 0 {
        (n as u64) * 2
    } else {
        let m: i64 = -(n + 1);
        (m as u64) * 2 + 1
    };
    encode_uvarint(u)
}

/// Decodes a base-128 varint from the front of `data`: the value and the
/// number of bytes consumed.
pub fn decode_uvarint(data: &[u8]) -> (res: Option<(u64, usize)>)
    ensures
        res is Some <==> uvarint_parse(data@) is Some,
        res matches Some(p) ==> uvarint_parse(data@) == Some((p.0, p.1 as nat)),
    decreases data@.len(),
{
    if data.len() == 0 {
        return None;
    }
    let b = data[0];
    if b < 0x80 {
        Some((b as u64, 1))
    } else {
        let rest = vstd::slice::slice_subrange(data, 1, data.len());
        proof {
            assert(rest@ =~= data@.skip(1));
            lemma_uvarint_parse_len(rest@);
        }
        match decode_uvarint(rest) {
            None => None,
            Some((v, used)) => {
                let low: u64 = (b - 0x80) as u64;
                if v > (u64::MAX - low) / 0x80 {
                    proof {
                        assert(low + 0x80 * v > u64::MAX) by (nonlinear_arith)
                            requires
                                v > (u64::MAX - low) / 0x80,
                                low <= 0x7F,
                        ;
                    }
                    None
                } else {
                    proof {
                        assert(low + 0x80 * v <= u64::MAX) by (nonlinear_arith)
                            requires
                                v <= (u64::MAX - low) / 0x80,
                                low <= 0x7F,
                        ;
                    }
                    Some((low + 0x80 * v, used + 1))
                }
            },
        }
    }
}

/// Decodes a zig-zag signed varint from the front of `data`.
pub fn decode_svarint(data: &[u8]) -> (res: Option<(i64, usize)>)
    ensures
        res is Some <==> svarint_parse(data@) is Some,
        res matches Some(p) ==> svarint_parse(data@) == Some((p.0, p.1 as nat)),
{
    match decode_uvarint(data) {
        None => None,
        Some((u, used)) => {
            let v: i64 = if u % 2 == 0 {
                (u / 2) as i64
            } else {
                -((u / 2) as i64) - 1
            };
            Some((v, used))
        },
    }
}

/// A sink for varint-encoded data: the protobuf encoders write through
/// this capability.
pub trait VarInt {
    /// The bytes written so far.
    spec fn out(&self) -> Seq<u8>;

    fn uvarint(&mut self, data: u64) -> (n: usize)
        ensures
            final(self).out() == old(self).out() + uvarint_bytes(data),
            n == uvarint_bytes(data).len(),
    ;

    fn svarint(&mut self, data: i64) -> (n: usize)
        ensures
            final(self).out() == old(self).out() + svarint_bytes(data),
            n == svarint_bytes(data).len(),
    ;
}

impl VarInt for crate::data_writer::DataWriter {
    open spec fn out(&self) -> Seq<u8> {
        self@
    }

    fn uvarint(&mut self, data: u64) -> (n: usize) {
        let b = encode_uvarint(data);
        self.write_raw(b.as_slice());
        b.len()
    }

    fn svarint(&mut self, data: i64) -> (n: usize) {
        let b = encode_svarint(data);
        self.write_raw(b.as_slice());
        b.len()
    }
}

} // verus!
