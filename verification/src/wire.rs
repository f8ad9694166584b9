//! Big-endian byte layouts for the fixed-width integers of the wire format,
//! as specification functions, with verified conversions and round-trip laws.
use vstd::prelude::*;

verus! {

/// The two big-endian bytes of a `u16`.
pub open spec fn be16_of(x: u16) -> Seq<u8> {
    seq![((x >> 8) & 0xff) as u8, (x & 0xff) as u8]
}

/// The `u16` read back from two big-endian bytes.
pub open spec fn be16_from(s: Seq<u8>) -> u16
    recommends
        s.len() >= 2,
{
    (s[0] as u16) << 8 | (s[1] as u16)
}

/// The four big-endian bytes of a `u32`.
pub open spec fn be32_of(x: u32) -> Seq<u8> {
    seq![
        ((x >> 24) & 0xff) as u8,
        ((x >> 16) & 0xff) as u8,
        ((x >> 8) & 0xff) as u8,
        (x & 0xff) as u8,
    ]
}

/// The `u32` read back from four big-endian bytes.
pub open spec fn be32_from(s: Seq<u8>) -> u32
    recommends
        s.len() >= 4,
{
    (s[0] as u32) << 24 | (s[1] as u32) << 16 | (s[2] as u32) << 8 | (s[3] as u32)
}

/// The eight big-endian bytes of a `u64`.
pub open spec fn be64_of(x: u64) -> Seq<u8> {
    seq![
        ((x >> 56) & 0xff) as u8,
        ((x >> 48) & 0xff) as u8,
        ((x >> 40) & 0xff) as u8,
        ((x >> 32) & 0xff) as u8,
        ((x >> 24) & 0xff) as u8,
        ((x >> 16) & 0xff) as u8,
        ((x >> 8) & 0xff) as u8,
        (x & 0xff) as u8,
    ]
}

/// The `u64` read back from eight big-endian bytes.
pub open spec fn be64_from(s: Seq<u8>) -> u64
    recommends
        s.len() >= 8,
{
    (s[0] as u64) << 56 | (s[1] as u64) << 48 | (s[2] as u64) << 40 | (s[3] as u64) << 32 | (
    s[4] as u64) << 24 | (s[5] as u64) << 16 | (s[6] as u64) << 8 | (s[7] as u64)
}

pub proof fn lemma_be16_of_from(x: u16)
    ensures
        be16_of(x).len() == 2,
        be16_from(be16_of(x)) == x,
{
    assert(((x >> 8) & 0xff) < 256 && (x & 0xff) < 256) by (bit_vector);
    assert(x == ((x >> 8) & 0xff) << 8 | (x & 0xff)) by (bit_vector);
}

pub proof fn lemma_be16_from_of(s: Seq<u8>)
    requires
        s.len() == 2,
    ensures
        be16_of(be16_from(s)) =~= s,
{
    let x = be16_from(s);
    let b0 = s[0];
    let b1 = s[1];
    assert(x == (b0 as u16) << 8 | (b1 as u16) ==> ((x >> 8) & 0xff) == b0 && (x & 0xff) == b1)
        by (bit_vector);
}

pub proof fn lemma_be32_of_from(x: u32)
    ensures
        be32_of(x).len() == 4,
        be32_from(be32_of(x)) == x,
{
    assert(((x >> 24) & 0xff) < 256 && ((x >> 16) & 0xff) < 256 && ((x >> 8) & 0xff) < 256 && (x
        & 0xff) < 256) by (bit_vector);
    assert(x == ((x >> 24) & 0xff) << 24 | ((x >> 16) & 0xff) << 16 | ((x >> 8) & 0xff) << 8 | (x
        & 0xff)) by (bit_vector);
}

pub proof fn lemma_be32_from_of(s: Seq<u8>)
    requires
        s.len() == 4,
    ensures
        be32_of(be32_from(s)) =~= s,
{
    let x = be32_from(s);
    let b0 = s[0];
    let b1 = s[1];
    let b2 = s[2];
    let b3 = s[3];
    assert(x == (b0 as u32) << 24 | (b1 as u32) << 16 | (b2 as u32) << 8 | (b3 as u32) ==> ((x
        >> 24) & 0xff) == b0 && ((x >> 16) & 0xff) == b1 && ((x >> 8) & 0xff) == b2 && (x & 0xff)
        == b3) by (bit_vector);
}

pub proof fn lemma_be64_of_from(x: u64)
    ensures
        be64_of(x).len() == 8,
        be64_from(be64_of(x)) == x,
{
    assert(((x >> 56) & 0xff) < 256 && ((x >> 48) & 0xff) < 256 && ((x >> 40) & 0xff) < 256 && ((x
        >> 32) & 0xff) < 256 && ((x >> 24) & 0xff) < 256 && ((x >> 16) & 0xff) < 256 && ((x >> 8)
        & 0xff) < 256 && (x & 0xff) < 256) by (bit_vector);
    assert(x == ((x >> 56) & 0xff) << 56 | ((x >> 48) & 0xff) << 48 | ((x >> 40) & 0xff) << 40 | ((x
        >> 32) & 0xff) << 32 | ((x >> 24) & 0xff) << 24 | ((x >> 16) & 0xff) << 16 | ((x >> 8)
        & 0xff) << 8 | (x & 0xff)) by (bit_vector);
}

pub proof fn lemma_be64_from_of(s: Seq<u8>)
    requires
        s.len() == 8,
    ensures
        be64_of(be64_from(s)) =~= s,
{
    let x = be64_from(s);
    let b0 = s[0];
    let b1 = s[1];
    let b2 = s[2];
    let b3 = s[3];
    let b4 = s[4];
    let b5 = s[5];
    let b6 = s[6];
    let b7 = s[7];
    assert(x == (b0 as u64) << 56 | (b1 as u64) << 48 | (b2 as u64) << 40 | (b3 as u64) << 32 | (
    b4 as u64) << 24 | (b5 as u64) << 16 | (b6 as u64) << 8 | (b7 as u64) ==> ((x >> 56) & 0xff)
        == b0 && ((x >> 48) & 0xff) == b1 && ((x >> 40) & 0xff) == b2 && ((x >> 32) & 0xff) == b3
        && ((x >> 24) & 0xff) == b4 && ((x >> 16) & 0xff) == b5 && ((x >> 8) & 0xff) == b6 && (x
        & 0xff) == b7) by (bit_vector);
}

} // verus!
