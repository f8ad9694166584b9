//! The input cursor: owns an input byte buffer, tracks the unread suffix,
//! and fails cleanly (without consuming) when a read would run past the end.
use crate::codec::ReadFrom;
use crate::wire::{be16_from, be16_of, be32_from, be32_of, lemma_be16_of_from, lemma_be32_of_from};
use crate::{CryptoError, CryptoResult};
use std::collections::HashMap;
use vstd::prelude::*;

verus! {

broadcast use vstd::std_specs::hash::group_hash_axioms;

/// The tag/length/value records parsed out of a byte stream, keyed by tag.
pub type TlvMap = HashMap<u16, Vec<u8>>;

/// The byte contents of a tag/length/value map, keyed by tag.
pub open spec fn tlv_contents(m: Map<u16, Vec<u8>>) -> Map<u16, Seq<u8>> {
    Map::new(|k: u16| m.dom().contains(k), |k: u16| m[k]@)
}

/// The tag read from the front of `data`: 1, 2 or 4 raw big-endian bytes,
/// widened (or truncated) to 16 bits.
pub open spec fn tlv_tag_of(data: Seq<u8>, tag_size: nat) -> u16
    recommends
        data.len() >= tag_size,
        tag_size == 1 || tag_size == 2 || tag_size == 4,
{
    if tag_size == 1 {
        data[0] as u16
    } else if tag_size == 2 {
        be16_from(data)
    } else {
        (be32_from(data) & 0xFFFF) as u16
    }
}

/// Parse of repeated tag/length/value records from the front of `data`
/// into `acc` (later records overwrite earlier ones with the same tag).
/// Parsing stops cleanly when fewer than `tag_size` bytes remain or on the
/// sentinel tag 255; it fails (`None`) when a length or value field is
/// truncated. On success the result also carries the unconsumed suffix.
pub open spec fn tlv_parse_from(data: Seq<u8>, tag_size: nat, acc: Map<u16, Seq<u8>>) -> Option<
    (Map<u16, Seq<u8>>, Seq<u8>),
>
    recommends
        tag_size == 1 || tag_size == 2 || tag_size == 4,
    decreases data.len(),
{
    if data.len() < tag_size {
        Some((acc, data))
    } else {
        let tag = tlv_tag_of(data, tag_size);
        if tag == 255 {
            Some((acc, data.skip(tag_size as int)))
        } else {
            let rest = data.skip(tag_size as int);
            if rest.len() < 2 {
                None
            } else {
                let n = be16_from(rest) as nat;
                let rest2 = rest.skip(2);
                if rest2.len() < n {
                    None
                } else {
                    tlv_parse_from(
                        rest2.skip(n as int),
                        tag_size,
                        acc.insert(tag, rest2.take(n as int)),
                    )
                }
            }
        }
    }
}

/// The raw bytes of a tag written at the given width, big-endian.
pub open spec fn tlv_tag_bytes(tag: u16, tag_size: nat) -> Seq<u8>
    recommends
        tag_size == 1 || tag_size == 2 || tag_size == 4,
        tag_size == 1 ==> tag <= 0xFF,
{
    if tag_size == 1 {
        seq![tag as u8]
    } else if tag_size == 2 {
        be16_of(tag)
    } else {
        be32_of(tag as u32)
    }
}

/// One serialized tag/length/value record.
pub open spec fn tlv_record(tag: u16, value: Seq<u8>, tag_size: nat) -> Seq<u8> {
    tlv_tag_bytes(tag, tag_size) + be16_of(value.len() as u16) + value
}

/// The concatenation of the records of the given (tag, value) pairs, in order.
pub open spec fn tlv_records(pairs: Seq<(u16, Seq<u8>)>, tag_size: nat) -> Seq<u8>
    decreases pairs.len(),
{
    if pairs.len() == 0 {
        Seq::empty()
    } else {
        tlv_record(pairs[0].0, pairs[0].1, tag_size) + tlv_records(pairs.skip(1), tag_size)
    }
}

/// The map built by inserting the pairs in order: the last write wins.
pub open spec fn tlv_fold(acc: Map<u16, Seq<u8>>, pairs: Seq<(u16, Seq<u8>)>) -> Map<u16, Seq<u8>>
    decreases pairs.len(),
{
    if pairs.len() == 0 {
        acc
    } else {
        tlv_fold(acc.insert(pairs[0].0, pairs[0].1), pairs.skip(1))
    }
}

/// True when every pair can be written at the given tag width: the tag is
/// not the sentinel 255 and fits the width, and the value fits a 16-bit
/// length field.
pub open spec fn tlv_writable(pairs: Seq<(u16, Seq<u8>)>, tag_size: nat) -> bool {
    forall|i: int|
        0 <= i < pairs.len() ==> (#[trigger] pairs[i]).0 != 255 && pairs[i].1.len() <= 0xFFFF && (
        tag_size == 1 ==> pairs[i].0 <= 0xFF)
}

/// A map serialized as tag/length/value records and parsed back with the
/// same tag width yields exactly the map of its pairs, last write winning
/// on duplicate tags.
pub proof fn lemma_tlv_round_trip(pairs: Seq<(u16, Seq<u8>)>, tag_size: nat, acc: Map<u16, Seq<u8>>)
    requires
        tag_size == 1 || tag_size == 2 || tag_size == 4,
        tlv_writable(pairs, tag_size),
    ensures
        tlv_parse_from(tlv_records(pairs, tag_size), tag_size, acc) == Some(
            (tlv_fold(acc, pairs), Seq::<u8>::empty()),
        ),
    decreases pairs.len(),
{
    if pairs.len() == 0 {
        assert(tlv_records(pairs, tag_size) =~= Seq::<u8>::empty());
    } else {
        let tag = pairs[0].0;
        let value = pairs[0].1;
        let rec = tlv_record(tag, value, tag_size);
        let rest_records = tlv_records(pairs.skip(1), tag_size);
        let data = tlv_records(pairs, tag_size);
        assert(data == rec + rest_records);
        assert(data.len() >= tag_size + 2);
        // the tag read back is the tag written
        if tag_size == 1 {
            assert(data[0] == tag as u8);
            assert(tlv_tag_of(data, tag_size) == tag);
        } else if tag_size == 2 {
            lemma_be16_of_from(tag);
            assert(data[0] == be16_of(tag)[0] && data[1] == be16_of(tag)[1]);
            assert(tlv_tag_of(data, tag_size) == be16_from(be16_of(tag)));
        } else {
            lemma_be32_of_from(tag as u32);
            assert(data[0] == be32_of(tag as u32)[0] && data[1] == be32_of(tag as u32)[1] && data[2]
                == be32_of(tag as u32)[2] && data[3] == be32_of(tag as u32)[3]);
            assert(be32_from(data) == tag as u32);
            let x = be32_from(data);
            assert(x <= 0xFFFF ==> (x & 0xFFFF) == x) by (bit_vector);
            assert(tlv_tag_of(data, tag_size) == tag);
        }
        let rest = data.skip(tag_size as int);
        assert(rest =~= be16_of(value.len() as u16) + value + rest_records);
        lemma_be16_of_from(value.len() as u16);
        assert(rest[0] == be16_of(value.len() as u16)[0] && rest[1] == be16_of(
            value.len() as u16,
        )[1]);
        assert(be16_from(rest) == value.len());
        let rest2 = rest.skip(2);
        assert(rest2 =~= value + rest_records);
        assert(rest2.take(value.len() as int) =~= value);
        assert(rest2.skip(value.len() as int) =~= rest_records);
        lemma_tlv_round_trip(pairs.skip(1), tag_size, acc.insert(tag, value));
    }
}

/// Input shorter than the tag width parses to the accumulated map,
/// cleanly, never as an error.
pub proof fn lemma_tlv_truncated(data: Seq<u8>, tag_size: nat, acc: Map<u16, Seq<u8>>)
    requires
        data.len() < tag_size,
    ensures
        tlv_parse_from(data, tag_size, acc) == Some((acc, data)),
{
}

/// Cursor over an input byte buffer.
pub struct DataReader {
    data: Vec<u8>,
    pos: usize,
}

impl DataReader {
    /// The cursor never runs past the end of the input.
    pub closed spec fn wf(&self) -> bool {
        self.pos <= self.data.len()
    }

    /// The unread suffix of the input.
    pub closed spec fn remaining(&self) -> Seq<u8> {
        self.data@.skip(self.pos as int)
    }

    pub fn new(data: Vec<u8>) -> (r: Self)
        ensures
            r.wf(),
            r.remaining() == data@,
    {
        let r = DataReader { data, pos: 0 };
        proof {
            assert(r.remaining() =~= r.data@);
        }
        r
    }

    /// Number of unread bytes.
    pub fn len(&self) -> (n: usize)
        requires
            self.wf(),
        ensures
            n == self.remaining().len(),
    {
        self.data.len() - self.pos
    }

    /// Reads one raw byte.
    pub fn read_byte(&mut self) -> (res: CryptoResult<u8>)
        requires
            old(self).wf(),
        ensures
            final(self).wf(),
            res is Ok <==> old(self).remaining().len() >= 1,
            res matches Ok(b) ==> b == old(self).remaining()[0] && final(self).remaining()
                == old(self).remaining().skip(1),
            res is Err ==> res == Err::<u8, CryptoError>(CryptoError::Io) && *final(self) == *old(self),
    {
        if self.pos < self.data.len() {
            let b = self.data[self.pos];
            self.pos = self.pos + 1;
            proof {
                assert(final(self).remaining() =~= old(self).remaining().skip(1));
            }
            Ok(b)
        } else {
            proof {
                assert(old(self).remaining().len() == 0);
            }
            Err(CryptoError::Io)
        }
    }

    /// Looks at the unread byte at `off` without consuming anything.
    pub fn peek(&self, off: usize) -> (res: Option<u8>)
        requires
            self.wf(),
        ensures
            res is Some <==> off < self.remaining().len(),
            res matches Some(b) ==> b == self.remaining()[off as int],
    {
        if off < self.data.len() - self.pos {
            Some(self.data[self.pos + off])
        } else {
            None
        }
    }

    /// Reads exactly `n` raw bytes, or fails without consuming anything.
    pub fn read_bytes(&mut self, n: usize) -> (res: CryptoResult<Vec<u8>>)
        requires
            old(self).wf(),
        ensures
            final(self).wf(),
            res is Ok <==> old(self).remaining().len() >= n,
            res matches Ok(v) ==> v@ == old(self).remaining().take(n as int) && final(self).remaining() == old(self).remaining().skip(n as int),
            res is Err ==> res == Err::<Vec<u8>, CryptoError>(CryptoError::Io) && *final(self)
                == *old(self),
    {
        if n > self.data.len() - self.pos {
            return Err(CryptoError::Io);
        }
        let mut out: Vec<u8> = Vec::new();
        let mut i: usize = 0;
        while i < n
            invariant
                i <= n,
                *self == *old(self),
                old(self).wf(),
                n <= old(self).remaining().len(),
                out@ =~= old(self).remaining().take(i as int),
            decreases n - i,
        {
            let b = self.data[self.pos + i];
            out.push(b);
            i = i + 1;
            proof {
                assert(out@ =~= old(self).remaining().take(i as int));
            }
        }
        self.pos = self.pos + n;
        proof {
            assert(final(self).remaining() =~= old(self).remaining().skip(n as int));
        }
        Ok(out)
    }

    /// Reads a typed value in its normal form.
    pub fn read_data<T: ReadFrom>(&mut self) -> (res: CryptoResult<T>)
        requires
            old(self).wf(),
        ensures
            final(self).wf(),
            res is Ok <==> T::parse(old(self).remaining()) is Some,
            res matches Ok(v) ==> T::parse(old(self).remaining()) matches Some(p) && p.0 == v@
                && final(self).remaining() == old(self).remaining().skip(p.1 as int),
            res matches Err(e) ==> e == CryptoError::Io && *final(self) == *old(self),
    {
        T::read_from(self)
    }

    /// Reads a typed value in its short (length-prefixed) form.
    pub fn read_data_short<T: ReadFrom>(&mut self) -> (res: CryptoResult<T>)
        requires
            old(self).wf(),
        ensures
            final(self).wf(),
            res is Ok <==> T::parse_short(old(self).remaining()) is Some,
            res matches Ok(v) ==> T::parse_short(old(self).remaining()) matches Some(p) && p.0 == v@
                && final(self).remaining() == old(self).remaining().skip(p.1 as int),
            res matches Err(e) ==> e == CryptoError::Io && *final(self) == *old(self),
    {
        T::read_short_from(self)
    }

    /// Reads a typed value whose byte count is determined externally.
    pub fn read_data_limited<T: ReadFrom>(&mut self, size: usize) -> (res: CryptoResult<T>)
        requires
            old(self).wf(),
        ensures
            final(self).wf(),
            res is Ok <==> T::parse_with_size(old(self).remaining(), size as nat) is Some,
            res matches Ok(v) ==> T::parse_with_size(old(self).remaining(), size as nat)
                matches Some(p) && p.0 == v@ && final(self).remaining()
                == old(self).remaining().skip(p.1 as int),
            res matches Err(e) ==> e == CryptoError::Io && *final(self) == *old(self),
    {
        T::read_from_with_size(size, self)
    }

    /// Parses tag/length/value records until the input is exhausted or the
    /// sentinel tag 255 is met. Tag widths other than 1, 2 and 4 are
    /// rejected outright rather than looping on a constant tag.
    pub fn read_tlv_map(&mut self, tag_size: usize) -> (res: CryptoResult<TlvMap>)
        requires
            old(self).wf(),
        ensures
            final(self).wf(),
            !(tag_size == 1 || tag_size == 2 || tag_size == 4) ==> res == Err::<
                TlvMap,
                CryptoError,
            >(CryptoError::TagWidth(tag_size)) && *final(self) == *old(self),
            (tag_size == 1 || tag_size == 2 || tag_size == 4) ==> match res {
                Ok(m) => tlv_parse_from(old(self).remaining(), tag_size as nat, Map::empty())
                    == Some((tlv_contents(m@), final(self).remaining())),
                Err(e) => e == CryptoError::Io && tlv_parse_from(
                    old(self).remaining(),
                    tag_size as nat,
                    Map::empty(),
                ) is None,
            },
    {
        if !(tag_size == 1 || tag_size == 2 || tag_size == 4) {
            return Err(CryptoError::TagWidth(tag_size));
        }
        let mut map: TlvMap = HashMap::new();
        proof {
            assert(tlv_contents(map@) =~= Map::<u16, Seq<u8>>::empty());
        }
        loop
            invariant_except_break
                tlv_parse_from(old(self).remaining(), tag_size as nat, Map::empty())
                    == tlv_parse_from(self.remaining(), tag_size as nat, tlv_contents(map@)),
            invariant
                self.wf(),
                tag_size == 1 || tag_size == 2 || tag_size == 4,
            ensures
                self.wf(),
                tlv_parse_from(old(self).remaining(), tag_size as nat, Map::empty()) == Some(
                    (tlv_contents(map@), self.remaining()),
                ),
            decreases self.remaining().len(),
        {
            let ghost top = self.remaining();
            let ghost acc0 = tlv_contents(map@);
            if self.len() < tag_size {
                break;
            }
            let k: u16 = if tag_size == 1 {
                let b = match self.read_byte() {
                    Ok(b) => b,
                    Err(e) => {
                        return Err(e);
                    },
                };
                b as u16
            } else if tag_size == 2 {
                let x = match u16::read_from(self) {
                    Ok(x) => x,
                    Err(e) => {
                        return Err(e);
                    },
                };
                x
            } else {
                let x = match u32::read_from(self) {
                    Ok(x) => x,
                    Err(e) => {
                        return Err(e);
                    },
                };
                proof {
                    assert((x & 0xFFFF) <= 0xFFFF) by (bit_vector);
                }
                (x & 0xFFFF) as u16
            };
            proof {
                assert(k == tlv_tag_of(top, tag_size as nat));
            }
            if k == 255 {
                break;
            }
            let size = match u16::read_from(self) {
                Ok(x) => x,
                Err(e) => {
                    return Err(CryptoError::Io);
                },
            };
            let value = match self.read_bytes(size as usize) {
                Ok(v) => v,
                Err(e) => {
                    return Err(CryptoError::Io);
                },
            };
            map.insert(k, value);
            proof {
                assert(tlv_contents(map@) =~= acc0.insert(k, top.skip(tag_size as int).skip(
                    2,
                ).take(size as int)));
            }
        }
        Ok(map)
    }

    /// Drains and returns all remaining bytes.
    pub fn read_available(self) -> (r: Vec<u8>)
        requires
            self.wf(),
        ensures
            r@ == self.remaining(),
    {
        let mut out: Vec<u8> = Vec::new();
        let mut i: usize = self.pos;
        while i < self.data.len()
            invariant
                self.wf(),
                self.pos <= i <= self.data.len(),
                out@ =~= self.data@.subrange(self.pos as int, i as int),
            decreases self.data.len() - i,
        {
            let b = self.data[i];
            out.push(b);
            i = i + 1;
            proof {
                assert(out@ =~= self.data@.subrange(self.pos as int, i as int));
            }
        }
        proof {
            assert(out@ =~= self.remaining());
        }
        out
    }
}

} // verus!
