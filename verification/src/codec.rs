//! The bidirectional codec capability pair: every wire-representable type
//! states its normal-form and short-form byte layout as specification
//! functions, and the read/write methods are proved against those layouts.
use crate::data_reader::DataReader;
use crate::data_writer::DataWriter;
use crate::{CryptoError, CryptoResult};
use vstd::prelude::*;

verus! {

/// A type that can write itself onto a [`DataWriter`].
///
/// `long_form` is the normal encoding; `short_form` is the 2-byte
/// big-endian length-prefixed encoding, and defaults to the normal form
/// for types without a distinct short form.
pub trait WriteTo {
    /// The normal-form encoding of this value.
    spec fn long_form(&self) -> Seq<u8>;

    /// True when the normal form fits its length prefixes.
    spec fn long_writable(&self) -> bool;

    /// The short-form (2-byte length prefixed) encoding of this value.
    open spec fn short_form(&self) -> Seq<u8> {
        self.long_form()
    }

    /// True when the short form fits its length prefixes.
    open spec fn short_writable(&self) -> bool {
        self.long_writable()
    }

    fn write_to(&self, w: &mut DataWriter)
        requires
            self.long_writable(),
        ensures
            final(w)@ == old(w)@ + self.long_form(),
    ;

    fn write_short_to(&self, w: &mut DataWriter)
        requires
            self.short_writable(),
        ensures
            final(w)@ == old(w)@ + self.short_form(),
    ;
}

/// A type that can read itself back from a [`DataReader`].
///
/// Each form is specified by a parse function from the unread bytes to the
/// decoded value and the number of bytes consumed; `None` means the input
/// is too short (or otherwise malformed), in which case the read fails
/// with [`CryptoError::Io`] and leaves the reader unchanged.
pub trait ReadFrom: Sized + View {
    /// Parse of the normal form: decoded value and bytes consumed.
    spec fn parse(data: Seq<u8>) -> Option<(Self::V, nat)>;

    /// Parse given an externally determined size; defaults to the normal form.
    open spec fn parse_with_size(data: Seq<u8>, size: nat) -> Option<(Self::V, nat)> {
        Self::parse(data)
    }

    /// Parse of the short form; defaults to the normal form.
    open spec fn parse_short(data: Seq<u8>) -> Option<(Self::V, nat)> {
        Self::parse(data)
    }

    fn read_from(r: &mut DataReader) -> (res: CryptoResult<Self>)
        requires
            old(r).wf(),
        ensures
            final(r).wf(),
            res is Ok <==> Self::parse(old(r).remaining()) is Some,
            res matches Ok(v) ==> Self::parse(old(r).remaining()) matches Some(p) && p.0 == v@
                && final(r).remaining() == old(r).remaining().skip(p.1 as int),
            res matches Err(e) ==> e == CryptoError::Io && *final(r) == *old(r),
    ;

    fn read_from_with_size(size: usize, r: &mut DataReader) -> (res: CryptoResult<Self>)
        requires
            old(r).wf(),
        ensures
            final(r).wf(),
            res is Ok <==> Self::parse_with_size(old(r).remaining(), size as nat) is Some,
            res matches Ok(v) ==> Self::parse_with_size(old(r).remaining(), size as nat)
                matches Some(p) && p.0 == v@ && final(r).remaining() == old(r).remaining().skip(
                p.1 as int,
            ),
            res matches Err(e) ==> e == CryptoError::Io && *final(r) == *old(r),
    ;

    fn read_short_from(r: &mut DataReader) -> (res: CryptoResult<Self>)
        requires
            old(r).wf(),
        ensures
            final(r).wf(),
            res is Ok <==> Self::parse_short(old(r).remaining()) is Some,
            res matches Ok(v) ==> Self::parse_short(old(r).remaining()) matches Some(p) && p.0 == v@
                && final(r).remaining() == old(r).remaining().skip(p.1 as int),
            res matches Err(e) ==> e == CryptoError::Io && *final(r) == *old(r),
    ;
}

} // verus!
