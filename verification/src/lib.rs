//! Wire codec and cryptographic envelope layer for an instant-messaging
//! client protocol: a typed bidirectional codec over big-endian byte
//! buffers, a tag/length/value map codec, a protobuf-compatible varint
//! encoder with a dynamic field map, the TEA block cipher, and the
//! ECDH-based key-exchange envelope that wraps encrypted payloads.
//!
//! Every byte layout is stated as a specification function, and each
//! encoder and decoder is proved against its layout, including the
//! encrypt/decrypt round trips.
pub mod codec;
pub mod data_reader;
pub mod data_writer;
pub mod ecdh;
pub mod proto_msg;
pub mod protobuf;
pub mod read_impls;
pub mod tea;
pub mod wire;
pub mod write_impls;

use vstd::prelude::*;

verus! {

/// Error taxonomy for the codec and cipher layer.
#[derive(Debug, Clone, Copy, PartialEq, Eq, Structural)]
pub enum CryptoError {
    /// A read ran past the end of the input buffer.
    Io,
    /// A byte slice was shorter than required: expected size, received size.
    Size(usize, usize),
    /// A ciphertext length is under 16 bytes or not a multiple of 8.
    GroupAble(usize),
    /// A fetched public key held malformed hex.
    HexFormat,
    /// A server public key was not a valid curve point.
    PublicKeyInvalid,
    /// A tag/length/value tag width other than 1, 2 or 4 was requested.
    TagWidth(usize),
}

pub type CryptoResult<T> = Result<T, CryptoError>;

} // verus!
