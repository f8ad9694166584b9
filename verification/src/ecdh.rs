//! The ECDH key-exchange envelope: elliptic-curve key agreement on
//! secp256k1 supplies a shared secret, the TEA cipher encrypts the
//! payload under it, and the writer frames both into the envelope the
//! protocol expects. A session variant reuses a negotiated token instead.
use crate::data_writer::DataWriter;
use crate::tea::{tea_cipher_len, tea_decrypt_ok, tea_encrypt_bytes, tea_fill, tea_head, tea_key_spec, tea_plain_of};
use crate::wire::be16_of;
use crate::{CryptoError, CryptoResult};
use vstd::prelude::*;
use vstd::string::StringSliceAdditionalSpecFns;

verus! {

#[verifier::external_type_specification]
#[verifier::external_body]
pub struct ExEllipticCurveError(k256::elliptic_curve::Error);

#[verifier::external_type_specification]
#[verifier::external_body]
pub struct ExFromHexError(hex::FromHexError);

/// What `k256::PublicKey::from_sec1_bytes` accepts: true exactly of the
/// byte strings that are a well-formed SEC1 encoding of a point on the
/// curve. A function of the bytes alone; this name stands for it.
pub uninterp spec fn sec1_point_valid(peer: Seq<u8>) -> bool;

/// What `k256::SecretKey::from_slice` accepts: true exactly of byte
/// strings of 24 to 32 bytes that, zero-padded on the left to 32 bytes,
/// carry a non-zero scalar below the curve order. A function of the
/// bytes alone; this name stands for it.
pub uninterp spec fn ec_scalar_valid(secret: Seq<u8>) -> bool;

/// Relies on k256: parses the peer's SEC1 public point, draws a fresh
/// ephemeral secret from the operating system's randomness, and performs
/// Diffie-Hellman. Returns the local public point (SEC1 compressed,
/// 33 bytes) and the shared secret (the x-coordinate, 32 bytes); fails
/// exactly when the peer bytes are not a valid curve point.
#[verifier::external_body]
fn ecdh_agree_random(peer: &[u8]) -> (res: Result<(Vec<u8>, Vec<u8>), k256::elliptic_curve::Error>)
    ensures
        res is Ok <==> sec1_point_valid(peer@),
        res matches Ok(p) ==> p.0@.len() == 33 && p.1@.len() == 32,
{
    let pub_key = k256::PublicKey::from_sec1_bytes(peer)?;
    let secret = k256::ecdh::EphemeralSecret::random(&mut rand_core::OsRng);
    let point = k256::EncodedPoint::from(secret.public_key());
    let shared = secret.diffie_hellman(&pub_key);
    Ok((point.as_ref().to_vec(), shared.raw_secret_bytes().to_vec()))
}

/// Relies on k256: the same key agreement for a caller-supplied 32-byte
/// secret scalar, via SecretKey::from_slice and ecdh::diffie_hellman.
/// Fails when the secret is not a valid non-zero scalar or the peer
/// bytes are not a valid curve point.
#[verifier::external_body]
fn ecdh_agree_with_secret(secret: &[u8], peer: &[u8]) -> (res: Result<
    (Vec<u8>, Vec<u8>),
    k256::elliptic_curve::Error,
>)
    ensures
        res is Ok <==> (ec_scalar_valid(secret@) && sec1_point_valid(peer@)),
        res matches Ok(p) ==> p.0@.len() == 33 && p.1@.len() == 32,
{
    let sk = k256::SecretKey::from_slice(secret)?;
    let pub_key = k256::PublicKey::from_sec1_bytes(peer)?;
    let shared = k256::ecdh::diffie_hellman(sk.to_nonzero_scalar(), pub_key.as_affine());
    let point = k256::EncodedPoint::from(sk.public_key());
    Ok((point.as_ref().to_vec(), shared.raw_secret_bytes().to_vec()))
}

/// True when `b` is the code of an ASCII hex digit.
pub open spec fn is_hex_digit(b: u8) -> bool {
    (0x30 <= b <= 0x39) || (0x41 <= b <= 0x46) || (0x61 <= b <= 0x66)
}

/// The value of one hex digit.
pub open spec fn hex_val(b: u8) -> u8
    recommends
        is_hex_digit(b),
{
    if 0x30 <= b <= 0x39 {
        (b - 0x30) as u8
    } else if 0x41 <= b <= 0x46 {
        (b - 0x41 + 10) as u8
    } else {
        (b - 0x61 + 10) as u8
    }
}

/// True when a byte string is well-formed hex: even length, hex digits
/// throughout.
pub open spec fn hex_ok(s: Seq<u8>) -> bool {
    s.len() % 2 == 0 && forall|i: int| 0 <= i < s.len() ==> is_hex_digit(#[trigger] s[i])
}

/// The bytes a hex string decodes to: two digits per byte, high first.
pub open spec fn hex_bytes_of(s: Seq<u8>) -> Seq<u8> {
    Seq::new(s.len() / 2, |i: int| (hex_val(s[2 * i]) * 16 + hex_val(s[2 * i + 1])) as u8)
}

/// Relies on hex::decode: decodes two hex digits per byte, upper or
/// lower case; fails exactly on an odd length or a non-hex character.
#[verifier::external_body]
fn hex_decode(s: &str) -> (res: Result<Vec<u8>, hex::FromHexError>)
    ensures
        res is Ok <==> hex_ok(s.spec_bytes()),
        res matches Ok(v) ==> v@ == hex_bytes_of(s.spec_bytes()),
{
    hex::decode(s)
}

/// The hardcoded fallback server public key (SEC1, uncompressed).
pub open spec fn default_public_key_spec() -> Seq<u8> {
    seq![
        0x04u8, 0xed, 0xb8, 0x90, 0x60, 0x46, 0xf5, 0xbf, 0xbe, 0x9a, 0xbb, 0xc5, 0xa8, 0x8b, 0x37,
        0xd7, 0x0a, 0x60, 0x06, 0xbf, 0xba, 0xbc, 0x1f, 0x0c, 0xd4, 0x9d, 0xfb, 0x33, 0x50, 0x5e,
        0x63, 0xef, 0xc5, 0xd7, 0x8e, 0xe4, 0xe0, 0xa4, 0x59, 0x05, 0x33, 0xb9, 0x3d, 0x02, 0x09,
        0x6d, 0xcd, 0x31, 0x90, 0x27, 0x92, 0x11, 0xf7, 0xb4, 0xf6, 0x78, 0x50, 0x79, 0xe1, 0x90,
        0x04, 0xaa, 0x0e, 0x03, 0xbc,
    ]
}

/// The hardcoded fallback server public key, as wire bytes.
pub fn default_public_key() -> (r: Vec<u8>)
    ensures
        r@ == default_public_key_spec(),
{
    let r = vec![
        0x04u8, 0xed, 0xb8, 0x90, 0x60, 0x46, 0xf5, 0xbf, 0xbe, 0x9a, 0xbb, 0xc5, 0xa8, 0x8b, 0x37,
        0xd7, 0x0a, 0x60, 0x06, 0xbf, 0xba, 0xbc, 0x1f, 0x0c, 0xd4, 0x9d, 0xfb, 0x33, 0x50, 0x5e,
        0x63, 0xef, 0xc5, 0xd7, 0x8e, 0xe4, 0xe0, 0xa4, 0x59, 0x05, 0x33, 0xb9, 0x3d, 0x02, 0x09,
        0x6d, 0xcd, 0x31, 0x90, 0x27, 0x92, 0x11, 0xf7, 0xb4, 0xf6, 0x78, 0x50, 0x79, 0xe1, 0x90,
        0x04, 0xaa, 0x0e, 0x03, 0xbc,
    ];
    proof {
        assert(r@ =~= default_public_key_spec());
    }
    r
}

/// One key-exchange attempt: the derived shared secret, the local
/// ephemeral public point, and the protocol's public-key version tag.
/// The ephemeral scalar itself never leaves the key agreement.
#[derive(Debug)]
pub struct Ecdh {
    share_key: Vec<u8>,
    public_key_point: Vec<u8>,
    pub_ver: u16,
}

/// The layout of the envelope up to the ciphertext: the discriminator
/// bytes 0x02 0x01, the symmetric key as a short blob, the fixed tag
/// 0x0131, the public-key version, and the length-prefixed local point.
pub open spec fn ecdh_envelope_prefix(key: Seq<u8>, pub_ver: u16, point: Seq<u8>) -> Seq<u8> {
    seq![0x02u8, 0x01u8] + be16_of(key.len() as u16) + key + be16_of(0x0131u16) + be16_of(pub_ver)
        + be16_of(point.len() as u16) + point
}

impl Ecdh {
    /// The derived shared secret.
    pub closed spec fn share(&self) -> Seq<u8> {
        self.share_key@
    }

    /// The local ephemeral public point, SEC1 encoded.
    pub closed spec fn point(&self) -> Seq<u8> {
        self.public_key_point@
    }

    /// The protocol's public-key version tag.
    pub closed spec fn ver(&self) -> u16 {
        self.pub_ver
    }

    /// A constructed session always carries a 32-byte shared secret and a
    /// 33-byte public point.
    pub open spec fn wf(&self) -> bool {
        self.share().len() == 32 && self.point().len() == 33
    }

    /// Performs a fresh key agreement against `pubkey` (the hardcoded
    /// fallback key when omitted) under version `ver` (1 when omitted).
    /// Fails exactly when the curve rejects the supplied public key.
    pub fn new(ver: Option<u16>, pubkey: Option<&[u8]>) -> (res: CryptoResult<Ecdh>)
        ensures
            res is Ok <==> sec1_point_valid(
                match pubkey {
                    Some(p) => p@,
                    None => default_public_key_spec(),
                },
            ),
            res matches Ok(e) ==> e.wf() && e.ver() == (match ver {
                Some(v) => v,
                None => 1u16,
            }),
            res is Err ==> res == Err::<Ecdh, CryptoError>(CryptoError::PublicKeyInvalid),
    {
        let fallback;
        let peer: &[u8] = match pubkey {
            Some(p) => p,
            None => {
                fallback = default_public_key();
                fallback.as_slice()
            },
        };
        match ecdh_agree_random(peer) {
            Ok(pair) => Ok(
                Ecdh {
                    public_key_point: pair.0,
                    share_key: pair.1,
                    pub_ver: match ver {
                        Some(v) => v,
                        None => 1,
                    },
                },
            ),
            Err(_) => Err(CryptoError::PublicKeyInvalid),
        }
    }

    /// The deterministic variant: performs the same key agreement with a
    /// caller-supplied secret scalar instead of fresh randomness. Fails
    /// exactly when the scalar or the public key is rejected by the curve.
    pub fn new_with_secret(ver: Option<u16>, pubkey: Option<&[u8]>, secret: &[u8]) -> (res:
        CryptoResult<Ecdh>)
        ensures
            res is Ok <==> ec_scalar_valid(secret@) && sec1_point_valid(
                match pubkey {
                    Some(p) => p@,
                    None => default_public_key_spec(),
                },
            ),
            res matches Ok(e) ==> e.wf() && e.ver() == (match ver {
                Some(v) => v,
                None => 1u16,
            }),
            res is Err ==> res == Err::<Ecdh, CryptoError>(CryptoError::PublicKeyInvalid),
    {
        let fallback;
        let peer: &[u8] = match pubkey {
            Some(p) => p,
            None => {
                fallback = default_public_key();
                fallback.as_slice()
            },
        };
        match ecdh_agree_with_secret(secret, peer) {
            Ok(pair) => Ok(
                Ecdh {
                    public_key_point: pair.0,
                    share_key: pair.1,
                    pub_ver: match ver {
                        Some(v) => v,
                        None => 1,
                    },
                },
            ),
            Err(_) => Err(CryptoError::PublicKeyInvalid),
        }
    }

    /// Builds a session from a server key payload: a key version and the
    /// hex-encoded public key, as the key-rotation endpoint returns them.
    /// Fails on malformed hex, then as [`Ecdh::new`] does.
    pub fn from_server_payload(version: u16, hex_key: &str) -> (res: CryptoResult<Ecdh>)
        ensures
            res == Err::<Ecdh, CryptoError>(CryptoError::HexFormat) <==> !hex_ok(
                hex_key.spec_bytes(),
            ),
            res is Ok <==> hex_ok(hex_key.spec_bytes()) && sec1_point_valid(
                hex_bytes_of(hex_key.spec_bytes()),
            ),
            res matches Ok(e) ==> e.wf() && e.ver() == version,
            res is Err ==> res == Err::<Ecdh, CryptoError>(CryptoError::HexFormat) || res == Err::<
                Ecdh,
                CryptoError,
            >(CryptoError::PublicKeyInvalid),
    {
        let bytes = match hex_decode(hex_key) {
            Ok(b) => b,
            Err(_) => {
                return Err(CryptoError::HexFormat);
            },
        };
        Self::new(Some(version), Some(bytes.as_slice()))
    }

    /// The shared secret bytes.
    pub fn share_key(&self) -> (r: &Vec<u8>)
        ensures
            r@ == self.share(),
    {
        &self.share_key
    }

    /// The local ephemeral public point, SEC1 encoded.
    pub fn public_key_point(&self) -> (r: &Vec<u8>)
        ensures
            r@ == self.point(),
    {
        &self.public_key_point
    }

    /// Wraps `data` in the envelope: the fixed discriminator bytes, the
    /// caller's symmetric key, the version and point material, then the
    /// payload TEA-encrypted under the shared secret.
    pub fn encrypt(&self, key: &[u8], data: &[u8]) -> (res: CryptoResult<Vec<u8>>)
        requires
            self.wf(),
            key@.len() <= 0xFFFF,
            data@.len() + 17 <= usize::MAX,
        ensures
            res is Ok,
            res matches Ok(v) ==> ({
                let prefix = ecdh_envelope_prefix(key@, self.ver(), self.point());
                let ct = v@.skip(prefix.len() as int);
                &&& v@ == prefix + ct
                &&& ct.len() == tea_cipher_len(data@.len())
                &&& tea_decrypt_ok(tea_key_spec(self.share()), ct)
                &&& tea_plain_of(tea_key_spec(self.share()), ct) == data@
                &&& exists|p: Seq<u8>|
                    p.len() == tea_fill(data@.len()) - 1 && ct == tea_encrypt_bytes(
                        tea_key_spec(self.share()),
                        tea_head(data@.len()),
                        p,
                        data@,
                    )
            }),
    {
        let mut w = DataWriter::new();
        w.write_data(&0x02u8);
        w.write_data(&0x01u8);
        w.write_short_data(key);
        w.write_data(&0x0131u16);
        w.write_data(&self.pub_ver);
        w.write_data(&(self.public_key_point.len() as u16));
        w.write_data(&self.public_key_point);
        let ghost before = w@;
        let res = w.encrypted_write(self.share_key.as_slice(), data);
        proof {
            assert(res is Ok);
            assert(before =~= ecdh_envelope_prefix(key@, self.ver(), self.point()));
            assert(w@.skip(before.len() as int) =~= w@.skip(
                ecdh_envelope_prefix(key@, self.ver(), self.point()).len() as int,
            ));
            let kk = tea_key_spec(self.share());
            let p = choose|p: Seq<u8>|
                p.len() == tea_fill(data@.len()) - 1 && w@.skip(before.len() as int)
                    == tea_encrypt_bytes(kk, tea_head(data@.len()), p, data@);
            assert(w@.skip(ecdh_envelope_prefix(key@, self.ver(), self.point()).len() as int)
                == tea_encrypt_bytes(kk, tea_head(data@.len()), p, data@));
        }
        Ok(w.into_bytes())
    }

    /// The numeric identifier the outer protocol uses to select this
    /// envelope's decryption path.
    pub fn id(&self) -> (r: u8)
        ensures
            r == 0x87,
    {
        0x87
    }
}

/// The pre-shared session envelope: reuses a previously negotiated
/// session token and encrypts only with TEA under a caller-supplied key.
#[derive(Debug)]
pub struct EcdhSession {
    t133: Vec<u8>,
}

impl EcdhSession {
    /// The session token.
    pub closed spec fn token(&self) -> Seq<u8> {
        self.t133@
    }

    pub fn new(t133: Vec<u8>) -> (r: Self)
        ensures
            r.token() == t133@,
    {
        EcdhSession { t133 }
    }

    /// Wraps `data` for an established session: the token's length, the
    /// token, then the payload TEA-encrypted under `key`. Fails exactly
    /// when the key is shorter than 16 bytes.
    pub fn encrypt(&self, key: &[u8], data: &[u8]) -> (res: CryptoResult<Vec<u8>>)
        requires
            self.token().len() <= 0xFFFF,
            data@.len() + 17 <= usize::MAX,
        ensures
            res is Ok <==> key@.len() >= 16,
            res is Err ==> res == Err::<Vec<u8>, CryptoError>(
                CryptoError::Size(16, key@.len() as usize),
            ),
            res matches Ok(v) ==> ({
                let prefix = be16_of(self.token().len() as u16) + self.token();
                let ct = v@.skip(prefix.len() as int);
                &&& v@ == prefix + ct
                &&& ct.len() == tea_cipher_len(data@.len())
                &&& tea_decrypt_ok(tea_key_spec(key@), ct)
                &&& tea_plain_of(tea_key_spec(key@), ct) == data@
                &&& exists|p: Seq<u8>|
                    p.len() == tea_fill(data@.len()) - 1 && ct == tea_encrypt_bytes(
                        tea_key_spec(key@),
                        tea_head(data@.len()),
                        p,
                        data@,
                    )
            }),
    {
        let mut w = DataWriter::new();
        w.write_data(&(self.t133.len() as u16));
        w.write_data(&self.t133);
        let ghost before = w@;
        match w.encrypted_write(key, data) {
            Ok(_) => {
                proof {
                    assert(before =~= be16_of(self.token().len() as u16) + self.token());
                    assert(w@.skip(before.len() as int) =~= w@.skip(
                        (be16_of(self.token().len() as u16) + self.token()).len() as int,
                    ));
                    let kk = tea_key_spec(key@);
                    let p = choose|p: Seq<u8>|
                        p.len() == tea_fill(data@.len()) - 1 && w@.skip(before.len() as int)
                            == tea_encrypt_bytes(kk, tea_head(data@.len()), p, data@);
                    assert(w@.skip(
                        (be16_of(self.token().len() as u16) + self.token()).len() as int,
                    ) == tea_encrypt_bytes(kk, tea_head(data@.len()), p, data@));
                }
                Ok(w.into_bytes())
            },
            Err(e) => Err(e),
        }
    }

    /// The numeric identifier the outer protocol uses to select this
    /// envelope's decryption path.
    pub fn id(&self) -> (r: u8)
        ensures
            r == 69,
    {
        69
    }
}

} // verus!
