use wirecodec::ecdh::{default_public_key, Ecdh, EcdhSession};
use wirecodec::tea::Tea;
use wirecodec::CryptoError;

#[test]
fn deterministic_exchange_agrees_on_both_sides() {
    // two fixed secret scalars stand in for the mocked randomness
    let secret_a = [0x11u8; 32];
    let secret_b = [0x22u8; 32];

    // each side derives its public point (any valid peer will do here)
    let g = generator_point();
    let a = Ecdh::new_with_secret(Some(1), Some(&g), &secret_a).unwrap();
    let b = Ecdh::new_with_secret(Some(1), Some(&g), &secret_b).unwrap();
    let point_a = a.public_key_point().clone();
    let point_b = b.public_key_point().clone();

    // now each side agrees against the other's point
    let ab = Ecdh::new_with_secret(Some(1), Some(&point_b), &secret_a).unwrap();
    let ba = Ecdh::new_with_secret(Some(1), Some(&point_a), &secret_b).unwrap();
    assert_eq!(ab.share_key(), ba.share_key());
    assert_eq!(ab.share_key().len(), 32);

    // and twice the same inputs give twice the same secret
    let ab2 = Ecdh::new_with_secret(Some(1), Some(&point_b), &secret_a).unwrap();
    assert_eq!(ab.share_key(), ab2.share_key());
}

/// The secp256k1 generator point, SEC1 uncompressed: always a valid key.
fn generator_point() -> Vec<u8> {
    hex::decode(
        "0479be667ef9dcbbac55a06295ce870b07029bfcdb2dce28d959f2815b16f81798\
         483ada7726a3c4655da4fbfc0e1108a8fd17b448a68554199c47d08ffb10d4b8",
    )
    .unwrap()
}

fn valid_peer_point() -> Vec<u8> {
    // a well-formed secp256k1 point, derived from a fixed secret
    let g = generator_point();
    let peer = Ecdh::new_with_secret(Some(1), Some(&g), &[0x33u8; 32]).unwrap();
    peer.public_key_point().clone()
}

#[test]
fn fresh_session_has_the_expected_shapes() {
    let point = valid_peer_point();
    let e = Ecdh::new(Some(1), Some(&point)).unwrap();
    assert_eq!(e.share_key().len(), 32);
    assert_eq!(e.public_key_point().len(), 33);
    assert_eq!(e.id(), 0x87);
    // two fresh sessions draw distinct ephemeral secrets
    let e2 = Ecdh::new(Some(1), Some(&point)).unwrap();
    assert_ne!(e.share_key(), e2.share_key());
}

#[test]
fn fallback_key_shape_and_rejection() {
    // the historical fallback key bytes: 65 bytes of SEC1 uncompressed form,
    // which the curve nevertheless rejects as a point
    let key = default_public_key();
    assert_eq!(key.len(), 65);
    assert_eq!(key[0], 0x04);
    assert_eq!(Ecdh::new(None, None).unwrap_err(), CryptoError::PublicKeyInvalid);
}

#[test]
fn invalid_server_key_is_rejected() {
    let res = Ecdh::new(Some(2), Some(&[0x01, 0x02, 0x03]));
    assert_eq!(res.unwrap_err(), CryptoError::PublicKeyInvalid);
}

#[test]
fn envelope_layout_and_payload() {
    let point = valid_peer_point();
    let e = Ecdh::new(Some(7), Some(&point)).unwrap();
    let key = [0x5Au8; 16];
    let out = e.encrypt(&key, b"hello envelope").unwrap();

    assert_eq!(out[0], 0x02);
    assert_eq!(out[1], 0x01);
    assert_eq!(&out[2..4], &[0, 16]);
    assert_eq!(&out[4..20], &key);
    assert_eq!(&out[20..22], &[0x01, 0x31]);
    assert_eq!(&out[22..24], &[0, 7]);
    assert_eq!(&out[24..26], &[0, 33]);
    assert_eq!(&out[26..59], e.public_key_point().as_slice());

    // the tail is the payload, TEA-encrypted under the shared secret
    let tea = Tea::new(e.share_key()).unwrap();
    assert_eq!(tea.decrypt(&out[59..]).unwrap(), b"hello envelope".to_vec());
}

#[test]
fn server_payload_round_trip() {
    let hex_key = hex::encode(valid_peer_point());
    let e = Ecdh::from_server_payload(5, &hex_key).unwrap();
    assert_eq!(e.share_key().len(), 32);

    // malformed hex is its own error
    let res = Ecdh::from_server_payload(5, "zz");
    assert_eq!(res.unwrap_err(), CryptoError::HexFormat);
    let res_odd = Ecdh::from_server_payload(5, "abc");
    assert_eq!(res_odd.unwrap_err(), CryptoError::HexFormat);

    // well-formed hex that is not a curve point fails later
    let res_bad_point = Ecdh::from_server_payload(5, "00");
    assert_eq!(res_bad_point.unwrap_err(), CryptoError::PublicKeyInvalid);
}

#[test]
fn session_envelope_prefixes_the_token() {
    let session = EcdhSession::new(vec![0xA1, 0xA2, 0xA3]);
    assert_eq!(session.id(), 69);
    let key = b"0123456789ABCDEF";
    let out = session.encrypt(key, b"payload").unwrap();
    assert_eq!(&out[0..2], &[0, 3]);
    assert_eq!(&out[2..5], &[0xA1, 0xA2, 0xA3]);
    let tea = Tea::new(key).unwrap();
    assert_eq!(tea.decrypt(&out[5..]).unwrap(), b"payload".to_vec());
}

#[test]
fn session_envelope_rejects_short_keys() {
    let session = EcdhSession::new(vec![1]);
    let res = session.encrypt(b"tooshort", b"data");
    assert_eq!(res.unwrap_err(), CryptoError::Size(16, 8));
}

#[test]
fn invalid_secret_scalar_is_rejected() {
    let g = generator_point();
    // the zero scalar is not a valid secret
    let zero = [0u8; 32];
    assert_eq!(
        Ecdh::new_with_secret(Some(1), Some(&g), &zero).unwrap_err(),
        CryptoError::PublicKeyInvalid
    );
    // a slice under the 24-byte minimum is rejected outright
    let short = [0x44u8; 16];
    assert_eq!(
        Ecdh::new_with_secret(Some(1), Some(&g), &short).unwrap_err(),
        CryptoError::PublicKeyInvalid
    );
}
