use rand::{distributions::Alphanumeric, Rng};
use wirecodec::tea::Tea;
use wirecodec::CryptoError;

#[test]
fn tea_test_encrypt() {
    let key = "0123456789ABCDEF".as_bytes();
    let tea = Tea::new(key).expect("Key too short");
    let src = "MiraiGO Here".bytes().collect::<Vec<_>>();
    let res = tea.encrypt(&src);

    assert!(res.is_ok());

    let res = res.unwrap();
    let dres = tea.decrypt(&res).unwrap();
    assert_eq!("MiraiGO Here".bytes().collect::<Vec<_>>(), dres);
}

#[test]
fn tea_test_decrypt() {
    let tres = [
        0xb7, 0xb2, 0xe5, 0x2a, 0xf7, 0xf5, 0xb1, 0xfb, 0xf3, 0x7f, 0xc3, 0xd5, 0x54, 0x6a, 0xc7,
        0x56, 0x9a, 0xec, 0xd0, 0x1b, 0xba, 0xcf, 0x09, 0xbf,
    ];
    let key = "0123456789ABCDEF".as_bytes();
    let tea = Tea::new(key).unwrap();
    let stres = tres.into_iter().collect::<Vec<u8>>();
    let dres = tea.decrypt(&stres).unwrap();
    assert_eq!("MiraiGO Here".bytes().collect::<Vec<_>>(), dres);
}

#[test]
fn tea_random_data_test() {
    let key = "0123456789ABCDEF".as_bytes();
    let tea = Tea::new(key).unwrap();

    for i in 0..5 {
        println!("Doing Num {} test", i);
        let data: String = rand::thread_rng()
            .sample_iter(&Alphanumeric)
            .take(rand::random::<u8>() as usize)
            .map(char::from)
            .collect();
        println!("test String is {}", data);

        let d = data.clone().bytes().into_iter().collect::<Vec<_>>();
        let ec = tea.encrypt(d.as_slice()).unwrap();

        let de = tea.decrypt(&ec).unwrap();

        println!("decrptyed is   {}", String::from_utf8_lossy(&de));

        assert_eq!(String::from_utf8_lossy(&de).to_string(), data);
    }
}

#[test]
fn tea_round_trip_all_small_lengths() {
    let tea = Tea::new(b"0123456789ABCDEF").unwrap();
    for len in 0..40usize {
        let src: Vec<u8> = (0..len).map(|i| (i * 7 + 3) as u8).collect();
        let ct = tea.encrypt(&src).unwrap();
        let back = tea.decrypt(&ct).unwrap();
        assert_eq!(back, src);
    }
}

#[test]
fn tea_ciphertext_length_is_padded_multiple_of_eight() {
    let tea = Tea::new(b"0123456789ABCDEF").unwrap();
    for len in 0..40usize {
        let src: Vec<u8> = vec![0xAA; len];
        let ct = tea.encrypt(&src).unwrap();
        assert_eq!(ct.len() % 8, 0);
        assert!(ct.len() >= 16);
        assert!(ct.len() >= len + 10);
        assert_eq!(ct.len(), 8 * ((len + 1) / 8) + 16);
    }
    // a length-0 input encrypts to the 16-byte minimum
    let ct0 = tea.encrypt(&[]).unwrap();
    assert_eq!(ct0.len(), 16);
}

#[test]
fn tea_decrypt_rejects_misaligned_input() {
    let tea = Tea::new(b"0123456789ABCDEF").unwrap();
    for bad in [0usize, 1, 7, 8, 15, 17, 23, 31] {
        let data: Vec<u8> = vec![0x55; bad];
        let res = tea.decrypt(&data);
        assert_eq!(res, Err(CryptoError::GroupAble(bad)));
    }
}

#[test]
fn tea_key_under_16_bytes_is_rejected() {
    let res = Tea::new(b"short");
    assert!(matches!(res, Err(CryptoError::Size(16, 5))));
    // exactly 16 bytes is accepted, and extra bytes are ignored
    assert!(Tea::new(b"0123456789ABCDEF").is_ok());
    assert!(Tea::new(b"0123456789ABCDEFextra").is_ok());
}
