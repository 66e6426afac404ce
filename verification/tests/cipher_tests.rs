use kakadu_vault::provider::KakaduProvider;

#[test]
fn pad_appends_full_block_when_aligned() {
    let mut data: Vec<u8> = (0u8..16u8).collect();
    KakaduProvider::add_padding(&mut data, 16);
    assert_eq!(data.len(), 32);
    for k in 16..32 {
        assert_eq!(data[k], 16);
    }
    KakaduProvider::remove_padding(&mut data, 16);
    let expected: Vec<u8> = (0u8..16u8).collect();
    assert_eq!(data, expected);
}

#[test]
fn pad_empty_input() {
    let mut data: Vec<u8> = Vec::new();
    KakaduProvider::add_padding(&mut data, 16);
    assert_eq!(data, vec![16u8; 16]);
    KakaduProvider::remove_padding(&mut data, 16);
    assert!(data.is_empty());
}

#[test]
fn pad_short_input() {
    let mut data: Vec<u8> = vec![1, 2, 3];
    KakaduProvider::add_padding(&mut data, 16);
    assert_eq!(data.len(), 16);
    for k in 3..16 {
        assert_eq!(data[k], 13);
    }
    KakaduProvider::remove_padding(&mut data, 16);
    assert_eq!(data, vec![1, 2, 3]);
}

#[test]
fn remove_padding_leaves_invalid_buffer_untouched() {
    let mut data: Vec<u8> = vec![10, 20, 30, 200];
    KakaduProvider::remove_padding(&mut data, 16);
    assert_eq!(data, vec![10, 20, 30, 200]);

    // Last byte claims 4 pad bytes but they do not all match.
    let mut data2: Vec<u8> = vec![9, 4, 4, 4];
    KakaduProvider::remove_padding(&mut data2, 16);
    assert_eq!(data2, vec![9, 4, 4, 4]);
}

#[test]
fn encrypt_decrypt_round_trip() {
    let plain: Vec<u8> = b"some secret bytes, length not aligned".to_vec();
    let cipher = KakaduProvider::encrypt_data(&plain, "hunter2").unwrap();
    assert_eq!(cipher.len() % 16, 0);
    let back = KakaduProvider::decrypt_data(&cipher, "hunter2").unwrap();
    assert_eq!(back, plain);
}

#[test]
fn encrypt_is_not_identity() {
    let plain: Vec<u8> = vec![0u8; 16];
    let cipher = KakaduProvider::encrypt_data(&plain, "123456789aA").unwrap();
    // If the block cipher handed its input back, the first 16 bytes
    // would still be zero.
    assert_ne!(&cipher[0..16], &plain[0..16]);
}

#[test]
fn encrypt_is_deterministic_per_passphrase() {
    let plain: Vec<u8> = b"abc".to_vec();
    let c1 = KakaduProvider::encrypt_data(&plain, "p1").unwrap();
    let c2 = KakaduProvider::encrypt_data(&plain, "p1").unwrap();
    let c3 = KakaduProvider::encrypt_data(&plain, "p2").unwrap();
    assert_eq!(c1, c2);
    assert_ne!(c1, c3);
}

#[test]
fn decrypt_with_wrong_passphrase_differs() {
    let plain: Vec<u8> = b"0123456789abcdef0123456789abcdef".to_vec();
    let cipher = KakaduProvider::encrypt_data(&plain, "right").unwrap();
    let wrong = KakaduProvider::decrypt_data(&cipher, "wrong").unwrap();
    assert_ne!(wrong, plain);
}

#[test]
fn identical_blocks_encrypt_identically() {
    // The unchained block mode is a documented property of the format:
    // two equal plaintext blocks give two equal ciphertext blocks.
    let plain: Vec<u8> = vec![7u8; 32];
    let cipher = KakaduProvider::encrypt_data(&plain, "pw").unwrap();
    assert_eq!(&cipher[0..16], &cipher[16..32]);
}
