use short_crypt::ShortCrypt;

#[test]
fn round_trip_raw_various_inputs() {
    let keys: [&str; 4] = ["", "k", "magickey", "a somewhat longer key with spaces"];
    let plains: [&[u8]; 6] =
        [b"", b"a", b"ab", b"articles", b"0123456789abcdef", &[0u8, 255, 128, 7, 7, 7, 1]];
    for key in keys.iter() {
        let sc = ShortCrypt::new(key);
        for plain in plains.iter() {
            let cipher = sc.encrypt(plain);
            assert!(cipher.0 <= 31);
            assert_eq!(cipher.1.len(), plain.len());
            assert_eq!(plain.to_vec(), sc.decrypt(&cipher).unwrap());
        }
    }
}

#[test]
fn round_trip_url_various_inputs() {
    let keys: [&str; 3] = ["", "magickey", "another key"];
    let plains: [&[u8]; 6] =
        [b"", b"a", b"ab", b"articles", b"0123456789abcdef", &[0u8, 255, 128, 7, 7, 7, 1]];
    for key in keys.iter() {
        let sc = ShortCrypt::new(key);
        for plain in plains.iter() {
            let text = sc.encrypt_to_url_component(plain);
            assert_eq!(text.len(), (4 * plain.len() + 2) / 3 + 1);
            assert_eq!(plain.to_vec(), sc.decrypt_url_component(&text).unwrap());
        }
    }
}

#[test]
fn round_trip_qr_various_inputs() {
    let keys: [&str; 3] = ["", "magickey", "another key"];
    let plains: [&[u8]; 6] =
        [b"", b"a", b"ab", b"articles", b"0123456789abcdef", &[0u8, 255, 128, 7, 7, 7, 1]];
    for key in keys.iter() {
        let sc = ShortCrypt::new(key);
        for plain in plains.iter() {
            let text = sc.encrypt_to_qr_code_alphanumeric(plain);
            assert_eq!(text.len(), (8 * plain.len() + 4) / 5 + 1);
            assert_eq!(plain.to_vec(), sc.decrypt_qr_code_alphanumeric(&text).unwrap());
        }
    }
}

#[test]
fn decrypt_rejects_base_out_of_range() {
    let sc = ShortCrypt::new("magickey");
    assert!(sc.decrypt(&(32, vec![1, 2, 3])).is_err());
    assert!(sc.decrypt(&(255, Vec::new())).is_err());
    assert!(sc.decrypt(&(31, Vec::new())).is_ok());
}

#[test]
fn decrypt_rejects_empty_text() {
    let sc = ShortCrypt::new("magickey");
    assert!(sc.decrypt_url_component("").is_err());
    assert!(sc.decrypt_qr_code_alphanumeric("").is_err());
    assert!(sc.decrypt_url_component_and_push_to_vec("", Vec::new()).is_err());
    assert!(sc.decrypt_qr_code_alphanumeric_and_push_to_vec("", Vec::new()).is_err());
}

#[test]
fn decrypt_rejects_base_digit_out_of_range() {
    // Every character of these texts reads back as a value above 31,
    // wherever the base position lands.
    let sc = ShortCrypt::new("magickey");
    assert!(sc.decrypt_url_component("~~~~").is_err());
    assert!(sc.decrypt_qr_code_alphanumeric("!!!!").is_err());
}

#[test]
fn decrypt_rejects_bad_body_encoding() {
    // The base digit '0' is accepted, but the remaining single '0' is
    // neither valid unpadded base-64 nor a valid base-32 digit.
    let sc = ShortCrypt::new("magickey");
    assert!(sc.decrypt_url_component("00").is_err());
    assert!(sc.decrypt_qr_code_alphanumeric("00").is_err());
}

#[test]
fn append_forms_extend_the_buffer() {
    let sc = ShortCrypt::new("magickey");
    let prefixes: [&str; 3] = ["", "x", "https://example.invalid/path?q="];
    for prefix in prefixes.iter() {
        let url_tail = sc.encrypt_to_url_component(b"articles");
        let combined =
            sc.encrypt_to_url_component_and_push_to_string(b"articles", prefix.to_string());
        assert_eq!(combined, format!("{}{}", prefix, url_tail));

        let qr_tail = sc.encrypt_to_qr_code_alphanumeric(b"articles");
        let combined =
            sc.encrypt_to_qr_code_alphanumeric_and_push_to_string(b"articles", prefix.to_string());
        assert_eq!(combined, format!("{}{}", prefix, qr_tail));

        let plain = sc
            .decrypt_url_component_and_push_to_vec(&url_tail, prefix.as_bytes().to_vec())
            .unwrap();
        let mut expected = prefix.as_bytes().to_vec();
        expected.extend_from_slice(b"articles");
        assert_eq!(plain, expected);

        let plain = sc
            .decrypt_qr_code_alphanumeric_and_push_to_vec(&qr_tail, prefix.as_bytes().to_vec())
            .unwrap();
        assert_eq!(plain, expected);
    }
}

#[test]
fn wrong_key_round_trips_to_garbage_of_same_length() {
    let sc1 = ShortCrypt::new("magickey");
    let sc2 = ShortCrypt::new("otherkey");
    let cipher = sc1.encrypt(b"articles");
    let garbled = sc2.decrypt(&cipher).unwrap();
    assert_eq!(garbled.len(), 8);
    assert_ne!(garbled, b"articles".to_vec());
}

#[test]
fn avalanche_over_single_byte_changes() {
    // Qualitative check: flipping one plaintext byte moves well over half
    // of the characters of the URL form, averaged over a few samples.
    let sc = ShortCrypt::new("magickey");
    let reference = sc.encrypt_to_url_component(b"articles");
    let mut total: usize = 0;
    let mut pairs: usize = 0;
    for i in 0..8 {
        let mut variant = *b"articles";
        variant[i] ^= 1;
        let other = sc.encrypt_to_url_component(&variant);
        assert_eq!(reference.len(), other.len());
        let differing = reference
            .as_bytes()
            .iter()
            .zip(other.as_bytes().iter())
            .filter(|(a, b)| a != b)
            .count();
        total += differing;
        pairs += 1;
    }
    assert!(total >= pairs * reference.len() / 2);
}
