use bkupman::crypt::{crypt_unit_key, CryptUnitError, FragmentWriter};
use bkupman::cryptutil::{
    aeskey_from_password, aeskey_new_from_password, decrypt_aes256gcm, decrypt_fragment,
    encrypt_aes256gcm, encrypt_fragment, fragment_header, generate_random, AesKey, Argon2Param,
    CryptoError, ARGON2_MCOST, ARGON2_PCOST, ARGON2_TCOST,
};
use bkupman::ledger::CryptType;

#[test]
fn test_password_hash_key() {
    let pwd: &str = "password";
    let (salt, m, t, p, key1) = aeskey_new_from_password(&pwd);
    let key2 = aeskey_from_password(salt, m, t, p, pwd).unwrap();
    assert_eq!(key1, key2);
}

#[test]
fn test_aes256gcm() {
    let key: AesKey = generate_random();
    let plaintext = b"hello";

    let (nonce, ciphertext) = encrypt_aes256gcm(&key, plaintext).unwrap();
    assert_ne!(plaintext, &ciphertext.as_ref());

    let decrypted = decrypt_aes256gcm(&key, nonce, &ciphertext).unwrap();
    assert_eq!(&decrypted.as_ref(), plaintext);
}

#[test]
fn aes_round_trip_of_empty_input() {
    let key: AesKey = generate_random();
    let (nonce, ciphertext) = encrypt_aes256gcm(&key, &[]).unwrap();
    assert_eq!(ciphertext.len(), 16);
    assert_eq!(decrypt_aes256gcm(&key, nonce, &ciphertext).unwrap(), Vec::<u8>::new());
}

#[test]
fn aes_detects_tampering() {
    let key: AesKey = generate_random();
    let message = b"backup payload".to_vec();
    let (nonce, ciphertext) = encrypt_aes256gcm(&key, &message).unwrap();
    for bit in 0..ciphertext.len() * 8 {
        let mut altered = ciphertext.clone();
        altered[bit / 8] ^= 1 << (bit % 8);
        assert_eq!(
            decrypt_aes256gcm(&key, nonce, &altered),
            Err(CryptoError::Authentication)
        );
    }
    for bit in 0..nonce.len() * 8 {
        let mut altered = nonce;
        altered[bit / 8] ^= 1 << (bit % 8);
        assert_eq!(
            decrypt_aes256gcm(&key, altered, &ciphertext),
            Err(CryptoError::Authentication)
        );
    }
}

#[test]
fn fresh_nonce_for_each_encryption() {
    let key: AesKey = generate_random();
    let (n1, c1) = encrypt_aes256gcm(&key, b"same").unwrap();
    let (n2, c2) = encrypt_aes256gcm(&key, b"same").unwrap();
    assert_ne!(n1, n2);
    assert_ne!(c1, c2);
}

#[test]
fn key_derivation_is_deterministic_and_input_sensitive() {
    let salt = [7u8; 16];
    let k1 = aeskey_from_password(salt, 64, 1, 1, "pw").unwrap();
    let k2 = aeskey_from_password(salt, 64, 1, 1, "pw").unwrap();
    assert_eq!(k1, k2);
    assert_ne!(k1, aeskey_from_password(salt, 64, 1, 1, "pX").unwrap());
    assert_ne!(k1, aeskey_from_password([8u8; 16], 64, 1, 1, "pw").unwrap());
    assert_ne!(k1, aeskey_from_password(salt, 72, 1, 1, "pw").unwrap());
    assert_ne!(k1, aeskey_from_password(salt, 64, 2, 1, "pw").unwrap());
    assert_ne!(k1, aeskey_from_password(salt, 64, 1, 2, "pw").unwrap());
}

#[test]
fn key_derivation_refuses_bad_costs() {
    let salt = [0u8; 16];
    assert_eq!(aeskey_from_password(salt, 7, 1, 1, "pw"), Err(CryptoError::InvalidKdfParams));
    assert_eq!(aeskey_from_password(salt, 15, 1, 2, "pw"), Err(CryptoError::InvalidKdfParams));
    assert_eq!(aeskey_from_password(salt, 64, 0, 1, "pw"), Err(CryptoError::InvalidKdfParams));
    assert_eq!(aeskey_from_password(salt, 64, 1, 0, "pw"), Err(CryptoError::InvalidKdfParams));
    assert_eq!(
        aeskey_from_password(salt, 64, 1, 0x100_0000, "pw"),
        Err(CryptoError::InvalidKdfParams)
    );
}

#[test]
fn default_costs() {
    assert_eq!((ARGON2_MCOST, ARGON2_TCOST, ARGON2_PCOST), (19456, 2, 1));
}

fn param() -> Argon2Param {
    Argon2Param { salt: [0xab; 16], m_cost: 0x0102_0304, t_cost: 2, p_cost: 1 }
}

#[test]
fn fragment_header_layout() {
    let nonce = [9u8; 12];
    let h = fragment_header(&param(), &nonce);
    let mut expected = vec![0xabu8; 16];
    expected.extend_from_slice(&[4, 3, 2, 1, 2, 0, 0, 0, 1, 0, 0, 0]);
    expected.extend_from_slice(&nonce);
    assert_eq!(h, expected);
}

#[test]
fn fragment_round_trip_and_short_input() {
    let key: AesKey = generate_random();
    let f = encrypt_fragment(&key, &param(), b"chunk").unwrap();
    assert_eq!(f.len(), 40 + 5 + 16);
    assert_eq!(decrypt_fragment(&key, &f).unwrap(), b"chunk".to_vec());
    assert_eq!(decrypt_fragment(&key, &f[..39]), Err(CryptoError::FragmentTooShort));
    let other: AesKey = generate_random();
    assert_eq!(decrypt_fragment(&other, &f), Err(CryptoError::Authentication));
}

#[test]
fn crypt_unit_key_by_policy() {
    assert_eq!(crypt_unit_key(&CryptType::PlainText), Ok(None));
    let none = CryptType::Aes256GcmArgon2 { key: None, param: param() };
    assert_eq!(crypt_unit_key(&none), Err(CryptUnitError::MissingKey));
    let key = [1u8; 32];
    let some = CryptType::Aes256GcmArgon2 { key: Some(key), param: param() };
    assert_eq!(crypt_unit_key(&some), Ok(Some((key, param()))));
}

#[test]
fn ten_mib_in_four_mib_fragments() {
    let key: AesKey = generate_random();
    let mut state = 0x1234_5678_9abc_def0u64;
    let mut data = vec![0u8; 10 * 1024 * 1024];
    for chunk in data.chunks_mut(1024 * 1024) {
        state = bkupman::util::xorshift64_fill(chunk, state);
    }
    let fragment_size = 4 * 1024 * 1024u64;
    let mut w = FragmentWriter::new("big_20240101.bin", key, param(), fragment_size);
    let mut fragments = Vec::new();
    for chunk in data.chunks(fragment_size as usize) {
        fragments.push(w.encrypt_next(chunk).unwrap());
    }
    assert_eq!(fragments.len(), 3);
    assert_eq!(fragments[0].0, "big_20240101.bin.000000");
    assert_eq!(fragments[2].0, "big_20240101.bin.000002");
    let mut joined = Vec::new();
    for (_, bytes) in &fragments {
        assert_eq!(&bytes[..16], &param().salt);
        joined.extend(decrypt_fragment(&key, bytes).unwrap());
    }
    assert_eq!(joined, data);
    let info = w.finish();
    assert_eq!(info.total_size, 10 * 1024 * 1024);
    assert_eq!(info.fragment_size, fragment_size);
    assert_eq!(info.crypt, CryptType::Aes256GcmArgon2 { key: None, param: param() });
    assert_eq!(w.index, 3);
    assert!(w.done);
}
