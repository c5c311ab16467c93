use aes_gcm::aead::generic_array::GenericArray;
use aes_gcm::aead::{Aead, NewAead};
use rust_disk_cache::crypto::{fresh_nonce, generate_encryption_key, key_from_file_contents, EncryptionService};
use rust_disk_cache::errors::{CacheError, EncryptionError};

#[allow(deprecated)]
fn expected_text(key: &[u8], nonce: &[u8; 12], value: &[u8]) -> String {
    let cipher = aes_gcm::Aes256Gcm::new(GenericArray::from_slice(key));
    let ct = cipher.encrypt(GenericArray::from_slice(nonce), value).unwrap();
    base64::encode(nonce) + &base64::encode(&ct)
}

#[allow(deprecated)]
fn seal_bytes(key: &[u8], nonce: &[u8; 12], value: &[u8]) -> String {
    expected_text(key, nonce, value)
}

#[test]
fn key_of_wrong_length_is_refused() {
    assert!(matches!(EncryptionService::new(vec![0u8; 31]), Err(EncryptionError::AeadError(_))));
    assert!(matches!(EncryptionService::new(vec![0u8; 33]), Err(EncryptionError::AeadError(_))));
    assert!(matches!(EncryptionService::new(Vec::new()), Err(EncryptionError::AeadError(_))));
    let svc = EncryptionService::new(vec![0u8; 32]).unwrap();
    assert_eq!(svc.key_len(), 32);
}

#[test]
fn encrypt_with_nonce_gives_base64_nonce_then_ciphertext() {
    let key = [9u8; 32];
    let nonce = [1u8, 2, 3, 4, 5, 6, 7, 8, 9, 10, 11, 12];
    let svc = EncryptionService::new(key.to_vec()).unwrap();
    let text = svc.encrypt_with_nonce(&nonce, "hello").unwrap();
    assert_eq!(text, expected_text(&key, &nonce, b"hello"));
    assert_eq!(&text[..16], "AQIDBAUGBwgJCgsM");
    assert_eq!(text.len(), 16 + 4 * ((5 + 16 + 2) / 3));
}

#[test]
fn decrypt_gives_back_what_encrypt_made() {
    let svc = EncryptionService::new(generate_encryption_key()).unwrap();
    for value in ["", "a", "hello world", "ünïcödé ✓"] {
        let text = svc.encrypt(value).unwrap();
        assert_eq!(svc.decrypt(&text), Ok(value.to_string()));
    }
}

#[test]
fn fresh_nonces_make_different_texts() {
    let svc = EncryptionService::new(vec![5u8; 32]).unwrap();
    let a = svc.encrypt("same").unwrap();
    let b = svc.encrypt("same").unwrap();
    assert_ne!(a, b);
    assert_eq!(svc.decrypt(&a), svc.decrypt(&b));
}

#[test]
fn decrypt_refuses_malformed_texts() {
    let svc = EncryptionService::new(vec![5u8; 32]).unwrap();
    assert_eq!(svc.decrypt(""), Err(CacheError::DecryptionError));
    assert_eq!(svc.decrypt("short"), Err(CacheError::DecryptionError));
    assert_eq!(svc.decrypt("!!!!!!!!!!!!!!!!AAAA"), Err(CacheError::DecryptionError));
    // a nonce text that decodes to fewer than 12 bytes
    assert_eq!(svc.decrypt("AAAAAAAAAAAAAA==AAAA"), Err(CacheError::DecryptionError));
    let good = svc.encrypt("value").unwrap();
    let mut tampered = good.clone();
    tampered.replace_range(16..20, "AAAA");
    assert_ne!(tampered, good);
    assert_eq!(svc.decrypt(&tampered), Err(CacheError::DecryptionError));
    let other = EncryptionService::new(vec![6u8; 32]).unwrap();
    assert_eq!(other.decrypt(&good), Err(CacheError::DecryptionError));
}

#[test]
fn decrypt_refuses_plaintext_that_is_not_utf8() {
    let key = [5u8; 32];
    let nonce = [0u8; 12];
    let svc = EncryptionService::new(key.to_vec()).unwrap();
    let text = seal_bytes(&key, &nonce, &[0xff, 0xfe, 0x41]);
    assert_eq!(svc.decrypt(&text), Err(CacheError::DecryptionError));
}

#[test]
fn generated_keys_have_aes256_length() {
    let a = generate_encryption_key();
    let b = generate_encryption_key();
    assert_eq!(a.len(), 32);
    assert_eq!(b.len(), 32);
    assert_ne!(a, b);
}

#[test]
fn key_file_contents() {
    let bytes: Vec<u8> = (0u8..40).collect();
    assert_eq!(key_from_file_contents(&bytes), Ok((0u8..32).collect::<Vec<u8>>()));
    assert_eq!(
        key_from_file_contents(&bytes[..31]),
        Err(CacheError::IoError("failed to fill whole buffer".to_string()))
    );
}

#[test]
fn encrypted_text_layout() {
    let svc = EncryptionService::new(vec![2u8; 32]).unwrap();
    for value in ["", "x", "twenty bytes of text", "ü"] {
        let text = svc.encrypt(value).unwrap();
        let n = value.len() + 16;
        assert_eq!(text.len(), 16 + 4 * ((n + 2) / 3));
        assert_ne!(text, value);
        assert_eq!(base64::decode(&text[..16]).unwrap().len(), 12);
    }
}

#[test]
#[allow(deprecated)]
fn byte_encryption_round_trips() {
    let key = [8u8; 32];
    let svc = EncryptionService::new(key.to_vec()).unwrap();
    for data in [Vec::new(), vec![0u8, 255, 7], (0u8..=200).collect::<Vec<u8>>()] {
        let blob = svc.encrypt_bytes(&data).unwrap();
        assert_eq!(blob.len(), data.len() + 12 + 16);
        let cipher = aes_gcm::Aes256Gcm::new(GenericArray::from_slice(&key));
        let expected = cipher.encrypt(GenericArray::from_slice(&blob[..12]), data.as_slice()).unwrap();
        assert_eq!(&blob[12..], expected.as_slice());
        assert_eq!(svc.decrypt_bytes(&blob), Ok(data.clone()));
    }
}

#[test]
fn byte_decryption_refuses_bad_blobs() {
    let svc = EncryptionService::new(vec![8u8; 32]).unwrap();
    assert_eq!(svc.decrypt_bytes(&[1, 2, 3]), Err(CacheError::DecryptionError));
    let mut blob = svc.encrypt_bytes(b"payload").unwrap();
    blob[14] ^= 1;
    assert_eq!(svc.decrypt_bytes(&blob), Err(CacheError::DecryptionError));
}

#[test]
fn fresh_nonces_differ() {
    assert_ne!(fresh_nonce(), fresh_nonce());
}
