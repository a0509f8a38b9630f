use chacha20poly1305::aead::Aead;
use chacha20poly1305::{ChaCha20Poly1305, Key, KeyInit, Nonce};
use opnsense_client::cipher::{decrypt_string, encrypt_string};
use opnsense_client::error::StoreError;
use sha2::{Digest, Sha256};

#[test]
fn round_trip_returns_the_plaintext() {
    let (ciphertext, nonce) = encrypt_string("s3cr3t-value", "1234").unwrap();
    assert_eq!(decrypt_string(&ciphertext, &nonce, "1234"), Ok("s3cr3t-value".to_string()));
}

#[test]
fn round_trip_of_empty_and_non_ascii_text() {
    let (ciphertext, nonce) = encrypt_string("", "1234").unwrap();
    assert_eq!(decrypt_string(&ciphertext, &nonce, "1234"), Ok(String::new()));
    let (ciphertext, nonce) = encrypt_string("schlüssel-密钥", "geheim-ß").unwrap();
    assert_eq!(decrypt_string(&ciphertext, &nonce, "geheim-ß"), Ok("schlüssel-密钥".to_string()));
}

#[test]
fn wrong_pin_is_rejected() {
    let (ciphertext, nonce) = encrypt_string("s1", "1234").unwrap();
    assert_eq!(decrypt_string(&ciphertext, &nonce, "0000"), Err(StoreError::DecryptionError));
}

#[test]
fn nonce_has_twelve_bytes_and_is_drawn_anew() {
    let (first_ct, first_nonce) = encrypt_string("same text", "1234").unwrap();
    let (second_ct, second_nonce) = encrypt_string("same text", "1234").unwrap();
    assert_eq!(first_nonce.len(), 12);
    assert_eq!(second_nonce.len(), 12);
    assert_ne!(first_nonce, second_nonce);
    assert_ne!(first_ct, second_ct);
}

#[test]
fn ciphertext_is_plaintext_length_plus_tag_and_differs_from_it() {
    let (ciphertext, _) = encrypt_string("0123456789", "1234").unwrap();
    assert_eq!(ciphertext.len(), 10 + 16);
    assert_ne!(&ciphertext[..10], "0123456789".as_bytes());
}

#[test]
fn key_is_the_sha256_digest_of_the_pin() {
    let (ciphertext, nonce) = encrypt_string("k1", "1234").unwrap();
    let key = Sha256::digest("1234".as_bytes());
    let cipher = ChaCha20Poly1305::new(Key::from_slice(&key));
    let opened = cipher.decrypt(Nonce::from_slice(&nonce), ciphertext.as_slice()).unwrap();
    assert_eq!(opened, b"k1".to_vec());
}

#[test]
fn decrypt_accepts_what_the_cipher_sealed_under_the_digest() {
    let key = Sha256::digest("pin".as_bytes());
    let cipher = ChaCha20Poly1305::new(Key::from_slice(&key));
    let nonce = [7u8; 12];
    let ciphertext = cipher.encrypt(Nonce::from_slice(&nonce), "hello".as_bytes()).unwrap();
    assert_eq!(decrypt_string(&ciphertext, &nonce, "pin"), Ok("hello".to_string()));
}

#[test]
fn nonce_of_wrong_length_is_a_decryption_error() {
    let (ciphertext, nonce) = encrypt_string("s1", "1234").unwrap();
    assert_eq!(decrypt_string(&ciphertext, &nonce[..11], "1234"), Err(StoreError::DecryptionError));
    assert_eq!(decrypt_string(&ciphertext, &[], "1234"), Err(StoreError::DecryptionError));
    let mut long = nonce.clone();
    long.push(0);
    assert_eq!(decrypt_string(&ciphertext, &long, "1234"), Err(StoreError::DecryptionError));
}

#[test]
fn other_nonce_is_a_decryption_error() {
    let (ciphertext, mut nonce) = encrypt_string("s1", "1234").unwrap();
    nonce[0] ^= 1;
    assert_eq!(decrypt_string(&ciphertext, &nonce, "1234"), Err(StoreError::DecryptionError));
}

#[test]
fn altered_ciphertext_is_a_decryption_error() {
    let (mut ciphertext, nonce) = encrypt_string("s1", "1234").unwrap();
    ciphertext[0] ^= 0x80;
    assert_eq!(decrypt_string(&ciphertext, &nonce, "1234"), Err(StoreError::DecryptionError));
    assert_eq!(decrypt_string(&[], &nonce, "1234"), Err(StoreError::DecryptionError));
}

#[test]
fn plaintext_that_is_not_utf8_is_a_decryption_error() {
    let key = Sha256::digest("1234".as_bytes());
    let cipher = ChaCha20Poly1305::new(Key::from_slice(&key));
    let nonce = [1u8; 12];
    let ciphertext = cipher.encrypt(Nonce::from_slice(&nonce), &[0xffu8, 0xfe, 0x00][..]).unwrap();
    assert_eq!(decrypt_string(&ciphertext, &nonce, "1234"), Err(StoreError::DecryptionError));
}
