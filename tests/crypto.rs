use rudric::crypto::{decrypt, derive_key, encrypt, generate_salt, hash_password, verify_hash, Key};
use rudric::error::VaultError;

#[test]
fn encrypt_then_decrypt_gives_plaintext() {
    let key = Key::generate();
    let sealed = encrypt(&key, b"Secret message").unwrap();
    assert_ne!(sealed, b"Secret message".to_vec());
    assert_eq!(sealed.len(), b"Secret message".len() + 40);
    assert_eq!(decrypt(&key, &sealed).unwrap(), b"Secret message".to_vec());
}

#[test]
fn decrypt_with_other_key_fails() {
    let k1 = Key::generate();
    let k2 = Key::generate();
    let sealed = encrypt(&k1, b"payload").unwrap();
    assert_eq!(decrypt(&k2, &sealed), Err(VaultError::DecryptionFailed));
}

#[test]
fn decrypt_tampered_or_truncated_fails() {
    let key = Key::generate();
    let mut sealed = encrypt(&key, b"payload").unwrap();
    let last = sealed.len() - 1;
    sealed[last] ^= 1;
    assert_eq!(decrypt(&key, &sealed), Err(VaultError::DecryptionFailed));
    assert_eq!(decrypt(&key, &sealed[..10]), Err(VaultError::DecryptionFailed));
}

#[test]
fn encrypt_empty_plaintext_fails() {
    let key = Key::generate();
    assert_eq!(encrypt(&key, b""), Err(VaultError::EncryptionFailed));
}

#[test]
fn key_from_bytes_checks_length() {
    assert!(Key::from_bytes(vec![7u8; 32]).is_some());
    assert!(Key::from_bytes(vec![7u8; 31]).is_none());
    let k = Key::from_bytes(vec![9u8; 32]).unwrap();
    assert_eq!(k.as_bytes(), &vec![9u8; 32]);
    assert_eq!(k.duplicate().as_bytes(), &vec![9u8; 32]);
}

#[test]
fn generated_salt_has_sixteen_bytes() {
    assert_eq!(generate_salt().len(), 16);
    assert_ne!(generate_salt(), generate_salt());
}

#[test]
fn derive_key_is_deterministic() {
    let salt = [3u8; 16];
    let a = derive_key("password", &salt).unwrap();
    let b = derive_key("password", &salt).unwrap();
    assert_eq!(a.as_bytes(), b.as_bytes());
    assert_eq!(a.as_bytes().len(), 32);
}

#[test]
fn derive_key_depends_on_password_and_salt() {
    let a = derive_key("password", &[3u8; 16]).unwrap();
    let b = derive_key("passwore", &[3u8; 16]).unwrap();
    assert_ne!(a.as_bytes(), b.as_bytes());
    let c = derive_key("password", &[4u8; 16]).unwrap();
    assert_ne!(a.as_bytes(), c.as_bytes());
}

#[test]
fn derive_key_rejects_empty_password_and_short_salt() {
    assert_eq!(derive_key("", &[3u8; 16]).err(), Some(VaultError::InvalidPassword));
    assert_eq!(derive_key("pw", &[3u8; 7]).err(), Some(VaultError::InvalidSalt));
}

#[test]
fn hash_then_verify() {
    let h = hash_password("hunter2").unwrap();
    assert!(h.starts_with("$argon2i$v=19$m=65536,t=3,p=1$"));
    assert!(verify_hash("hunter2", &h));
    assert!(!verify_hash("hunter3", &h));
}

#[test]
fn hash_rejects_empty_password_and_verify_rejects_malformed_hash() {
    assert_eq!(hash_password(""), Err(VaultError::InvalidPassword));
    assert!(!verify_hash("hunter2", "not a hash"));
    assert!(!verify_hash("hunter2", ""));
}

#[test]
fn decrypt_short_input_fails() {
    let key = Key::generate();
    assert_eq!(decrypt(&key, &[0u8; 40]), Err(VaultError::DecryptionFailed));
    assert_eq!(decrypt(&key, &[]), Err(VaultError::DecryptionFailed));
}
