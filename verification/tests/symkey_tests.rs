use lockbook::symkey::{decrypt, encrypt, generate_key, AESDecryptError};

#[test]
fn test_key_generation() {
    let key = generate_key();
    let test_value = uuid::Uuid::new_v4().to_string();
    let encrypted = encrypt(&key, &test_value).unwrap();
    let decrypted = decrypt(&key, &encrypted).unwrap();
    assert_eq!(test_value, decrypted)
}

#[test]
fn ciphertext_differs_from_serialized_value() {
    let key = generate_key();
    let value = String::from("plain text");
    let encrypted = encrypt(&key, &value).unwrap();
    assert_eq!(encrypted.nonce.len(), 12);
    // bincode: 8 length bytes, 10 text bytes; AES-GCM adds a 16-byte tag.
    assert_eq!(encrypted.value.len(), 8 + 10 + 16);
    assert_ne!(&encrypted.value[8..18], value.as_bytes());
}

#[test]
fn wrong_key_does_not_decrypt() {
    let key = generate_key();
    let mut other = key;
    other[0] ^= 1;
    let encrypted = encrypt(&key, &String::from("secret")).unwrap();
    assert!(matches!(decrypt(&other, &encrypted), Err(AESDecryptError::Decryption(_))));
}

#[test]
fn empty_value_roundtrips() {
    let key = generate_key();
    let encrypted = encrypt(&key, &String::new()).unwrap();
    assert_eq!(decrypt(&key, &encrypted).unwrap(), "");
}
