use dpaste::encryption::{
    decrypt, derive_key, encrypt, encrypt_with_iv, join_payload, split_payload, IV_LEN, TAG_LEN,
};
use dpaste::error::Error;

fn hex(s: &str) -> Vec<u8> {
    (0..s.len()).step_by(2).map(|i| u8::from_str_radix(&s[i..i + 2], 16).unwrap()).collect()
}

const IV: [u8; 12] = [0, 1, 2, 3, 4, 5, 6, 7, 8, 9, 10, 11];

#[test]
fn derived_key_matches_the_known_value() {
    assert_eq!(
        derive_key(b"password"),
        hex("cfdd160e58a2a251bc1c954f295bd6ea2db7f73e8a8283afd09477d0f7ebb536")
    );
}

#[test]
fn derived_key_of_the_empty_password() {
    assert_eq!(
        derive_key(b""),
        hex("f40da7b85c753a2c30f0d0b2fc1a58bffaa99178e7af008883e8941176f83b16")
    );
}

#[test]
fn encryption_with_a_given_vector_matches_the_known_value() {
    assert_eq!(
        encrypt_with_iv(b"hello note", b"password", &IV),
        hex("000102030405060708090a0b1a55e5f153e16a4a0eca1be9a35809b460fc3c8c137e7e1c13f0")
    );
}

#[test]
fn encryption_of_nothing_is_vector_and_tag() {
    assert_eq!(
        encrypt_with_iv(b"", b"password", &IV),
        hex("000102030405060708090a0b7e40a6bd222a7e0ae8fb890b445fa4d8")
    );
}

#[test]
fn decryption_of_the_known_value() {
    let payload =
        hex("000102030405060708090a0b1a55e5f153e16a4a0eca1be9a35809b460fc3c8c137e7e1c13f0");
    assert_eq!(decrypt(&payload, b"password"), Ok(b"hello note".to_vec()));
}

#[test]
fn round_trip_gives_the_plaintext_back() {
    let payload = encrypt(b"some text \xff\x00", b"pw");
    assert_eq!(payload.len(), IV_LEN + 12 + TAG_LEN);
    assert_eq!(decrypt(&payload, b"pw"), Ok(b"some text \xff\x00".to_vec()));
}

#[test]
fn round_trip_of_the_empty_plaintext() {
    let payload = encrypt(b"", b"");
    assert_eq!(payload.len(), IV_LEN + TAG_LEN);
    assert_eq!(decrypt(&payload, b""), Ok(Vec::new()));
}

#[test]
fn wrong_password_fails_to_authenticate() {
    let payload = encrypt_with_iv(b"secret", b"one", &IV);
    assert_eq!(decrypt(&payload, b"two"), Err(Error::DecryptionAuthenticationFailed));
}

#[test]
fn flipped_bit_in_the_vector_fails_to_authenticate() {
    let mut payload =
        hex("000102030405060708090a0b1a55e5f153e16a4a0eca1be9a35809b460fc3c8c137e7e1c13f0");
    payload[3] ^= 0x01;
    assert_eq!(decrypt(&payload, b"password"), Err(Error::DecryptionAuthenticationFailed));
}

#[test]
fn flipped_bit_in_the_ciphertext_fails_to_authenticate() {
    let mut payload =
        hex("000102030405060708090a0b1a55e5f153e16a4a0eca1be9a35809b460fc3c8c137e7e1c13f0");
    payload[IV_LEN + 2] ^= 0x80;
    assert_eq!(decrypt(&payload, b"password"), Err(Error::DecryptionAuthenticationFailed));
}

#[test]
fn flipped_bit_in_the_tag_fails_to_authenticate() {
    let mut payload =
        hex("000102030405060708090a0b1a55e5f153e16a4a0eca1be9a35809b460fc3c8c137e7e1c13f0");
    let last = payload.len() - 1;
    payload[last] ^= 0x10;
    assert_eq!(decrypt(&payload, b"password"), Err(Error::DecryptionAuthenticationFailed));
}

#[test]
fn truncated_payload_fails_to_authenticate() {
    let payload =
        hex("000102030405060708090a0b1a55e5f153e16a4a0eca1be9a35809b460fc3c8c137e7e1c");
    assert_eq!(decrypt(&payload, b"password"), Err(Error::DecryptionAuthenticationFailed));
}

#[test]
fn payload_shorter_than_a_vector_fails() {
    assert_eq!(decrypt(&[], b"password"), Err(Error::DecryptionAuthenticationFailed));
    assert_eq!(decrypt(&[0u8; 11], b"password"), Err(Error::DecryptionAuthenticationFailed));
}

#[test]
fn payload_shorter_than_a_tag_fails() {
    assert_eq!(decrypt(&[0u8; 12], b"password"), Err(Error::DecryptionAuthenticationFailed));
    assert_eq!(decrypt(&[0u8; 27], b"password"), Err(Error::DecryptionAuthenticationFailed));
}

#[test]
fn plaintext_is_the_payload_less_vector_and_tag() {
    let payload = encrypt_with_iv(b"twelve bytes", b"pw", &IV);
    assert_eq!(payload.len(), 12 + 12 + 16);
    let plaintext = decrypt(&payload, b"pw").unwrap();
    assert_eq!(plaintext.len() + IV_LEN + TAG_LEN, payload.len());
}

#[test]
fn each_encryption_draws_its_own_vector() {
    let a = encrypt(b"same", b"pw");
    let b = encrypt(b"same", b"pw");
    assert_ne!(a[..IV_LEN], b[..IV_LEN]);
    assert_ne!(a, b);
}

#[test]
fn payload_is_vector_then_ciphertext() {
    assert_eq!(
        join_payload(&IV, vec![0xaa, 0xbb]),
        vec![0, 1, 2, 3, 4, 5, 6, 7, 8, 9, 10, 11, 0xaa, 0xbb]
    );
    let joined = join_payload(&IV, vec![0xaa, 0xbb]);
    let (iv, rest) = split_payload(&joined).unwrap();
    assert_eq!(iv, &IV[..]);
    assert_eq!(rest, &[0xaa, 0xbb][..]);
    let (iv, rest) = split_payload(&IV).unwrap();
    assert_eq!(iv, &IV[..]);
    assert!(rest.is_empty());
    assert!(split_payload(&IV[..11]).is_none());
}
