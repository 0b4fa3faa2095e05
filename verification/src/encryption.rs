//! Confidentiality of payloads: a key derived from a password, and
//! authenticated encryption under that key with a fresh initialization
//! vector for every message.

use crate::error::Error;
use aes_gcm::aead::Aead;
use aes_gcm::KeyInit;
use rand::{Rng, SeedableRng};
use vstd::prelude::*;
use vstd::slice::slice_subrange;
use vstd::utf8::encode_utf8;

verus! {

/// Bytes in an initialization vector.
pub const IV_LEN: usize = 12;

/// Bytes in a derived key.
pub const KEY_LEN: usize = 32;

/// Bytes in an authentication tag.
pub const TAG_LEN: usize = 16;

/// Iterations of the key derivation.
pub const ROUNDS: u32 = 1_000_000;

/// The salt of the key derivation, the same for every password.
pub const SALT: &'static str = "Golem Paste";

/// The longest plaintext, in bytes, that the cipher accepts.
pub const MAX_PLAINTEXT_LEN: u64 = 0x10_0000_0000;

/// The 32 bytes that PBKDF2 with HMAC-SHA-256 derives from a password, a
/// salt and a number of iterations.
pub uninterp spec fn pbkdf2_hmac_sha256(password: Seq<u8>, salt: Seq<u8>, rounds: u32) -> Seq<u8>;

/// The ciphertext, with its tag at the end, that AES-256 in Galois/Counter
/// Mode gives for a plaintext under a key and a nonce, with no associated
/// data.
pub uninterp spec fn aes256_gcm_seal(key: Seq<u8>, nonce: Seq<u8>, plaintext: Seq<u8>) -> Seq<u8>;

/// The plaintext that AES-256 in Galois/Counter Mode recovers from a
/// ciphertext with its tag under a key and a nonce, with no associated
/// data; `None` where the tag does not verify.
pub uninterp spec fn aes256_gcm_open(key: Seq<u8>, nonce: Seq<u8>, ciphertext: Seq<u8>) -> Option<Seq<u8>>;

/// The key that belongs to `password`.
pub open spec fn derived_key(password: Seq<u8>) -> Seq<u8> {
    pbkdf2_hmac_sha256(password, encode_utf8(SALT@), ROUNDS)
}

/// The encrypted payload for `plaintext` under `password` with the
/// initialization vector `iv`: the vector, then the ciphertext with its tag.
pub open spec fn sealed(plaintext: Seq<u8>, password: Seq<u8>, iv: Seq<u8>) -> Seq<u8> {
    iv + aes256_gcm_seal(derived_key(password), iv, plaintext)
}

/// What decryption of `payload` under `password` yields: the first 12 bytes
/// are the initialization vector, the rest is ciphertext and tag. A payload
/// too short to hold the vector yields nothing.
pub open spec fn opened(payload: Seq<u8>, password: Seq<u8>) -> Option<Seq<u8>> {
    if payload.len() < IV_LEN {
        None
    } else {
        aes256_gcm_open(
            derived_key(password),
            payload.subrange(0, IV_LEN as int),
            payload.subrange(IV_LEN as int, payload.len() as int),
        )
    }
}

/// Derives 32 bytes from a password and a salt.
///
/// Calls `pbkdf2::pbkdf2_hmac_array` with SHA-256 and an output of 32
/// bytes. Trusted: the result is a function of the three arguments alone,
/// and is 32 bytes long.
#[verifier::external_body]
fn pbkdf2_sha256(password: &[u8], salt: &[u8], rounds: u32) -> (key: Vec<u8>)
    ensures
        key@ == pbkdf2_hmac_sha256(password@, salt@, rounds),
        key@.len() == KEY_LEN,
{
    pbkdf2::pbkdf2_hmac_array::<sha2::Sha256, 32>(password, salt, rounds).to_vec()
}

/// Encrypts `plaintext` under a key of 32 bytes and a nonce of 12 bytes.
///
/// Calls `Aead::encrypt` of `aes_gcm::Aes256Gcm`, which fails only on a
/// plaintext longer than `MAX_PLAINTEXT_LEN`. Trusted: the result is a
/// function of the three arguments alone, it is 16 bytes longer than the
/// plaintext, and decryption under the same key and nonce gives the
/// plaintext back.
#[verifier::external_body]
fn aes256_gcm_encrypt(key: &[u8], nonce: &[u8], plaintext: &[u8]) -> (ciphertext: Vec<u8>)
    requires
        key@.len() == KEY_LEN,
        nonce@.len() == IV_LEN,
        plaintext@.len() <= MAX_PLAINTEXT_LEN,
    ensures
        ciphertext@ == aes256_gcm_seal(key@, nonce@, plaintext@),
        ciphertext@.len() == plaintext@.len() + TAG_LEN,
        aes256_gcm_open(key@, nonce@, ciphertext@) == Some(plaintext@),
{
    let cipher = aes_gcm::Aes256Gcm::new_from_slice(key).unwrap();
    cipher.encrypt(aes_gcm::Nonce::from_slice(nonce), plaintext).unwrap()
}

/// Decrypts `ciphertext`, which ends in its tag, under a key of 32 bytes
/// and a nonce of 12 bytes.
///
/// Calls `Aead::decrypt` of `aes_gcm::Aes256Gcm`. Trusted: the result is a
/// function of the three arguments alone, and a plaintext that comes back
/// is 16 bytes shorter than the ciphertext.
#[verifier::external_body]
fn aes256_gcm_decrypt(key: &[u8], nonce: &[u8], ciphertext: &[u8]) -> (plaintext: Option<Vec<u8>>)
    requires
        key@.len() == KEY_LEN,
        nonce@.len() == IV_LEN,
    ensures
        match plaintext {
            Some(p) => aes256_gcm_open(key@, nonce@, ciphertext@) == Some(p@)
                && p@.len() + TAG_LEN == ciphertext@.len(),
            None => aes256_gcm_open(key@, nonce@, ciphertext@) is None,
        },
{
    let cipher = aes_gcm::Aes256Gcm::new_from_slice(key).unwrap();
    cipher.decrypt(aes_gcm::Nonce::from_slice(nonce), ciphertext).ok()
}

/// Draws an initialization vector from a generator seeded by the operating
/// system.
///
/// Calls `ChaCha20Rng::from_os_rng` and `Rng::random`. Nothing is claimed
/// of the bytes. The call panics where the operating system gives no
/// entropy.
#[verifier::external_body]
fn fresh_iv() -> (iv: [u8; 12]) {
    rand_chacha::ChaCha20Rng::from_os_rng().random::<[u8; 12]>()
}

/// Derives the key that belongs to `password`.
pub fn derive_key(password: &[u8]) -> (key: Vec<u8>)
    ensures
        key@ == derived_key(password@),
        key@.len() == KEY_LEN,
{
    pbkdf2_sha256(password, SALT.as_bytes(), ROUNDS)
}

/// Lays out an encrypted payload: the initialization vector, then the
/// ciphertext with its tag.
pub fn join_payload(iv: &[u8; 12], ciphertext: Vec<u8>) -> (payload: Vec<u8>)
    ensures
        payload@ == iv@ + ciphertext@,
{
    let mut payload: Vec<u8> = Vec::new();
    let mut i: usize = 0;
    while i < 12
        invariant
            i <= 12,
            payload@ == iv@.take(i as int),
        decreases 12 - i,
    {
        payload.push(iv[i]);
        assert(iv@.take(i + 1) =~= iv@.take(i as int).push(iv@[i as int]));
        i += 1;
    }
    assert(iv@.take(12) =~= iv@);
    let mut rest = ciphertext;
    payload.append(&mut rest);
    payload
}

/// Splits an encrypted payload into its initialization vector and the
/// ciphertext with its tag; `None` where the payload is too short to hold
/// the vector.
pub fn split_payload(payload: &[u8]) -> (parts: Option<(&[u8], &[u8])>)
    ensures
        match parts {
            Some((iv, ciphertext)) => payload@.len() >= IV_LEN && iv@ == payload@.subrange(
                0,
                IV_LEN as int,
            ) && ciphertext@ == payload@.subrange(IV_LEN as int, payload@.len() as int),
            None => payload@.len() < IV_LEN,
        },
{
    if payload.len() < IV_LEN {
        None
    } else {
        Some((slice_subrange(payload, 0, IV_LEN), slice_subrange(payload, IV_LEN, payload.len())))
    }
}

/// Encrypts `data` under `password` with the initialization vector `iv`.
///
/// The result is the vector followed by the ciphertext and its tag, and
/// decrypting it under the same password gives `data` back.
pub fn encrypt_with_iv(data: &[u8], password: &[u8], iv: &[u8; 12]) -> (payload: Vec<u8>)
    requires
        data@.len() <= MAX_PLAINTEXT_LEN,
    ensures
        payload@ == sealed(data@, password@, iv@),
        payload@.len() == IV_LEN + data@.len() + TAG_LEN,
        opened(payload@, password@) == Some(data@),
{
    let key = derive_key(password);
    let ciphertext = aes256_gcm_encrypt(key.as_slice(), iv.as_slice(), data);
    let payload = join_payload(iv, ciphertext);
    proof {
        assert(payload@.subrange(0, IV_LEN as int) =~= iv@);
        assert(payload@.subrange(IV_LEN as int, payload@.len() as int) =~= ciphertext@);
    }
    payload
}

/// Encrypts `data` under `password` with an initialization vector drawn
/// afresh for this call.
///
/// Whatever vector was drawn, the result is that vector followed by the
/// ciphertext and its tag, and decrypting it under the same password gives
/// `data` back.
pub fn encrypt(data: &[u8], password: &[u8]) -> (payload: Vec<u8>)
    requires
        data@.len() <= MAX_PLAINTEXT_LEN,
    ensures
        exists|iv: Seq<u8>|
            iv.len() == IV_LEN && payload@ == #[trigger] sealed(data@, password@, iv),
        payload@.len() == IV_LEN + data@.len() + TAG_LEN,
        opened(payload@, password@) == Some(data@),
{
    let iv = fresh_iv();
    let payload = encrypt_with_iv(data, password, &iv);
    assert(payload@ == sealed(data@, password@, iv@));
    payload
}

/// Decrypts an encrypted payload under `password`.
///
/// Fails, with one error for every cause, where the payload is too short to
/// hold an initialization vector or its tag does not verify under the key
/// of `password`. A plaintext that comes back is the payload less its
/// vector and its tag, so a payload too short to hold both always fails.
pub fn decrypt(data: &[u8], password: &[u8]) -> (res: Result<Vec<u8>, Error>)
    ensures
        match res {
            Ok(plaintext) => opened(data@, password@) == Some(plaintext@) && plaintext@.len()
                + IV_LEN + TAG_LEN == data@.len(),
            Err(e) => e == Error::DecryptionAuthenticationFailed && opened(data@, password@)
                is None,
        },
        data@.len() < IV_LEN + TAG_LEN ==> res is Err,
{
    match split_payload(data) {
        None => Err(Error::DecryptionAuthenticationFailed),
        Some((iv, ciphertext)) => {
            let key = derive_key(password);
            match aes256_gcm_decrypt(key.as_slice(), iv, ciphertext) {
                Some(plaintext) => Ok(plaintext),
                None => Err(Error::DecryptionAuthenticationFailed),
            }
        },
    }
}

} // verus!
