//! Trusted wrappers around the cryptographic primitives: key
//! derivation, the authenticated cipher, the digest and the random
//! sources.  Each wrapper's contract names what the outside call
//! computes; the container logic is verified against these contracts.

use vstd::prelude::*;

use aes_gcm::aead::Aead;
use aes_gcm::aead::AeadCore;
use aes_gcm::aead::KeyInit;
use sha2::Digest;

verus! {

/// The cipher's plaintext bound: AES-GCM refuses a longer message.
pub const CIPHER_PT_MAX: u64 = 0x1000000000;

/// The 32-byte key that PBKDF2 over HMAC-SHA-256 derives from a
/// passphrase, a salt and a round count.  A function of its arguments
/// alone; its value is not stated here.
pub uninterp spec fn kdf_sha256(pass: Seq<u8>, salt: Seq<u8>, rounds: u32) -> Seq<u8>;

/// Relies on `pbkdf2::pbkdf2_hmac` with `sha2::Sha256`: deterministic
/// in passphrase, salt and round count, and it fills the whole 32-byte
/// buffer handed to it.
#[verifier::external_body]
pub(crate) fn derive_key(pass: &[u8], salt: &[u8], rounds: u32) -> (r: Vec<u8>)
    ensures
        r@ == kdf_sha256(pass@, salt@, rounds),
        r@.len() == 32,
{
    let mut key = [0u8; 32];
    pbkdf2::pbkdf2_hmac::<sha2::Sha256>(pass, salt, rounds, &mut key);
    key.to_vec()
}

/// What AES-256-GCM produces for a key, a nonce and a plaintext: the
/// ciphertext followed by the authentication tag.
pub uninterp spec fn aead_encrypt(key: Seq<u8>, nonce: Seq<u8>, pt: Seq<u8>) -> Seq<u8>;

/// What AES-256-GCM decryption yields for a key, a nonce and a
/// ciphertext-plus-tag: the plaintext, or nothing when the tag does not
/// authenticate.
pub uninterp spec fn aead_decrypt(key: Seq<u8>, nonce: Seq<u8>, ct: Seq<u8>) -> Option<Seq<u8>>;

/// Relies on `aes_gcm::Aes256Gcm` through `aead::Aead::encrypt`:
/// deterministic in key, nonce and plaintext; the result is the
/// ciphertext with the 16-byte tag appended; decrypting it under the
/// same key and nonce gives the plaintext back (`aead::Aead::decrypt`).
/// The cipher refuses only a plaintext longer than its `P_MAX` of
/// two to the thirty-sixth bytes.
#[verifier::external_body]
pub(crate) fn aead_seal(key: &[u8], nonce: &[u8], pt: &[u8]) -> (r: Option<Vec<u8>>)
    requires
        key@.len() == 32,
        nonce@.len() == 12,
    ensures
        match r {
            Some(ct) => ct@ == aead_encrypt(key@, nonce@, pt@) && ct@.len() == pt@.len() + 16
                && aead_decrypt(key@, nonce@, ct@) == Some(pt@),
            None => pt@.len() > CIPHER_PT_MAX,
        },
{
    let k = aes_gcm::Key::<aes_gcm::Aes256Gcm>::from_slice(key);
    let cipher = aes_gcm::Aes256Gcm::new(k);
    cipher.encrypt(aes_gcm::Nonce::from_slice(nonce), pt).ok()
}

/// Relies on `aead::Aead::decrypt` for `aes_gcm::Aes256Gcm`:
/// deterministic in key, nonce and ciphertext; it returns the plaintext
/// exactly when the tag authenticates, and fails closed otherwise.
#[verifier::external_body]
pub(crate) fn aead_open(key: &[u8], nonce: &[u8], ct: &[u8]) -> (r: Option<Vec<u8>>)
    requires
        key@.len() == 32,
        nonce@.len() == 12,
    ensures
        match r {
            Some(pt) => aead_decrypt(key@, nonce@, ct@) == Some(pt@),
            None => aead_decrypt(key@, nonce@, ct@) is None,
        },
{
    let k = aes_gcm::Key::<aes_gcm::Aes256Gcm>::from_slice(key);
    let cipher = aes_gcm::Aes256Gcm::new(k);
    cipher.decrypt(aes_gcm::Nonce::from_slice(nonce), ct).ok()
}

/// Relies on `Aes256Gcm::generate_nonce` over `aead::OsRng`: 12 bytes
/// from the operating system's secure random source; nothing more can
/// be promised of a random value.
#[verifier::external_body]
pub(crate) fn generate_nonce() -> (r: Vec<u8>)
    ensures
        r@.len() == 12,
{
    aes_gcm::Aes256Gcm::generate_nonce(&mut aes_gcm::aead::OsRng).to_vec()
}

/// The SHA-256 digest of a byte sequence: a function of the bytes
/// alone; its value is not stated here.
pub uninterp spec fn sha256_of(data: Seq<u8>) -> Seq<u8>;

/// Relies on `sha2::Sha256` through `digest::Digest::digest`:
/// deterministic in the input, and the digest is 32 bytes.
#[verifier::external_body]
pub(crate) fn sha256(data: &[u8]) -> (r: Vec<u8>)
    ensures
        r@ == sha256_of(data@),
        r@.len() == 32,
{
    sha2::Sha256::digest(data).to_vec()
}

/// Relies on `rand::random`: 16 bytes from the thread-local secure
/// generator; nothing more can be promised of a random value.
#[verifier::external_body]
pub(crate) fn random_bytes_16() -> (r: Vec<u8>)
    ensures
        r@.len() == 16,
{
    rand::random::<[u8; 16]>().to_vec()
}

/// Relies on `whoami::username`: the local user's name.  It depends on
/// the machine, so nothing is promised of its value.
#[verifier::external_body]
pub(crate) fn local_username() -> (r: String) {
    whoami::username()
}

} // verus!
