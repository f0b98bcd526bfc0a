use aes_gcm::aead::Aead;
use aes_gcm::aead::AeadCore;
use aes_gcm::aead::KeyInit;
use aes_gcm::aead::OsRng;

use age_vault::container::create_passphrase_encrypted_container;
use age_vault::container::decrypt_passphrase_container;
use age_vault::container::export_keys_container;
use age_vault::container::import_keys_container;
use age_vault::container::ContainerError;
use age_vault::records::StoredKey;

fn sample_keys() -> Vec<StoredKey> {
    vec![
        StoredKey {
            id: "id-1".to_string(),
            name: "work laptop".to_string(),
            public_key: "age1qqqq".to_string(),
            private_key: Some("AGE-SECRET-KEY-1AAAA".to_string()),
            comment: Some("main key".to_string()),
            created_at: 1700000001,
        },
        StoredKey {
            id: "id-2".to_string(),
            name: "recipient only".to_string(),
            public_key: "age1wwww".to_string(),
            private_key: None,
            comment: None,
            created_at: 1700000002,
        },
    ]
}

#[test]
fn round_trip_local() {
    let keys = sample_keys();
    let sealed = create_passphrase_encrypted_container("machine pass", &keys).unwrap();
    let opened = decrypt_passphrase_container("machine pass", &sealed).unwrap();
    assert_eq!(opened, keys);
}

#[test]
fn round_trip_export() {
    let keys = sample_keys();
    let sealed = export_keys_container("correct horse", &keys).unwrap();
    let opened = import_keys_container("correct horse", &sealed).unwrap();
    assert_eq!(opened, keys);
}

#[test]
fn round_trip_empty_record_set() {
    let keys: Vec<StoredKey> = Vec::new();
    let sealed = create_passphrase_encrypted_container("pw", &keys).unwrap();
    let opened = decrypt_passphrase_container("pw", &sealed).unwrap();
    assert_eq!(opened, keys);
}

#[test]
fn round_trip_awkward_strings() {
    let keys = vec![StoredKey {
        id: "a\"b\\c".to_string(),
        name: "tab\there\nnewline\u{0007}bell".to_string(),
        public_key: "caf\u{00e9} \u{1F511}".to_string(),
        private_key: Some(String::new()),
        comment: Some("  spaces kept  ".to_string()),
        created_at: u64::MAX,
    }];
    let sealed = create_passphrase_encrypted_container("pw", &keys).unwrap();
    let opened = decrypt_passphrase_container("pw", &sealed).unwrap();
    assert_eq!(opened, keys);
}

#[test]
fn wrong_passphrase_local() {
    let keys = sample_keys();
    let sealed = create_passphrase_encrypted_container("first pass", &keys).unwrap();
    let err = decrypt_passphrase_container("second pass", &sealed).unwrap_err();
    assert_eq!(err, ContainerError::AuthenticationFailed);
}

#[test]
fn wrong_passphrase_export() {
    let keys = sample_keys();
    let sealed = export_keys_container("correct horse", &keys).unwrap();
    let err = import_keys_container("wrong horse", &sealed).unwrap_err();
    assert_eq!(err, ContainerError::AuthenticationFailed);
}

#[test]
fn tamper_detection_local() {
    let keys = sample_keys();
    let sealed = create_passphrase_encrypted_container("pw", &keys).unwrap();
    // Flip single bits at scattered positions of the ciphertext region
    // (everything after the 12-byte nonce).
    let positions = [12, 13, sealed.len() / 2, sealed.len() - 2, sealed.len() - 1];
    for &pos in positions.iter() {
        for bit in [0u8, 7u8] {
            let mut bad = sealed.clone();
            bad[pos] ^= 1 << bit;
            let err = decrypt_passphrase_container("pw", &bad).unwrap_err();
            assert_eq!(err, ContainerError::AuthenticationFailed);
        }
    }
}

#[test]
fn tamper_detection_export() {
    let keys = sample_keys();
    let sealed = export_keys_container("correct horse", &keys).unwrap();
    let positions = [20, sealed.len() - 1];
    for &pos in positions.iter() {
        let mut bad = sealed.clone();
        bad[pos] ^= 0x10;
        let err = import_keys_container("correct horse", &bad).unwrap_err();
        assert_eq!(err, ContainerError::AuthenticationFailed);
    }
}

#[test]
fn export_magic_gate() {
    let keys = sample_keys();
    let mut sealed = export_keys_container("correct horse", &keys).unwrap();
    sealed[0] = b'X';
    let err = import_keys_container("correct horse", &sealed).unwrap_err();
    assert_eq!(err, ContainerError::BadMagic);
    assert!(err.is_malformed_input());
}

#[test]
fn export_version_gate() {
    let keys = sample_keys();
    let mut sealed = export_keys_container("correct horse", &keys).unwrap();
    sealed[4] = 2;
    sealed[5] = 0;
    sealed[6] = 0;
    sealed[7] = 0;
    let err = import_keys_container("correct horse", &sealed).unwrap_err();
    assert_eq!(err, ContainerError::UnsupportedVersion(2));
    assert!(err.is_malformed_input());
    assert_eq!(err.message(), "unsupported export file version: 2".to_string());
}

#[test]
fn length_gate_local() {
    let err = decrypt_passphrase_container("pw", &[0u8; 12]).unwrap_err();
    assert_eq!(err, ContainerError::TooShort);
    let err = decrypt_passphrase_container("pw", &[]).unwrap_err();
    assert_eq!(err, ContainerError::TooShort);
}

#[test]
fn minimal_length_local_fails_authentication() {
    // Thirteen bytes pass the structural gate; the ciphertext is then
    // far too short to authenticate, and the failure is reported as the
    // single cryptographic error.
    let err = decrypt_passphrase_container("pw", &[0u8; 13]).unwrap_err();
    assert_eq!(err, ContainerError::AuthenticationFailed);
    assert!(!err.is_malformed_input());
}

#[test]
fn length_gate_export() {
    let err = import_keys_container("pw", &[0u8; 35]).unwrap_err();
    assert_eq!(err, ContainerError::TooShort);
    let err = import_keys_container("pw", &[]).unwrap_err();
    assert_eq!(err, ContainerError::TooShort);
    assert!(err.is_malformed_input());
}

#[test]
fn export_passphrase_policy() {
    let keys = sample_keys();
    let err = export_keys_container("abc", &keys).unwrap_err();
    assert_eq!(err, ContainerError::PassphraseTooShort);
    assert!(!err.is_malformed_input());
    assert!(export_keys_container("abcd", &keys).is_ok());
}

#[test]
fn concrete_export_scenario() {
    let keys = vec![StoredKey {
        id: "k1".to_string(),
        name: "laptop".to_string(),
        public_key: "age1abc".to_string(),
        private_key: Some("AGE-SECRET-KEY-1XYZ".to_string()),
        comment: None,
        created_at: 1700000000,
    }];
    let sealed = export_keys_container("correct horse", &keys).unwrap();
    assert_eq!(&sealed[0..4], b"TAKI");
    assert_eq!(&sealed[4..8], &[1u8, 0, 0, 0]);
    let opened = import_keys_container("correct horse", &sealed).unwrap();
    assert_eq!(opened, keys);
    let err = import_keys_container("wrong horse", &sealed).unwrap_err();
    assert_eq!(err, ContainerError::AuthenticationFailed);
}

// Seal arbitrary plaintext bytes the way the library's local layout
// does, using the crypto crates directly: PBKDF2 over HMAC-SHA-256 with
// the local-store salt, then AES-256-GCM under a fresh nonce.
fn seal_local_raw(passphrase: &str, plaintext: &[u8]) -> Vec<u8> {
    let mut key = [0u8; 32];
    pbkdf2::pbkdf2_hmac::<sha2::Sha256>(passphrase.as_bytes(), b"age-tool-salt", 100_000, &mut key);
    let aes_key = aes_gcm::Key::<aes_gcm::Aes256Gcm>::from_slice(&key);
    let nonce = aes_gcm::Aes256Gcm::generate_nonce(&mut OsRng);
    let cipher = aes_gcm::Aes256Gcm::new(aes_key);
    let ct = cipher.encrypt(&nonce, plaintext).unwrap();
    let mut out = nonce.to_vec();
    out.extend(ct);
    out
}

#[test]
fn interop_with_direct_crypto() {
    // A container sealed by the crypto crates directly, holding a valid
    // payload document, opens through the library: same KDF salt and
    // rounds, same cipher, same layout.
    let keys = sample_keys();
    let doc = age_vault::json::encode_payload(&keys, 1);
    let sealed = seal_local_raw("pw", doc.as_bytes());
    let opened = decrypt_passphrase_container("pw", &sealed).unwrap();
    assert_eq!(opened, keys);
}

#[test]
fn invalid_payload_detected() {
    // Authentic ciphertext whose plaintext is not a payload document.
    let sealed = seal_local_raw("pw", b"not a payload");
    let err = decrypt_passphrase_container("pw", &sealed).unwrap_err();
    assert_eq!(err, ContainerError::InvalidPayload);
    assert!(err.is_malformed_input());
    // Authentic ciphertext whose plaintext is not valid UTF-8.
    let sealed = seal_local_raw("pw", &[0xffu8, 0xfe, 0x00]);
    let err = decrypt_passphrase_container("pw", &sealed).unwrap_err();
    assert_eq!(err, ContainerError::InvalidPayload);
}

#[test]
fn unsupported_payload_version_detected() {
    // An authentic container whose payload document carries a version
    // this build does not read.
    let doc = age_vault::json::encode_payload(&Vec::new(), 2);
    let sealed = seal_local_raw("pw", doc.as_bytes());
    let err = decrypt_passphrase_container("pw", &sealed).unwrap_err();
    assert_eq!(err, ContainerError::UnsupportedVersion(2));
}

#[test]
fn error_messages() {
    assert_eq!(
        ContainerError::AuthenticationFailed.message(),
        "decryption failed - incorrect passphrase or corrupted data".to_string()
    );
    assert_eq!(
        ContainerError::BadMagic.message(),
        "invalid export file format (wrong magic bytes)".to_string()
    );
    assert_eq!(
        ContainerError::PassphraseTooShort.message(),
        "passphrase must be at least 4 characters".to_string()
    );
}
