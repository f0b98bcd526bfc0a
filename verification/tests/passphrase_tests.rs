use age_vault::keygen::AgeKeyPair;
use age_vault::passphrase::generate_auto_passphrase;
use age_vault::passphrase::normalize_passphrase;
use age_vault::passphrase::resolve_passphrase;
use age_vault::records::create_stored_key;
use age_vault::reports::key_storage_exists;
use age_vault::reports::KeyStore;

#[test]
fn generated_passphrase_is_hex64() {
    let p = generate_auto_passphrase().unwrap();
    assert_eq!(p.len(), 64);
    assert!(p.chars().all(|c| c.is_ascii_hexdigit() && !c.is_ascii_uppercase()));
}

#[test]
fn generated_passphrases_differ() {
    let a = generate_auto_passphrase().unwrap();
    let b = generate_auto_passphrase().unwrap();
    assert_ne!(a, b);
}

#[test]
fn normalize_trims_whitespace() {
    assert_eq!(normalize_passphrase(" abc\n"), "abc".to_string());
    assert_eq!(normalize_passphrase("\t x y \r\n"), "x y".to_string());
    assert_eq!(normalize_passphrase(""), "".to_string());
}

#[test]
fn lifecycle_idempotence() {
    // First access: the file is absent, a fresh passphrase is returned
    // and must be written.
    let fresh = generate_auto_passphrase().unwrap();
    let (first, wrote) = resolve_passphrase(None, fresh.clone());
    assert!(wrote);
    assert_eq!(first, fresh);
    // Second access: the file now holds the first passphrase (here with
    // the trailing newline a text editor might add); the same string
    // comes back and nothing is written again.
    let on_disk = format!("{}\n", first);
    let (second, wrote_again) = resolve_passphrase(Some(on_disk.as_str()), "unused".to_string());
    assert!(!wrote_again);
    assert_eq!(second, first);
}

#[test]
fn stored_key_builder() {
    let k = create_stored_key(
        "label".to_string(),
        "age1pub".to_string(),
        Some("AGE-SECRET-KEY-1S".to_string()),
        None,
    );
    assert_eq!(k.name, "label".to_string());
    assert_eq!(k.public_key, "age1pub".to_string());
    assert_eq!(k.private_key, Some("AGE-SECRET-KEY-1S".to_string()));
    assert_eq!(k.comment, None);
    assert_eq!(k.id.len(), 36);
    // Two records never share an id.
    let k2 = create_stored_key("label".to_string(), "age1pub".to_string(), None, None);
    assert_ne!(k.id, k2.id);
}

#[test]
fn key_store_holds_added_pairs() {
    let mut store = KeyStore::new();
    assert!(store.keys.is_empty());
    store.add(AgeKeyPair {
        public_key: "age1p".to_string(),
        private_key: "AGE-SECRET-KEY-1P".to_string(),
        comment: None,
    });
    assert_eq!(store.keys.len(), 1);
    assert_eq!(store.keys[0].public_key, "age1p".to_string());
}

#[test]
fn missing_storage_file_not_found() {
    assert!(!key_storage_exists("/nonexistent-path/definitely-missing.enc"));
}
