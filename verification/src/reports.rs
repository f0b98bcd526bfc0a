//! Plain result records handed back to the presentation layer, the
//! caller-owned in-memory key store, and the storage file probe.

use vstd::prelude::*;

use crate::keygen::AgeKeyPair;

verus! {

/// Report of one file encryption.
#[derive(Clone, Debug)]
pub struct EncryptionResult {
    pub success: bool,
    pub input_file: String,
    pub output_file: String,
    pub public_keys: Vec<String>,
}

/// Report of one file decryption.
#[derive(Clone, Debug)]
pub struct DecryptionResult {
    pub success: bool,
    pub input_file: String,
    pub output_file: String,
    pub identity: String,
}

/// One entry of a directory listing.
#[derive(Clone, Debug)]
pub struct DirectoryItem {
    pub name: String,
    pub path: String,
    pub is_directory: bool,
    pub size: Option<u64>,
    pub modified: Option<String>,
}

/// The in-memory key pairs of one session.  The store is caller-owned
/// and handed around explicitly; the caller serializes access to it.
pub struct KeyStore {
    pub keys: Vec<AgeKeyPair>,
}

impl KeyStore {
    /// An empty store.
    pub fn new() -> (r: KeyStore)
        ensures
            r.keys@.len() == 0,
    {
        KeyStore { keys: Vec::new() }
    }

    /// Adds one key pair at the end.
    pub fn add(&mut self, kp: AgeKeyPair)
        ensures
            final(self).keys@ == old(self).keys@.push(kp),
    {
        self.keys.push(kp);
    }
}

/// Relies on `std::path::Path::exists`: whether a file system entity
/// stands at the path.  The answer depends on the machine's disk, so
/// nothing more can be promised of it.
#[verifier::external_body]
fn path_exists(file_path: &str) -> bool {
    std::path::Path::new(file_path).exists()
}

/// Whether a key storage file stands at the path.
pub fn key_storage_exists(file_path: &str) -> bool {
    path_exists(file_path)
}

} // verus!
