//! The record model: the structured data the vault protects.

use vstd::prelude::*;

verus! {

/// Mathematical model of one stored key record.
#[verifier::ext_equal]
pub struct RecordView {
    pub id: Seq<char>,
    pub name: Seq<char>,
    pub public_key: Seq<char>,
    pub private_key: Option<Seq<char>>,
    pub comment: Option<Seq<char>>,
    pub created_at: u64,
}

/// One stored identity: a public key with optional private key material
/// and metadata.  `private_key` being absent marks a recipient-only
/// record, and that absence is preserved by the container codec.
#[derive(Clone, Debug, PartialEq)]
pub struct StoredKey {
    pub id: String,
    pub name: String,
    pub public_key: String,
    pub private_key: Option<String>,
    pub comment: Option<String>,
    pub created_at: u64,
}

/// The view of an optional string field.
pub open spec fn opt_view(o: Option<String>) -> Option<Seq<char>> {
    match o {
        Some(s) => Some(s@),
        None => None,
    }
}

impl View for StoredKey {
    type V = RecordView;

    open spec fn view(&self) -> RecordView {
        RecordView {
            id: self.id@,
            name: self.name@,
            public_key: self.public_key@,
            private_key: opt_view(self.private_key),
            comment: opt_view(self.comment),
            created_at: self.created_at,
        }
    }
}

/// The views of a sequence of records.
pub open spec fn views_of(ks: Seq<StoredKey>) -> Seq<RecordView> {
    ks.map(|i: int, k: StoredKey| k@)
}

/// A container of key records together with its format version tag.
pub struct KeyStorage {
    pub keys: Vec<StoredKey>,
    pub version: u32,
}

/// Relies on `uuid::Uuid::new_v4` and its `Display` rendering: a random
/// identifier printed in the hyphenated form, which is 36 characters.
#[verifier::external_body]
fn fresh_record_id() -> (r: String)
    ensures
        r@.len() == 36,
{
    uuid::Uuid::new_v4().to_string()
}

/// Relies on `std::time::SystemTime::now`: seconds since the Unix epoch,
/// or 0 if the clock reads earlier than the epoch.
#[verifier::external_body]
fn now_unix_secs() -> (r: u64)
{
    std::time::SystemTime::now()
        .duration_since(std::time::UNIX_EPOCH)
        .map(|d| d.as_secs())
        .unwrap_or(0)
}

/// Builds a new record around the given key material, with a freshly
/// generated unique id and the current time as its creation stamp.
pub fn create_stored_key(
    name: String,
    public_key: String,
    private_key: Option<String>,
    comment: Option<String>,
) -> (r: StoredKey)
    ensures
        r@.name == name@,
        r@.public_key == public_key@,
        r@.private_key == opt_view(private_key),
        r@.comment == opt_view(comment),
        r@.id.len() == 36,
{
    StoredKey {
        id: fresh_record_id(),
        name,
        public_key,
        private_key,
        comment,
        created_at: now_unix_secs(),
    }
}

} // verus!
