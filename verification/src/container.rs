//! The container codec: serializes a record set, seals it under a
//! passphrase-derived key, and frames the result into one of two binary
//! layouts.
//!
//! *Local-store layout*: `nonce(12) || ciphertext+tag`.
//! *Portable-export layout*: `magic(4) || version(4, little endian) ||
//! nonce(12) || ciphertext+tag`.
//!
//! Opening collapses every failure to a structural error (detectable
//! without the passphrase) or to `AuthenticationFailed`, which stands
//! both for a wrong passphrase and for corrupted ciphertext, so the two
//! cannot be told apart.

use vstd::prelude::*;

use vstd::slice::slice_index_get;
use vstd::slice::slice_subrange;
use vstd::slice::slice_to_vec;
use vstd::string::StrSliceExecFns;
use vstd::utf8::decode_utf8;
use vstd::utf8::encode_utf8;
use vstd::utf8::encode_utf8_decode_utf8;
use vstd::utf8::encode_utf8_valid_utf8;
use vstd::utf8::is_ascii_chars_encode_utf8;
use vstd::utf8::valid_utf8;

use crate::crypto::aead_decrypt;
use crate::crypto::CIPHER_PT_MAX;
use crate::crypto::aead_encrypt;
use crate::crypto::aead_open;
use crate::crypto::aead_seal;
use crate::crypto::derive_key;
use crate::crypto::generate_nonce;
use crate::crypto::kdf_sha256;
use crate::json::append_u64;
use crate::json::dec_digits;
use crate::json::encode_payload;
use crate::json::j_payload;
use crate::json::lemma_parse_payload_inverts;
use crate::json::parse_payload;
use crate::json::parse_payload_exec;
use crate::records::RecordView;
use crate::records::StoredKey;
use crate::records::views_of;

verus! {

/// Kind of container framing: the machine-local vault file or the
/// portable export file.
#[derive(Clone, Copy, Debug, PartialEq, Eq, Structural)]
pub enum ContainerKind {
    Local,
    Export,
}

/// Why a container operation failed.  `AuthenticationFailed` stands for
/// a wrong passphrase and for tampered ciphertext alike, on purpose.
#[derive(Clone, Copy, Debug, PartialEq, Eq, Structural)]
pub enum ContainerError {
    /// Structural: the input is shorter than the layout's minimum.
    TooShort,
    /// Structural: an export file that does not start with the magic.
    BadMagic,
    /// Structural: a frame or payload version this build does not read.
    UnsupportedVersion(u32),
    /// Cryptographic: wrong passphrase or corrupted data.
    AuthenticationFailed,
    /// The decrypted bytes are not a record payload document.
    InvalidPayload,
    /// Policy: an export passphrase below the minimum length.
    PassphraseTooShort,
    /// The cipher itself refused to seal.
    EncryptionFailed,
}

/// PBKDF2 iteration count: a deliberate per-guess cost.
pub const KDF_ROUNDS: u32 = 100000;

/// The one record payload version this build writes and reads.
pub const PAYLOAD_VERSION: u32 = 1;

/// The one export frame version this build writes and reads.
pub const EXPORT_VERSION: u32 = 1;

/// Minimum byte length of a local-store container.
pub const MIN_LOCAL_LEN: usize = 13;

/// Minimum byte length of an export file: magic, version, nonce and a
/// tag-bearing ciphertext.
pub const MIN_EXPORT_LEN: usize = 36;

/// Minimum character count of an export passphrase.
pub const EXPORT_PASS_MIN_CHARS: usize = 4;

impl ContainerError {
    /// Structural failures: detectable without any secret.
    pub open spec fn spec_is_malformed(self) -> bool {
        match self {
            ContainerError::TooShort => true,
            ContainerError::BadMagic => true,
            ContainerError::UnsupportedVersion(_) => true,
            ContainerError::InvalidPayload => true,
            _ => false,
        }
    }

    /// Whether this error is structural (`MalformedInput`) rather than
    /// cryptographic or policy.
    pub fn is_malformed_input(&self) -> (r: bool)
        ensures
            r == self.spec_is_malformed(),
    {
        match self {
            ContainerError::TooShort => true,
            ContainerError::BadMagic => true,
            ContainerError::UnsupportedVersion(_) => true,
            ContainerError::InvalidPayload => true,
            _ => false,
        }
    }

    /// The human-readable description of each failure; an unsupported
    /// version names the version it found.
    pub fn message(&self) -> (r: String)
        ensures
            (match *self {
                ContainerError::TooShort => r@ == "input is too short or corrupted"@,
                ContainerError::BadMagic => r@
                    == "invalid export file format (wrong magic bytes)"@,
                ContainerError::UnsupportedVersion(v) => r@ == "unsupported export file version: "@
                    + dec_digits(v as nat),
                ContainerError::AuthenticationFailed => r@
                    == "decryption failed - incorrect passphrase or corrupted data"@,
                ContainerError::InvalidPayload => r@ == "failed to parse decrypted data"@,
                ContainerError::PassphraseTooShort => r@
                    == "passphrase must be at least 4 characters"@,
                ContainerError::EncryptionFailed => r@ == "encryption failed"@,
            }),
    {
        match self {
            ContainerError::TooShort => "input is too short or corrupted".to_owned(),
            ContainerError::BadMagic => "invalid export file format (wrong magic bytes)".to_owned(),
            ContainerError::UnsupportedVersion(v) => {
                let mut m = "unsupported export file version: ".to_owned();
                append_u64(&mut m, *v as u64);
                m
            },
            ContainerError::AuthenticationFailed => {
                "decryption failed - incorrect passphrase or corrupted data".to_owned()
            },
            ContainerError::InvalidPayload => "failed to parse decrypted data".to_owned(),
            ContainerError::PassphraseTooShort => {
                "passphrase must be at least 4 characters".to_owned()
            },
            ContainerError::EncryptionFailed => "encryption failed".to_owned(),
        }
    }
}

// ---------------------------------------------------------------------
// The mathematical model of the two layouts.
// ---------------------------------------------------------------------
/// The fixed domain salt bound to a container kind.  Different kinds
/// use different salts, so a key derived for one cannot be replayed
/// against the other.
pub open spec fn salt_chars(kind: ContainerKind) -> Seq<char> {
    match kind {
        ContainerKind::Local => "age-tool-salt"@,
        ContainerKind::Export => "tauriage-export-salt"@,
    }
}

pub open spec fn salt_bytes(kind: ContainerKind) -> Seq<u8> {
    encode_utf8(salt_chars(kind))
}

/// The symmetric key a passphrase derives for a container kind.
pub open spec fn container_key(pass: Seq<char>, kind: ContainerKind) -> Seq<u8> {
    kdf_sha256(encode_utf8(pass), salt_bytes(kind), KDF_ROUNDS)
}

/// The serialized record payload.
pub open spec fn payload_bytes(keys: Seq<RecordView>, version: u32) -> Seq<u8> {
    encode_utf8(j_payload(keys, version))
}

/// The export file magic.
pub open spec fn magic_bytes() -> Seq<u8> {
    encode_utf8("TAKI"@)
}

/// A 32-bit value as four little-endian bytes.
pub open spec fn le32(v: u32) -> Seq<u8> {
    seq![(v & 0xff) as u8, ((v >> 8) & 0xff) as u8, ((v >> 16) & 0xff) as u8, (
    (v >> 24) & 0xff) as u8]
}

/// The value of four little-endian bytes.
pub open spec fn le32_val(b0: u8, b1: u8, b2: u8, b3: u8) -> u32 {
    (b0 as u32) | ((b1 as u32) << 8) | ((b2 as u32) << 16) | ((b3 as u32) << 24)
}

proof fn lemma_le32_round_trip(v: u32)
    ensures
        le32_val(
            (v & 0xff) as u8,
            ((v >> 8) & 0xff) as u8,
            ((v >> 16) & 0xff) as u8,
            ((v >> 24) & 0xff) as u8,
        ) == v,
{
    assert(((v & 0xff) as u8 as u32) | (((v >> 8) & 0xff) as u8 as u32) << 8 | (((v >> 16)
        & 0xff) as u8 as u32) << 16 | (((v >> 24) & 0xff) as u8 as u32) << 24 == v) by (bit_vector);
}

pub proof fn lemma_magic_len()
    ensures
        magic_bytes().len() == 4,
{
    reveal_strlit("TAKI");
    assert(vstd::utf8::is_ascii_chars("TAKI"@));
    is_ascii_chars_encode_utf8("TAKI"@);
}

/// A sealed local-store container over the given nonce.
pub open spec fn sealed_local(pass: Seq<char>, nonce: Seq<u8>, keys: Seq<RecordView>) -> Seq<u8> {
    nonce + aead_encrypt(
        container_key(pass, ContainerKind::Local),
        nonce,
        payload_bytes(keys, PAYLOAD_VERSION),
    )
}

/// A sealed export container over the given nonce.
pub open spec fn sealed_export(pass: Seq<char>, nonce: Seq<u8>, keys: Seq<RecordView>) -> Seq<
    u8,
> {
    magic_bytes() + le32(EXPORT_VERSION) + nonce + aead_encrypt(
        container_key(pass, ContainerKind::Export),
        nonce,
        payload_bytes(keys, EXPORT_VERSION),
    )
}

/// What the cipher promises of a container it actually sealed: the tag
/// length, and that decryption under the same key and nonce inverts.
pub open spec fn well_sealed(pass: Seq<char>, nonce: Seq<u8>, keys: Seq<RecordView>, kind: ContainerKind) -> bool {
    let key = container_key(pass, kind);
    let version = if kind == ContainerKind::Local {
        PAYLOAD_VERSION
    } else {
        EXPORT_VERSION
    };
    let pt = payload_bytes(keys, version);
    let ct = aead_encrypt(key, nonce, pt);
    nonce.len() == 12 && ct.len() == pt.len() + 16 && aead_decrypt(key, nonce, ct) == Some(pt)
}

/// Opening an envelope and decoding its payload: the shared tail of
/// both layouts.
pub open spec fn decrypt_payload_spec(key: Seq<u8>, nonce: Seq<u8>, ct: Seq<u8>) -> Result<
    Seq<RecordView>,
    ContainerError,
> {
    match aead_decrypt(key, nonce, ct) {
        None => Err(ContainerError::AuthenticationFailed),
        Some(pt) => if !valid_utf8(pt) {
            Err(ContainerError::InvalidPayload)
        } else {
            match parse_payload(decode_utf8(pt)) {
                None => Err(ContainerError::InvalidPayload),
                Some((rs, ver)) => if ver != PAYLOAD_VERSION {
                    Err(ContainerError::UnsupportedVersion(ver))
                } else {
                    Ok(rs)
                },
            }
        },
    }
}

/// What opening a local-store container returns, for every input.
pub open spec fn open_local_spec(pass: Seq<char>, data: Seq<u8>) -> Result<
    Seq<RecordView>,
    ContainerError,
> {
    if data.len() < MIN_LOCAL_LEN {
        Err(ContainerError::TooShort)
    } else {
        decrypt_payload_spec(
            container_key(pass, ContainerKind::Local),
            data.subrange(0, 12),
            data.subrange(12, data.len() as int),
        )
    }
}

/// What opening an export container returns, for every input.  The
/// cheap structural gates stand before any cryptographic work.
pub open spec fn open_export_spec(pass: Seq<char>, data: Seq<u8>) -> Result<
    Seq<RecordView>,
    ContainerError,
> {
    if data.len() < MIN_EXPORT_LEN {
        Err(ContainerError::TooShort)
    } else if data.subrange(0, 4) != magic_bytes() {
        Err(ContainerError::BadMagic)
    } else if le32_val(data[4], data[5], data[6], data[7]) != EXPORT_VERSION {
        Err(ContainerError::UnsupportedVersion(le32_val(data[4], data[5], data[6], data[7])))
    } else {
        decrypt_payload_spec(
            container_key(pass, ContainerKind::Export),
            data.subrange(8, 20),
            data.subrange(20, data.len() as int),
        )
    }
}

// ---------------------------------------------------------------------
// Sealing.
// ---------------------------------------------------------------------
/// Serializes the records, seals them under the passphrase and frames
/// the result in the local-store layout.  The machine-generated local
/// passphrase carries no minimum length, and sealing is owed success
/// for every passphrase: it can fail only when the serialized records
/// exceed the cipher's plaintext bound.
pub fn create_passphrase_encrypted_container(passphrase: &str, keys: &Vec<StoredKey>) -> (r:
    Result<Vec<u8>, ContainerError>)
    ensures
        match r {
            Ok(out) => exists|nonce: Seq<u8>|
                #[trigger] well_sealed(passphrase@, nonce, views_of(keys@), ContainerKind::Local)
                    && out@ == sealed_local(passphrase@, nonce, views_of(keys@)),
            Err(e) => e == ContainerError::EncryptionFailed && payload_bytes(
                views_of(keys@),
                PAYLOAD_VERSION,
            ).len() > CIPHER_PT_MAX,
        },
{
    let doc = encode_payload(keys, PAYLOAD_VERSION);
    let pt = doc.as_str().as_bytes_vec();
    let key = derive_key(passphrase.as_bytes(), "age-tool-salt".as_bytes(), KDF_ROUNDS);
    let nonce = generate_nonce();
    match aead_seal(key.as_slice(), nonce.as_slice(), pt.as_slice()) {
        Some(ct) => {
            let ghost n = nonce@;
            let mut out = nonce;
            let mut ct_tail = ct;
            out.append(&mut ct_tail);
            proof {
                assert(well_sealed(passphrase@, n, views_of(keys@), ContainerKind::Local));
                assert(out@ == sealed_local(passphrase@, n, views_of(keys@)));
            }
            Ok(out)
        },
        None => Err(ContainerError::EncryptionFailed),
    }
}

/// Serializes and seals the records in the portable export layout,
/// after enforcing the minimum passphrase length.  A passphrase of at
/// least the minimum length is owed success, whatever its content:
/// sealing can otherwise fail only when the serialized records exceed
/// the cipher's plaintext bound.
pub fn export_keys_container(passphrase: &str, keys: &Vec<StoredKey>) -> (r: Result<
    Vec<u8>,
    ContainerError,
>)
    ensures
        match r {
            Ok(out) => passphrase@.len() >= EXPORT_PASS_MIN_CHARS && exists|nonce: Seq<u8>|
                #[trigger] well_sealed(passphrase@, nonce, views_of(keys@), ContainerKind::Export)
                    && out@ == sealed_export(passphrase@, nonce, views_of(keys@)),
            Err(e) => (e == ContainerError::PassphraseTooShort || e
                == ContainerError::EncryptionFailed) && (e == ContainerError::PassphraseTooShort
                <==> passphrase@.len() < EXPORT_PASS_MIN_CHARS) && (e
                == ContainerError::EncryptionFailed ==> payload_bytes(
                views_of(keys@),
                EXPORT_VERSION,
            ).len() > CIPHER_PT_MAX),
        },
{
    if passphrase.unicode_len() < EXPORT_PASS_MIN_CHARS {
        return Err(ContainerError::PassphraseTooShort);
    }
    let doc = encode_payload(keys, EXPORT_VERSION);
    let pt = doc.as_str().as_bytes_vec();
    let key = derive_key(passphrase.as_bytes(), "tauriage-export-salt".as_bytes(), KDF_ROUNDS);
    let nonce = generate_nonce();
    match aead_seal(key.as_slice(), nonce.as_slice(), pt.as_slice()) {
        Some(ct) => {
            let ghost n = nonce@;
            let mut out = slice_to_vec("TAKI".as_bytes());
            let b0: u8 = (EXPORT_VERSION & 0xff) as u8;
            let b1: u8 = ((EXPORT_VERSION >> 8) & 0xff) as u8;
            let b2: u8 = ((EXPORT_VERSION >> 16) & 0xff) as u8;
            let b3: u8 = ((EXPORT_VERSION >> 24) & 0xff) as u8;
            out.push(b0);
            out.push(b1);
            out.push(b2);
            out.push(b3);
            let mut nonce_tail = nonce;
            out.append(&mut nonce_tail);
            let mut ct_tail = ct;
            out.append(&mut ct_tail);
            proof {
                assert(well_sealed(passphrase@, n, views_of(keys@), ContainerKind::Export));
                assert(out@ =~= sealed_export(passphrase@, n, views_of(keys@)));
            }
            Ok(out)
        },
        None => Err(ContainerError::EncryptionFailed),
    }
}

// ---------------------------------------------------------------------
// Opening.
// ---------------------------------------------------------------------
/// Relies on `String::from_utf8`: it succeeds exactly on valid UTF-8,
/// and the string it returns encodes back to the given bytes.
#[verifier::external_body]
fn string_from_utf8(v: Vec<u8>) -> (r: Option<String>)
    ensures
        match r {
            Some(s) => valid_utf8(v@) && encode_utf8(s@) == v@,
            None => !valid_utf8(v@),
        },
{
    String::from_utf8(v).ok()
}

/// The shared tail of both open paths: decrypt, decode, gate the
/// payload version.
fn decrypt_payload(key: &Vec<u8>, nonce: &[u8], ct: &[u8]) -> (r: Result<
    Vec<StoredKey>,
    ContainerError,
>)
    requires
        key@.len() == 32,
        nonce@.len() == 12,
    ensures
        match r {
            Ok(ks) => decrypt_payload_spec(key@, nonce@, ct@) == Ok::<_, ContainerError>(
                views_of(ks@),
            ),
            Err(e) => decrypt_payload_spec(key@, nonce@, ct@) == Err::<Seq<RecordView>, _>(e),
        },
{
    let pt = match aead_open(key.as_slice(), nonce, ct) {
        Some(p) => p,
        None => {
            return Err(ContainerError::AuthenticationFailed);
        },
    };
    let ghost ptg = pt@;
    let doc = match string_from_utf8(pt) {
        Some(s) => s,
        None => {
            return Err(ContainerError::InvalidPayload);
        },
    };
    proof {
        encode_utf8_decode_utf8(doc@);
        assert(decode_utf8(ptg) == doc@);
    }
    match parse_payload_exec(doc.as_str()) {
        None => Err(ContainerError::InvalidPayload),
        Some((ks, ver)) => {
            if ver != PAYLOAD_VERSION {
                Err(ContainerError::UnsupportedVersion(ver))
            } else {
                Ok(ks)
            }
        },
    }
}

/// Opens a local-store container: returns the records it holds, or
/// says exactly why not, as `open_local_spec` states for every input.
pub fn decrypt_passphrase_container(passphrase: &str, encrypted_data: &[u8]) -> (r: Result<
    Vec<StoredKey>,
    ContainerError,
>)
    ensures
        match r {
            Ok(ks) => open_local_spec(passphrase@, encrypted_data@) == Ok::<_, ContainerError>(
                views_of(ks@),
            ),
            Err(e) => open_local_spec(passphrase@, encrypted_data@) == Err::<Seq<RecordView>, _>(
                e,
            ),
        },
{
    if encrypted_data.len() < MIN_LOCAL_LEN {
        return Err(ContainerError::TooShort);
    }
    let nonce = slice_subrange(encrypted_data, 0, 12);
    let ct = slice_subrange(encrypted_data, 12, encrypted_data.len());
    let key = derive_key(passphrase.as_bytes(), "age-tool-salt".as_bytes(), KDF_ROUNDS);
    decrypt_payload(&key, nonce, ct)
}

/// Opens an export container: length, magic and frame version are
/// checked before any cryptographic work, as `open_export_spec` states.
pub fn import_keys_container(passphrase: &str, data: &[u8]) -> (r: Result<
    Vec<StoredKey>,
    ContainerError,
>)
    ensures
        match r {
            Ok(ks) => open_export_spec(passphrase@, data@) == Ok::<_, ContainerError>(
                views_of(ks@),
            ),
            Err(e) => open_export_spec(passphrase@, data@) == Err::<Seq<RecordView>, _>(e),
        },
{
    if data.len() < MIN_EXPORT_LEN {
        return Err(ContainerError::TooShort);
    }
    proof {
        lemma_magic_len();
    }
    let magic = "TAKI".as_bytes();
    let mut k: usize = 0;
    while k < 4
        invariant
            0 <= k <= 4,
            data@.len() >= MIN_EXPORT_LEN,
            magic@ == magic_bytes(),
            magic@.len() == 4,
            forall|m: int| 0 <= m < k ==> data@[m] == magic_bytes()[m],
        decreases 4 - k,
    {
        if *slice_index_get(data, k) != *slice_index_get(magic, k) {
            proof {
                assert(data@.subrange(0, 4)[k as int] != magic_bytes()[k as int]);
            }
            return Err(ContainerError::BadMagic);
        }
        k = k + 1;
    }
    proof {
        assert(data@.subrange(0, 4) =~= magic_bytes());
    }
    let ver = le_bytes_to_u32(
        *slice_index_get(data, 4),
        *slice_index_get(data, 5),
        *slice_index_get(data, 6),
        *slice_index_get(data, 7),
    );
    if ver != EXPORT_VERSION {
        return Err(ContainerError::UnsupportedVersion(ver));
    }
    let nonce = slice_subrange(data, 8, 20);
    let ct = slice_subrange(data, 20, data.len());
    let key = derive_key(passphrase.as_bytes(), "tauriage-export-salt".as_bytes(), KDF_ROUNDS);
    decrypt_payload(&key, nonce, ct)
}

/// The value of four little-endian bytes.
fn le_bytes_to_u32(b0: u8, b1: u8, b2: u8, b3: u8) -> (r: u32)
    ensures
        r == le32_val(b0, b1, b2, b3),
{
    (b0 as u32) | ((b1 as u32) << 8) | ((b2 as u32) << 16) | ((b3 as u32) << 24)
}

// ---------------------------------------------------------------------
// Laws.
// ---------------------------------------------------------------------
proof fn lemma_decrypt_sealed_payload(key: Seq<u8>, nonce: Seq<u8>, keys: Seq<RecordView>)
    requires
        aead_decrypt(key, nonce, aead_encrypt(key, nonce, payload_bytes(keys, PAYLOAD_VERSION)))
            == Some(payload_bytes(keys, PAYLOAD_VERSION)),
    ensures
        decrypt_payload_spec(
            key,
            nonce,
            aead_encrypt(key, nonce, payload_bytes(keys, PAYLOAD_VERSION)),
        ) == Ok::<_, ContainerError>(keys),
{
    let doc = j_payload(keys, PAYLOAD_VERSION);
    encode_utf8_valid_utf8(doc);
    encode_utf8_decode_utf8(doc);
    lemma_parse_payload_inverts(keys, PAYLOAD_VERSION);
}

/// Round trip: opening a container that was sealed over a record set,
/// with the same passphrase and kind, returns exactly that record set,
/// preserving order and the presence or absence of every optional
/// field.  `well_sealed` holds of every container the cipher actually
/// produced.
pub proof fn lemma_container_round_trip(
    pass: Seq<char>,
    nonce: Seq<u8>,
    keys: Seq<RecordView>,
    kind: ContainerKind,
)
    requires
        well_sealed(pass, nonce, keys, kind),
    ensures
        kind == ContainerKind::Local ==> open_local_spec(pass, sealed_local(pass, nonce, keys))
            == Ok::<_, ContainerError>(keys),
        kind == ContainerKind::Export ==> open_export_spec(pass, sealed_export(pass, nonce, keys))
            == Ok::<_, ContainerError>(keys),
{
    if kind == ContainerKind::Local {
        let key = container_key(pass, ContainerKind::Local);
        let pt = payload_bytes(keys, PAYLOAD_VERSION);
        let ct = aead_encrypt(key, nonce, pt);
        let data = sealed_local(pass, nonce, keys);
        assert(data.len() == 28 + pt.len());
        assert(data.subrange(0, 12) =~= nonce);
        assert(data.subrange(12, data.len() as int) =~= ct);
        lemma_decrypt_sealed_payload(key, nonce, keys);
    } else {
        let key = container_key(pass, ContainerKind::Export);
        let pt = payload_bytes(keys, EXPORT_VERSION);
        let ct = aead_encrypt(key, nonce, pt);
        let data = sealed_export(pass, nonce, keys);
        lemma_magic_len();
        assert(data.len() == 36 + pt.len());
        assert(data.subrange(0, 4) =~= magic_bytes());
        assert(data[4] == le32(EXPORT_VERSION)[0]);
        assert(data[5] == le32(EXPORT_VERSION)[1]);
        assert(data[6] == le32(EXPORT_VERSION)[2]);
        assert(data[7] == le32(EXPORT_VERSION)[3]);
        lemma_le32_round_trip(EXPORT_VERSION);
        assert(le32_val(data[4], data[5], data[6], data[7]) == EXPORT_VERSION);
        assert(data.subrange(8, 20) =~= nonce);
        assert(data.subrange(20, data.len() as int) =~= ct);
        lemma_decrypt_sealed_payload(key, nonce, keys);
    }
}

/// Length gate: input shorter than the layout's minimum is rejected as
/// structural, before any cryptographic work, whatever the passphrase.
pub proof fn lemma_length_gate(pass: Seq<char>, data: Seq<u8>, kind: ContainerKind)
    requires
        kind == ContainerKind::Local ==> data.len() < MIN_LOCAL_LEN,
        kind == ContainerKind::Export ==> data.len() < MIN_EXPORT_LEN,
    ensures
        kind == ContainerKind::Local ==> open_local_spec(pass, data) == Err::<Seq<RecordView>, _>(
            ContainerError::TooShort,
        ),
        kind == ContainerKind::Export ==> open_export_spec(pass, data) == Err::<
            Seq<RecordView>,
            _,
        >(ContainerError::TooShort),
{
}

/// Magic gate: an export input that does not begin with the magic is
/// rejected as structural, whatever the passphrase.
pub proof fn lemma_export_magic_gate(pass: Seq<char>, data: Seq<u8>)
    requires
        data.len() >= MIN_EXPORT_LEN,
        data.subrange(0, 4) != magic_bytes(),
    ensures
        open_export_spec(pass, data) == Err::<Seq<RecordView>, _>(ContainerError::BadMagic),
{
}

/// Fail closed: records come back only when the cipher authenticates
/// the ciphertext under the key derived from the very passphrase that
/// was given; with a wrong passphrase or tampered bytes, success would
/// require the tag to authenticate all the same, which the cipher is
/// relied upon to refuse.
pub proof fn lemma_open_fails_closed(pass: Seq<char>, data: Seq<u8>)
    ensures
        open_local_spec(pass, data) is Ok ==> aead_decrypt(
            container_key(pass, ContainerKind::Local),
            data.subrange(0, 12),
            data.subrange(12, data.len() as int),
        ) is Some,
        open_export_spec(pass, data) is Ok ==> aead_decrypt(
            container_key(pass, ContainerKind::Export),
            data.subrange(8, 20),
            data.subrange(20, data.len() as int),
        ) is Some,
{
}

/// Version gate: an export input with an unrecognized frame version is
/// rejected as structural, and the error names that version.
pub proof fn lemma_export_version_gate(pass: Seq<char>, data: Seq<u8>)
    requires
        data.len() >= MIN_EXPORT_LEN,
        data.subrange(0, 4) == magic_bytes(),
        le32_val(data[4], data[5], data[6], data[7]) != EXPORT_VERSION,
    ensures
        open_export_spec(pass, data) == Err::<Seq<RecordView>, _>(
            ContainerError::UnsupportedVersion(le32_val(data[4], data[5], data[6], data[7])),
        ),
{
}

} // verus!
