//! The passphrase lifecycle: generating the machine-local implicit
//! passphrase and normalizing what a later read returns.
//!
//! The lifecycle over the backing file is: absent, then created once,
//! then only read.  The decision between those paths is
//! `resolve_passphrase`; the file itself is the caller's to read and
//! write.

use vstd::prelude::*;

use vstd::string::StrSliceExecFns;

use crate::chars::hex_digit_char;
use crate::chars::is_hex_digit;
use crate::chars::is_space;
use crate::chars::lemma_hex_digit_char_val;
use crate::chars::lemma_trim_no_space;
use crate::chars::push_char;
use crate::chars::trim_spec;
use crate::chars::trim_str;
use crate::crypto::local_username;
use crate::crypto::random_bytes_16;
use crate::crypto::sha256;

verus! {

/// The lowercase hexadecimal rendering of a byte sequence: two digits
/// per byte, high nibble first.
pub open spec fn hex_of(b: Seq<u8>) -> Seq<char>
    decreases b.len(),
{
    if b.len() == 0 {
        Seq::empty()
    } else {
        seq![hex_digit_char((b[0] / 16) as u8), hex_digit_char((b[0] % 16) as u8)] + hex_of(
            b.drop_first(),
        )
    }
}

/// The shape of a generated passphrase: 64 lowercase hexadecimal
/// characters, the rendering of a 32-byte digest.
pub open spec fn is_hex64(s: Seq<char>) -> bool {
    s.len() == 64 && forall|i: int| 0 <= i < 64 ==> is_hex_digit(#[trigger] s[i])
}

proof fn lemma_hex_of_concat(a: Seq<u8>, b: Seq<u8>)
    ensures
        hex_of(a + b) == hex_of(a) + hex_of(b),
    decreases a.len(),
{
    if a.len() == 0 {
        assert(a + b =~= b);
        assert(hex_of(a) + hex_of(b) =~= hex_of(b));
    } else {
        assert((a + b).drop_first() =~= a.drop_first() + b);
        lemma_hex_of_concat(a.drop_first(), b);
        assert(hex_of(a + b) =~= hex_of(a) + hex_of(b));
    }
}

proof fn lemma_hex_of_props(b: Seq<u8>)
    ensures
        hex_of(b).len() == 2 * b.len(),
        forall|i: int| 0 <= i < hex_of(b).len() ==> is_hex_digit(#[trigger] hex_of(b)[i]),
    decreases b.len(),
{
    if b.len() > 0 {
        lemma_hex_of_props(b.drop_first());
        lemma_hex_digit_char_val((b[0] / 16) as u8);
        lemma_hex_digit_char_val((b[0] % 16) as u8);
    }
}

/// The lowercase hexadecimal string for the given bytes.
fn to_hex(b: &Vec<u8>) -> (r: String)
    ensures
        r@ == hex_of(b@),
{
    let mut out = String::new();
    let n = b.len();
    let mut i: usize = 0;
    proof {
        assert(b@.subrange(0, 0) =~= Seq::<u8>::empty());
        assert(out@ =~= hex_of(b@.subrange(0, 0)));
    }
    while i < n
        invariant
            0 <= i <= n,
            n == b@.len(),
            out@ == hex_of(b@.subrange(0, i as int)),
        decreases n - i,
    {
        let v = b[i];
        let hi: u8 = v / 16;
        let lo: u8 = v % 16;
        let hc: char = if hi < 10 {
            (48 + hi) as char
        } else {
            (87 + hi) as char
        };
        let lc: char = if lo < 10 {
            (48 + lo) as char
        } else {
            (87 + lo) as char
        };
        push_char(&mut out, hc);
        push_char(&mut out, lc);
        proof {
            let sub = b@.subrange(0, i as int);
            let one = seq![b@[i as int]];
            assert(b@.subrange(0, i + 1) =~= sub + one);
            lemma_hex_of_concat(sub, one);
            assert(one.drop_first() =~= Seq::<u8>::empty());
            assert(hex_of(Seq::<u8>::empty()) == Seq::<char>::empty());
            assert(one[0] == b@[i as int]);
            assert(hc == hex_digit_char((one[0] / 16) as u8));
            assert(lc == hex_digit_char((one[0] % 16) as u8));
            assert(hex_of(one) =~= seq![hc, lc]);
            assert(out@ =~= hex_of(b@.subrange(0, i + 1)));
        }
        i = i + 1;
    }
    proof {
        assert(b@.subrange(0, n as int) =~= b@);
    }
    out
}

/// Generates the machine-local passphrase: the SHA-256 digest of the
/// local username followed by 16 bytes from the secure random source,
/// rendered as 64 lowercase hexadecimal characters.  It never fails.
pub fn generate_auto_passphrase() -> (r: Result<String, String>)
    ensures
        match r {
            Ok(p) => is_hex64(p@) && exists|user: Seq<u8>, rnd: Seq<u8>|
                rnd.len() == 16 && p@ == #[trigger] hex_of(crate::crypto::sha256_of(user + rnd)),
            Err(_) => false,
        },
{
    let user = local_username();
    let mut buf = user.as_str().as_bytes_vec();
    let ghost user_bytes = buf@;
    let mut rnd = random_bytes_16();
    let ghost rnd_bytes = rnd@;
    buf.append(&mut rnd);
    let digest = sha256(buf.as_slice());
    let p = to_hex(&digest);
    proof {
        lemma_hex_of_props(digest@);
        assert(rnd_bytes.len() == 16 && p@ == hex_of(
            crate::crypto::sha256_of(user_bytes + rnd_bytes),
        ));
    }
    Ok(p)
}

/// What a read of the passphrase file returns: the file text with
/// surrounding white space removed.  A read never rewrites the file.
pub fn normalize_passphrase(text: &str) -> (r: String)
    ensures
        r@ == trim_spec(text@),
{
    trim_str(text)
}

/// The lifecycle decision: with file text present, the normalized text
/// is the passphrase and nothing is written; with the file absent, the
/// freshly generated passphrase is returned and must be persisted
/// verbatim — the one write the lifecycle ever makes.
pub fn resolve_passphrase(existing: Option<&str>, generated: String) -> (r: (String, bool))
    ensures
        match existing {
            Some(s) => r.0@ == trim_spec(s@) && r.1 == false,
            None => r.0@ == generated@ && r.1 == true,
        },
{
    match existing {
        Some(s) => (normalize_passphrase(s), false),
        None => (generated, true),
    }
}

/// Lifecycle idempotence: a generated passphrase consists of
/// hexadecimal characters only, so the normalization applied when it is
/// read back returns it unchanged.  Hence the second get-or-create on
/// an untouched path returns the very string the first one wrote, and
/// only the first call writes.
pub proof fn lemma_lifecycle_idempotent(p: Seq<char>)
    requires
        is_hex64(p),
    ensures
        trim_spec(p) == p,
{
    assert forall|i: int| 0 <= i < p.len() implies !is_space(p[i]) by {
        assert(is_hex_digit(p[i]));
    }
    lemma_trim_no_space(p);
}

} // verus!
