//! The record payload codec: a canonical JSON document
//! `{"keys":[...],"version":N}` over a sequence of key records.
//!
//! The printer is total; the parser accepts exactly the canonical
//! grammar and inverts the printer (`lemma_parse_payload_inverts`),
//! which is what makes a sealed container reopen to the records it was
//! sealed over.

use vstd::prelude::*;

use vstd::arithmetic::div_mod::lemma_fundamental_div_mod;

use crate::chars::digit_val;
use crate::chars::lemma_hex_digit_char_val;
use crate::chars::push_char;
use crate::chars::hex_digit_char;
use crate::chars::hex_val;
use crate::chars::is_digit;
use crate::chars::is_hex_digit;
use crate::records::RecordView;
use crate::records::StoredKey;
use crate::records::opt_view;
use crate::records::views_of;

verus! {

// ---------------------------------------------------------------------
// Printer: the canonical document, one spec function per construct.
// ---------------------------------------------------------------------
/// How one character is written inside a quoted string: quote and
/// backslash get a backslash escape, control characters a `\u00XX`
/// escape, everything else stands for itself.
pub open spec fn esc_char(c: char) -> Seq<char> {
    if c == '"' {
        seq!['\\', '"']
    } else if c == '\\' {
        seq!['\\', '\\']
    } else if (c as u32) < 0x20 {
        seq!['\\', 'u', '0', '0', hex_digit_char(((c as u32) / 16) as u8), hex_digit_char(
            ((c as u32) % 16) as u8,
        )]
    } else {
        seq![c]
    }
}

pub open spec fn esc_str(s: Seq<char>) -> Seq<char>
    decreases s.len(),
{
    if s.len() == 0 {
        Seq::empty()
    } else {
        esc_char(s[0]) + esc_str(s.drop_first())
    }
}

/// A quoted, escaped string.
pub open spec fn j_string(s: Seq<char>) -> Seq<char> {
    seq!['"'] + esc_str(s) + seq!['"']
}

/// Decimal digits of `n`, without leading zeros.
pub open spec fn dec_digits(n: nat) -> Seq<char>
    decreases n,
{
    if n < 10 {
        seq![hex_digit_char(n as u8)]
    } else {
        dec_digits(n / 10) + seq![hex_digit_char((n % 10) as u8)]
    }
}

/// An optional string field: `null` when absent.
pub open spec fn j_opt_string(o: Option<Seq<char>>) -> Seq<char> {
    match o {
        Some(s) => j_string(s),
        None => seq!['n', 'u', 'l', 'l'],
    }
}

pub open spec fn lit_obj_id() -> Seq<char> {
    "{\"id\":"@
}

pub open spec fn lit_name() -> Seq<char> {
    ",\"name\":"@
}

pub open spec fn lit_public() -> Seq<char> {
    ",\"publicKey\":"@
}

pub open spec fn lit_private() -> Seq<char> {
    ",\"privateKey\":"@
}

pub open spec fn lit_comment() -> Seq<char> {
    ",\"comment\":"@
}

pub open spec fn lit_created() -> Seq<char> {
    ",\"createdAt\":"@
}

pub open spec fn lit_head() -> Seq<char> {
    "{\"keys\":["@
}

pub open spec fn lit_tail() -> Seq<char> {
    "],\"version\":"@
}

/// One record as an object with a fixed field order.
pub open spec fn j_record(r: RecordView) -> Seq<char> {
    lit_obj_id() + j_string(r.id) + lit_name() + j_string(r.name) + lit_public() + j_string(
        r.public_key,
    ) + lit_private() + j_opt_string(r.private_key) + lit_comment() + j_opt_string(r.comment)
        + lit_created() + dec_digits(r.created_at as nat) + seq!['}']
}

/// The records joined by commas.
pub open spec fn j_records(rs: Seq<RecordView>) -> Seq<char>
    decreases rs.len(),
{
    if rs.len() == 0 {
        Seq::empty()
    } else if rs.len() == 1 {
        j_record(rs[0])
    } else {
        j_record(rs[0]) + seq![','] + j_records(rs.drop_first())
    }
}

/// The whole payload document.
pub open spec fn j_payload(rs: Seq<RecordView>, version: u32) -> Seq<char> {
    lit_head() + j_records(rs) + lit_tail() + dec_digits(version as nat) + seq!['}']
}

// ---------------------------------------------------------------------
// Verified encoder.
// ---------------------------------------------------------------------
proof fn lemma_esc_str_concat(a: Seq<char>, b: Seq<char>)
    ensures
        esc_str(a + b) == esc_str(a) + esc_str(b),
    decreases a.len(),
{
    if a.len() == 0 {
        assert(a + b =~= b);
        assert(esc_str(a) + esc_str(b) =~= esc_str(b));
    } else {
        assert((a + b).drop_first() =~= a.drop_first() + b);
        lemma_esc_str_concat(a.drop_first(), b);
        assert(esc_str(a + b) =~= esc_str(a) + esc_str(b));
    }
}

fn append_escaped(out: &mut String, s: &str)
    ensures
        final(out)@ == old(out)@ + esc_str(s@),
{
    let len = s.unicode_len();
    let mut i: usize = 0;
    proof {
        assert(s@.subrange(0, 0) =~= Seq::<char>::empty());
        assert(out@ + esc_str(s@.subrange(0, 0)) =~= out@);
    }
    while i < len
        invariant
            0 <= i <= len,
            len == s@.len(),
            out@ == old(out)@ + esc_str(s@.subrange(0, i as int)),
        decreases len - i,
    {
        let c = s.get_char(i);
        let ghost pre = out@;
        if c == '"' {
            out.append("\\\"");
            proof {
                reveal_strlit("\\\"");
                assert("\\\""@ =~= esc_char(c));
            }
        } else if c == '\\' {
            out.append("\\\\");
            proof {
                reveal_strlit("\\\\");
                assert("\\\\"@ =~= esc_char(c));
            }
        } else if (c as u32) < 0x20 {
            out.append("\\u00");
            let v = c as u32;
            let hi: u8 = (v / 16) as u8;
            let lo: u8 = (v % 16) as u8;
            let hc: char = if hi < 10 {
                (48 + hi) as char
            } else {
                (87 + hi) as char
            };
            let lc: char = if lo < 10 {
                (48 + lo) as char
            } else {
                (87 + lo) as char
            };
            push_char(out, hc);
            push_char(out, lc);
            proof {
                reveal_strlit("\\u00");
                assert(hc == hex_digit_char(((c as u32) / 16) as u8));
                assert(lc == hex_digit_char(((c as u32) % 16) as u8));
                assert(pre + "\\u00"@ + seq![hc] + seq![lc] =~= pre + esc_char(c));
            }
        } else {
            push_char(out, c);
            proof {
                assert(seq![c] =~= esc_char(c));
            }
        }
        proof {
            let sub = s@.subrange(0, i as int);
            assert(s@.subrange(0, i + 1) =~= sub + seq![s@[i as int]]);
            lemma_esc_str_concat(sub, seq![s@[i as int]]);
            let c0 = s@[i as int];
            assert(seq![c0].drop_first() =~= Seq::<char>::empty());
            assert(esc_str(Seq::<char>::empty()) == Seq::<char>::empty());
            assert(esc_str(seq![c0]) == esc_char(c0) + esc_str(Seq::<char>::empty()));
            assert(esc_char(c0) + Seq::<char>::empty() =~= esc_char(c0));
            assert(esc_str(seq![c0]) =~= esc_char(c0));
            assert(out@ =~= old(out)@ + esc_str(s@.subrange(0, i + 1)));
        }
        i = i + 1;
    }
    proof {
        assert(s@.subrange(0, len as int) =~= s@);
    }
}

fn append_j_string(out: &mut String, s: &str)
    ensures
        final(out)@ == old(out)@ + j_string(s@),
{
    push_char(out, '"');
    append_escaped(out, s);
    push_char(out, '"');
    proof {
        assert(old(out)@ + seq!['"'] + esc_str(s@) + seq!['"'] =~= old(out)@ + j_string(s@));
    }
}

pub(crate) fn append_u64(out: &mut String, n: u64)
    ensures
        final(out)@ == old(out)@ + dec_digits(n as nat),
    decreases n,
{
    if n < 10 {
        let d: u8 = n as u8;
        push_char(out, (48 + d) as char);
        proof {
            assert(seq![(48 + n as u8) as char] =~= dec_digits(n as nat));
        }
    } else {
        append_u64(out, n / 10);
        let d: u8 = (n % 10) as u8;
        push_char(out, (48 + d) as char);
        proof {
            assert(n as nat / 10 == (n / 10) as nat);
            assert(seq![(48 + d) as char] =~= seq![hex_digit_char((n as nat % 10) as u8)]);
            assert(old(out)@ + dec_digits(n as nat / 10) + seq![
                hex_digit_char((n as nat % 10) as u8),
            ] =~= old(out)@ + dec_digits(n as nat));
        }
    }
}

fn append_opt_string(out: &mut String, s: &Option<String>)
    ensures
        final(out)@ == old(out)@ + j_opt_string(opt_view(*s)),
{
    match s {
        Some(t) => {
            append_j_string(out, t.as_str());
        },
        None => {
            out.append("null");
            proof {
                reveal_strlit("null");
                assert("null"@ =~= j_opt_string(None));
            }
        },
    }
}

#[verifier::rlimit(80)]
fn append_record(out: &mut String, k: &StoredKey)
    ensures
        final(out)@ == old(out)@ + j_record(k@),
{
    out.append("{\"id\":");
    append_j_string(out, k.id.as_str());
    out.append(",\"name\":");
    append_j_string(out, k.name.as_str());
    out.append(",\"publicKey\":");
    append_j_string(out, k.public_key.as_str());
    out.append(",\"privateKey\":");
    append_opt_string(out, &k.private_key);
    out.append(",\"comment\":");
    append_opt_string(out, &k.comment);
    out.append(",\"createdAt\":");
    append_u64(out, k.created_at);
    push_char(out, '}');
    proof {
        assert(out@ =~= old(out)@ + j_record(k@));
    }
}

proof fn lemma_j_records_push(rs: Seq<RecordView>, r: RecordView)
    ensures
        rs.len() == 0 ==> j_records(rs.push(r)) == j_record(r),
        rs.len() > 0 ==> j_records(rs.push(r)) == j_records(rs) + seq![','] + j_record(r),
    decreases rs.len(),
{
    if rs.len() == 0 {
        assert(rs.push(r)[0] == r);
        assert(j_records(rs.push(r)) == j_record(r));
    } else {
        lemma_j_records_push(rs.drop_first(), r);
        assert(rs.push(r).drop_first() =~= rs.drop_first().push(r));
        if rs.len() == 1 {
            assert(j_records(rs.push(r)) =~= j_records(rs) + seq![','] + j_record(r));
        } else {
            assert(j_records(rs.push(r)) =~= j_records(rs) + seq![','] + j_record(r));
        }
    }
}

/// Writes the records and the version as the canonical payload document.
pub fn encode_payload(keys: &Vec<StoredKey>, version: u32) -> (r: String)
    ensures
        r@ == j_payload(views_of(keys@), version),
{
    let mut out = String::new();
    out.append("{\"keys\":[");
    let n = keys.len();
    let mut i: usize = 0;
    proof {
        assert(views_of(keys@).subrange(0, 0) =~= Seq::<RecordView>::empty());
        assert(out@ =~= "{\"keys\":["@ + j_records(views_of(keys@).subrange(0, 0)));
    }
    while i < n
        invariant
            0 <= i <= n,
            n == keys@.len(),
            out@ == "{\"keys\":["@ + j_records(views_of(keys@).subrange(0, i as int)),
        decreases n - i,
    {
        if i > 0 {
            push_char(&mut out, ',');
        }
        append_record(&mut out, &keys[i]);
        proof {
            let vs = views_of(keys@);
            assert(vs.subrange(0, i + 1) =~= vs.subrange(0, i as int).push(vs[i as int]));
            lemma_j_records_push(vs.subrange(0, i as int), vs[i as int]);
            assert(vs[i as int] == keys@[i as int]@);
            assert(out@ =~= "{\"keys\":["@ + j_records(vs.subrange(0, i + 1)));
        }
        i = i + 1;
    }
    out.append("],\"version\":");
    append_u64(&mut out, version as u64);
    push_char(&mut out, '}');
    proof {
        assert(views_of(keys@).subrange(0, n as int) =~= views_of(keys@));
        assert(out@ =~= j_payload(views_of(keys@), version));
    }
    out
}

// ---------------------------------------------------------------------
// Parser: one spec function per construct, position based.  A result
// `Some((v, j))` means the construct `v` stands at the given position
// and ends right before position `j`.
// ---------------------------------------------------------------------
/// The literal `lit` stands in `s` at position `i`.
pub open spec fn match_lit(s: Seq<char>, i: int, lit: Seq<char>) -> bool {
    0 <= i && i + lit.len() <= s.len() && s.subrange(i, i + lit.len()) == lit
}

/// First position at or after `i` that does not hold a decimal digit.
pub open spec fn digits_end(s: Seq<char>, i: int) -> int
    decreases s.len() - i when 0 <= i <= s.len()
{
    if i < s.len() && is_digit(s[i]) {
        digits_end(s, i + 1)
    } else {
        i
    }
}

/// Value of the decimal digits of `s` between positions `i` and `j`.
pub open spec fn digits_val(s: Seq<char>, i: int, j: int) -> int
    decreases j - i when i <= j
{
    if i >= j {
        0
    } else {
        digits_val(s, i, j - 1) * 10 + digit_val(s[j - 1])
    }
}

/// A number: a maximal non-empty run of digits whose value fits in u64.
pub open spec fn parse_u64(s: Seq<char>, i: int) -> Option<(u64, int)> {
    let j = digits_end(s, i);
    if j == i || 0 > i {
        None
    } else if digits_val(s, i, j) > u64::MAX {
        None
    } else {
        Some((digits_val(s, i, j) as u64, j))
    }
}

/// The short escapes also accepted for control characters, beside the
/// `\u00XX` form the printer writes.
pub open spec fn short_escape(c: char) -> Option<char> {
    if c == 'n' {
        Some('\n')
    } else if c == 't' {
        Some('\t')
    } else if c == 'b' {
        Some('\u{0008}')
    } else if c == 'f' {
        Some('\u{000C}')
    } else if c == 'r' {
        Some('\r')
    } else {
        None
    }
}

/// The rest of a quoted string after the opening quote: characters and
/// escapes up to the closing quote.
pub open spec fn parse_str_body(s: Seq<char>, i: int) -> Option<(Seq<char>, int)>
    decreases s.len() - i when 0 <= i
{
    if i >= s.len() {
        None
    } else if s[i] == '"' {
        Some((Seq::empty(), i + 1))
    } else if s[i] == '\\' {
        if i + 2 > s.len() {
            None
        } else if s[i + 1] == '"' || s[i + 1] == '\\' {
            match parse_str_body(s, i + 2) {
                Some((t, j)) => Some((seq![s[i + 1]] + t, j)),
                None => None,
            }
        } else if short_escape(s[i + 1]) is Some {
            match parse_str_body(s, i + 2) {
                Some((t, j)) => Some((seq![short_escape(s[i + 1])->0] + t, j)),
                None => None,
            }
        } else if s[i + 1] == 'u' {
            if i + 6 > s.len() {
                None
            } else if s[i + 2] == '0' && s[i + 3] == '0' && is_hex_digit(s[i + 4]) && is_hex_digit(
                s[i + 5],
            ) && hex_val(s[i + 4]) * 16 + hex_val(s[i + 5]) < 0x20 {
                match parse_str_body(s, i + 6) {
                    Some((t, j)) => Some(
                        (seq![((hex_val(s[i + 4]) * 16 + hex_val(s[i + 5])) as u8) as char] + t, j),
                    ),
                    None => None,
                }
            } else {
                None
            }
        } else {
            None
        }
    } else {
        match parse_str_body(s, i + 1) {
            Some((t, j)) => Some((seq![s[i]] + t, j)),
            None => None,
        }
    }
}

/// A quoted string.
pub open spec fn parse_string(s: Seq<char>, i: int) -> Option<(Seq<char>, int)> {
    if 0 <= i < s.len() && s[i] == '"' {
        parse_str_body(s, i + 1)
    } else {
        None
    }
}

/// An optional string field: the literal `null` or a quoted string.
pub open spec fn parse_opt_string(s: Seq<char>, i: int) -> Option<(Option<Seq<char>>, int)> {
    if match_lit(s, i, seq!['n', 'u', 'l', 'l']) {
        Some((None, i + 4))
    } else {
        match parse_string(s, i) {
            Some((t, j)) => Some((Some(t), j)),
            None => None,
        }
    }
}

/// One record object with the fixed field order of the printer.
pub open spec fn parse_record(s: Seq<char>, i: int) -> Option<(RecordView, int)> {
    if !match_lit(s, i, lit_obj_id()) {
        None
    } else {
        match parse_string(s, i + lit_obj_id().len()) {
            None => None,
            Some((id, i1)) => if !match_lit(s, i1, lit_name()) {
                None
            } else {
                match parse_string(s, i1 + lit_name().len()) {
                    None => None,
                    Some((name, i2)) => if !match_lit(s, i2, lit_public()) {
                        None
                    } else {
                        match parse_string(s, i2 + lit_public().len()) {
                            None => None,
                            Some((pk, i3)) => if !match_lit(s, i3, lit_private()) {
                                None
                            } else {
                                match parse_opt_string(s, i3 + lit_private().len()) {
                                    None => None,
                                    Some((sk, i4)) => if !match_lit(s, i4, lit_comment()) {
                                        None
                                    } else {
                                        match parse_opt_string(s, i4 + lit_comment().len()) {
                                            None => None,
                                            Some((cm, i5)) => if !match_lit(s, i5, lit_created()) {
                                                None
                                            } else {
                                                match parse_u64(s, i5 + lit_created().len()) {
                                                    None => None,
                                                    Some((ts, i6)) => if i6 < s.len() && s[i6]
                                                        == '}' {
                                                        Some(
                                                            (
                                                                RecordView {
                                                                    id,
                                                                    name,
                                                                    public_key: pk,
                                                                    private_key: sk,
                                                                    comment: cm,
                                                                    created_at: ts,
                                                                },
                                                                i6 + 1,
                                                            ),
                                                        )
                                                    } else {
                                                        None
                                                    },
                                                }
                                            },
                                        }
                                    },
                                }
                            },
                        }
                    },
                }
            },
        }
    }
}

/// A non-empty comma-separated run of records.  `fuel` only bounds the
/// recursion; any fuel at least the number of records behaves alike.
pub open spec fn parse_records(s: Seq<char>, i: int, fuel: nat) -> Option<(Seq<RecordView>, int)>
    decreases fuel,
{
    if fuel == 0 {
        None
    } else {
        match parse_record(s, i) {
            None => None,
            Some((r, j)) => if j < s.len() && s[j] == ',' {
                match parse_records(s, j + 1, (fuel - 1) as nat) {
                    None => None,
                    Some((rs, k)) => Some((seq![r] + rs, k)),
                }
            } else {
                Some((seq![r], j))
            },
        }
    }
}

/// The whole payload document; `None` unless all of `s` is consumed.
pub open spec fn parse_payload(s: Seq<char>) -> Option<(Seq<RecordView>, u32)> {
    if !match_lit(s, 0, lit_head()) {
        None
    } else {
        let i0 = lit_head().len() as int;
        let inner = if i0 < s.len() && s[i0] == ']' {
            Some((Seq::<RecordView>::empty(), i0))
        } else {
            parse_records(s, i0, s.len() as nat)
        };
        match inner {
            None => None,
            Some((rs, j)) => if !match_lit(s, j, lit_tail()) {
                None
            } else {
                match parse_u64(s, j + lit_tail().len()) {
                    None => None,
                    Some((v, j2)) => if v <= u32::MAX && j2 + 1 == s.len() && s[j2] == '}' {
                        Some((rs, v as u32))
                    } else {
                        None
                    },
                }
            },
        }
    }
}

// ---------------------------------------------------------------------
// The parser inverts the printer.
// ---------------------------------------------------------------------
proof fn lemma_match_lit_split(s: Seq<char>, i: int, a: Seq<char>, b: Seq<char>)
    requires
        match_lit(s, i, a + b),
    ensures
        match_lit(s, i, a),
        match_lit(s, i + a.len(), b),
{
    let ab = a + b;
    assert(s.subrange(i, i + ab.len()) == ab);
    assert(s.subrange(i, i + a.len()) =~= a) by {
        assert forall|k: int| 0 <= k < a.len() implies s.subrange(i, i + a.len())[k] == a[k] by {
            assert(s.subrange(i, i + ab.len())[k] == ab[k]);
        }
    }
    assert(s.subrange(i + a.len(), i + a.len() + b.len()) =~= b) by {
        assert forall|k: int| 0 <= k < b.len() implies s.subrange(
            i + a.len(),
            i + a.len() + b.len(),
        )[k] == b[k] by {
            assert(s.subrange(i, i + ab.len())[a.len() + k] == ab[a.len() + k]);
        }
    }
}

proof fn lemma_match_lit_index(s: Seq<char>, i: int, lit: Seq<char>, k: int)
    requires
        match_lit(s, i, lit),
        0 <= k < lit.len(),
    ensures
        s[i + k] == lit[k],
{
    assert(s.subrange(i, i + lit.len())[k] == lit[k]);
}

proof fn lemma_dec_digits_are_digits(n: nat)
    ensures
        dec_digits(n).len() >= 1,
        forall|k: int|
            0 <= k < dec_digits(n).len() ==> is_digit(#[trigger] dec_digits(n)[k]),
    decreases n,
{
    if n < 10 {
        assert(is_digit(hex_digit_char(n as u8)));
    } else {
        lemma_dec_digits_are_digits(n / 10);
        assert(is_digit(hex_digit_char((n % 10) as u8)));
        assert(forall|k: int|
            0 <= k < dec_digits(n / 10).len() ==> #[trigger] dec_digits(n)[k] == dec_digits(
                n / 10,
            )[k]);
    }
}

proof fn lemma_digits_end_at(s: Seq<char>, i: int, e: int)
    requires
        0 <= i <= e <= s.len(),
        forall|k: int| i <= k < e ==> is_digit(#[trigger] s[k]),
        e < s.len() ==> !is_digit(s[e]),
    ensures
        digits_end(s, i) == e,
    decreases e - i,
{
    if i < e {
        lemma_digits_end_at(s, i + 1, e);
    }
}

proof fn lemma_digits_val_of(s: Seq<char>, i: int, n: nat)
    requires
        match_lit(s, i, dec_digits(n)),
    ensures
        digits_val(s, i, i + dec_digits(n).len()) == n,
    decreases n,
{
    if n < 10 {
        lemma_match_lit_index(s, i, dec_digits(n), 0);
        assert(digit_val(hex_digit_char(n as u8)) == n);
        assert(digits_val(s, i, i + 1) == digits_val(s, i, i) * 10 + digit_val(s[i]));
    } else {
        let hd = dec_digits(n / 10);
        let tl = seq![hex_digit_char((n % 10) as u8)];
        assert(dec_digits(n) == hd + tl);
        lemma_match_lit_split(s, i, hd, tl);
        lemma_digits_val_of(s, i, n / 10);
        lemma_match_lit_index(s, i + hd.len(), tl, 0);
        let e = i + dec_digits(n).len();
        assert(e - 1 == i + hd.len());
        assert(digit_val(s[e - 1]) == n % 10);
        assert(digits_val(s, i, e) == digits_val(s, i, e - 1) * 10 + digit_val(s[e - 1]));
        lemma_fundamental_div_mod(n as int, 10);
    }
}

proof fn lemma_parse_u64_at(s: Seq<char>, i: int, n: u64)
    requires
        match_lit(s, i, dec_digits(n as nat)),
        i + dec_digits(n as nat).len() < s.len() ==> !is_digit(s[i + dec_digits(n as nat).len()]),
    ensures
        parse_u64(s, i) == Some((n, i + dec_digits(n as nat).len() as int)),
{
    let d = dec_digits(n as nat);
    let e = i + d.len();
    lemma_dec_digits_are_digits(n as nat);
    assert(forall|k: int| i <= k < e ==> is_digit(#[trigger] s[k])) by {
        assert forall|k: int| i <= k < e implies is_digit(#[trigger] s[k]) by {
            lemma_match_lit_index(s, i, d, k - i);
        }
    }
    lemma_digits_end_at(s, i, e);
    lemma_digits_val_of(s, i, n as nat);
}

proof fn lemma_parse_str_body_at(s: Seq<char>, i: int, t: Seq<char>)
    requires
        match_lit(s, i, esc_str(t) + seq!['"']),
    ensures
        parse_str_body(s, i) == Some((t, i + esc_str(t).len() + 1)),
    decreases t.len(),
{
    if t.len() == 0 {
        lemma_match_lit_index(s, i, esc_str(t) + seq!['"'], 0);
        assert(t =~= Seq::<char>::empty());
    } else {
        let c = t[0];
        let t2 = t.drop_first();
        assert(esc_str(t) == esc_char(c) + esc_str(t2));
        assert(esc_str(t) + seq!['"'] =~= esc_char(c) + (esc_str(t2) + seq!['"']));
        lemma_match_lit_split(s, i, esc_char(c), esc_str(t2) + seq!['"']);
        let i2 = i + esc_char(c).len();
        lemma_parse_str_body_at(s, i2, t2);
        if c == '"' {
            lemma_match_lit_index(s, i, esc_char(c), 0);
            lemma_match_lit_index(s, i, esc_char(c), 1);
            assert(s[i] == '\\' && s[i + 1] == '"');
            assert(seq![s[i + 1]] + t2 =~= t);
        } else if c == '\\' {
            lemma_match_lit_index(s, i, esc_char(c), 0);
            lemma_match_lit_index(s, i, esc_char(c), 1);
            assert(seq![s[i + 1]] + t2 =~= t);
        } else if (c as u32) < 0x20 {
            let v = c as u32;
            let hi: u8 = (v / 16) as u8;
            let lo: u8 = (v % 16) as u8;
            lemma_match_lit_index(s, i, esc_char(c), 0);
            lemma_match_lit_index(s, i, esc_char(c), 1);
            lemma_match_lit_index(s, i, esc_char(c), 2);
            lemma_match_lit_index(s, i, esc_char(c), 3);
            lemma_match_lit_index(s, i, esc_char(c), 4);
            lemma_match_lit_index(s, i, esc_char(c), 5);
            assert(s[i] == '\\' && s[i + 1] == 'u' && s[i + 2] == '0' && s[i + 3] == '0');
            assert(s[i + 4] == hex_digit_char(hi) && s[i + 5] == hex_digit_char(lo));
            lemma_hex_digit_char_val(hi);
            lemma_hex_digit_char_val(lo);
            lemma_fundamental_div_mod(v as int, 16);
            assert(hex_val(s[i + 4]) * 16 + hex_val(s[i + 5]) == v);
            vstd::utf8::char_is_scalar(c);
            vstd::utf8::char_u32_cast(c, v);
            assert(((v as u8) as char) == c) by {
                assert(v as u8 == v);
                assert((v as char) == c);
            }
            assert(seq![((hex_val(s[i + 4]) * 16 + hex_val(s[i + 5])) as u8) as char] + t2 =~= t);
        } else {
            lemma_match_lit_index(s, i, esc_char(c), 0);
            assert(s[i] == c);
            assert(seq![s[i]] + t2 =~= t);
        }
    }
}

proof fn lemma_parse_string_at(s: Seq<char>, i: int, t: Seq<char>)
    requires
        match_lit(s, i, j_string(t)),
    ensures
        parse_string(s, i) == Some((t, i + j_string(t).len())),
{
    assert(j_string(t) =~= seq!['"'] + (esc_str(t) + seq!['"']));
    lemma_match_lit_split(s, i, seq!['"'], esc_str(t) + seq!['"']);
    lemma_match_lit_index(s, i, seq!['"'], 0);
    lemma_parse_str_body_at(s, i + 1, t);
}

proof fn lemma_parse_opt_at(s: Seq<char>, i: int, o: Option<Seq<char>>)
    requires
        match_lit(s, i, j_opt_string(o)),
    ensures
        parse_opt_string(s, i) == Some((o, i + j_opt_string(o).len())),
{
    match o {
        None => {
            assert(j_opt_string(o).len() == 4);
        },
        Some(t) => {
            lemma_match_lit_index(s, i, j_opt_string(o), 0);
            assert(j_string(t)[0] == '"');
            assert(s[i] == '"');
            if match_lit(s, i, seq!['n', 'u', 'l', 'l']) {
                lemma_match_lit_index(s, i, seq!['n', 'u', 'l', 'l'], 0);
                assert(false);
            }
            lemma_parse_string_at(s, i, t);
        },
    }
}

proof fn lemma_not_digit_rbrace()
    ensures
        !is_digit('}'),
        !is_digit(','),
{
}

#[verifier::rlimit(100)]
proof fn lemma_parse_record_at(s: Seq<char>, i: int, r: RecordView)
    requires
        match_lit(s, i, j_record(r)),
    ensures
        parse_record(s, i) == Some((r, i + j_record(r).len())),
{
    let a1 = lit_obj_id();
    let b1 = j_string(r.id);
    let a2 = lit_name();
    let b2 = j_string(r.name);
    let a3 = lit_public();
    let b3 = j_string(r.public_key);
    let a4 = lit_private();
    let b4 = j_opt_string(r.private_key);
    let a5 = lit_comment();
    let b5 = j_opt_string(r.comment);
    let a6 = lit_created();
    let b6 = dec_digits(r.created_at as nat);
    let e1 = a1 + b1;
    let e2 = e1 + a2;
    let e3 = e2 + b2;
    let e4 = e3 + a3;
    let e5 = e4 + b3;
    let e6 = e5 + a4;
    let e7 = e6 + b4;
    let e8 = e7 + a5;
    let e9 = e8 + b5;
    let e10 = e9 + a6;
    let e11 = e10 + b6;
    assert(j_record(r) == e11 + seq!['}']);
    lemma_match_lit_split(s, i, e11, seq!['}']);
    lemma_match_lit_split(s, i, e10, b6);
    lemma_match_lit_split(s, i, e9, a6);
    lemma_match_lit_split(s, i, e8, b5);
    lemma_match_lit_split(s, i, e7, a5);
    lemma_match_lit_split(s, i, e6, b4);
    lemma_match_lit_split(s, i, e5, a4);
    lemma_match_lit_split(s, i, e4, b3);
    lemma_match_lit_split(s, i, e3, a3);
    lemma_match_lit_split(s, i, e2, b2);
    lemma_match_lit_split(s, i, e1, a2);
    lemma_match_lit_split(s, i, a1, b1);
    lemma_parse_string_at(s, i + a1.len(), r.id);
    let i1 = i + e1.len();
    lemma_parse_string_at(s, i1 + a2.len(), r.name);
    let i2 = i + e3.len();
    lemma_parse_string_at(s, i2 + a3.len(), r.public_key);
    let i3 = i + e5.len();
    lemma_parse_opt_at(s, i3 + a4.len(), r.private_key);
    let i4 = i + e7.len();
    lemma_parse_opt_at(s, i4 + a5.len(), r.comment);
    let i5 = i + e9.len();
    lemma_match_lit_index(s, i + e11.len(), seq!['}'], 0);
    lemma_not_digit_rbrace();
    lemma_parse_u64_at(s, i5 + a6.len(), r.created_at);
    let i6 = i + e11.len();
    assert(s[i6] == '}');
    match parse_record(s, i) {
        Some((pr, pe)) => {
            assert(pr =~= r);
            assert(pe == i + j_record(r).len());
        },
        None => {
            assert(false);
        },
    }
}

proof fn lemma_j_records_len(rs: Seq<RecordView>)
    ensures
        j_records(rs).len() >= rs.len(),
    decreases rs.len(),
{
    if rs.len() == 0 {
    } else if rs.len() == 1 {
        assert(j_record(rs[0]).len() >= 1);
    } else {
        lemma_j_records_len(rs.drop_first());
        assert(j_record(rs[0]).len() >= 1);
    }
}

proof fn lemma_parse_records_at(s: Seq<char>, i: int, rs: Seq<RecordView>, fuel: nat)
    requires
        rs.len() >= 1,
        match_lit(s, i, j_records(rs)),
        fuel >= rs.len(),
        i + j_records(rs).len() == s.len() || s[i + j_records(rs).len()] != ',',
    ensures
        parse_records(s, i, fuel) == Some((rs, i + j_records(rs).len())),
    decreases rs.len(),
{
    if rs.len() == 1 {
        assert(j_records(rs) == j_record(rs[0]));
        lemma_parse_record_at(s, i, rs[0]);
        assert(seq![rs[0]] =~= rs);
    } else {
        let rest = rs.drop_first();
        assert(j_records(rs) == j_record(rs[0]) + seq![','] + j_records(rest));
        let hd = j_record(rs[0]);
        assert(j_records(rs) =~= (hd + seq![',']) + j_records(rest));
        lemma_match_lit_split(s, i, hd + seq![','], j_records(rest));
        lemma_match_lit_split(s, i, hd, seq![',']);
        lemma_parse_record_at(s, i, rs[0]);
        let j = i + hd.len();
        lemma_match_lit_index(s, j, seq![','], 0);
        assert(s[j] == ',');
        lemma_parse_records_at(s, j + 1, rest, (fuel - 1) as nat);
        assert(seq![rs[0]] + rest =~= rs);
        assert(i + j_records(rs).len() == j + 1 + j_records(rest).len());
    }
}

proof fn lemma_j_records_first_char(rs: Seq<RecordView>)
    requires
        rs.len() >= 1,
    ensures
        j_records(rs).len() >= 1,
        j_records(rs)[0] == '{',
{
    reveal_strlit("{\"id\":");
    assert(j_records(rs)[0] == j_record(rs[0])[0]) by {
        if rs.len() == 1 {
        } else {
            assert(j_records(rs)[0] == (j_record(rs[0]) + seq![','] + j_records(
                rs.drop_first(),
            ))[0]);
            assert(j_record(rs[0]).len() >= 1);
        }
    }
    assert(j_record(rs[0])[0] == lit_obj_id()[0]) by {
        assert(lit_obj_id().len() >= 1);
    }
    assert(lit_obj_id()[0] == '{');
}

#[verifier::rlimit(100)]
proof fn lemma_payload_layout(rs: Seq<RecordView>, version: u32)
    ensures
        ({
            let s = j_payload(rs, version);
            let i0 = lit_head().len() as int;
            let jm = i0 + j_records(rs).len();
            let jd = jm + lit_tail().len();
            &&& match_lit(s, 0, lit_head())
            &&& match_lit(s, i0, j_records(rs))
            &&& match_lit(s, jm, lit_tail())
            &&& match_lit(s, jd, dec_digits(version as nat))
            &&& jd + dec_digits(version as nat).len() + 1 == s.len()
            &&& match_lit(s, s.len() - 1, seq!['}'])
        }),
{
    let s = j_payload(rs, version);
    let h = lit_head();
    let m = j_records(rs);
    let t = lit_tail();
    let d = dec_digits(version as nat);
    let e1 = h + m;
    let e2 = e1 + t;
    let e3 = e2 + d;
    assert(s == e3 + seq!['}']);
    assert(match_lit(s, 0, s)) by {
        assert(s.subrange(0, s.len() as int) =~= s);
    }
    lemma_match_lit_split(s, 0, e3, seq!['}']);
    lemma_match_lit_split(s, 0, e2, d);
    lemma_match_lit_split(s, 0, e1, t);
    lemma_match_lit_split(s, 0, h, m);
}

#[verifier::rlimit(100)]
proof fn lemma_payload_pieces(rs: Seq<RecordView>, version: u32)
    ensures
        ({
            let s = j_payload(rs, version);
            let i0 = lit_head().len() as int;
            let jm = i0 + j_records(rs).len();
            &&& match_lit(s, 0, lit_head())
            &&& (rs.len() == 0 ==> jm == i0 && i0 < s.len() && s[i0] == ']')
            &&& (rs.len() > 0 ==> s[i0] != ']' && parse_records(s, i0, s.len() as nat) == Some(
                (rs, jm),
            ))
            &&& match_lit(s, jm, lit_tail())
            &&& parse_u64(s, jm + lit_tail().len()) == Some((version as u64, s.len() - 1))
            &&& s.len() >= 1
            &&& s[s.len() - 1] == '}'
        }),
{
    lemma_payload_layout(rs, version);
    let s = j_payload(rs, version);
    let m = j_records(rs);
    let i0 = lit_head().len() as int;
    let jm = i0 + m.len();
    let jd = jm + lit_tail().len();
    reveal_strlit("],\"version\":");
    lemma_match_lit_index(s, jm, lit_tail(), 0);
    assert(s[jm] == ']');
    lemma_not_digit_rbrace();
    lemma_match_lit_index(s, s.len() - 1, seq!['}'], 0);
    assert(s[s.len() - 1] == '}');
    lemma_parse_u64_at(s, jd, version as u64);
    if rs.len() == 0 {
        assert(m.len() == 0);
        assert(s[i0] == ']');
        assert(i0 < s.len());
    } else {
        lemma_j_records_first_char(rs);
        lemma_match_lit_index(s, i0, m, 0);
        assert(s[i0] == '{');
        assert(s[i0] != ']');
        lemma_j_records_len(rs);
        assert(s.len() >= rs.len());
        lemma_parse_records_at(s, i0, rs, s.len() as nat);
    }
}

/// The payload parser returns exactly the records and version that the
/// printer was given: decoding a printed document cannot change, drop
/// or reorder a record, nor turn an absent field into a present one.
pub proof fn lemma_parse_payload_inverts(rs: Seq<RecordView>, version: u32)
    ensures
        parse_payload(j_payload(rs, version)) == Some((rs, version)),
{
    lemma_payload_pieces(rs, version);
    let s = j_payload(rs, version);
    assert(parse_payload(s) == Some((rs, version)));
}

// ---------------------------------------------------------------------
// Verified decoder: each function returns exactly what its spec
// counterpart denotes.
// ---------------------------------------------------------------------
fn eat_lit(s: &str, i: usize, lit: &str) -> (r: Option<usize>)
    ensures
        match r {
            Some(j) => match_lit(s@, i as int, lit@) && j == i + lit@.len(),
            None => !match_lit(s@, i as int, lit@),
        },
{
    let sl = s.unicode_len();
    let ll = lit.unicode_len();
    if i > sl || ll > sl - i {
        return None;
    }
    let mut k: usize = 0;
    while k < ll
        invariant
            0 <= k <= ll,
            i + ll <= sl,
            sl == s@.len(),
            ll == lit@.len(),
            forall|m: int| 0 <= m < k ==> s@[i + m] == lit@[m],
        decreases ll - k,
    {
        if s.get_char(i + k) != lit.get_char(k) {
            proof {
                if match_lit(s@, i as int, lit@) {
                    lemma_match_lit_index(s@, i as int, lit@, k as int);
                }
            }
            return None;
        }
        k = k + 1;
    }
    proof {
        assert(s@.subrange(i as int, i + ll) =~= lit@);
    }
    Some(i + ll)
}

proof fn lemma_digits_val_bounds(s: Seq<char>, i: int, j: int)
    requires
        i <= j,
        forall|k: int| i <= k < j ==> is_digit(#[trigger] s[k]),
    ensures
        digits_val(s, i, j) >= 0,
    decreases j - i,
{
    if i < j {
        lemma_digits_val_bounds(s, i, j - 1);
    }
}

proof fn lemma_digits_val_grows(s: Seq<char>, i: int, j: int)
    requires
        i <= j,
        forall|k: int| i <= k <= j ==> is_digit(#[trigger] s[k]),
        digits_val(s, i, j) > u64::MAX,
    ensures
        digits_val(s, i, j + 1) > u64::MAX,
{
    lemma_digits_val_bounds(s, i, j);
    let v = digits_val(s, i, j);
    assert(v * 10 >= v) by (nonlinear_arith)
        requires
            v >= 0,
    ;
    assert(digit_val(s[j]) >= 0);
}

fn parse_u64_exec(s: &str, i: usize) -> (r: Option<(u64, usize)>)
    requires
        i <= s@.len(),
    ensures
        match r {
            Some((v, j)) => parse_u64(s@, i as int) == Some((v, j as int)),
            None => parse_u64(s@, i as int) is None,
        },
{
    let sl = s.unicode_len();
    let mut e: usize = i;
    while e < sl && digit_at(s, e)
        invariant
            i <= e <= sl,
            sl == s@.len(),
            forall|k: int| i <= k < e ==> is_digit(#[trigger] s@[k]),
        decreases sl - e,
    {
        e = e + 1;
    }
    proof {
        lemma_digits_end_at(s@, i as int, e as int);
    }
    if e == i {
        return None;
    }
    let mut acc: u64 = 0;
    let mut big = false;
    let mut k: usize = i;
    while k < e
        invariant
            i <= k <= e <= sl,
            sl == s@.len(),
            forall|m: int| i <= m < e ==> is_digit(#[trigger] s@[m]),
            !big ==> digits_val(s@, i as int, k as int) == acc,
            big ==> digits_val(s@, i as int, k as int) > u64::MAX,
        decreases e - k,
    {
        let c = s.get_char(k);
        let d: u64 = ((c as u32) - 48) as u64;
        proof {
            assert(is_digit(s@[k as int]));
            assert(d == digit_val(s@[k as int]));
        }
        if !big {
            match acc.checked_mul(10) {
                Some(m) => match m.checked_add(d) {
                    Some(n) => {
                        acc = n;
                    },
                    None => {
                        big = true;
                    },
                },
                None => {
                    proof {
                        lemma_digits_val_bounds(s@, i as int, k as int);
                        assert(digit_val(s@[k as int]) >= 0);
                    }
                    big = true;
                },
            }
        } else {
            proof {
                lemma_digits_val_grows(s@, i as int, k as int);
            }
        }
        k = k + 1;
    }
    if big {
        None
    } else {
        Some((acc, e))
    }
}

fn digit_at(s: &str, e: usize) -> (r: bool)
    requires
        e < s@.len(),
    ensures
        r == is_digit(s@[e as int]),
{
    let c = s.get_char(e);
    '0' <= c && c <= '9'
}

fn hex_nibble(c: char) -> (r: Option<u8>)
    ensures
        match r {
            Some(v) => is_hex_digit(c) && hex_val(c) == v && v < 16,
            None => !is_hex_digit(c),
        },
{
    if '0' <= c && c <= '9' {
        Some(((c as u32) - 48) as u8)
    } else if 'a' <= c && c <= 'f' {
        Some(((c as u32) - 87) as u8)
    } else {
        None
    }
}

fn parse_str_body_exec(s: &str, i: usize) -> (r: Option<(String, usize)>)
    requires
        i <= s@.len(),
    ensures
        match r {
            Some((t, j)) => parse_str_body(s@, i as int) == Some((t@, j as int)),
            None => parse_str_body(s@, i as int) is None,
        },
{
    let sl = s.unicode_len();
    let mut acc = String::new();
    let mut k: usize = i;
    while k < sl
        invariant
            i <= k <= sl,
            sl == s@.len(),
            forall|t: Seq<char>, j: int|
                parse_str_body(s@, k as int) == Some::<(Seq<char>, int)>((t, j))
                    ==> parse_str_body(s@, i as int) == Some::<(Seq<char>, int)>((acc@ + t, j)),
            (parse_str_body(s@, k as int) is None) ==> (parse_str_body(s@, i as int) is None),
        decreases sl - k,
    {
        let c = s.get_char(k);
        if c == '"' {
            proof {
                assert(parse_str_body(s@, k as int) == Some::<(Seq<char>, int)>(
                    (Seq::empty(), k + 1),
                ));
                assert(acc@ + Seq::<char>::empty() =~= acc@);
            }
            return Some((acc, k + 1));
        } else if c == '\\' {
            if sl - k < 2 {
                return None;
            }
            let c2 = s.get_char(k + 1);
            if c2 == '"' || c2 == '\\' {
                let ghost accp = acc@;
                push_char(&mut acc, c2);
                proof {
                    assert forall|t: Seq<char>, j: int|
                        parse_str_body(s@, k + 2) == Some::<(Seq<char>, int)>(
                            (t, j),
                        ) implies parse_str_body(s@, i as int) == Some::<(Seq<char>, int)>(
                        (acc@ + t, j),
                    ) by {
                        assert(parse_str_body(s@, k as int) == Some::<(Seq<char>, int)>(
                            (seq![s@[k + 1]] + t, j),
                        ));
                        assert(accp + (seq![s@[k + 1]] + t) =~= acc@ + t);
                    }
                }
                k = k + 2;
            } else if c2 == 'n' || c2 == 't' || c2 == 'b' || c2 == 'f' || c2 == 'r' {
                let dec: char = if c2 == 'n' {
                    '\n'
                } else if c2 == 't' {
                    '\t'
                } else if c2 == 'b' {
                    '\u{0008}'
                } else if c2 == 'f' {
                    '\u{000C}'
                } else {
                    '\r'
                };
                let ghost accp = acc@;
                push_char(&mut acc, dec);
                proof {
                    assert(short_escape(s@[k + 1]) == Some(dec));
                    assert forall|t: Seq<char>, j: int|
                        parse_str_body(s@, k + 2) == Some::<(Seq<char>, int)>(
                            (t, j),
                        ) implies parse_str_body(s@, i as int) == Some::<(Seq<char>, int)>(
                        (acc@ + t, j),
                    ) by {
                        assert(parse_str_body(s@, k as int) == Some::<(Seq<char>, int)>(
                            (seq![dec] + t, j),
                        ));
                        assert(accp + (seq![dec] + t) =~= acc@ + t);
                    }
                }
                k = k + 2;
            } else if c2 == 'u' {
                if sl - k < 6 {
                    return None;
                }
                if s.get_char(k + 2) != '0' || s.get_char(k + 3) != '0' {
                    return None;
                }
                let h1 = match hex_nibble(s.get_char(k + 4)) {
                    Some(v) => v,
                    None => {
                        return None;
                    },
                };
                let h2 = match hex_nibble(s.get_char(k + 5)) {
                    Some(v) => v,
                    None => {
                        return None;
                    },
                };
                let v: u16 = (h1 as u16) * 16 + (h2 as u16);
                if v >= 0x20 {
                    return None;
                }
                let dec: char = (v as u8) as char;
                let ghost accp = acc@;
                push_char(&mut acc, dec);
                proof {
                    assert(hex_val(s@[k + 4]) * 16 + hex_val(s@[k + 5]) == v);
                    assert forall|t: Seq<char>, j: int|
                        parse_str_body(s@, k + 6) == Some::<(Seq<char>, int)>(
                            (t, j),
                        ) implies parse_str_body(s@, i as int) == Some::<(Seq<char>, int)>(
                        (acc@ + t, j),
                    ) by {
                        assert(parse_str_body(s@, k as int) == Some::<(Seq<char>, int)>(
                            (seq![dec] + t, j),
                        ));
                        assert(accp + (seq![dec] + t) =~= acc@ + t);
                    }
                }
                k = k + 6;
            } else {
                return None;
            }
        } else {
            let ghost accp = acc@;
            push_char(&mut acc, c);
            proof {
                assert forall|t: Seq<char>, j: int|
                    parse_str_body(s@, k + 1) == Some::<(Seq<char>, int)>(
                        (t, j),
                    ) implies parse_str_body(s@, i as int) == Some::<(Seq<char>, int)>(
                    (acc@ + t, j),
                ) by {
                    assert(parse_str_body(s@, k as int) == Some::<(Seq<char>, int)>(
                        (seq![s@[k as int]] + t, j),
                    ));
                    assert(accp + (seq![s@[k as int]] + t) =~= acc@ + t);
                }
            }
            k = k + 1;
        }
    }
    None
}

fn parse_string_exec(s: &str, i: usize) -> (r: Option<(String, usize)>)
    requires
        i <= s@.len(),
    ensures
        match r {
            Some((t, j)) => parse_string(s@, i as int) == Some((t@, j as int)),
            None => parse_string(s@, i as int) is None,
        },
{
    let sl = s.unicode_len();
    if i >= sl || s.get_char(i) != '"' {
        return None;
    }
    parse_str_body_exec(s, i + 1)
}

fn parse_opt_string_exec(s: &str, i: usize) -> (r: Option<(Option<String>, usize)>)
    requires
        i <= s@.len(),
    ensures
        match r {
            Some((t, j)) => parse_opt_string(s@, i as int) == Some((opt_view(t), j as int)),
            None => parse_opt_string(s@, i as int) is None,
        },
{
    proof {
        reveal_strlit("null");
        assert("null"@ =~= seq!['n', 'u', 'l', 'l']);
    }
    match eat_lit(s, i, "null") {
        Some(j) => Some((None, j)),
        None => {
            match parse_string_exec(s, i) {
                Some((t, j)) => Some((Some(t), j)),
                None => None,
            }
        },
    }
}

#[verifier::rlimit(100)]
fn parse_record_exec(s: &str, i: usize) -> (r: Option<(StoredKey, usize)>)
    requires
        i <= s@.len(),
    ensures
        match r {
            Some((k, j)) => parse_record(s@, i as int) == Some((k@, j as int)) && j <= s@.len(),
            None => parse_record(s@, i as int) is None,
        },
{
    let i0 = match eat_lit(s, i, "{\"id\":") {
        Some(j) => j,
        None => {
            return None;
        },
    };
    let (id, i1) = match parse_string_exec(s, i0) {
        Some(x) => x,
        None => {
            return None;
        },
    };
    proof {
        lemma_parse_str_end(s@, i0 as int);
    }
    let i1b = match eat_lit(s, i1, ",\"name\":") {
        Some(j) => j,
        None => {
            return None;
        },
    };
    let (name, i2) = match parse_string_exec(s, i1b) {
        Some(x) => x,
        None => {
            return None;
        },
    };
    proof {
        lemma_parse_str_end(s@, i1b as int);
    }
    let i2b = match eat_lit(s, i2, ",\"publicKey\":") {
        Some(j) => j,
        None => {
            return None;
        },
    };
    let (pk, i3) = match parse_string_exec(s, i2b) {
        Some(x) => x,
        None => {
            return None;
        },
    };
    proof {
        lemma_parse_str_end(s@, i2b as int);
    }
    let i3b = match eat_lit(s, i3, ",\"privateKey\":") {
        Some(j) => j,
        None => {
            return None;
        },
    };
    let (sk, i4) = match parse_opt_string_exec(s, i3b) {
        Some(x) => x,
        None => {
            return None;
        },
    };
    proof {
        lemma_parse_opt_end(s@, i3b as int);
    }
    let i4b = match eat_lit(s, i4, ",\"comment\":") {
        Some(j) => j,
        None => {
            return None;
        },
    };
    let (cm, i5) = match parse_opt_string_exec(s, i4b) {
        Some(x) => x,
        None => {
            return None;
        },
    };
    proof {
        lemma_parse_opt_end(s@, i4b as int);
    }
    let i5b = match eat_lit(s, i5, ",\"createdAt\":") {
        Some(j) => j,
        None => {
            return None;
        },
    };
    let (ts, i6) = match parse_u64_exec(s, i5b) {
        Some(x) => x,
        None => {
            return None;
        },
    };
    proof {
        lemma_parse_u64_end(s@, i5b as int);
    }
    let sl = s.unicode_len();
    if i6 < sl && s.get_char(i6) == '}' {
        let rec = StoredKey {
            id,
            name,
            public_key: pk,
            private_key: sk,
            comment: cm,
            created_at: ts,
        };
        proof {
            let spec_r = parse_record(s@, i as int);
            assert(spec_r is Some);
            assert((spec_r->0).0 =~= rec@);
        }
        Some((rec, i6 + 1))
    } else {
        None
    }
}

proof fn lemma_parse_str_end(s: Seq<char>, i: int)
    ensures
        parse_string(s, i) matches Some((t, j)) ==> i < j <= s.len(),
{
    if parse_string(s, i) is Some {
        lemma_parse_str_body_end(s, i + 1);
    }
}

proof fn lemma_parse_str_body_end(s: Seq<char>, i: int)
    requires
        0 <= i,
    ensures
        parse_str_body(s, i) matches Some((t, j)) ==> i < j <= s.len(),
    decreases s.len() - i,
{
    if i < s.len() && s[i] != '"' {
        if s[i] == '\\' {
            if i + 2 <= s.len() && (s[i + 1] == '"' || s[i + 1] == '\\' || short_escape(
                s[i + 1],
            ) is Some) {
                lemma_parse_str_body_end(s, i + 2);
            } else if i + 6 <= s.len() && s[i + 1] == 'u' {
                lemma_parse_str_body_end(s, i + 6);
            }
        } else {
            lemma_parse_str_body_end(s, i + 1);
        }
    }
}

proof fn lemma_parse_opt_end(s: Seq<char>, i: int)
    ensures
        parse_opt_string(s, i) matches Some((t, j)) ==> i < j <= s.len(),
{
    lemma_parse_str_end(s, i);
}

proof fn lemma_parse_u64_end(s: Seq<char>, i: int)
    requires
        0 <= i <= s.len(),
    ensures
        parse_u64(s, i) matches Some((v, j)) ==> i < j <= s.len(),
{
    lemma_digits_end_bounds(s, i);
}

proof fn lemma_digits_end_bounds(s: Seq<char>, i: int)
    requires
        0 <= i <= s.len(),
    ensures
        i <= digits_end(s, i) <= s.len(),
    decreases s.len() - i,
{
    if i < s.len() && is_digit(s[i]) {
        lemma_digits_end_bounds(s, i + 1);
    }
}

proof fn lemma_views_push(ks: Seq<StoredKey>, k: StoredKey)
    ensures
        views_of(ks.push(k)) == views_of(ks) + seq![k@],
{
    assert(views_of(ks.push(k)) =~= views_of(ks) + seq![k@]);
}

fn parse_records_exec(s: &str, i: usize) -> (r: Option<(Vec<StoredKey>, usize)>)
    requires
        i <= s@.len(),
    ensures
        match r {
            Some((ks, j)) => parse_records(s@, i as int, s@.len() as nat) == Some(
                (views_of(ks@), j as int),
            ),
            None => parse_records(s@, i as int, s@.len() as nat) is None,
        },
{
    let sl = s.unicode_len();
    let mut acc: Vec<StoredKey> = Vec::new();
    let mut k: usize = i;
    let mut fuel: usize = sl;
    proof {
        assert(views_of(acc@) =~= Seq::<RecordView>::empty());
    }
    loop
        invariant
            k <= sl,
            fuel <= sl,
            sl == s@.len(),
            forall|rs: Seq<RecordView>, j: int|
                parse_records(s@, k as int, fuel as nat) == Some::<(Seq<RecordView>, int)>((rs, j))
                    ==> parse_records(s@, i as int, sl as nat) == Some::<(Seq<RecordView>, int)>(
                    (views_of(acc@) + rs, j),
                ),
            (parse_records(s@, k as int, fuel as nat) is None) ==> (parse_records(
                s@,
                i as int,
                sl as nat,
            ) is None),
        decreases fuel,
    {
        if fuel == 0 {
            return None;
        }
        let (rec, j) = match parse_record_exec(s, k) {
            Some(x) => x,
            None => {
                return None;
            },
        };
        if j < sl && s.get_char(j) == ',' {
            let ghost accp = acc@;
            acc.push(rec);
            proof {
                lemma_views_push(accp, rec);
                assert forall|rs: Seq<RecordView>, j2: int|
                    parse_records(s@, j + 1, (fuel - 1) as nat) == Some::<(Seq<RecordView>, int)>(
                        (rs, j2),
                    ) implies parse_records(s@, i as int, sl as nat) == Some::<
                    (Seq<RecordView>, int),
                >((views_of(acc@) + rs, j2)) by {
                    assert(parse_records(s@, k as int, fuel as nat) == Some::<
                        (Seq<RecordView>, int),
                    >((seq![rec@] + rs, j2)));
                    assert(views_of(accp) + (seq![rec@] + rs) =~= views_of(acc@) + rs);
                }
            }
            k = j + 1;
            fuel = fuel - 1;
        } else {
            proof {
                assert(parse_records(s@, k as int, fuel as nat) == Some::<(Seq<RecordView>, int)>(
                    (seq![rec@], j as int),
                ));
                lemma_views_push(acc@, rec);
            }
            let mut out = acc;
            out.push(rec);
            return Some((out, j));
        }
    }
}

/// Parses a whole payload document: the records and the version tag it
/// carries, or nothing if `s` is not a printed payload.
pub fn parse_payload_exec(s: &str) -> (r: Option<(Vec<StoredKey>, u32)>)
    ensures
        match r {
            Some((ks, v)) => parse_payload(s@) == Some((views_of(ks@), v)),
            None => parse_payload(s@) is None,
        },
{
    let i0 = match eat_lit(s, 0, "{\"keys\":[") {
        Some(j) => j,
        None => {
            return None;
        },
    };
    let sl = s.unicode_len();
    let (ks, j) = if i0 < sl && s.get_char(i0) == ']' {
        (Vec::new(), i0)
    } else {
        match parse_records_exec(s, i0) {
            Some(x) => x,
            None => {
                return None;
            },
        }
    };
    proof {
        lemma_parse_records_end(s@, i0 as int, sl as nat);
        assert(views_of(Seq::<StoredKey>::empty()) =~= Seq::<RecordView>::empty());
    }
    let j1 = match eat_lit(s, j, "],\"version\":") {
        Some(x) => x,
        None => {
            return None;
        },
    };
    let (v, j2) = match parse_u64_exec(s, j1) {
        Some(x) => x,
        None => {
            return None;
        },
    };
    if v <= 0xFFFF_FFFF && j2 < sl && j2 + 1 == sl && s.get_char(j2) == '}' {
        Some((ks, v as u32))
    } else {
        None
    }
}

proof fn lemma_parse_records_end(s: Seq<char>, i: int, fuel: nat)
    ensures
        parse_records(s, i, fuel) matches Some((rs, j)) ==> j <= s.len(),
    decreases fuel,
{
    if fuel > 0 {
        match parse_record(s, i) {
            Some((r, j)) => {
                if j < s.len() && s[j] == ',' {
                    lemma_parse_records_end(s, j + 1, (fuel - 1) as nat);
                }
            },
            None => {},
        }
    }
}

} // verus!
