//! Parsing the output of the external key generation tool, and the
//! identity format gate applied before a decryption is attempted.

use vstd::prelude::*;

use vstd::string::StrSliceExecFns;

use crate::chars::has_prefix;
use crate::chars::trim_spec;
use crate::chars::trim_str;

verus! {

/// One generated key pair as reported by the external tool.
#[derive(Clone, Debug, PartialEq)]
pub struct AgeKeyPair {
    pub public_key: String,
    pub private_key: String,
    pub comment: Option<String>,
}

/// Why the tool's output could not be read as a key pair.
#[derive(Clone, Copy, Debug, PartialEq, Eq, Structural)]
pub enum KeygenParseError {
    MissingPublicKey,
    MissingPrivateKey,
}

// ---------------------------------------------------------------------
// Lines, as `str::lines` splits them.
// ---------------------------------------------------------------------
/// Position of the first line feed, or past the end if there is none.
pub open spec fn first_nl(s: Seq<char>) -> nat
    decreases s.len(),
{
    if s.len() == 0 {
        0
    } else if s[0] == '\n' {
        0
    } else {
        1 + first_nl(s.drop_first())
    }
}

/// One carriage return stripped from the end of a line segment.
pub open spec fn strip_cr(l: Seq<char>) -> Seq<char> {
    if l.len() > 0 && l[l.len() - 1] == '\r' {
        l.drop_last()
    } else {
        l
    }
}

/// The lines of `s`: split at each line feed, one carriage return
/// dropped before it; a trailing line feed closes the last line rather
/// than opening an empty one.
pub open spec fn split_lines(s: Seq<char>) -> Seq<Seq<char>>
    decreases s.len(),
{
    if s.len() == 0 {
        Seq::empty()
    } else {
        let i = first_nl(s);
        if i >= s.len() {
            seq![s]
        } else {
            seq![strip_cr(s.subrange(0, i as int))] + split_lines(
                s.subrange((i + 1) as int, s.len() as int),
            )
        }
    }
}

proof fn lemma_first_nl_at(s: Seq<char>, i: int)
    requires
        0 <= i <= s.len(),
        forall|k: int| 0 <= k < i ==> s[k] != '\n',
        i < s.len() ==> s[i] == '\n',
    ensures
        first_nl(s) == i,
    decreases i,
{
    if i == 0 {
    } else {
        let t = s.drop_first();
        assert(forall|k: int| 0 <= k < i - 1 ==> #[trigger] t[k] != '\n');
        lemma_first_nl_at(t, i - 1);
    }
}

// ---------------------------------------------------------------------
// Searching lines.
// ---------------------------------------------------------------------
/// The first line that starts with `p`.
pub open spec fn first_with_prefix(ls: Seq<Seq<char>>, p: Seq<char>) -> Option<Seq<char>>
    decreases ls.len(),
{
    if ls.len() == 0 {
        None
    } else if p.is_prefix_of(ls[0]) {
        Some(ls[0])
    } else {
        first_with_prefix(ls.drop_first(), p)
    }
}

/// Whether `p` stands somewhere in `l`.
pub open spec fn contains_seq(l: Seq<char>, p: Seq<char>) -> bool {
    exists|i: int| 0 <= i && i + p.len() <= l.len() && #[trigger] l.subrange(i, i + p.len()) == p
}

/// The first line that contains `p`.
pub open spec fn first_containing(ls: Seq<Seq<char>>, p: Seq<char>) -> Option<Seq<char>>
    decreases ls.len(),
{
    if ls.len() == 0 {
        None
    } else if contains_seq(ls[0], p) {
        Some(ls[0])
    } else {
        first_containing(ls.drop_first(), p)
    }
}

/// Leading number signs removed, as `trim_start_matches('#')` does.
pub open spec fn strip_hashes(l: Seq<char>) -> Seq<char>
    decreases l.len(),
{
    if l.len() > 0 && l[0] == '#' {
        strip_hashes(l.drop_first())
    } else {
        l
    }
}

/// The public key the tool's output announces, if any.
pub open spec fn keygen_public(out: Seq<char>) -> Option<Seq<char>> {
    match first_with_prefix(split_lines(out), "# public key: "@) {
        Some(l) => Some(l.subrange("# public key: "@.len() as int, l.len() as int)),
        None => None,
    }
}

/// The private key line of the tool's output, if any.
pub open spec fn keygen_private(out: Seq<char>) -> Option<Seq<char>> {
    first_with_prefix(split_lines(out), "AGE-SECRET-KEY-"@)
}

/// The creation comment of the tool's output, if any: the first line
/// mentioning the creation stamp, with its number signs and white
/// space removed.
pub open spec fn keygen_comment(out: Seq<char>) -> Option<Seq<char>> {
    match first_containing(split_lines(out), "# created:"@) {
        Some(l) => Some(trim_spec(strip_hashes(l))),
        None => None,
    }
}

// ---------------------------------------------------------------------
// Executable parsing.
// ---------------------------------------------------------------------
/// The views of a vector of lines.
pub open spec fn line_views(v: Seq<String>) -> Seq<Seq<char>> {
    v.map(|i: int, l: String| l@)
}

proof fn lemma_line_views_push(v: Seq<String>, l: String)
    ensures
        line_views(v.push(l)) == line_views(v) + seq![l@],
{
    assert(line_views(v.push(l)) =~= line_views(v) + seq![l@]);
}

fn split_lines_exec(s: &str) -> (r: Vec<String>)
    ensures
        line_views(r@) == split_lines(s@),
{
    let sl = s.unicode_len();
    let mut out: Vec<String> = Vec::new();
    let mut p: usize = 0;
    proof {
        assert(line_views(out@) =~= Seq::<Seq<char>>::empty());
        assert(line_views(out@) + split_lines(s@.subrange(0, sl as int)) =~= split_lines(
            s@.subrange(0, sl as int),
        ));
        assert(s@.subrange(0, sl as int) =~= s@);
    }
    while p < sl
        invariant
            0 <= p <= sl,
            sl == s@.len(),
            split_lines(s@) == line_views(out@) + split_lines(s@.subrange(p as int, sl as int)),
        decreases sl - p,
    {
        let mut j: usize = p;
        while j < sl && not_nl(s, j)
            invariant
                p <= j <= sl,
                sl == s@.len(),
                forall|k: int| p <= k < j ==> s@[k] != '\n',
            decreases sl - j,
        {
            j = j + 1;
        }
        let ghost suf = s@.subrange(p as int, sl as int);
        proof {
            assert(forall|k: int| 0 <= k < j - p ==> #[trigger] suf[k] != '\n');
            if j < sl {
                assert(suf[j - p] == '\n');
            }
            lemma_first_nl_at(suf, j - p);
        }
        if j >= sl {
            let line = s.substring_char(p, sl).to_owned();
            let ghost outp = out@;
            out.push(line);
            proof {
                lemma_line_views_push(outp, line);
                assert(split_lines(suf) =~= seq![suf]);
                assert(suf =~= line@);
                assert(line_views(out@) =~= line_views(outp) + seq![line@]);
                assert(split_lines(s@) =~= line_views(out@) + split_lines(
                    s@.subrange(sl as int, sl as int),
                ));
            }
            p = sl;
        } else {
            let end: usize = if j > p && is_cr(s, j - 1) {
                j - 1
            } else {
                j
            };
            let line = s.substring_char(p, end).to_owned();
            let ghost outp = out@;
            out.push(line);
            proof {
                lemma_line_views_push(outp, line);
                let seg = suf.subrange(0, (j - p) as int);
                assert(seg =~= s@.subrange(p as int, j as int));
                assert(strip_cr(seg) =~= line@) by {
                    if j > p && s@[j - 1] == '\r' {
                        assert(seg.drop_last() =~= s@.subrange(p as int, (j - 1) as int));
                    }
                }
                assert(suf.subrange((j - p) + 1, suf.len() as int) =~= s@.subrange(
                    (j + 1) as int,
                    sl as int,
                ));
                assert(split_lines(suf) =~= seq![line@] + split_lines(
                    s@.subrange((j + 1) as int, sl as int),
                ));
                assert(line_views(out@) + split_lines(s@.subrange((j + 1) as int, sl as int))
                    =~= line_views(outp) + split_lines(suf));
            }
            p = j + 1;
        }
    }
    proof {
        assert(s@.subrange(sl as int, sl as int) =~= Seq::<char>::empty());
        assert(split_lines(s@) =~= line_views(out@));
    }
    out
}

fn not_nl(s: &str, j: usize) -> (r: bool)
    requires
        j < s@.len(),
    ensures
        r == (s@[j as int] != '\n'),
{
    s.get_char(j) != '\n'
}

fn is_cr(s: &str, j: usize) -> (r: bool)
    requires
        j < s@.len(),
    ensures
        r == (s@[j as int] == '\r'),
{
    s.get_char(j) == '\r'
}

fn find_prefix_line(lines: &Vec<String>, p: &str) -> (r: Option<usize>)
    ensures
        match r {
            Some(i) => i < lines@.len() && p@.is_prefix_of(lines@[i as int]@) && first_with_prefix(
                line_views(lines@),
                p@,
            ) == Some(lines@[i as int]@),
            None => first_with_prefix(line_views(lines@), p@) is None,
        },
{
    let n = lines.len();
    let mut i: usize = 0;
    proof {
        assert(line_views(lines@).skip(0) =~= line_views(lines@));
    }
    while i < n
        invariant
            0 <= i <= n,
            n == lines@.len(),
            first_with_prefix(line_views(lines@), p@) == first_with_prefix(
                line_views(lines@).skip(i as int),
                p@,
            ),
        decreases n - i,
    {
        if has_prefix(lines[i].as_str(), p) {
            proof {
                let rest = line_views(lines@).skip(i as int);
                assert(rest[0] == lines@[i as int]@);
            }
            return Some(i);
        }
        proof {
            let rest = line_views(lines@).skip(i as int);
            assert(rest[0] == lines@[i as int]@);
            assert(rest.drop_first() =~= line_views(lines@).skip(i + 1));
        }
        i = i + 1;
    }
    proof {
        assert(line_views(lines@).skip(n as int) =~= Seq::<Seq<char>>::empty());
    }
    None
}

fn match_at(l: &str, i: usize, p: &str) -> (r: bool)
    requires
        i + p@.len() <= l@.len(),
    ensures
        r == (l@.subrange(i as int, i + p@.len()) == p@),
{
    let ll = l.unicode_len();
    let pl = p.unicode_len();
    let mut k: usize = 0;
    while k < pl
        invariant
            0 <= k <= pl,
            pl == p@.len(),
            ll == l@.len(),
            i + pl <= l@.len(),
            forall|m: int| 0 <= m < k ==> l@[i + m] == p@[m],
        decreases pl - k,
    {
        if l.get_char(i + k) != p.get_char(k) {
            proof {
                assert(l@.subrange(i as int, i + p@.len())[k as int] != p@[k as int]);
            }
            return false;
        }
        k = k + 1;
    }
    proof {
        assert(l@.subrange(i as int, i + p@.len()) =~= p@);
    }
    true
}

fn contains_str(l: &str, p: &str) -> (r: bool)
    ensures
        r == contains_seq(l@, p@),
{
    let ll = l.unicode_len();
    let pl = p.unicode_len();
    if pl > ll {
        proof {
            assert(!contains_seq(l@, p@));
        }
        return false;
    }
    if pl == 0 {
        proof {
            assert(l@.subrange(0, 0 + p@.len() as int) =~= p@);
            assert(0 + p@.len() <= l@.len());
        }
        return true;
    }
    let mut i: usize = 0;
    while i <= ll - pl
        invariant
            0 <= i <= ll - pl + 1,
            1 <= pl <= ll,
            ll == l@.len(),
            pl == p@.len(),
            forall|m: int| 0 <= m < i ==> #[trigger] l@.subrange(m, m + p@.len()) != p@,
        decreases ll - i,
    {
        if match_at(l, i, p) {
            proof {
                assert(0 <= i as int && i as int + p@.len() <= l@.len() && l@.subrange(
                    i as int,
                    i as int + p@.len(),
                ) == p@);
            }
            return true;
        }
        i = i + 1;
    }
    proof {
        assert forall|m: int| 0 <= m && m + p@.len() <= l@.len() implies #[trigger] l@.subrange(
            m,
            m + p@.len(),
        ) != p@ by {
            assert(m < i);
        }
    }
    false
}

fn find_containing_line(lines: &Vec<String>, p: &str) -> (r: Option<usize>)
    ensures
        match r {
            Some(i) => i < lines@.len() && first_containing(line_views(lines@), p@) == Some(
                lines@[i as int]@,
            ),
            None => first_containing(line_views(lines@), p@) is None,
        },
{
    let n = lines.len();
    let mut i: usize = 0;
    proof {
        assert(line_views(lines@).skip(0) =~= line_views(lines@));
    }
    while i < n
        invariant
            0 <= i <= n,
            n == lines@.len(),
            first_containing(line_views(lines@), p@) == first_containing(
                line_views(lines@).skip(i as int),
                p@,
            ),
        decreases n - i,
    {
        if contains_str(lines[i].as_str(), p) {
            proof {
                let rest = line_views(lines@).skip(i as int);
                assert(rest[0] == lines@[i as int]@);
            }
            return Some(i);
        }
        proof {
            let rest = line_views(lines@).skip(i as int);
            assert(rest[0] == lines@[i as int]@);
            assert(rest.drop_first() =~= line_views(lines@).skip(i + 1));
        }
        i = i + 1;
    }
    proof {
        assert(line_views(lines@).skip(n as int) =~= Seq::<Seq<char>>::empty());
    }
    None
}

proof fn lemma_strip_hashes_idx(s: Seq<char>, i: int)
    requires
        0 <= i <= s.len(),
        forall|k: int| 0 <= k < i ==> s[k] == '#',
        i < s.len() ==> s[i] != '#',
    ensures
        strip_hashes(s) =~= s.subrange(i, s.len() as int),
    decreases i,
{
    if i == 0 {
        if s.len() > 0 && s[0] == '#' {
            assert(false);
        }
    } else {
        let t = s.drop_first();
        assert(forall|k: int| 0 <= k < i - 1 ==> #[trigger] t[k] == '#');
        lemma_strip_hashes_idx(t, i - 1);
    }
}

fn strip_hashes_exec(l: &str) -> (r: String)
    ensures
        r@ == strip_hashes(l@),
{
    let ll = l.unicode_len();
    let mut i: usize = 0;
    while i < ll && is_hash(l, i)
        invariant
            0 <= i <= ll,
            ll == l@.len(),
            forall|k: int| 0 <= k < i ==> l@[k] == '#',
        decreases ll - i,
    {
        i = i + 1;
    }
    proof {
        lemma_strip_hashes_idx(l@, i as int);
    }
    l.substring_char(i, ll).to_owned()
}

fn is_hash(s: &str, j: usize) -> (r: bool)
    requires
        j < s@.len(),
    ensures
        r == (s@[j as int] == '#'),
{
    s.get_char(j) == '#'
}

/// Reads the external tool's output: the announced public key, the
/// private key line, and the creation comment if one is present.
pub fn parse_age_keygen_output(output: &str) -> (r: Result<AgeKeyPair, KeygenParseError>)
    ensures
        match r {
            Ok(kp) => keygen_public(output@) == Some(kp.public_key@) && keygen_private(output@)
                == Some(kp.private_key@) && (match kp.comment {
                Some(c) => keygen_comment(output@) == Some(c@),
                None => keygen_comment(output@) is None,
            }),
            Err(e) => (e == KeygenParseError::MissingPublicKey <==> keygen_public(output@) is None)
                && (e == KeygenParseError::MissingPrivateKey ==> keygen_public(
                output@,
            ) is Some && keygen_private(output@) is None),
        },
{
    let lines = split_lines_exec(output);
    let pub_idx = match find_prefix_line(&lines, "# public key: ") {
        Some(i) => i,
        None => {
            return Err(KeygenParseError::MissingPublicKey);
        },
    };
    let pub_line = &lines[pub_idx];
    let plen = "# public key: ".unicode_len();
    let public_key = pub_line.as_str().substring_char(plen, pub_line.as_str().unicode_len())
        .to_owned();
    let priv_idx = match find_prefix_line(&lines, "AGE-SECRET-KEY-") {
        Some(i) => i,
        None => {
            return Err(KeygenParseError::MissingPrivateKey);
        },
    };
    let private_key = lines[priv_idx].clone();
    let comment = match find_containing_line(&lines, "# created:") {
        Some(i) => {
            let stripped = strip_hashes_exec(lines[i].as_str());
            Some(trim_str(stripped.as_str()))
        },
        None => None,
    };
    Ok(AgeKeyPair { public_key, private_key, comment })
}

// ---------------------------------------------------------------------
// The identity gate.
// ---------------------------------------------------------------------
/// An identity handed to decryption must look like a private age key
/// or an SSH key once trimmed.
pub open spec fn spec_valid_identity(s: Seq<char>) -> bool {
    "AGE-SECRET-KEY-"@.is_prefix_of(trim_spec(s)) || "-----BEGIN"@.is_prefix_of(trim_spec(s))
        || "ssh-"@.is_prefix_of(trim_spec(s))
}

/// Trims the identity and accepts it only in one of the recognized key
/// formats; the trimmed text is what a decryption should use.
pub fn validate_identity(identity: &str) -> (r: Option<String>)
    ensures
        match r {
            Some(t) => t@ == trim_spec(identity@) && spec_valid_identity(identity@),
            None => !spec_valid_identity(identity@),
        },
{
    let t = trim_str(identity);
    if has_prefix(t.as_str(), "AGE-SECRET-KEY-") || has_prefix(t.as_str(), "-----BEGIN")
        || has_prefix(t.as_str(), "ssh-") {
        Some(t)
    } else {
        None
    }
}

} // verus!
