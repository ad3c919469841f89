//! File digests: SHA-1 and SHA-256 fed chunk by chunk, their lowercase hex form,
//! and how the launcher compares them with the digest it expects.
use vstd::prelude::*;
use sha1::Digest;
use crate::text::{chars_of, lowercase, string_from_chars, to_lowercase, trim, trim_chars};

verus! {

/// A SHA-1 computation in progress. The hasher is held out of Verus's sight; what it
/// has been fed is `sha1_fed`.
#[verifier::external_body]
pub struct Sha1Hasher {
    inner: sha1::Sha1,
}

/// A SHA-256 computation in progress; what it has been fed is `sha256_fed`.
#[verifier::external_body]
pub struct Sha256Hasher {
    inner: sha2::Sha256,
}

/// The bytes fed to a SHA-1 hasher so far.
pub uninterp spec fn sha1_fed(h: Sha1Hasher) -> Seq<u8>;

/// The bytes fed to a SHA-256 hasher so far.
pub uninterp spec fn sha256_fed(h: Sha256Hasher) -> Seq<u8>;

/// The SHA-1 digest of `data`.
pub uninterp spec fn sha1_of(data: Seq<u8>) -> Seq<u8>;

/// The SHA-256 digest of `data`.
pub uninterp spec fn sha256_of(data: Seq<u8>) -> Seq<u8>;

/// `Sha1::new` (`Digest::new`): a hasher that has been fed nothing.
#[verifier::external_body]
fn sha1_new() -> (h: Sha1Hasher)
    ensures
        sha1_fed(h) == Seq::<u8>::empty(),
{
    Sha1Hasher { inner: sha1::Sha1::new() }
}

/// `Digest::update` on a SHA-1 hasher: `data` is appended to what it has been fed.
#[verifier::external_body]
fn sha1_update(h: &mut Sha1Hasher, data: &[u8])
    ensures
        sha1_fed(*final(h)) == sha1_fed(*old(h)) + data@,
{
    h.inner.update(data)
}

/// `Digest::finalize` on a SHA-1 hasher: the 20-byte digest of everything it was fed.
#[verifier::external_body]
fn sha1_finalize(h: Sha1Hasher) -> (d: Vec<u8>)
    ensures
        d@ == sha1_of(sha1_fed(h)),
        d@.len() == 20,
{
    h.inner.finalize().to_vec()
}

/// `Sha256::new` (`Digest::new`): a hasher that has been fed nothing.
#[verifier::external_body]
fn sha256_new() -> (h: Sha256Hasher)
    ensures
        sha256_fed(h) == Seq::<u8>::empty(),
{
    Sha256Hasher { inner: sha2::Sha256::new() }
}

/// `Digest::update` on a SHA-256 hasher: `data` is appended to what it has been fed.
#[verifier::external_body]
fn sha256_update(h: &mut Sha256Hasher, data: &[u8])
    ensures
        sha256_fed(*final(h)) == sha256_fed(*old(h)) + data@,
{
    h.inner.update(data)
}

/// `Digest::finalize` on a SHA-256 hasher: the 32-byte digest of everything it was fed.
#[verifier::external_body]
fn sha256_finalize(h: Sha256Hasher) -> (d: Vec<u8>)
    ensures
        d@ == sha256_of(sha256_fed(h)),
        d@.len() == 32,
{
    h.inner.finalize().to_vec()
}

/// The lowercase hexadecimal digit for `d < 16`.
pub open spec fn hex_digit(d: nat) -> char {
    if d < 10 {
        (48 + d) as char
    } else {
        (87 + d) as char
    }
}

/// Two lowercase hex digits per byte, most significant first (`{:x}` of a digest).
pub open spec fn hex_lower(bytes: Seq<u8>) -> Seq<char>
    decreases bytes.len(),
{
    if bytes.len() == 0 {
        Seq::empty()
    } else {
        hex_lower(bytes.drop_last()).push(hex_digit((bytes.last() / 16) as nat)).push(
            hex_digit((bytes.last() % 16) as nat),
        )
    }
}

fn hex_char(d: u8) -> (c: char)
    requires
        d < 16,
    ensures
        c == hex_digit(d as nat),
{
    let table: [char; 16] = [
        '0',
        '1',
        '2',
        '3',
        '4',
        '5',
        '6',
        '7',
        '8',
        '9',
        'a',
        'b',
        'c',
        'd',
        'e',
        'f',
    ];
    let c = table[d as usize];
    assert(c == hex_digit(d as nat)) by {
        assert(table@[d as int] == c);
        if d == 0 {
        } else if d == 1 {
        } else if d == 2 {
        } else if d == 3 {
        } else if d == 4 {
        } else if d == 5 {
        } else if d == 6 {
        } else if d == 7 {
        } else if d == 8 {
        } else if d == 9 {
        } else if d == 10 {
        } else if d == 11 {
        } else if d == 12 {
        } else if d == 13 {
        } else if d == 14 {
        } else {
        }
    }
    c
}

/// The lowercase hex form of `bytes`.
pub fn hex_string(bytes: &Vec<u8>) -> (s: String)
    ensures
        s@ == hex_lower(bytes@),
{
    let mut out: Vec<char> = Vec::new();
    let mut i: usize = 0;
    while i < bytes.len()
        invariant
            i <= bytes.len(),
            out@ == hex_lower(bytes@.take(i as int)),
        decreases bytes.len() - i,
    {
        let b = bytes[i];
        out.push(hex_char(b / 16));
        out.push(hex_char(b % 16));
        proof {
            let t = bytes@.take(i + 1);
            assert(t.drop_last() == bytes@.take(i as int));
            assert(t.last() == b);
        }
        i = i + 1;
    }
    assert(bytes@.take(bytes.len() as int) == bytes@);
    string_from_chars(&out)
}

impl Sha1Hasher {
    /// A SHA-1 computation that has been fed nothing.
    pub fn start() -> (h: Sha1Hasher)
        ensures
            sha1_fed(h) == Seq::<u8>::empty(),
    {
        sha1_new()
    }

    /// Feeds `data` to the computation.
    pub fn feed(&mut self, data: &[u8])
        ensures
            sha1_fed(*final(self)) == sha1_fed(*old(self)) + data@,
    {
        sha1_update(self, data)
    }

    /// The lowercase hex digest of everything fed.
    pub fn hex_digest(self) -> (s: String)
        ensures
            s@ == hex_lower(sha1_of(sha1_fed(self))),
    {
        let d = sha1_finalize(self);
        hex_string(&d)
    }
}

impl Sha256Hasher {
    /// A SHA-256 computation that has been fed nothing.
    pub fn start() -> (h: Sha256Hasher)
        ensures
            sha256_fed(h) == Seq::<u8>::empty(),
    {
        sha256_new()
    }

    /// Feeds `data` to the computation.
    pub fn feed(&mut self, data: &[u8])
        ensures
            sha256_fed(*final(self)) == sha256_fed(*old(self)) + data@,
    {
        sha256_update(self, data)
    }

    /// The lowercase hex digest of everything fed.
    pub fn hex_digest(self) -> (s: String)
        ensures
            s@ == hex_lower(sha256_of(sha256_fed(self))),
    {
        let d = sha256_finalize(self);
        hex_string(&d)
    }
}

/// An expected digest as the launcher compares it: trimmed and lower-cased.
pub open spec fn normalized_digest(expected: Seq<char>) -> Seq<char> {
    lowercase(trim(expected))
}

/// An expected digest, trimmed and lower-cased.
pub fn normalize_digest(expected: &str) -> (r: Vec<char>)
    ensures
        r@ == normalized_digest(expected@),
{
    let e = chars_of(expected);
    let t = trim_chars(&e);
    to_lowercase(&t)
}

/// A computed digest satisfies an expectation: a blank expectation accepts anything,
/// otherwise the hex forms must be equal once the expectation is normalized.
pub open spec fn digest_accepted(computed_hex: Seq<char>, expected: Seq<char>) -> bool {
    normalized_digest(expected).len() == 0 || computed_hex == normalized_digest(expected)
}

/// Whether `computed_hex` satisfies `expected`.
pub fn digest_matches(computed_hex: &str, expected: &str) -> (ok: bool)
    ensures
        ok == digest_accepted(computed_hex@, expected@),
{
    let want = normalize_digest(expected);
    if want.len() == 0 {
        return true;
    }
    let got = chars_of(computed_hex);
    crate::text::chars_equal(&got, &want)
}

} // verus!
