use vstd::prelude::*;
use vstd::utf8::encode_utf8;
use sha2::Digest;
use crate::model::SubmitFormRequest;
use crate::text::{trim_of, trim_text};

verus! {

/// Application-wide salt mixed into every respondent fingerprint.
pub const FINGERPRINT_SALT: &'static str = "likert-form-salt";

/// The characters of `s` lower-cased, as `str::to_lowercase` gives them.
pub uninterp spec fn lower_of(s: Seq<char>) -> Seq<char>;

/// The lower-case hexadecimal SHA-256 digest of `data`, as the `sha2` crate computes it.
pub uninterp spec fn sha256_hex_of(data: Seq<u8>) -> Seq<char>;

/// Relies on `str::to_lowercase`: the result depends on the characters of `s` alone.
#[verifier::external_body]
fn to_lowercase(s: &str) -> (r: String)
    ensures
        r@ == lower_of(s@),
{
    s.to_lowercase()
}

/// Relies on `sha2::Sha256::digest` and the `LowerHex` formatting of its 32-byte output:
/// two lower-case hexadecimal digits (`0-9a-f`) per byte.
#[verifier::external_body]
fn sha256_hex(data: &[u8]) -> (r: String)
    ensures
        r@ == sha256_hex_of(data@),
        r@.len() == 64,
        forall|i: int| 0 <= i < r@.len() ==> is_lower_hex_digit(#[trigger] r@[i]),
{
    format!("{:x}", sha2::Sha256::digest(data))
}

/// A lower-case hexadecimal digit.
pub open spec fn is_lower_hex_digit(c: char) -> bool {
    ('0' <= c && c <= '9') || ('a' <= c && c <= 'f')
}

/// The normal form of an email address: surrounding whitespace removed, then lower-cased.
pub open spec fn normal_email(email: Seq<char>) -> Seq<char> {
    lower_of(trim_of(email))
}

/// The bytes that are hashed for an email: its normal form in UTF-8, followed by the salt.
pub open spec fn fingerprint_input(email: Seq<char>) -> Seq<u8> {
    encode_utf8(normal_email(email)) + encode_utf8(FINGERPRINT_SALT@)
}

/// The fingerprint of an email address: the salted digest of its normal form.
pub open spec fn fingerprint_of(email: Seq<char>) -> Seq<char> {
    sha256_hex_of(fingerprint_input(email))
}

/// Normalises an email address: trims surrounding whitespace, then lower-cases it.
pub fn normalize_email(email: &str) -> (r: String)
    ensures
        r@ == normal_email(email@),
{
    let trimmed = trim_text(email);
    to_lowercase(trimmed.as_str())
}

/// Derives the stable, non-reversible respondent fingerprint of an email address.
pub fn fingerprint(email: &str) -> (r: String)
    ensures
        r@ == fingerprint_of(email@),
        r@.len() == 64,
        forall|i: int| 0 <= i < r@.len() ==> is_lower_hex_digit(#[trigger] r@[i]),
{
    let normal = normalize_email(email);
    let head = normal.as_str().as_bytes();
    let tail = FINGERPRINT_SALT.as_bytes();
    let mut data: Vec<u8> = Vec::new();
    let mut i: usize = 0;
    while i < head.len()
        invariant
            i <= head@.len(),
            data@ == head@.subrange(0, i as int),
        decreases head@.len() - i,
    {
        data.push(head[i]);
        i = i + 1;
    }
    let mut j: usize = 0;
    while j < tail.len()
        invariant
            i == head@.len(),
            j <= tail@.len(),
            data@ == head@ + tail@.subrange(0, j as int),
        decreases tail@.len() - j,
    {
        data.push(tail[j]);
        j = j + 1;
    }
    assert(data@ =~= fingerprint_input(email@));
    sha256_hex(data.as_slice())
}

impl SubmitFormRequest {
    /// The fingerprint of the respondent's email, used to recognise a returning respondent.
    pub fn email_hash(&self) -> (r: String)
        ensures
            r@ == fingerprint_of(self.respondent_email@),
            r@.len() == 64,
            forall|i: int| 0 <= i < r@.len() ==> is_lower_hex_digit(#[trigger] r@[i]),
    {
        fingerprint(self.respondent_email.as_str())
    }
}

/// Computing a fingerprint depends only on the normal form of the email: two addresses
/// that differ only in what trimming and lower-casing remove have the same fingerprint.
pub proof fn lemma_fingerprint_normal_form(a: Seq<char>, b: Seq<char>)
    requires
        normal_email(a) == normal_email(b),
    ensures
        fingerprint_of(a) == fingerprint_of(b),
{
}

/// An email with whitespace added around it has the same fingerprint.
pub proof fn lemma_fingerprint_ignores_surrounding_white_space(
    email: Seq<char>,
    before: Seq<char>,
    after: Seq<char>,
)
    requires
        crate::text::all_white_space(before),
        crate::text::all_white_space(after),
    ensures
        fingerprint_of(before + email + after) == fingerprint_of(email),
{
    crate::text::lemma_trim_ignores_surrounding_white_space(email, before, after);
}

} // verus!
