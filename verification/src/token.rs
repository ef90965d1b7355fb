//! API token secrets: generation, and the digest under which they are stored.

use rand::Rng;
use sha2::Digest;
use vstd::prelude::*;
use vstd::string::*;

verus! {

/// The SHA-256 digest of a byte string.
pub uninterp spec fn sha256_of(data: Seq<u8>) -> Seq<u8>;

/// Length of a digest, in bytes.
pub const DIGEST_LEN: usize = 32;

/// Length of a generated secret, in characters.
pub const SECRET_LEN: usize = 32;

/// The characters a generated secret is drawn from.
pub const ALPHABET: &'static str = "abcdefghijklmnopqrstuvwxyzABCDEFGHIJKLMNOPQRSTUVWXYZ0123456789";

/// Calls `sha2::Sha256::digest`. Trusted: the result is the SHA-256 digest of
/// `data`, which is 32 bytes long.
#[verifier::external_body]
fn sha256(data: &[u8]) -> (r: Vec<u8>)
    ensures
        r@ == sha256_of(data@),
        r@.len() == 32,
{
    sha2::Sha256::digest(data).as_slice().to_vec()
}

/// Samples `rand::distributions::Uniform` over `0..n` from `rand::rngs::OsRng`.
/// Trusted: the value drawn lies below `n`. Nothing is said about which value
/// is drawn.
#[verifier::external_body]
fn random_index(n: usize) -> (r: usize)
    requires
        n > 0,
    ensures
        r < n,
{
    rand::rngs::OsRng.sample(rand::distributions::Uniform::from(0..n))
}

/// Whether `c` is one of the 62 characters of [`ALPHABET`].
pub open spec fn is_alphanumeric(c: char) -> bool {
    ('a' <= c <= 'z') || ('A' <= c <= 'Z') || ('0' <= c <= '9')
}

/// A secret together with the digest that stands for it in the token table.
pub struct SecureToken {
    plaintext: String,
    token: Vec<u8>,
}

impl SecureToken {
    #[verifier::type_invariant]
    spec fn inv(self) -> bool {
        self.token@ == sha256_of(vstd::utf8::encode_utf8(self.plaintext@)) && self.token@.len()
            == DIGEST_LEN
    }

    /// The secret as the bearer presents it.
    pub closed spec fn spec_plaintext(&self) -> Seq<char> {
        self.plaintext@
    }

    /// The stored digest.
    pub closed spec fn spec_token(&self) -> Seq<u8> {
        self.token@
    }

    /// A fresh random secret of [`SECRET_LEN`] alphanumeric characters.
    pub fn new_token() -> (r: SecureToken)
        ensures
            r.spec_plaintext().len() == SECRET_LEN,
            forall|i: int| 0 <= i < r.spec_plaintext().len() ==> is_alphanumeric(#[trigger] r.spec_plaintext()[i]),
            r.spec_token() == digest_of(r.spec_plaintext()),
            r.spec_token().len() == DIGEST_LEN,
    {
        let plaintext = generate_secure_alphanumeric_string(SECRET_LEN);
        let token = sha256(plaintext.as_str().as_bytes());
        SecureToken { plaintext, token }
    }

    /// The token a presented secret stands for.
    pub fn parse(plaintext: &str) -> (r: SecureToken)
        ensures
            r.spec_plaintext() == plaintext@,
            r.spec_token() == digest_of(plaintext@),
            r.spec_token().len() == DIGEST_LEN,
    {
        let token = sha256(plaintext.as_bytes());
        SecureToken { plaintext: plaintext.to_owned(), token }
    }

    /// The secret.
    pub fn plaintext(&self) -> (r: &str)
        ensures
            r@ == self.spec_plaintext(),
    {
        self.plaintext.as_str()
    }

    /// The digest of the secret: what the token table holds.
    pub fn token(&self) -> (r: &[u8])
        ensures
            r@ == self.spec_token(),
            r@ == digest_of(self.spec_plaintext()),
            r@.len() == DIGEST_LEN,
    {
        proof {
            use_type_invariant(self);
        }
        self.token.as_slice()
    }
}

/// The digest under which a secret is stored: SHA-256 of its UTF-8 bytes.
pub open spec fn digest_of(secret: Seq<char>) -> Seq<u8> {
    sha256_of(vstd::utf8::encode_utf8(secret))
}

/// A string of `len` characters, each drawn from [`ALPHABET`] by the
/// operating system's random generator.
pub fn generate_secure_alphanumeric_string(len: usize) -> (r: String)
    ensures
        r@.len() == len,
        forall|i: int| 0 <= i < r@.len() ==> is_alphanumeric(#[trigger] r@[i]),
{
    proof {
        reveal_strlit("abcdefghijklmnopqrstuvwxyzABCDEFGHIJKLMNOPQRSTUVWXYZ0123456789");
    }
    let mut out = String::new();
    let mut i: usize = 0;
    while i < len
        invariant
            i <= len,
            out@.len() == i,
            ALPHABET@.len() == 62,
            ALPHABET.is_ascii(),
            forall|k: int| 0 <= k < 62 ==> is_alphanumeric(#[trigger] ALPHABET@[k]),
            forall|k: int| 0 <= k < out@.len() ==> is_alphanumeric(#[trigger] out@[k]),
        decreases len - i,
    {
        let idx = random_index(62);
        let piece = ALPHABET.substring_ascii(idx, idx + 1);
        out.append(piece);
        i += 1;
    }
    out
}

} // verus!
