//! Credential hashing and random-string generation.
//!
//! Passwords are never stored: the credential store keeps the SHA-256
//! digest of `password ‖ salt`, rendered as standard base64.  Salts and
//! session tokens are uniform random alphanumeric strings.

use vstd::prelude::*;

use base64ct::Base64;
use base64ct::Encoding;
use rand::distributions::Alphanumeric;
use rand::thread_rng;
use rand::Rng;
use sha2::Digest;
use sha2::Sha256;

verus! {

/// The SHA-256 digest of a byte string.
pub uninterp spec fn sha256_of(data: Seq<u8>) -> Seq<u8>;

/// Relies on sha2's `Sha256`: the 32-byte digest depends on the input
/// bytes alone.
#[verifier::external_body]
fn sha256_digest(data: &[u8]) -> (digest: Vec<u8>)
    ensures
        digest@ == sha256_of(data@),
        digest@.len() == 32,
{
    Sha256::digest(data).to_vec()
}

/// The padded standard-alphabet base64 rendering of a byte string.
pub uninterp spec fn base64_of(data: Seq<u8>) -> Seq<char>;

/// Relies on base64ct's `Base64::encode_string`: the padded rendering
/// depends on the input bytes alone and spends four characters on every
/// started group of three bytes.
#[verifier::external_body]
fn base64_encode(data: &[u8]) -> (encoded: String)
    requires
        data@.len() * 4 <= usize::MAX,
    ensures
        encoded@ == base64_of(data@),
        encoded@.len() == 4 * ((data@.len() + 2) / 3),
{
    Base64::encode_string(data)
}

/// A character a salt or session token may be made of.
pub open spec fn is_alnum_char(c: char) -> bool {
    ||| 'A' as int <= c as int <= 'Z' as int
    ||| 'a' as int <= c as int <= 'z' as int
    ||| '0' as int <= c as int <= '9' as int
}

/// Relies on rand's `Alphanumeric` distribution: every sampled character
/// is one of `A-Z`, `a-z`, `0-9`.  The result is fresh randomness; only
/// its length and alphabet are fixed.
#[verifier::external_body]
pub(crate) fn rand_string(len: usize) -> (s: String)
    ensures
        s@.len() == len as nat,
        forall|i: int| 0 <= i < s@.len() ==> is_alnum_char(#[trigger] s@[i]),
{
    thread_rng()
        .sample_iter(Alphanumeric)
        .take(len)
        .map(char::from)
        .collect::<String>()
}

/// What the credential store keeps for a password: the base64 rendering
/// of the SHA-256 digest of the password with the salt appended.
pub open spec fn salted_digest(password: Seq<char>, salt: Seq<char>) -> Seq<char> {
    base64_of(sha256_of(vstd::utf8::encode_utf8(password + salt)))
}

/// Hashes a password under a salt, exactly as the credential store
/// records it.
pub fn salted_hash(password: &str, salt: &str) -> (digest: String)
    ensures
        digest@ == salted_digest(password@, salt@),
        digest@.len() == 44,
{
    let joined = String::from_str(password).concat(salt);
    let bytes = joined.as_str().as_bytes();
    let raw = sha256_digest(bytes);
    base64_encode(raw.as_slice())
}

} // verus!
