//! Salted password digests: a fresh random salt per user, and the digest
//! `base64(SHA-256(password ++ salt))` that is stored beside it.

use rand::RngCore;
use sha2::Digest;
use vstd::prelude::*;
use vstd::utf8::encode_utf8;

use crate::text::concat;

verus! {

/// The standard, padded base64 text of a byte string.
pub uninterp spec fn base64_of(bytes: Seq<u8>) -> Seq<char>;

/// The SHA-256 digest of a byte string.
pub uninterp spec fn sha256_of(bytes: Seq<u8>) -> Seq<u8>;

/// Whether `base64::encode` can size its output for an input of `len` bytes.
pub open spec fn base64_encodable(len: nat) -> bool {
    (len / 3) * 4 + 4 <= usize::MAX
}

/// Relies on `base64::encode`: the standard, padded base64 text of the
/// bytes. It panics when the length of its output overflows `usize`.
#[verifier::external_body]
pub(crate) fn base64_encode(bytes: &[u8]) -> (r: String)
    requires
        base64_encodable(bytes@.len()),
    ensures
        r@ == base64_of(bytes@),
{
    base64::encode(bytes)
}

/// Relies on `sha2::Sha256::digest`: the SHA-256 digest of the bytes, which
/// is 32 bytes long.
#[verifier::external_body]
fn sha256(bytes: &[u8]) -> (r: Vec<u8>)
    ensures
        r@ == sha256_of(bytes@),
        r@.len() == 32,
{
    sha2::Sha256::digest(bytes).to_vec()
}

/// Relies on `rand::thread_rng` and its `fill_bytes`: eight bytes from the
/// thread's cryptographically secure generator.
#[verifier::external_body]
fn random_salt_bytes() -> (r: Vec<u8>)
    ensures
        r@.len() == 8,
{
    let mut bytes = [0u8; 8];
    rand::thread_rng().fill_bytes(&mut bytes);
    bytes.to_vec()
}

/// The digest stored for `pass` under `salt`: the base64 text of the
/// SHA-256 digest of the UTF-8 bytes of `pass` followed by `salt`.
pub open spec fn password_digest(pass: Seq<char>, salt: Seq<char>) -> Seq<char> {
    base64_of(sha256_of(encode_utf8(pass + salt)))
}

/// Whether `salt` is the base64 text of eight bytes.
pub open spec fn is_salt(salt: Seq<char>) -> bool {
    exists|bytes: Seq<u8>| bytes.len() == 8 && salt == #[trigger] base64_of(bytes)
}

/// Computes the digest stored for `pass` under `salt`.
pub fn hash_password(pass: &str, salt: &str) -> (r: String)
    ensures
        r@ == password_digest(pass@, salt@),
{
    let input = concat(pass, salt);
    let digest = sha256(input.as_str().as_bytes());
    base64_encode(digest.as_slice())
}

/// Draws a fresh salt: the base64 text of eight random bytes.
pub fn new_salt() -> (r: String)
    ensures
        is_salt(r@),
{
    let bytes = random_salt_bytes();
    let salt = base64_encode(bytes.as_slice());
    assert(bytes@.len() == 8 && salt@ == base64_of(bytes@));
    salt
}

} // verus!
