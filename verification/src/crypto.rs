//! Trusted boundary to the cryptographic and encoding crates: SHA-256,
//! base64, hex, Ed25519, percent-encoding, timestamps and UUIDs. Each
//! wrapper's contract states what the named library call computes; all
//! reasoning above this module is verified against these contracts.

use vstd::prelude::*;
use base64::Engine;
use ed25519_dalek::{Signer, Verifier};
use sha2::Digest;

verus! {

/// The SHA-256 digest of a byte sequence.
pub uninterp spec fn sha256_of(bytes: Seq<u8>) -> Seq<u8>;

/// The standard base64 encoding (with padding) of a byte sequence.
pub uninterp spec fn base64_of(bytes: Seq<u8>) -> Seq<char>;

/// What standard base64 decoding yields for a character sequence.
pub uninterp spec fn base64_decoded(text: Seq<char>) -> Option<Seq<u8>>;

/// The Ed25519 signature of a message under a 32-byte signing key.
pub uninterp spec fn ed25519_signature_of(key: Seq<u8>, msg: Seq<u8>) -> Seq<u8>;

/// The Ed25519 verifying key derived from a 32-byte signing key.
pub uninterp spec fn ed25519_public_key_of(key: Seq<u8>) -> Seq<u8>;

/// Does the 32-byte string form a valid Ed25519 verifying key under
/// which the signature checks for this message?
pub uninterp spec fn ed25519_verifies(pk: Seq<u8>, msg: Seq<u8>, sig: Seq<u8>) -> bool;

/// The percent-encoding of a string: every byte except ASCII alphanumerics
/// and `-`, `_`, `.`, `~` escaped.
pub uninterp spec fn percent_encoded(s: Seq<char>) -> Seq<char>;

/// What parsing an RFC 3339 timestamp yields, in milliseconds since the
/// Unix epoch.
pub uninterp spec fn rfc3339_epoch_ms(s: Seq<char>) -> Option<i64>;

/// The lowercase hex digit for a value below 16.
pub open spec fn hex_digit(n: int) -> char {
    if n == 0 { '0' } else if n == 1 { '1' } else if n == 2 { '2' } else if n == 3 { '3' }
    else if n == 4 { '4' } else if n == 5 { '5' } else if n == 6 { '6' } else if n == 7 { '7' }
    else if n == 8 { '8' } else if n == 9 { '9' } else if n == 10 { 'a' } else if n == 11 { 'b' }
    else if n == 12 { 'c' } else if n == 13 { 'd' } else if n == 14 { 'e' } else { 'f' }
}

/// The lowercase hex encoding of a byte sequence, two digits per byte.
pub open spec fn hex_of(bytes: Seq<u8>) -> Seq<char> {
    Seq::new(
        bytes.len() * 2,
        |i: int|
            if i % 2 == 0 {
                hex_digit((bytes[i / 2] / 16) as int)
            } else {
                hex_digit((bytes[i / 2] % 16) as int)
            },
    )
}

/// Relies on `sha2::Sha256::digest`: the 32-byte SHA-256 digest of the
/// input.
#[verifier::external_body]
pub fn sha256(bytes: &[u8]) -> (r: Vec<u8>)
    ensures
        r@ == sha256_of(bytes@),
        r@.len() == 32,
{
    sha2::Sha256::digest(bytes).to_vec()
}

/// Relies on `hex::encode`: lowercase hex, two digits per byte, in order.
#[verifier::external_body]
pub fn hex_encode(bytes: &[u8]) -> (r: String)
    ensures
        r@ == hex_of(bytes@),
{
    hex::encode(bytes)
}

/// Relies on `base64::engine::general_purpose::STANDARD.encode`; standard
/// base64 decoding inverts it.
#[verifier::external_body]
pub fn base64_encode(bytes: &[u8]) -> (r: String)
    ensures
        r@ == base64_of(bytes@),
        base64_decoded(r@) == Some(bytes@),
{
    base64::engine::general_purpose::STANDARD.encode(bytes)
}

/// Relies on `base64::engine::general_purpose::STANDARD.decode`.
#[verifier::external_body]
pub fn base64_decode(text: &str) -> (r: Option<Vec<u8>>)
    ensures
        match r {
            Some(v) => base64_decoded(text@) == Some(v@),
            None => base64_decoded(text@) is None,
        },
{
    base64::engine::general_purpose::STANDARD.decode(text).ok()
}

/// Relies on `ed25519_dalek::SigningKey::sign` (RFC 8032: deterministic in
/// key and message): returns the 64-byte signature, which verifies under
/// the key's own valid verifying key.
#[verifier::external_body]
pub fn ed25519_sign(key: &[u8], msg: &[u8]) -> (r: Vec<u8>)
    requires
        key@.len() == 32,
    ensures
        r@ == ed25519_signature_of(key@, msg@),
        r@.len() == 64,
        ed25519_verifies(ed25519_public_key_of(key@), msg@, r@),
{
    let arr: [u8; 32] = key.try_into().unwrap();
    let sk = ed25519_dalek::SigningKey::from_bytes(&arr);
    sk.sign(msg).to_bytes().to_vec()
}

/// Relies on `ed25519_dalek::SigningKey::verifying_key`: the 32-byte
/// public key matching a signing key.
#[verifier::external_body]
pub fn ed25519_derive_public(key: &[u8]) -> (r: Vec<u8>)
    requires
        key@.len() == 32,
    ensures
        r@ == ed25519_public_key_of(key@),
        r@.len() == 32,
{
    let arr: [u8; 32] = key.try_into().unwrap();
    let sk = ed25519_dalek::SigningKey::from_bytes(&arr);
    sk.verifying_key().to_bytes().to_vec()
}

/// Relies on `ed25519_dalek::VerifyingKey::{from_bytes, verify}`: true
/// exactly when the key bytes form a valid key and the signature checks.
#[verifier::external_body]
pub fn ed25519_verify(pk: &[u8], msg: &[u8], sig: &[u8]) -> (r: bool)
    requires
        pk@.len() == 32,
        sig@.len() == 64,
    ensures
        r == ed25519_verifies(pk@, msg@, sig@),
{
    let pk_arr: [u8; 32] = pk.try_into().unwrap();
    let sig_arr: [u8; 64] = sig.try_into().unwrap();
    match ed25519_dalek::VerifyingKey::from_bytes(&pk_arr) {
        Ok(vk) => vk.verify(msg, &ed25519_dalek::Signature::from_bytes(&sig_arr)).is_ok(),
        Err(_) => false,
    }
}

/// Relies on `ed25519_dalek::SigningKey::generate` with the `rand` crate's
/// thread RNG: a fresh random 32-byte signing key; nothing further can be
/// promised of a random value.
#[verifier::external_body]
pub fn generate_signing_key() -> (r: Vec<u8>)
    ensures
        r@.len() == 32,
{
    let sk = ed25519_dalek::SigningKey::generate(&mut rand::rng());
    sk.to_bytes().to_vec()
}

/// Relies on `urlencoding::encode`: percent-encodes every byte except
/// ASCII alphanumerics and `-`, `_`, `.`, `~`.
#[verifier::external_body]
pub fn percent_encode(s: &str) -> (r: String)
    ensures
        r@ == percent_encoded(s@),
{
    urlencoding::encode(s).into_owned()
}

/// Relies on `chrono::Utc::now().to_rfc3339()`: the current wall-clock
/// time; nothing can be promised of its value.
#[verifier::external_body]
pub fn now_rfc3339() -> String {
    chrono::Utc::now().to_rfc3339()
}

/// Relies on `uuid::Uuid::new_v4`: a fresh random UUID in the 36-character
/// hyphenated form; nothing further can be promised of a random value.
#[verifier::external_body]
pub fn new_uuid() -> (r: String)
    ensures
        r@.len() == 36,
{
    uuid::Uuid::new_v4().to_string()
}

/// Relies on `chrono::DateTime::parse_from_rfc3339`, reduced to
/// milliseconds since the Unix epoch.
#[verifier::external_body]
pub fn parse_rfc3339_ms(s: &str) -> (r: Option<i64>)
    ensures
        match r {
            Some(t) => rfc3339_epoch_ms(s@) == Some(t),
            None => rfc3339_epoch_ms(s@) is None,
        },
{
    chrono::DateTime::parse_from_rfc3339(s).ok().map(|d| d.timestamp_millis())
}

} // verus!
