//! Trusted boundary to the cryptographic and codec primitives of the
//! `totp-rs` crate: the three HMAC variants used for code derivation and
//! the Base32 decoding of shared secrets.
//!
//! Each digest is named by an uninterpreted spec function: the digest is a
//! pure function of key and counter, but its value is not restated here.

use vstd::prelude::*;

verus! {

/// HMAC-SHA1 of a key over the 8-byte big-endian encoding of a counter.
pub uninterp spec fn hmac_sha1_of(key: Seq<u8>, counter: u64) -> Seq<u8>;

/// HMAC-SHA256 of a key over the 8-byte big-endian encoding of a counter.
pub uninterp spec fn hmac_sha256_of(key: Seq<u8>, counter: u64) -> Seq<u8>;

/// HMAC-SHA512 of a key over the 8-byte big-endian encoding of a counter.
pub uninterp spec fn hmac_sha512_of(key: Seq<u8>, counter: u64) -> Seq<u8>;

/// What `base32::decode` (RFC 4648 alphabet, no padding), as called by
/// `totp_rs::Secret::to_bytes`, yields on a string: the decoded bytes, or
/// nothing when the string is not acceptable Base32.
pub uninterp spec fn base32_decode_of(s: Seq<char>) -> Option<Seq<u8>>;

/// Relies on `totp_rs::TOTP::sign` with `Algorithm::SHA1` and `step: 1`:
/// it computes HMAC-SHA1 of the secret over the 8-byte big-endian counter,
/// a 20-byte digest.
#[verifier::external_body]
pub(crate) fn hmac_sha1(key: &Vec<u8>, counter: u64) -> (r: Vec<u8>)
    ensures
        r@ == hmac_sha1_of(key@, counter),
        r@.len() == 20,
{
    let t = totp_rs::TOTP {
        algorithm: totp_rs::Algorithm::SHA1,
        digits: 6,
        skew: 0,
        step: 1,
        secret: key.clone(),
    };
    t.sign(counter)
}

/// Relies on `totp_rs::TOTP::sign` with `Algorithm::SHA256` and `step: 1`:
/// it computes HMAC-SHA256 of the secret over the 8-byte big-endian
/// counter, a 32-byte digest.
#[verifier::external_body]
pub(crate) fn hmac_sha256(key: &Vec<u8>, counter: u64) -> (r: Vec<u8>)
    ensures
        r@ == hmac_sha256_of(key@, counter),
        r@.len() == 32,
{
    let t = totp_rs::TOTP {
        algorithm: totp_rs::Algorithm::SHA256,
        digits: 6,
        skew: 0,
        step: 1,
        secret: key.clone(),
    };
    t.sign(counter)
}

/// Relies on `totp_rs::TOTP::sign` with `Algorithm::SHA512` and `step: 1`:
/// it computes HMAC-SHA512 of the secret over the 8-byte big-endian
/// counter, a 64-byte digest.
#[verifier::external_body]
pub(crate) fn hmac_sha512(key: &Vec<u8>, counter: u64) -> (r: Vec<u8>)
    ensures
        r@ == hmac_sha512_of(key@, counter),
        r@.len() == 64,
{
    let t = totp_rs::TOTP {
        algorithm: totp_rs::Algorithm::SHA512,
        digits: 6,
        skew: 0,
        step: 1,
        secret: key.clone(),
    };
    t.sign(counter)
}

/// Relies on `totp_rs::Secret::to_bytes` on an `Encoded` secret: it
/// decodes the string as Base32 (RFC 4648 alphabet, no padding) and fails
/// exactly when the string is not acceptable to that decoder.
#[verifier::external_body]
pub(crate) fn base32_decode(s: &str) -> (r: Option<Vec<u8>>)
    ensures
        match r {
            Some(v) => base32_decode_of(s@) == Some(v@),
            None => base32_decode_of(s@) is None,
        },
{
    match totp_rs::Secret::Encoded(s.to_string()).to_bytes() {
        Ok(v) => Some(v),
        Err(_) => None,
    }
}

} // verus!
