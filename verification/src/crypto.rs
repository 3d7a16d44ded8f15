//! Trusted boundary to `ring`'s cryptographic primitives: the iterated
//! password hash, the HMAC used to sign bearer tokens, and the secure random
//! source.
//!
//! What the primitives compute is named by uninterpreted spec functions; the
//! wrappers state only what `ring`'s documentation and source plainly give.

use crate::INPUT_LEN_LIMIT;
use ring::rand::SecureRandom;
use vstd::prelude::*;

verus! {

/// Iteration count of the password hash. A named cost factor, tuned here and
/// nowhere else.
pub const N_ITER: u32 = 100_000;

/// Length in bytes of the derived password hash and of a fresh salt: the
/// output length of the underlying 512-bit digest.
pub const CREDENTIAL_LEN: usize = 64;

/// The PBKDF2-HMAC-SHA512 derived key of `CREDENTIAL_LEN` bytes for the given
/// salt and secret at the fixed iteration count. A pure function of its
/// arguments; what it is on given values is not stated.
pub uninterp spec fn pbkdf2_hmac_sha512(salt: Seq<u8>, secret: Seq<u8>) -> Seq<u8>;

/// The derived password key as the contracts speak of it: the PBKDF2 value,
/// with its length pinned to `CREDENTIAL_LEN` (RFC 2898: the derived key has
/// exactly `dkLen` bytes; the fallback branch keeps the length fact available
/// to proofs that never run the derivation).
pub open spec fn derived_key(salt: Seq<u8>, secret: Seq<u8>) -> Seq<u8> {
    let raw = pbkdf2_hmac_sha512(salt, secret);
    if raw.len() == CREDENTIAL_LEN {
        raw
    } else {
        Seq::new(CREDENTIAL_LEN as nat, |i| 0u8)
    }
}

/// The HMAC-SHA256 tag of `msg` under `key`. A pure function of its
/// arguments; what it is on given values is not stated.
pub uninterp spec fn hmac_sha256(key: Seq<u8>, msg: Seq<u8>) -> Seq<u8>;

/// Relies on `ring::pbkdf2::derive` with `PBKDF2_HMAC_SHA512` and the fixed
/// iteration count: fills the `CREDENTIAL_LEN`-byte output buffer with the
/// derived key (RFC 2898: the derived key has exactly `dkLen` bytes).
#[verifier::external_body]
pub(crate) fn pbkdf2_derive(salt: &[u8], secret: &[u8]) -> (r: Vec<u8>)
    requires
        salt@.len() <= INPUT_LEN_LIMIT,
        secret@.len() <= INPUT_LEN_LIMIT,
    ensures
        r@ == pbkdf2_hmac_sha512(salt@, secret@),
        r@.len() == CREDENTIAL_LEN,
{
    let mut out = vec![0u8; CREDENTIAL_LEN];
    ring::pbkdf2::derive(
        ring::pbkdf2::PBKDF2_HMAC_SHA512,
        core::num::NonZeroU32::new(N_ITER).unwrap(),
        salt,
        secret,
        &mut out,
    );
    out
}

/// Relies on `ring::pbkdf2::verify` with `PBKDF2_HMAC_SHA512` and the fixed
/// iteration count: succeeds exactly when `previously_derived` equals the key
/// derived from `salt` and `secret` at the same length, comparing in constant
/// time.
#[verifier::external_body]
pub(crate) fn pbkdf2_verify(salt: &[u8], secret: &[u8], previously_derived: &[u8]) -> (r: bool)
    requires
        salt@.len() <= INPUT_LEN_LIMIT,
        secret@.len() <= INPUT_LEN_LIMIT,
        previously_derived@.len() == CREDENTIAL_LEN,
    ensures
        r <==> previously_derived@ == derived_key(salt@, secret@),
{
    ring::pbkdf2::verify(
        ring::pbkdf2::PBKDF2_HMAC_SHA512,
        core::num::NonZeroU32::new(N_ITER).unwrap(),
        salt,
        secret,
        previously_derived,
    )
    .is_ok()
}

/// Relies on `ring::hmac::sign` with `HMAC_SHA256`: returns the 32-byte tag
/// of `msg` under `key`.
#[verifier::external_body]
pub(crate) fn hmac_sha256_sign(key: &[u8], msg: &[u8]) -> (r: Vec<u8>)
    requires
        key@.len() <= INPUT_LEN_LIMIT,
        msg@.len() <= INPUT_LEN_LIMIT,
    ensures
        r@ == hmac_sha256(key@, msg@),
        r@.len() == 32,
{
    let k = ring::hmac::Key::new(ring::hmac::HMAC_SHA256, key);
    ring::hmac::sign(&k, msg).as_ref().to_vec()
}

/// Relies on `ring::hmac::verify` with `HMAC_SHA256`: succeeds exactly when
/// `tag` equals the tag of `msg` under `key`, comparing in constant time.
#[verifier::external_body]
pub(crate) fn hmac_sha256_verify(key: &[u8], msg: &[u8], tag: &[u8]) -> (r: bool)
    requires
        key@.len() <= INPUT_LEN_LIMIT,
        msg@.len() <= INPUT_LEN_LIMIT,
    ensures
        r <==> tag@ == hmac_sha256(key@, msg@),
{
    let k = ring::hmac::Key::new(ring::hmac::HMAC_SHA256, key);
    ring::hmac::verify(&k, msg, tag).is_ok()
}

/// Relies on `ring::rand::SystemRandom::fill`: on success the buffer holds
/// `n` bytes from the secure random source. Nothing is promised about their
/// values, and two calls may return anything.
#[verifier::external_body]
pub(crate) fn random_bytes(n: usize) -> (r: Option<Vec<u8>>)
    ensures
        r matches Some(v) ==> v@.len() == n,
{
    let rng = ring::rand::SystemRandom::new();
    let mut buf = vec![0u8; n];
    match rng.fill(&mut buf) {
        Ok(()) => Some(buf),
        Err(_) => None,
    }
}

} // verus!
