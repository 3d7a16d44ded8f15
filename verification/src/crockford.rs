//! Random record ids: 24 characters of lowercase Crockford base 32, drawn
//! from 15 random bytes.

use crate::INPUT_LEN_LIMIT;
use vstd::prelude::*;

verus! {

/// ASCII lowercasing of one character: letters `A`-`Z` move down to
/// `a`-`z`, everything else is unchanged.
pub open spec fn lower_char(c: char) -> char {
    if 'A' <= c && c <= 'Z' {
        (((c as u8) + 32) as u8) as char
    } else {
        c
    }
}

/// ASCII lowercasing of a string, character by character.
pub open spec fn ascii_lower_of(s: Seq<char>) -> Seq<char> {
    Seq::new(s.len(), |i: int| lower_char(s[i]))
}

/// The Crockford base 32 encoding of a byte string: five-bit groups, most
/// significant first, one uppercase alphabet character each, without padding.
/// A pure function of the bytes alone; what it is on given values is not
/// stated.
pub uninterp spec fn crockford_b32_of(bytes: Seq<u8>) -> Seq<char>;

/// Relies on `rand::random`: fifteen bytes from the thread-local generator.
/// Nothing is promised of their values, and two calls may return anything.
#[verifier::external_body]
fn random_fifteen_bytes() -> (r: [u8; 15]) {
    rand::random()
}

/// Relies on `base32::encode` with the Crockford alphabet: eight characters
/// for every five input bytes, the tail truncated to the characters its bits
/// fill, so `(8 * n + 4) / 5` characters in all.
#[verifier::external_body]
fn crockford_encode(bytes: &[u8]) -> (r: String)
    requires
        bytes@.len() <= INPUT_LEN_LIMIT,
    ensures
        r@ == crockford_b32_of(bytes@),
        r@.len() == (bytes@.len() * 8 + 4) / 5,
{
    base32::encode(base32::Alphabet::Crockford, bytes)
}

/// Relies on `str::to_ascii_lowercase`: each character is mapped to its ASCII
/// lowercase equivalent, the rest are unchanged.
#[verifier::external_body]
fn to_ascii_lowercase(s: &str) -> (r: String)
    ensures
        r@ == ascii_lower_of(s@),
{
    s.to_ascii_lowercase()
}

/// Generates a random 24 character Crockford base 32 encoded id, lowercase.
pub fn random_id() -> (r: String)
    ensures
        r@.len() == 24,
{
    let bytes: [u8; 15] = random_fifteen_bytes();
    let encoded = crockford_encode(bytes.as_slice());
    to_ascii_lowercase(encoded.as_str())
}

} // verus!
