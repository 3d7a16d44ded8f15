//! Lowercase hexadecimal encoding of byte strings, as used to persist
//! credential records.
//!
//! The encoding itself is specified exactly by [`hex_of`] and [`hex_val_of`];
//! the executable work is done by `data_encoding`'s permissive lowercase hex
//! codec behind two trusted wrappers.

use crate::INPUT_LEN_LIMIT;
use vstd::prelude::*;
use vstd::string::StringSliceAdditionalSpecFns;

verus! {

/// The lowercase hex digit for a value below 16.
pub open spec fn hex_digit_char(v: u8) -> char
    recommends
        v < 16,
{
    if v < 10 {
        ((0x30 + v) as u8) as char
    } else {
        ((0x57 + v) as u8) as char
    }
}

/// Lowercase hex encoding: two digits per byte, high nibble first.
pub open spec fn hex_of(bytes: Seq<u8>) -> Seq<char>
    decreases bytes.len(),
{
    if bytes.len() == 0 {
        Seq::empty()
    } else {
        seq![hex_digit_char(bytes[0] / 16), hex_digit_char(bytes[0] % 16)] + hex_of(
            bytes.drop_first(),
        )
    }
}

/// A hex digit in either case, as the permissive decoder accepts it.
pub open spec fn is_hex_digit(c: char) -> bool {
    (0x30 <= c as u32 <= 0x39) || (0x61 <= c as u32 <= 0x66) || (0x41 <= c as u32 <= 0x46)
}

/// The value of a hex digit in either case.
pub open spec fn hex_digit_val(c: char) -> u8
    recommends
        is_hex_digit(c),
{
    if 0x30 <= c as u32 <= 0x39 {
        (c as u32 - 0x30) as u8
    } else if 0x61 <= c as u32 <= 0x66 {
        (c as u32 - 0x57) as u8
    } else {
        (c as u32 - 0x37) as u8
    }
}

/// Exactly the strings the permissive hex decoder accepts: an even number of
/// hex digits, in either case.
pub open spec fn is_hex_seq(s: Seq<char>) -> bool {
    s.len() % 2 == 0 && (forall|i: int| 0 <= i < s.len() ==> is_hex_digit(#[trigger] s[i]))
}

/// The bytes a string of hex digit pairs stands for.
pub open spec fn hex_val_of(s: Seq<char>) -> Seq<u8>
    recommends
        is_hex_seq(s),
    decreases s.len(),
{
    if s.len() < 2 {
        Seq::empty()
    } else {
        seq![(hex_digit_val(s[0]) * 16 + hex_digit_val(s[1])) as u8] + hex_val_of(s.skip(2))
    }
}

/// Every character `hex_of` produces is a (lowercase) hex digit.
pub proof fn lemma_hex_of_is_hex_seq(bytes: Seq<u8>)
    ensures
        is_hex_seq(hex_of(bytes)),
        hex_of(bytes).len() == 2 * bytes.len(),
    decreases bytes.len(),
{
    if bytes.len() > 0 {
        lemma_hex_of_is_hex_seq(bytes.drop_first());
    }
}

/// Decoding inverts encoding: the digit pairs of `hex_of(bytes)` stand for
/// exactly `bytes`.
pub proof fn lemma_hex_round_trip(bytes: Seq<u8>)
    ensures
        hex_val_of(hex_of(bytes)) == bytes,
    decreases bytes.len(),
{
    if bytes.len() == 0 {
        assert(hex_val_of(hex_of(bytes)) =~= bytes);
    } else {
        let rest = bytes.drop_first();
        lemma_hex_round_trip(rest);
        let s = hex_of(bytes);
        assert(s.skip(2) =~= hex_of(rest));
        assert(hex_digit_val(hex_digit_char(bytes[0] / 16)) == bytes[0] / 16);
        assert(hex_digit_val(hex_digit_char(bytes[0] % 16)) == bytes[0] % 16);
        assert(hex_val_of(s) =~= bytes);
    }
}

/// A string of digit pairs stands for one byte per pair.
pub proof fn lemma_hex_val_len(s: Seq<char>)
    ensures
        hex_val_of(s).len() <= s.len(),
    decreases s.len(),
{
    if s.len() >= 2 {
        lemma_hex_val_len(s.skip(2));
    }
}

/// Hex digits are ASCII, so a hex string occupies one byte per character.
pub proof fn lemma_hex_seq_is_ascii(s: Seq<char>)
    requires
        is_hex_seq(s),
    ensures
        vstd::utf8::is_ascii_chars(s),
{
    assert forall|i: int| 0 <= i < s.len() implies '\0' <= #[trigger] s[i] <= '\u{7f}' by {
        assert(is_hex_digit(s[i]));
        vstd::utf8::char_u32_cast(s[i], s[i] as u32);
    }
}

/// Relies on `data_encoding::HEXLOWER_PERMISSIVE.encode`: two lowercase hex
/// digits per input byte, high nibble first.
#[verifier::external_body]
pub(crate) fn hex_encode(bytes: &[u8]) -> (r: String)
    requires
        bytes@.len() <= INPUT_LEN_LIMIT,
    ensures
        r@ == hex_of(bytes@),
{
    data_encoding::HEXLOWER_PERMISSIVE.encode(bytes)
}

/// Relies on `data_encoding::HEXLOWER_PERMISSIVE.decode`: succeeds exactly on
/// an even number of hex digits (either case) and returns the bytes they
/// stand for.
#[verifier::external_body]
pub(crate) fn hex_decode(s: &str) -> (r: Option<Vec<u8>>)
    requires
        s.spec_bytes().len() <= INPUT_LEN_LIMIT,
    ensures
        r is Some <==> is_hex_seq(s@),
        r matches Some(v) ==> v@ == hex_val_of(s@),
{
    data_encoding::HEXLOWER_PERMISSIVE.decode(s.as_bytes()).ok()
}

} // verus!
