//! URL-safe base64 without padding, as bearer tokens are framed with.
//!
//! The encoding is specified exactly by [`b64u_of`]; the executable work is
//! done by `data_encoding`'s URL-safe no-padding codec behind two trusted
//! wrappers. That codec checks trailing bits, so decoding succeeds exactly on
//! canonical encodings.

use crate::INPUT_LEN_LIMIT;
use vstd::prelude::*;

verus! {

/// The alphabet byte for a six-bit value: `A`-`Z`, `a`-`z`, `0`-`9`, `-`, `_`.
pub open spec fn b64_char(v: u8) -> u8
    recommends
        v < 64,
{
    if v < 26 {
        (0x41 + v) as u8
    } else if v < 52 {
        (0x61 + (v - 26)) as u8
    } else if v < 62 {
        (0x30 + (v - 52)) as u8
    } else if v == 62 {
        0x2d
    } else {
        0x5f
    }
}

/// URL-safe base64 without padding: three bytes become four alphabet bytes,
/// most significant bits first; a trailing group of one or two bytes becomes
/// two or three, with the unused low bits zero.
pub open spec fn b64u_of(bytes: Seq<u8>) -> Seq<u8>
    decreases bytes.len(),
{
    if bytes.len() == 0 {
        Seq::empty()
    } else if bytes.len() == 1 {
        seq![b64_char((bytes[0] / 4) as u8), b64_char(((bytes[0] % 4) * 16) as u8)]
    } else if bytes.len() == 2 {
        seq![
            b64_char((bytes[0] / 4) as u8),
            b64_char(((bytes[0] % 4) * 16 + bytes[1] / 16) as u8),
            b64_char(((bytes[1] % 16) * 4) as u8),
        ]
    } else {
        seq![
            b64_char((bytes[0] / 4) as u8),
            b64_char(((bytes[0] % 4) * 16 + bytes[1] / 16) as u8),
            b64_char(((bytes[1] % 16) * 4 + bytes[2] / 64) as u8),
            b64_char((bytes[2] % 64) as u8),
        ] + b64u_of(bytes.skip(3))
    }
}

/// A byte of the URL-safe base64 alphabet.
pub open spec fn is_b64u_byte(b: u8) -> bool {
    (0x41 <= b <= 0x5a) || (0x61 <= b <= 0x7a) || (0x30 <= b <= 0x39) || b == 0x2d || b == 0x5f
}

/// Every byte an encoding produces is in the alphabet; in particular it is
/// ASCII and is not a dot, so tokens can be split on dots.
pub proof fn lemma_b64u_bytes_in_alphabet(bytes: Seq<u8>)
    ensures
        forall|i: int| 0 <= i < b64u_of(bytes).len() ==> is_b64u_byte(#[trigger] b64u_of(bytes)[i]),
        forall|i: int|
            0 <= i < b64u_of(bytes).len() ==> b64u_of(bytes)[i] != 0x2e && b64u_of(bytes)[i]
                < 0x80,
    decreases bytes.len(),
{
    let e = b64u_of(bytes);
    if bytes.len() >= 3 {
        lemma_b64u_bytes_in_alphabet(bytes.skip(3));
        let rest = b64u_of(bytes.skip(3));
        assert forall|i: int| 0 <= i < e.len() implies is_b64u_byte(#[trigger] e[i]) by {
            if i >= 4 {
                assert(e[i] == rest[i - 4]);
            }
        }
    }
    assert forall|i: int| 0 <= i < e.len() implies e[i] != 0x2e && e[i] < 0x80 by {
        assert(is_b64u_byte(e[i]));
    }
}

/// The length of an encoding, as a function of the input length alone.
pub proof fn lemma_b64u_len(bytes: Seq<u8>)
    ensures
        b64u_of(bytes).len() == (bytes.len() * 4 + 2) / 3,
    decreases bytes.len(),
{
    if bytes.len() >= 3 {
        lemma_b64u_len(bytes.skip(3));
    }
}

/// Alphabet bytes decode to at most one six-bit value.
proof fn lemma_b64_char_injective(v1: u8, v2: u8)
    requires
        v1 < 64,
        v2 < 64,
        b64_char(v1) == b64_char(v2),
    ensures
        v1 == v2,
{
}

/// Encoding is injective: equal encodings come from equal inputs.
pub proof fn lemma_b64u_injective(a: Seq<u8>, b: Seq<u8>)
    requires
        b64u_of(a) == b64u_of(b),
    ensures
        a == b,
    decreases a.len(),
{
    lemma_b64u_len(a);
    lemma_b64u_len(b);
    if a.len() == 0 {
        assert(a =~= b);
    } else if a.len() == 1 {
        assert(b.len() == 1);
        lemma_b64_char_injective((a[0] / 4) as u8, (b[0] / 4) as u8);
        lemma_b64_char_injective(((a[0] % 4) * 16) as u8, ((b[0] % 4) * 16) as u8);
        assert(a =~= b);
    } else if a.len() == 2 {
        assert(b.len() == 2);
        lemma_b64_char_injective((a[0] / 4) as u8, (b[0] / 4) as u8);
        lemma_b64_char_injective(
            ((a[0] % 4) * 16 + a[1] / 16) as u8,
            ((b[0] % 4) * 16 + b[1] / 16) as u8,
        );
        lemma_b64_char_injective(((a[1] % 16) * 4) as u8, ((b[1] % 16) * 4) as u8);
        assert(a =~= b);
    } else {
        assert(b.len() >= 3);
        let ea = b64u_of(a);
        let eb = b64u_of(b);
        assert(ea[0] == b64_char((a[0] / 4) as u8) && ea[1] == b64_char(
            ((a[0] % 4) * 16 + a[1] / 16) as u8,
        ) && ea[2] == b64_char(((a[1] % 16) * 4 + a[2] / 64) as u8) && ea[3] == b64_char(
            (a[2] % 64) as u8,
        ));
        assert(eb[0] == b64_char((b[0] / 4) as u8) && eb[1] == b64_char(
            ((b[0] % 4) * 16 + b[1] / 16) as u8,
        ) && eb[2] == b64_char(((b[1] % 16) * 4 + b[2] / 64) as u8) && eb[3] == b64_char(
            (b[2] % 64) as u8,
        ));
        lemma_b64_char_injective((a[0] / 4) as u8, (b[0] / 4) as u8);
        lemma_b64_char_injective(
            ((a[0] % 4) * 16 + a[1] / 16) as u8,
            ((b[0] % 4) * 16 + b[1] / 16) as u8,
        );
        lemma_b64_char_injective(
            ((a[1] % 16) * 4 + a[2] / 64) as u8,
            ((b[1] % 16) * 4 + b[2] / 64) as u8,
        );
        lemma_b64_char_injective((a[2] % 64) as u8, (b[2] % 64) as u8);
        assert(a[0] == b[0] && a[1] == b[1] && a[2] == b[2]);
        assert(b64u_of(a.skip(3)) =~= b64u_of(b.skip(3))) by {
            assert forall|i: int| 0 <= i < ea.len() - 4 implies b64u_of(a.skip(3))[i] == b64u_of(
                b.skip(3),
            )[i] by {
                assert(b64u_of(a.skip(3))[i] == ea[i + 4]);
                assert(b64u_of(b.skip(3))[i] == eb[i + 4]);
            }
            lemma_b64u_len(a.skip(3));
            lemma_b64u_len(b.skip(3));
        }
        lemma_b64u_injective(a.skip(3), b.skip(3));
        assert forall|i: int| 0 <= i < a.len() implies a[i] == b[i] by {
            if i >= 3 {
                assert(a[i] == a.skip(3)[i - 3]);
                assert(b[i] == b.skip(3)[i - 3]);
            }
        }
        assert(a =~= b);
    }
}

/// Relies on `data_encoding::BASE64URL_NOPAD.encode`: URL-safe base64 without
/// padding, most significant bits first.
#[verifier::external_body]
pub(crate) fn b64u_encode(bytes: &[u8]) -> (r: Vec<u8>)
    requires
        bytes@.len() <= INPUT_LEN_LIMIT,
    ensures
        r@ == b64u_of(bytes@),
{
    data_encoding::BASE64URL_NOPAD.encode(bytes).into_bytes()
}

/// Relies on `data_encoding::BASE64URL_NOPAD.decode`: the codec checks
/// trailing bits, so it succeeds exactly on canonical encodings and returns
/// the encoded bytes.
#[verifier::external_body]
pub(crate) fn b64u_decode(bytes: &[u8]) -> (r: Option<Vec<u8>>)
    requires
        bytes@.len() <= INPUT_LEN_LIMIT,
    ensures
        r matches Some(v) ==> bytes@ == b64u_of(v@),
        forall|orig: Seq<u8>| bytes@ == b64u_of(orig) ==> r is Some,
{
    data_encoding::BASE64URL_NOPAD.decode(bytes).ok()
}

} // verus!
