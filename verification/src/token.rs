//! Signed bearer tokens: compact three-part tokens whose payload carries the
//! claims document and whose signature is an HMAC under a server-held key.
//!
//! [`TokenProvider::verify_token`] accepts exactly the tokens
//! [`TokenProvider::create_token`] produces under the same key (up to finding
//! a second preimage of the HMAC): verification of anything else fails, and
//! what a verified token's claims are is pinned by [`token_bytes`].

use crate::access::{Access, Claims};
use crate::b64::{
    b64u_decode, b64u_encode, b64u_of, lemma_b64u_bytes_in_alphabet, lemma_b64u_injective,
    lemma_b64u_len,
};
use crate::crypto::{hmac_sha256, hmac_sha256_sign, hmac_sha256_verify};
use crate::payload::{
    build_payload, lemma_esc_len, lemma_payload_injective, parse_payload, payload_bytes,
};
use crate::INPUT_LEN_LIMIT;
use vstd::prelude::*;
use vstd::string::StringSliceAdditionalSpecFns;
use vstd::utf8::{
    encode_utf8, encode_utf8_decode_utf8, encode_utf8_valid_utf8, is_ascii_chars,
    is_ascii_chars_encode_utf8, valid_utf8,
};

verus! {

/// The token did not verify: its structure, encoding or signature is wrong.
/// Which of these failed is deliberately not told apart.
#[derive(Debug, Clone, Copy, PartialEq, Eq, Structural)]
pub struct TokenVerificationFailure;

/// The fixed token header: `{"alg":"HS256","typ":"JWT"}`.
pub open spec fn header_json() -> Seq<u8> {
    seq![
        0x7b, 0x22, 0x61, 0x6c, 0x67, 0x22, 0x3a, 0x22, 0x48, 0x53, 0x32, 0x35, 0x36, 0x22, 0x2c,
        0x22, 0x74, 0x79, 0x70, 0x22, 0x3a, 0x22, 0x4a, 0x57, 0x54, 0x22, 0x7d,
    ]
}

/// The part of the token that is signed: encoded header, dot, encoded claims.
pub open spec fn signing_bytes(sub: Seq<char>, a: Access) -> Seq<u8> {
    b64u_of(header_json()) + seq![0x2e] + b64u_of(payload_bytes(encode_utf8(sub), a))
}

/// The whole token for a subject and access level under a key: the signed
/// part, a dot, and the encoded HMAC tag of the signed part.
pub open spec fn token_bytes(key: Seq<u8>, sub: Seq<char>, a: Access) -> Seq<u8> {
    signing_bytes(sub, a) + seq![0x2e] + b64u_of(hmac_sha256(key, signing_bytes(sub, a)))
}

/// Equal tokens under one key carry equal claims: the token determines its
/// subject and access level.
pub proof fn lemma_token_injective(
    key: Seq<u8>,
    sub1: Seq<char>,
    a1: Access,
    sub2: Seq<char>,
    a2: Access,
)
    requires
        token_bytes(key, sub1, a1) == token_bytes(key, sub2, a2),
    ensures
        sub1 == sub2,
        a1 == a2,
{
    let h = b64u_of(header_json());
    let pl1 = payload_bytes(encode_utf8(sub1), a1);
    let pl2 = payload_bytes(encode_utf8(sub2), a2);
    let p1 = b64u_of(pl1);
    let p2 = b64u_of(pl2);
    lemma_b64u_bytes_in_alphabet(pl1);
    lemma_b64u_bytes_in_alphabet(pl2);
    let t = token_bytes(key, sub1, a1);
    assert(t[(h.len() + 1 + p1.len()) as int] == 0x2e);
    assert(t[(h.len() + 1 + p2.len()) as int] == 0x2e);
    if p1.len() < p2.len() {
        assert(t[(h.len() + 1 + p1.len()) as int] == p2[p1.len() as int]);
        assert(false);
    }
    if p2.len() < p1.len() {
        assert(t[(h.len() + 1 + p2.len()) as int] == p1[p2.len() as int]);
        assert(false);
    }
    assert(p1 =~= t.subrange(h.len() + 1 as int, (h.len() + 1 + p1.len()) as int));
    assert(p2 =~= t.subrange(h.len() + 1 as int, (h.len() + 1 + p2.len()) as int));
    lemma_b64u_injective(pl1, pl2);
    lemma_payload_injective(encode_utf8(sub1), a1, encode_utf8(sub2), a2);
    encode_utf8_decode_utf8(sub1);
    encode_utf8_decode_utf8(sub2);
}

/// A byte string of ASCII bytes is valid UTF-8, decoding byte for byte.
proof fn lemma_ascii_bytes_valid_utf8(b: Seq<u8>)
    requires
        forall|i: int| 0 <= i < b.len() ==> b[i] < 0x80,
    ensures
        valid_utf8(b),
{
    let chars = Seq::new(b.len(), |i: int| b[i] as char);
    assert(is_ascii_chars(chars)) by {
        assert forall|i: int| 0 <= i < chars.len() implies '\0' <= #[trigger] chars[i]
            <= '\u{7f}' by {
            vstd::utf8::char_u32_cast(chars[i], chars[i] as u32);
            assert(chars[i] == b[i] as char);
            assert(chars[i] as u32 == b[i] as u32);
        }
    }
    is_ascii_chars_encode_utf8(chars);
    assert(encode_utf8(chars) =~= b) by {
        assert forall|i: int| 0 <= i < b.len() implies encode_utf8(chars)[i] == b[i] by {
            assert(encode_utf8(chars)[i] == chars[i] as u8);
            assert(chars[i] as u32 == b[i] as u32);
        }
    }
    encode_utf8_valid_utf8(chars);
}

/// How a token decomposes: where its two dots are, that its three parts hold
/// no further dot, and what each part is.
proof fn lemma_token_structure(key: Seq<u8>, sub: Seq<char>, a: Access)
    ensures
        ({
            let h = b64u_of(header_json());
            let p = b64u_of(payload_bytes(encode_utf8(sub), a));
            let s = b64u_of(hmac_sha256(key, signing_bytes(sub, a)));
            let t = token_bytes(key, sub, a);
            &&& t.len() == h.len() + 2 + p.len() + s.len()
            &&& t[h.len() as int] == 0x2e
            &&& t[(h.len() + 1 + p.len()) as int] == 0x2e
            &&& forall|k: int|
                0 <= k < t.len() && k != h.len() && k != h.len() + 1 + p.len() ==> t[k] != 0x2e
            &&& t.subrange(0, h.len() as int) == h
            &&& t.subrange(h.len() + 1 as int, (h.len() + 1 + p.len()) as int) == p
            &&& t.subrange((h.len() + 2 + p.len()) as int, t.len() as int) == s
            &&& t.subrange(0, (h.len() + 1 + p.len()) as int) == signing_bytes(sub, a)
            &&& forall|k: int| 0 <= k < t.len() ==> t[k] < 0x80
        }),
{
    let h = b64u_of(header_json());
    let p = b64u_of(payload_bytes(encode_utf8(sub), a));
    let s = b64u_of(hmac_sha256(key, signing_bytes(sub, a)));
    let t = token_bytes(key, sub, a);
    lemma_b64u_bytes_in_alphabet(header_json());
    lemma_b64u_bytes_in_alphabet(payload_bytes(encode_utf8(sub), a));
    lemma_b64u_bytes_in_alphabet(hmac_sha256(key, signing_bytes(sub, a)));
    assert(t =~= h + seq![0x2eu8] + p + seq![0x2eu8] + s);
    assert forall|k: int|
        0 <= k < t.len() && k != h.len() && k != h.len() + 1 + p.len() implies t[k] != 0x2e by {
        if k < h.len() {
            assert(t[k] == h[k]);
        } else if k < h.len() + 1 + p.len() {
            assert(t[k] == p[k - h.len() - 1]);
        } else {
            assert(t[k] == s[k - h.len() - 2 - p.len()]);
        }
    }
    assert forall|k: int| 0 <= k < t.len() implies t[k] < 0x80 by {
        if k < h.len() {
            assert(t[k] == h[k]);
        } else if k == h.len() || k == h.len() + 1 + p.len() {
        } else if k < h.len() + 1 + p.len() {
            assert(t[k] == p[k - h.len() - 1]);
        } else {
            assert(t[k] == s[k - h.len() - 2 - p.len()]);
        }
    }
    assert(t.subrange(0, h.len() as int) =~= h);
    assert(t.subrange(h.len() + 1 as int, (h.len() + 1 + p.len()) as int) =~= p);
    assert(t.subrange((h.len() + 2 + p.len()) as int, t.len() as int) =~= s);
    assert(t.subrange(0, (h.len() + 1 + p.len()) as int) =~= signing_bytes(sub, a));
}

/// The fixed token header as bytes.
fn header_vec() -> (r: Vec<u8>)
    ensures
        r@ == header_json(),
{
    let mut v: Vec<u8> = Vec::new();
    v.push(0x7b);
    v.push(0x22);
    v.push(0x61);
    v.push(0x6c);
    v.push(0x67);
    v.push(0x22);
    v.push(0x3a);
    v.push(0x22);
    v.push(0x48);
    v.push(0x53);
    v.push(0x32);
    v.push(0x35);
    v.push(0x36);
    v.push(0x22);
    v.push(0x2c);
    v.push(0x22);
    v.push(0x74);
    v.push(0x79);
    v.push(0x70);
    v.push(0x22);
    v.push(0x3a);
    v.push(0x22);
    v.push(0x4a);
    v.push(0x57);
    v.push(0x54);
    v.push(0x22);
    v.push(0x7d);
    proof {
        assert(v@ =~= header_json());
    }
    v
}

/// Relies on `String::from_utf8`: succeeds exactly on valid UTF-8 and returns
/// the string of those bytes.
#[verifier::external_body]
pub(crate) fn bytes_to_string(v: Vec<u8>) -> (r: Option<String>)
    ensures
        r is Some <==> valid_utf8(v@),
        r matches Some(s) ==> encode_utf8(s@) == v@,
{
    String::from_utf8(v).ok()
}

/// The first dot at or after `from`.
fn find_dot(bytes: &[u8], from: usize) -> (r: Option<usize>)
    requires
        from <= bytes@.len(),
    ensures
        r matches Some(i) ==> from <= i < bytes@.len() && bytes@[i as int] == 0x2e && (forall|
            k: int,
        |
            from <= k < i ==> bytes@[k] != 0x2e),
        r is None ==> forall|k: int| from <= k < bytes@.len() ==> bytes@[k] != 0x2e,
{
    let n = bytes.len();
    let mut i: usize = from;
    while i < n
        invariant
            from <= i <= n,
            n == bytes@.len(),
            forall|k: int| from <= k < i ==> bytes@[k] != 0x2e,
        decreases n - i,
    {
        if bytes[i] == 0x2e {
            return Some(i);
        }
        i = i + 1;
    }
    None
}

/// Whether `p` holds exactly `pat` starting at `at`.
fn token_bytes_eq_at(p: &[u8], at: usize, pat: &[u8]) -> (r: bool)
    requires
        at + pat@.len() <= p@.len(),
    ensures
        r <==> p@.subrange(at as int, at as int + pat@.len() as int) == pat@,
{
    let ghost sub = p@.subrange(at as int, at as int + pat@.len() as int);
    let n = p.len();
    let mut i: usize = 0;
    while i < pat.len()
        invariant
            n == p@.len(),
            at + pat@.len() <= p@.len(),
            0 <= i <= pat@.len(),
            sub == p@.subrange(at as int, at as int + pat@.len() as int),
            forall|j: int| 0 <= j < i ==> p@[at + j] == pat@[j],
        decreases pat@.len() - i,
    {
        if p[at + i] != pat[i] {
            proof {
                assert(sub[i as int] == p@[at + i]);
            }
            return false;
        }
        i = i + 1;
    }
    proof {
        assert(sub =~= pat@);
    }
    true
}

/// Issues and verifies bearer tokens under an immutable symmetric key, set
/// once at construction from process configuration.
#[derive(Debug, Clone)]
pub struct TokenProvider {
    pub private_key: String,
}

impl TokenProvider {
    /// The signing key as the byte string the HMAC uses.
    pub open spec fn key_bytes(&self) -> Seq<u8> {
        encode_utf8(self.private_key@)
    }

    /// Issues the token for a subject and its access level at issue time.
    /// The token carries no expiry: it is valid for as long as the key is.
    pub fn create_token(&self, user_account_id: &str, access: Access) -> (r: String)
        requires
            user_account_id.spec_bytes().len() <= 0x100_0000,
            self.key_bytes().len() <= INPUT_LEN_LIMIT,
        ensures
            encode_utf8(r@) == token_bytes(self.key_bytes(), user_account_id@, access),
            encode_utf8(r@).len() <= INPUT_LEN_LIMIT,
    {
        let sub_bytes = user_account_id.as_bytes();
        let admin = access == Access::Admin;
        let payload = build_payload(sub_bytes, admin);
        proof {
            lemma_esc_len(sub_bytes@);
            lemma_b64u_len(payload@);
            lemma_b64u_len(header_json());
        }
        let payload_b64 = b64u_encode(payload.as_slice());
        let header = header_vec();
        let mut signing = b64u_encode(header.as_slice());
        signing.push(0x2e);
        let mut pb = payload_b64;
        signing.append(&mut pb);
        let ghost acc = if admin {
            Access::Admin
        } else {
            Access::View
        };
        proof {
            assert(acc == access);
            assert(signing@ =~= signing_bytes(user_account_id@, access));
        }
        let tag = hmac_sha256_sign(self.private_key.as_str().as_bytes(), signing.as_slice());
        proof {
            lemma_b64u_len(tag@);
        }
        let mut sig_b64 = b64u_encode(tag.as_slice());
        let mut token = signing;
        token.push(0x2e);
        token.append(&mut sig_b64);
        proof {
            assert(token@ =~= token_bytes(self.key_bytes(), user_account_id@, access));
            lemma_token_structure(self.key_bytes(), user_account_id@, access);
            lemma_ascii_bytes_valid_utf8(token@);
        }
        match bytes_to_string(token) {
            Some(s) => s,
            None => {
                proof {
                    assert(false);
                }
                String::new()
            },
        }
    }

    /// Verifies a token string against the key. Exactly the tokens
    /// [`Self::create_token`] produces under this key are accepted (within
    /// the size bounds below which the codecs are total); any other
    /// structure, encoding or signature fails, with no detail told apart.
    pub fn verify_token(&self, token: &str) -> (r: Result<Claims, TokenVerificationFailure>)
        ensures
            r matches Ok(c) ==> encode_utf8(token@) == token_bytes(
                self.key_bytes(),
                c.sub@,
                c.access,
            ),
            forall|sub: Seq<char>, a: Access|
                (encode_utf8(token@) == #[trigger] token_bytes(self.key_bytes(), sub, a)
                    && encode_utf8(token@).len() <= INPUT_LEN_LIMIT && self.key_bytes().len()
                    <= INPUT_LEN_LIMIT) ==> r is Ok,
    {
        self.verify_token_bytes(token.as_bytes())
    }

    /// Verifies a token given as its UTF-8 bytes; see [`Self::verify_token`].
    #[verifier::rlimit(60)]
    #[verifier::spinoff_prover]
    pub fn verify_token_bytes(&self, bytes: &[u8]) -> (r: Result<Claims, TokenVerificationFailure>)
        ensures
            r matches Ok(c) ==> bytes@ == token_bytes(self.key_bytes(), c.sub@, c.access),
            forall|sub: Seq<char>, a: Access|
                (bytes@ == #[trigger] token_bytes(self.key_bytes(), sub, a) && bytes@.len()
                    <= INPUT_LEN_LIMIT && self.key_bytes().len() <= INPUT_LEN_LIMIT) ==> r is Ok,
    {
        let ghost kb = self.key_bytes();
        let ghost tb = bytes@;
        let n = bytes.len();
        if n > INPUT_LEN_LIMIT {
            return Err(TokenVerificationFailure);
        }
        let key = self.private_key.as_str().as_bytes();
        if key.len() > INPUT_LEN_LIMIT {
            return Err(TokenVerificationFailure);
        }
        let ghost h = b64u_of(header_json());
        let i = match find_dot(bytes, 0) {
            Some(i) => i,
            None => {
                proof {
                    assert forall|sub: Seq<char>, a: Access|
                        tb != #[trigger] token_bytes(kb, sub, a) by {
                        if tb == token_bytes(kb, sub, a) {
                            lemma_token_structure(kb, sub, a);
                            assert(tb[h.len() as int] == 0x2e);
                        }
                    }
                }
                return Err(TokenVerificationFailure);
            },
        };
        let j = match find_dot(bytes, i + 1) {
            Some(j) => j,
            None => {
                proof {
                    assert forall|sub: Seq<char>, a: Access|
                        tb != #[trigger] token_bytes(kb, sub, a) by {
                        if tb == token_bytes(kb, sub, a) {
                            lemma_token_structure(kb, sub, a);
                            let p = b64u_of(payload_bytes(encode_utf8(sub), a));
                            assert(i == h.len());
                            assert(tb[(h.len() + 1 + p.len()) as int] == 0x2e);
                        }
                    }
                }
                return Err(TokenVerificationFailure);
            },
        };
        match find_dot(bytes, j + 1) {
            Some(k) => {
                proof {
                    assert forall|sub: Seq<char>, a: Access|
                        tb != #[trigger] token_bytes(kb, sub, a) by {
                        if tb == token_bytes(kb, sub, a) {
                            lemma_token_structure(kb, sub, a);
                            let p = b64u_of(payload_bytes(encode_utf8(sub), a));
                            assert(i == h.len());
                            assert(j == h.len() + 1 + p.len());
                            assert(tb[k as int] == 0x2e && k > j);
                        }
                    }
                }
                return Err(TokenVerificationFailure);
            },
            None => {},
        }
        let header = header_vec();
        let hb = b64u_encode(header.as_slice());
        if i != hb.len() || !token_bytes_eq_at(bytes, 0, hb.as_slice()) {
            proof {
                assert forall|sub: Seq<char>, a: Access|
                    tb != #[trigger] token_bytes(kb, sub, a) by {
                    if tb == token_bytes(kb, sub, a) {
                        lemma_token_structure(kb, sub, a);
                        assert(i == h.len());
                        assert(tb.subrange(0, i as int) == hb@);
                    }
                }
            }
            return Err(TokenVerificationFailure);
        }
        let payload_b64 = vstd::slice::slice_subrange(bytes, i + 1, j);
        let payload = match b64u_decode(payload_b64) {
            Some(p) => p,
            None => {
                proof {
                    assert forall|sub: Seq<char>, a: Access|
                        tb != #[trigger] token_bytes(kb, sub, a) by {
                        if tb == token_bytes(kb, sub, a) {
                            lemma_token_structure(kb, sub, a);
                            let p = b64u_of(payload_bytes(encode_utf8(sub), a));
                            assert(i == h.len());
                            assert(j == h.len() + 1 + p.len());
                            assert(payload_b64@ == b64u_of(payload_bytes(encode_utf8(sub), a)));
                        }
                    }
                }
                return Err(TokenVerificationFailure);
            },
        };
        let parsed = match parse_payload(payload.as_slice()) {
            Some(x) => x,
            None => {
                proof {
                    assert forall|sub: Seq<char>, a: Access|
                        tb != #[trigger] token_bytes(kb, sub, a) by {
                        if tb == token_bytes(kb, sub, a) {
                            lemma_token_structure(kb, sub, a);
                            let pl = payload_bytes(encode_utf8(sub), a);
                            assert(i == h.len());
                            assert(j == h.len() + 1 + b64u_of(pl).len());
                            assert(payload_b64@ == b64u_of(pl));
                            lemma_b64u_injective(payload@, pl);
                        }
                    }
                }
                return Err(TokenVerificationFailure);
            },
        };
        let (sub_bytes, access) = parsed;
        let sig_b64 = vstd::slice::slice_subrange(bytes, j + 1, n);
        let sig = match b64u_decode(sig_b64) {
            Some(s) => s,
            None => {
                proof {
                    assert forall|sub: Seq<char>, a: Access|
                        tb != #[trigger] token_bytes(kb, sub, a) by {
                        if tb == token_bytes(kb, sub, a) {
                            lemma_token_structure(kb, sub, a);
                            let p = b64u_of(payload_bytes(encode_utf8(sub), a));
                            assert(i == h.len());
                            assert(j == h.len() + 1 + p.len());
                            assert(sig_b64@ == b64u_of(hmac_sha256(kb, signing_bytes(sub, a))));
                        }
                    }
                }
                return Err(TokenVerificationFailure);
            },
        };
        let signing = vstd::slice::slice_subrange(bytes, 0, j);
        if !hmac_sha256_verify(key, signing, sig.as_slice()) {
            proof {
                assert forall|sub: Seq<char>, a: Access|
                    tb != #[trigger] token_bytes(kb, sub, a) by {
                    if tb == token_bytes(kb, sub, a) {
                        lemma_token_structure(kb, sub, a);
                        let p = b64u_of(payload_bytes(encode_utf8(sub), a));
                        assert(i == h.len());
                        assert(j == h.len() + 1 + p.len());
                        assert(sig_b64@ == b64u_of(hmac_sha256(kb, signing_bytes(sub, a))));
                        lemma_b64u_injective(sig@, hmac_sha256(kb, signing_bytes(sub, a)));
                        assert(signing@ == signing_bytes(sub, a));
                    }
                }
            }
            return Err(TokenVerificationFailure);
        }
        match bytes_to_string(sub_bytes) {
            Some(s) => {
                proof {
                    assert(payload@ == payload_bytes(sub_bytes@, access));
                    assert(encode_utf8(s@) == sub_bytes@);
                    assert(tb.subrange(0, i as int) == h);
                    assert(payload_b64@ == b64u_of(payload@));
                    assert(signing@ =~= tb.subrange(0, i as int) + seq![0x2eu8] + payload_b64@);
                    assert(signing@ == signing_bytes(s@, access));
                    assert(sig@ == hmac_sha256(kb, signing@));
                    assert(sig_b64@ == b64u_of(sig@));
                    assert(tb =~= signing@ + seq![0x2eu8] + sig_b64@);
                    assert(tb == token_bytes(kb, s@, access));
                }
                Ok(Claims { sub: s, access })
            },
            None => {
                proof {
                    assert forall|sub: Seq<char>, a: Access|
                        tb != #[trigger] token_bytes(kb, sub, a) by {
                        if tb == token_bytes(kb, sub, a) {
                            lemma_token_structure(kb, sub, a);
                            let pl = payload_bytes(encode_utf8(sub), a);
                            assert(i == h.len());
                            assert(j == h.len() + 1 + b64u_of(pl).len());
                            assert(payload_b64@ == b64u_of(pl));
                            lemma_b64u_injective(payload@, pl);
                            assert(payload@ == payload_bytes(sub_bytes@, access));
                            lemma_payload_injective(sub_bytes@, access, encode_utf8(sub), a);
                            encode_utf8_valid_utf8(sub);
                        }
                    }
                }
                Err(TokenVerificationFailure)
            },
        }
    }
}

} // verus!
