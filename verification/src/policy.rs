//! Authorization guards: every read operation is gated by `verify_view`,
//! every mutating operation by `verify_admin`.
//!
//! The guards look only at the optional claims extracted from the request.
//! The error they return carries no detail about which check failed or
//! whether the target resource exists, to resist account enumeration.

use crate::access::{Access, Claims};
use crate::token::{token_bytes, TokenProvider, TokenVerificationFailure};
use crate::INPUT_LEN_LIMIT;
use vstd::prelude::*;
use vstd::utf8::encode_utf8;

verus! {

/// The caller is not authenticated, or not privileged enough. Deliberately
/// carries no further detail.
#[derive(Debug, Clone, Copy, PartialEq, Eq, Structural)]
pub struct Unauthorized;

/// The bearer scheme marker, `Bearer `, as bytes.
pub open spec fn bearer_bytes() -> Seq<u8> {
    seq![0x42, 0x65, 0x61, 0x72, 0x65, 0x72, 0x20]
}

/// An authorization header value with every leading `Bearer ` marker removed.
pub open spec fn strip_bearer(bytes: Seq<u8>) -> Seq<u8>
    decreases bytes.len(),
{
    if bytes.len() >= 7 && bytes.take(7) == bearer_bytes() {
        strip_bearer(bytes.skip(7))
    } else {
        bytes
    }
}

/// Extracts the request's authentication state from its optional
/// authorization header. No header means an anonymous request; a header that
/// is present must carry a token that verifies, and a header whose token does
/// not verify rejects the whole request rather than downgrading it to
/// anonymous.
pub fn authenticate(tokens: &TokenProvider, header: Option<&str>) -> (r: Result<
    Option<Claims>,
    TokenVerificationFailure,
>)
    ensures
        header is None ==> r == Ok::<Option<Claims>, TokenVerificationFailure>(None),
        r matches Ok(o) ==> (o is Some <==> header is Some),
        header matches Some(hs) ==> (r matches Ok(Some(c)) ==> strip_bearer(encode_utf8(hs@))
            == token_bytes(tokens.key_bytes(), c.sub@, c.access)),
        forall|sub: Seq<char>, a: Access|
            (header matches Some(hs) && strip_bearer(encode_utf8(hs@)) == #[trigger] token_bytes(
                tokens.key_bytes(),
                sub,
                a,
            ) && strip_bearer(encode_utf8(hs@)).len() <= INPUT_LEN_LIMIT && tokens.key_bytes().len()
                <= INPUT_LEN_LIMIT) ==> r is Ok,
{
    let hs = match header {
        None => {
            return Ok(None);
        },
        Some(hs) => hs,
    };
    let bytes = hs.as_bytes();
    let n = bytes.len();
    let mut start: usize = 0;
    proof {
        assert(bytes@.skip(0) =~= bytes@);
    }
    while n - start >= 7 && is_bearer_at(bytes, start)
        invariant
            0 <= start <= n,
            n == bytes@.len(),
            strip_bearer(bytes@) == strip_bearer(bytes@.skip(start as int)),
        decreases n - start,
    {
        proof {
            assert(bytes@.skip(start as int).take(7) =~= bytes@.subrange(
                start as int,
                start as int + 7,
            ));
            assert(bytes@.skip(start as int).skip(7) =~= bytes@.skip(start as int + 7));
        }
        start = start + 7;
    }
    proof {
        assert(strip_bearer(bytes@.skip(start as int)) == bytes@.skip(start as int)) by {
            if bytes@.skip(start as int).len() >= 7 {
                assert(bytes@.skip(start as int).take(7) =~= bytes@.subrange(
                    start as int,
                    start as int + 7,
                ));
            }
        }
    }
    let rest = vstd::slice::slice_subrange(bytes, start, n);
    match tokens.verify_token_bytes(rest) {
        Ok(c) => Ok(Some(c)),
        Err(e) => Err(e),
    }
}

/// Whether the seven bytes at `at` spell `Bearer `.
fn is_bearer_at(bytes: &[u8], at: usize) -> (r: bool)
    requires
        at + 7 <= bytes@.len(),
    ensures
        r <==> bytes@.subrange(at as int, at as int + 7) == bearer_bytes(),
{
    let ghost sub = bytes@.subrange(at as int, at as int + 7);
    let r = bytes[at] == 0x42 && bytes[at + 1] == 0x65 && bytes[at + 2] == 0x61 && bytes[at + 3]
        == 0x72 && bytes[at + 4] == 0x65 && bytes[at + 5] == 0x72 && bytes[at + 6] == 0x20;
    proof {
        assert(sub[0] == bytes@[at as int]);
        assert(sub[1] == bytes@[at as int + 1]);
        assert(sub[2] == bytes@[at as int + 2]);
        assert(sub[3] == bytes@[at as int + 3]);
        assert(sub[4] == bytes@[at as int + 4]);
        assert(sub[5] == bytes@[at as int + 5]);
        assert(sub[6] == bytes@[at as int + 6]);
        if r {
            assert(sub =~= bearer_bytes());
        }
    }
    r
}

/// Passes exactly when the request is authenticated, with any access level:
/// any authenticated principal has at least view authorization.
pub fn verify_view(claims: &Option<Claims>) -> (r: Result<(), Unauthorized>)
    ensures
        r is Ok <==> claims is Some,
{
    if claims.is_some() {
        Ok(())
    } else {
        Err(Unauthorized)
    }
}

/// Passes exactly when the request is authenticated with `Admin` access.
/// An authenticated `View` principal is rejected just like an anonymous one.
pub fn verify_admin(claims: &Option<Claims>) -> (r: Result<(), Unauthorized>)
    ensures
        r is Ok <==> (claims matches Some(c) && c.access == Access::Admin),
{
    match claims {
        Some(c) if c.access == Access::Admin => Ok(()),
        _ => Err(Unauthorized),
    }
}

} // verus!
