//! Access levels and verified bearer-token claims.

use vstd::prelude::*;

verus! {

/// How much a principal may do. `Admin` is a strict superset of `View`:
/// every operation permitted to `View` is also permitted to `Admin`.
#[derive(Debug, Clone, Copy, PartialEq, Eq, Structural)]
pub enum Access {
    View,
    Admin,
}

/// The decoded, signature-verified payload of a bearer token.
///
/// The token deliberately omits issued-at and expiry fields: tokens do not
/// expire, and a later change to the account's access level does not affect
/// tokens that were already issued.
#[derive(Debug, Clone)]
pub struct Claims {
    /// Subject: the user account id the token was issued for.
    pub sub: String,
    /// The account's access level at the moment the token was issued.
    pub access: Access,
}

} // verus!
