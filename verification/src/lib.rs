//! Authentication and authorization core of a company/person/incident data
//! service, together with the domain records it protects.
//!
//! The heart of the crate is credential handling: deriving a salted, iterated
//! password hash, verifying a password against a stored record, issuing and
//! checking signed bearer tokens, and gating operations behind view/admin
//! access checks. Around that core sit the plain data records (people, teams,
//! user accounts, devices) and an in-memory repository for them.

pub mod access;
pub mod auth;
pub mod b64;
pub mod common;
pub mod crockford;
pub mod crypto;
pub mod hex;
pub mod payload;
pub mod policy;
pub mod repo;
pub mod settings;
pub mod token;

use vstd::prelude::*;

verus! {

/// Input-size bound under which the cryptographic primitives and codecs this
/// crate calls are documented not to panic. Far below any realistic
/// credential, token or header size, and far below what a 32-bit address
/// space could hold eight times over.
pub const INPUT_LEN_LIMIT: usize = 0x1000_0000;

} // verus!
