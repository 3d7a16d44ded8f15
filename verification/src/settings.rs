//! Process configuration: what the service is given at startup. Reading it
//! from the environment is the host program's job; the library only holds the
//! values.

use vstd::prelude::*;

verus! {

/// Startup configuration: where the database is and the token signing key.
/// Both are set once at process start and held immutably.
#[derive(Debug, Clone)]
pub struct Settings {
    pub db_uri: String,
    pub private_key: String,
}

} // verus!
