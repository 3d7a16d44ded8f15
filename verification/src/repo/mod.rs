//! Repository layer: the record types the service stores, the abstract store
//! contracts, and an in-memory implementation.

pub mod device;
pub mod incident_stats;
pub mod memory_op;
pub mod person;
pub mod team;
pub mod user_account;

use vstd::prelude::*;

verus! {

/// The persistence layer failed in a way that is not the caller's fault.
/// Deliberately opaque: store details never reach the client.
#[derive(Debug, Clone, Copy, PartialEq, Eq, Structural)]
pub struct StoreError;

/// Why replacing a record failed.
#[derive(Debug, Clone, Copy, PartialEq, Eq, Structural)]
pub enum ReplaceError {
    /// No record with the given id exists.
    NotFound,
    /// The store itself failed.
    Other(StoreError),
}

/// Why deleting a record failed.
#[derive(Debug, Clone, Copy, PartialEq, Eq, Structural)]
pub enum DeleteError {
    /// No record with the given id exists.
    NotFound,
    /// The store itself failed.
    Other(StoreError),
}

/// Why inserting a record failed.
#[derive(Debug, Clone, Copy, PartialEq, Eq, Structural)]
pub enum InsertError {
    /// A record with the given id already exists.
    AlreadyExists,
    /// The store itself failed.
    Other(StoreError),
}

} // verus!
