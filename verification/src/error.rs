//! The error taxonomy of the breeding ledger.
//!
//! Every operation fails as a whole: an error means no state was changed.

use vstd::prelude::*;

verus! {

/// The reason a request was rejected because the record (or the request
/// itself) is in the wrong state for it.
#[derive(Clone, Copy, Debug, PartialEq, Eq, Structural)]
pub enum InvalidStateKind {
    /// A breed request must name both parent identifiers.
    MissingParents,
    /// The record's maturity time has not been reached yet.
    NotMatured,
    /// The record was already settled; settlement happens exactly once.
    AlreadySettled,
}

/// The errors an operation of the ledger can return.
#[derive(Clone, Copy, Debug, PartialEq, Eq, Structural)]
pub enum BreedError {
    /// The caller does not hold the identity the operation demands.
    Unauthorized,
    /// No record exists under the given identifier.
    NotFound,
    /// The allocator is at its capacity limit; no further record is issued.
    CapacityExceeded,
    /// The request is premature, repeated, or malformed.
    InvalidState(InvalidStateKind),
    /// A fund withdrawal was requested while the custodied balance is zero.
    InsufficientBalance,
}

} // verus!
