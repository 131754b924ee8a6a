//! The structured errors that registry operations return.

use vstd::prelude::*;

verus! {

/// Why a registry operation refused to act.
///
/// Every failure is terminal for the call and leaves the registry unchanged;
/// the caller decides whether to resubmit. Lookups of a record that was never
/// issued report `TokenNotFound` rather than aborting.
#[derive(Clone, Copy, Debug, PartialEq, Eq)]
pub enum ContractError {
    /// The acting identity is not allowed to perform the operation:
    /// it is not the admin, not an allowlisted issuer, or not the record's
    /// owner, depending on the operation.
    NotAuthorized,
    /// The named record id has never been issued.
    TokenNotFound,
    /// The record was revoked, which permanently blocks update and transfer.
    ConsentRevoked,
    /// `initialize` was called although an admin is already set.
    AlreadyInitialized,
    /// `transfer` was asked to move a record that `from` does not own.
    NotTokenOwner,
}

} // verus!
