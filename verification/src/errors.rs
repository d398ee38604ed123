//! The error taxonomy of the store: every failed operation reports which
//! precondition broke, and no operation silently does nothing.

use vstd::prelude::*;

verus! {

/// Why an operation on the store was refused.  Every error aborts the whole
/// operation with no state change.
#[derive(Clone, Copy, Debug, PartialEq, Eq, Structural)]
pub enum CounterError {
    /// Initialize found a record already occupying the derived location.
    AlreadyInitialized,
    /// Update found no record at the derived location.
    NotInitialized,
    /// Update found a record whose stored owner differs from the caller.
    NotOwner,
    /// No safe address exists within the bounded nonce search space.
    DerivationFailed,
}

} // verus!
