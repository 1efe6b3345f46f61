//! The failures an operation can end in.

use vstd::prelude::*;

verus! {

/// What a lookup went for and did not find.
#[derive(Debug, Clone, Copy, PartialEq, Eq)]
pub enum Missing {
    /// The owner record: the ledger was never initialised.
    State,
    /// The score of a key that was never written.
    Score,
}

/// A failure that is passed on to the caller as it is.
#[derive(Debug, PartialEq, Eq)]
pub enum StdError {
    /// The validator rejected an identity string; `msg` is its reason.
    InvalidIdentity { msg: String },
    /// Nothing is stored where the operation had to read.
    NotFound { kind: Missing },
}

/// The failures of a mutating operation.
#[derive(Debug, PartialEq, Eq)]
pub enum ContractError {
    /// A failure of the kind that reads can end in too.
    Std(StdError),
    /// The caller is not the owner.
    Unauthorized {},
}

} // verus!
