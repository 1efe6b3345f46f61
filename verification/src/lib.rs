//! An owner-gated score ledger.
//!
//! One account, the owner, may set the score kept for a holder identity and a
//! token label; anybody may read a score or ask who the owner is. The ledger
//! is an explicit value that its host loads before an operation and saves
//! after it. Identity strings are judged by the host's validator, whose
//! verdict the operations take as an argument.

pub mod contract;
pub mod error;
pub mod laws;
pub mod msg;
pub mod state;
pub mod store;
