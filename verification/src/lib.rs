//! A fungible-token ledger: account balances, total supply, allowances, and
//! administrative controls (single owner, pause flag, blacklist).
//!
//! The ledger is a pure, in-memory state machine. The host that embeds it
//! supplies the caller identity for each operation, persists the state
//! between calls, and delivers the notification values that the operations
//! return. Every mutating operation is all-or-nothing: it either applies
//! completely or returns an error and leaves the ledger untouched.

pub mod errors;
pub mod events;
pub mod ledger;
pub mod sparse;

pub use errors::Error;
pub use events::{Approval, BlacklistUpdated, OwnershipTransferred, Paused, Transfer};
pub use ledger::{AccountId, Token};
