//! Notification payloads. A successful mutating operation returns the
//! notification it decided to raise; the host that embeds the ledger is
//! responsible for emitting it to observers. A notification is an immutable
//! fact about a state change that has already happened.

use crate::ledger::AccountId;
use vstd::prelude::*;

verus! {

/// Tokens moved. A mint is represented with `from` absent, a burn with `to`
/// absent, and a peer-to-peer transfer with both present.
#[derive(Debug, Clone, Copy, PartialEq, Eq)]
pub struct Transfer {
    pub from: Option<AccountId>,
    pub to: Option<AccountId>,
    pub value: u128,
}

/// An owner granted a spender an absolute allowance of `value`.
#[derive(Debug, Clone, Copy, PartialEq, Eq)]
pub struct Approval {
    pub owner: AccountId,
    pub spender: AccountId,
    pub value: u128,
}

/// The global pause flag changed to `paused`. Raised only when the flag
/// actually flips, never for a no-op repeat.
#[derive(Debug, Clone, Copy, PartialEq, Eq)]
pub struct Paused {
    pub paused: bool,
}

/// An account's blacklist flag was set to `blacklisted`.
#[derive(Debug, Clone, Copy, PartialEq, Eq)]
pub struct BlacklistUpdated {
    pub account: AccountId,
    pub blacklisted: bool,
}

/// Owner rights moved from `previous_owner` to `new_owner`.
#[derive(Debug, Clone, Copy, PartialEq, Eq)]
pub struct OwnershipTransferred {
    pub previous_owner: AccountId,
    pub new_owner: AccountId,
}

} // verus!
