//! The error taxonomy of the ledger. Every error is a local validation
//! failure reported synchronously to the caller; a failing operation never
//! applies any part of its effect.

use vstd::prelude::*;

verus! {

/// Why a ledger operation was rejected.
#[derive(Debug, Clone, Copy, PartialEq, Eq)]
pub enum Error {
    /// A debit exceeds the account's current balance.
    InsufficientBalance,
    /// A delegated spend exceeds the remaining allowance.
    InsufficientAllowance,
    /// The caller lacks the privilege the operation requires, or the
    /// operation acts on the protected owner account.
    Unauthorized,
    /// An arithmetic step would leave the unsigned 128-bit range.
    Overflow,
    /// A zero amount where a positive amount is required.
    InvalidAmount,
    /// A pause-gated operation was attempted while the ledger is paused.
    ContractPaused,
    /// The operation references a blacklisted account as sender, recipient,
    /// or spender.
    AccountBlacklisted,
    /// An approval where owner and spender are the same identity.
    SelfApproval,
}

} // verus!
