use vstd::prelude::*;

verus! {

/// The error kinds returned by the ledger and the matching engine.
///
/// Every operation reports failure as a value of this type; no operation
/// panics or aborts.
#[derive(Clone, Copy, Debug, PartialEq, Eq, Structural)]
pub enum AccountingError {
    /// A deposit, withdrawal or transfer was requested with a zero amount.
    InvalidAmount,
    /// The operation referenced an account with no ledger entry.
    AccountNotFound,
    /// A withdrawal or transfer would drive a balance negative.
    InsufficientFunds,
    /// An incoming order carried a zero price or a zero amount.
    InvalidOrder,
    /// The operation would push a balance, a fill cost, or the ordinal
    /// counter past the largest representable fixed-point value.
    Overflow,
}

} // verus!
