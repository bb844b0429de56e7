use vstd::prelude::*;

verus! {

/// Why a ledger call failed. A failed call leaves the ledger unchanged.
#[derive(Debug, Clone, Copy, PartialEq, Eq, Structural)]
pub enum LedgerError {
    /// The immediate caller is not the administrator, or not whitelisted.
    Unauthorized,
    /// A debit asked for more than the entry holds.
    InsufficientBalance { balance: u128, requested: u128 },
    /// The notification's message is not a well-formed kind tag.
    MalformedMessage,
    /// A credit would exceed the largest representable amount.
    ArithmeticOverflow,
    /// A continuation names a relay that is not pending.
    UnknownRelay,
}

} // verus!
