use vstd::prelude::*;

verus! {

/// Failure reason of a ledger operation.
///
/// Every fallible operation of this crate returns one of these instead of
/// mutating anything: an `Err` always leaves the state exactly as it was,
/// so the host can treat a failed call as having had no effect.
#[derive(Clone, Copy, Debug, PartialEq, Eq, Structural)]
pub enum PlaceError {
    /// An argument was rejected: a coordinate or color out of range, a
    /// zero-amount or self transfer, an unknown account or row index, or a
    /// caller that is not allowed to invoke the operation.
    ValidationFailure,
    /// A charge or transfer amount exceeds the relevant balance slot.
    InsufficientBalance,
    /// An escrowed transfer was initiated without enough remaining compute
    /// budget for the receiver's callback and the resolution step.
    InsufficientComputeBudget,
    /// A vault withdrawal was attempted by someone other than the vault's
    /// registered receiver.
    NotVaultOwner,
    /// The named vault does not exist (never created, or already resolved).
    VaultNotFound,
    /// A vault withdrawal asked for more than the vault still holds.
    InsufficientVaultBalance,
    /// A checked addition or multiplication would have wrapped.
    ArithmeticOverflow,
    /// A checked subtraction would have wrapped (the supplied time stands
    /// before a stored accrual timestamp).
    ArithmeticUnderflow,
}

} // verus!
