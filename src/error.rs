//! The reasons an operation is refused.
use vstd::prelude::*;

verus! {

/// Why an operation was rejected. A rejected operation commits nothing.
#[derive(Clone, Copy, Debug, PartialEq, Eq, Structural)]
pub enum ContractError {
    /// The caller lacks the manager, claimer or owner role.
    Unauthorized,
    /// No allocation target has the requested id, or the account is missing.
    NotFound,
    /// The caller has no staking account.
    NoDeposit,
    /// A withdrawal asks for more than is staked.
    InsufficientFunds,
    /// The positive percentages of a split do not add up to 100.
    PercentageMismatch,
    /// A split names the same target twice.
    DuplicateId,
    /// A split names a target that does not exist.
    UnknownId(u32),
    /// An edit clears a required field or carries a malformed value.
    InvalidValue,
    /// A forwarding target has no delivery code.
    MissingDeliveryCode,
    /// No time has passed since the caller's last staking-reward claim.
    NothingToClaim,
    /// No unbonding entry has matured.
    NothingClaimable,
    /// No time has passed since the last allocation accrual.
    NothingToDistribute,
    /// A deposit callback came from a contract other than the staked token.
    UntrustedSource,
    /// A reward share would be divided by a zero total stake.
    DivisionUndefined,
    /// A result does not fit its integer type.
    Overflow,
}

} // verus!
