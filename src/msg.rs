//! Messages in and out of the ledger, and the token actions it asks for.
use vstd::prelude::*;
use crate::state::{Allocation, State, UnbondingEntry, UserInfo};

verus! {

/// What a ledger is created with.
#[derive(Clone, Debug, PartialEq, Eq)]
pub struct InstantiateMsg {
    pub erth_contract: String,
    pub erth_hash: String,
}

/// The commands a ledger takes. `Receive` is the token contract's deposit
/// callback; its `msg` holds an encoded `ReceiveMsg`.
#[derive(Clone, Debug, PartialEq, Eq)]
pub enum ExecuteMsg {
    Withdraw { amount: u128 },
    Claim {},
    SetAllocation { percentages: Vec<crate::state::AllocationPercentage> },
    ClaimAllocation { allocation_id: u32 },
    AddAllocation {
        recieve_addr: String,
        recieve_hash: Option<String>,
        manager_addr: Option<String>,
        claimer_addr: Option<String>,
        use_send: bool,
    },
    EditAllocation { allocation_id: u32, key: String, value: Option<String> },
    Receive { sender: String, from: String, amount: u128, memo: Option<String>, msg: Vec<u8> },
    ClaimUnbonded {},
    DistributeAllocationRewards {},
}

/// What a deposit is for.
#[derive(Clone, Copy, Debug, PartialEq, Eq, Structural)]
pub enum ReceiveMsg {
    StakeErth {},
}

/// The metadata sent along with a forwarded target payout.
#[derive(Clone, Copy, Debug, PartialEq, Eq, Structural)]
pub enum SendMsg {
    AllocationSend { allocation_id: u32 },
}

#[derive(Clone, Copy, Debug, PartialEq, Eq, Structural)]
pub enum MigrateMsg {
    Migrate {},
}

/// The read-only requests a ledger answers.
#[derive(Clone, Debug, PartialEq, Eq)]
pub enum QueryMsg {
    GetState {},
    GetUserInfo { address: String },
    GetAllocationOptions {},
}

#[derive(Clone, Debug, PartialEq, Eq)]
pub struct StateResponse {
    pub state: State,
}

#[derive(Clone, Debug, PartialEq, Eq)]
pub struct AllocationOptionResponse {
    pub allocations: Vec<Allocation>,
}

#[derive(Clone, Debug, PartialEq, Eq)]
pub struct UserInfoResponse {
    pub user_info: UserInfo,
    pub staking_rewards_due: u128,
    pub total_staked: u128,
    pub unbonding_entries: Vec<UnbondingEntry>,
}

/// A message the ledger asks the token contract to carry out.
#[derive(Clone, Debug, PartialEq, Eq)]
pub enum TokenAction {
    /// Mint `amount` to `recipient`.
    Mint { recipient: String, amount: u128 },
    /// Send `amount` to the contract `recipient`, calling it back with `msg`.
    Send { recipient: String, recipient_code_hash: String, amount: u128, msg: SendMsg },
    /// Transfer `amount` from the ledger to `recipient`.
    Transfer { recipient: String, amount: u128 },
}

/// One edit of an allocation target, by field.
#[derive(Clone, Debug, PartialEq, Eq)]
pub enum AllocationEdit {
    RecieveAddr(Option<String>),
    RecieveHash(Option<String>),
    ManagerAddr(Option<String>),
    ClaimerAddr(Option<String>),
    UseSend(Option<bool>),
}

} // verus!
