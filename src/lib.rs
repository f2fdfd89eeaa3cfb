//! A staking ledger: stakers deposit a fungible token, split their stake
//! across payout targets by percentage, accrue time-proportional rewards and
//! withdraw through a time-locked unbonding queue.
//!
//! Every operation works on plain values (addresses as strings, token
//! amounts as `u128`, times as seconds) loaded by the host; the host stores
//! the results only when the operation returns `Ok`.
pub mod error;
pub mod state;
pub mod msg;
pub mod allocation;
pub mod rewards;
pub mod unbonding;
pub mod contract;
pub mod theorems;
pub mod consistency;
