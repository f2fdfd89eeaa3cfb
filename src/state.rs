//! The ledger's records, their value views, and the sums and agreement
//! conditions that the operations keep.
use vstd::prelude::*;

verus! {

/// The ledger's global record.
#[derive(Clone, Debug, PartialEq, Eq)]
pub struct State {
    pub contract_manager: String,
    pub erth_token_contract: String,
    pub erth_token_hash: String,
    /// Sum of every account's `staked_amount`.
    pub total_staked: u128,
    /// Sum of every target's `amount_allocated`.
    pub total_allocations: u128,
    /// The largest target id handed out so far.
    pub allocation_counter: u32,
    /// Seconds of the last allocation-reward checkpoint.
    pub last_upkeep: u64,
}

/// A payout target that stakers route part of their stake to.
#[derive(Clone, Debug, PartialEq, Eq)]
pub struct Allocation {
    pub allocation_id: u32,
    pub accumulated_rewards: u128,
    pub recieve_addr: String,
    pub recieve_hash: Option<String>,
    pub manager_addr: Option<String>,
    pub claimer_addr: Option<String>,
    /// Mint to the ledger and forward with a callback instead of minting
    /// straight to `recieve_addr`.
    pub use_send: bool,
    pub amount_allocated: u128,
    pub last_claim: u64,
}

/// A staker's account.
#[derive(Clone, Debug, PartialEq, Eq)]
pub struct UserInfo {
    pub staked_amount: u128,
    pub last_claim: u64,
    pub allocations: Vec<UserAllocation>,
    pub percentages: Vec<AllocationPercentage>,
}

/// The part of a stake routed to one target.
#[derive(Clone, Copy, Debug, PartialEq, Eq, Structural)]
pub struct UserAllocation {
    pub allocation_id: u32,
    pub amount_allocated: u128,
}

/// One entry of a staker's percentage split.
#[derive(Clone, Copy, Debug, PartialEq, Eq, Structural)]
pub struct AllocationPercentage {
    pub allocation_id: u32,
    pub percentage: u128,
}

/// A withdrawal waiting for its unlock time.
#[derive(Clone, Copy, Debug, PartialEq, Eq, Structural)]
pub struct UnbondingEntry {
    pub amount: u128,
    pub unbonding_time: u64,
}

/// What a staker's account holds, as values.
pub ghost struct UserModel {
    pub staked_amount: u128,
    pub last_claim: u64,
    pub allocations: Seq<UserAllocation>,
    pub percentages: Seq<AllocationPercentage>,
}

impl View for UserInfo {
    type V = UserModel;

    open spec fn view(&self) -> UserModel {
        UserModel {
            staked_amount: self.staked_amount,
            last_claim: self.last_claim,
            allocations: self.allocations@,
            percentages: self.percentages@,
        }
    }
}

/// The account of a staker, if there is one.
pub open spec fn account_of(user: Option<UserInfo>) -> Option<UserModel> {
    match user {
        Some(u) => Some(u@),
        None => None,
    }
}

/// Sum of the backing capital of the targets.
pub open spec fn sum_allocated(regs: Seq<Allocation>) -> int
    decreases regs.len(),
{
    if regs.len() == 0 {
        0
    } else {
        sum_allocated(regs.drop_last()) + regs.last().amount_allocated
    }
}

/// How much of `allocs` is routed to target `id`.
pub open spec fn share_of(allocs: Seq<UserAllocation>, id: u32) -> int
    decreases allocs.len(),
{
    if allocs.len() == 0 {
        0
    } else {
        share_of(allocs.drop_last(), id) + if allocs.last().allocation_id == id {
            allocs.last().amount_allocated as int
        } else {
            0
        }
    }
}

/// Sum of the amounts of `allocs`.
pub open spec fn total_of(allocs: Seq<UserAllocation>) -> int
    decreases allocs.len(),
{
    if allocs.len() == 0 {
        0
    } else {
        total_of(allocs.drop_last()) + allocs.last().amount_allocated
    }
}

pub open spec fn ids_unique(regs: Seq<Allocation>) -> bool {
    forall|i: int, j: int|
        0 <= i < j < regs.len() ==> #[trigger] regs[i].allocation_id != #[trigger] regs[j].allocation_id
}

pub open spec fn has_target(regs: Seq<Allocation>, id: u32) -> bool {
    exists|k: int| 0 <= k < regs.len() && #[trigger] regs[k].allocation_id == id
}

/// The registry and the global record agree: `total_allocations` is the sum
/// of the targets' backing, ids are distinct and none is above the counter.
pub open spec fn registry_wf(state: State, regs: Seq<Allocation>) -> bool {
    &&& state.total_allocations == sum_allocated(regs)
    &&& ids_unique(regs)
    &&& forall|k: int| 0 <= k < regs.len() ==> #[trigger] regs[k].allocation_id <= state.allocation_counter
}

/// Every target carries at least what `allocs` routes to it.
pub open spec fn backed_by(allocs: Seq<UserAllocation>, regs: Seq<Allocation>) -> bool {
    forall|k: int| 0 <= k < regs.len() ==> share_of(allocs, #[trigger] regs[k].allocation_id) <= regs[k].amount_allocated
}

/// `a` with its backing capital set to `amount`.
pub open spec fn with_amount(a: Allocation, amount: int) -> Allocation {
    Allocation { amount_allocated: amount as u128, ..a }
}

/// `b` is `a` with possibly another backing capital.
pub open spec fn same_but_amount(a: Allocation, b: Allocation) -> bool {
    b == with_amount(a, b.amount_allocated as int)
}

/// `new` is `old` with target `k`'s backing capital moved by `delta(k)`;
/// every other field of every target is kept.
pub open spec fn shifted(old: Seq<Allocation>, new: Seq<Allocation>, delta: spec_fn(int) -> int) -> bool {
    &&& new.len() == old.len()
    &&& forall|k: int|
        0 <= k < old.len() ==> same_but_amount(old[k], #[trigger] new[k]) && new[k].amount_allocated
            == old[k].amount_allocated + delta(k)
}

/// The global record with a new `total_allocations` and nothing else changed.
pub open spec fn same_but_allocations(a: State, b: State) -> bool {
    b == State { total_allocations: b.total_allocations, ..a }
}

pub(crate) proof fn lemma_sum_update(regs: Seq<Allocation>, k: int, v: Allocation)
    requires
        0 <= k < regs.len(),
    ensures
        sum_allocated(regs.update(k, v)) == sum_allocated(regs) - regs[k].amount_allocated + v.amount_allocated,
    decreases regs.len(),
{
    let u = regs.update(k, v);
    if k == regs.len() - 1 {
        assert(u.drop_last() =~= regs.drop_last());
    } else {
        assert(u.drop_last() =~= regs.drop_last().update(k, v));
        lemma_sum_update(regs.drop_last(), k, v);
    }
}

pub(crate) proof fn lemma_sum_push(regs: Seq<Allocation>, v: Allocation)
    ensures
        sum_allocated(regs.push(v)) == sum_allocated(regs) + v.amount_allocated,
{
    assert(regs.push(v).drop_last() =~= regs);
}

pub(crate) proof fn lemma_sum_ge_elem(regs: Seq<Allocation>, k: int)
    requires
        0 <= k < regs.len(),
    ensures
        sum_allocated(regs) >= regs[k].amount_allocated,
        sum_allocated(regs) >= 0,
    decreases regs.len(),
{
    lemma_sum_nonneg(regs.drop_last());
    if k < regs.len() - 1 {
        lemma_sum_ge_elem(regs.drop_last(), k);
    }
}

pub(crate) proof fn lemma_sum_nonneg(regs: Seq<Allocation>)
    ensures
        sum_allocated(regs) >= 0,
    decreases regs.len(),
{
    if regs.len() > 0 {
        lemma_sum_nonneg(regs.drop_last());
    }
}

pub(crate) proof fn lemma_share_prefix(allocs: Seq<UserAllocation>, j: int, id: u32)
    requires
        0 <= j < allocs.len(),
    ensures
        share_of(allocs.take(j + 1), id) == share_of(allocs.take(j), id) + if allocs[j].allocation_id == id {
            allocs[j].amount_allocated as int
        } else {
            0
        },
        share_of(allocs.take(j + 1), id) <= share_of(allocs, id),
    decreases allocs.len(),
{
    assert(allocs.take(j + 1).drop_last() =~= allocs.take(j));
    if j + 1 == allocs.len() {
        assert(allocs.take(j + 1) =~= allocs);
    } else {
        assert(allocs.drop_last().take(j + 1) =~= allocs.take(j + 1));
        assert(allocs.drop_last().take(j) =~= allocs.take(j));
        lemma_share_prefix(allocs.drop_last(), j, id);
        lemma_share_nonneg(allocs, id);
    }
}

pub(crate) proof fn lemma_share_nonneg(allocs: Seq<UserAllocation>, id: u32)
    ensures
        share_of(allocs, id) >= 0,
        allocs.len() > 0 ==> share_of(allocs.drop_last(), id) <= share_of(allocs, id),
    decreases allocs.len(),
{
    if allocs.len() > 0 {
        lemma_share_nonneg(allocs.drop_last(), id);
    }
}

} // verus!
