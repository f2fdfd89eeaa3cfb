//! Facts about sequences of operations: stake totals stay exact, held
//! splits sum to 100, and a deposit withdrawn at once leaves no trace.
use vstd::prelude::*;
use crate::allocation::{percent_sum, new_split, split_error, id_error};
use crate::contract::{
    account_wf, moved, reallocate_account, set_allocation_error, stake_account, withdraw_account,
};
use crate::error::ContractError;
use crate::state::{Allocation, AllocationPercentage, State, UserModel, same_but_amount};

verus! {

/// The stake of an account, zero for none.
pub open spec fn staked_of(user: Option<UserModel>) -> int {
    match user {
        Some(u) => u.staked_amount as int,
        None => 0,
    }
}

/// Sum of the stakes of all accounts.
pub open spec fn staked_sum(accounts: Seq<Option<UserModel>>) -> int
    decreases accounts.len(),
{
    if accounts.len() == 0 {
        0
    } else {
        staked_sum(accounts.drop_last()) + staked_of(accounts.last())
    }
}

proof fn lemma_staked_sum_update(accounts: Seq<Option<UserModel>>, i: int, after: Option<UserModel>)
    requires
        0 <= i < accounts.len(),
    ensures
        staked_sum(accounts.update(i, after)) == staked_sum(accounts) - staked_of(accounts[i]) + staked_of(after),
    decreases accounts.len(),
{
    let u = accounts.update(i, after);
    if i == accounts.len() - 1 {
        assert(u.drop_last() =~= accounts.drop_last());
    } else {
        assert(u.drop_last() =~= accounts.drop_last().update(i, after));
        lemma_staked_sum_update(accounts.drop_last(), i, after);
    }
}

/// A deposit keeps `total_staked` equal to the sum of all stakes: when it
/// was before, raising it by the deposit matches the depositor's new
/// account.
pub proof fn lemma_stake_keeps_total_staked(
    accounts: Seq<Option<UserModel>>,
    i: int,
    total_staked: int,
    amount: u128,
    now: u64,
)
    requires
        0 <= i < accounts.len(),
        total_staked == staked_sum(accounts),
        accounts[i] is Some ==> accounts[i]->Some_0.staked_amount + amount <= u128::MAX,
    ensures
        total_staked + amount == staked_sum(accounts.update(i, Some(stake_account(accounts[i], amount, now)))),
{
    lemma_staked_sum_update(accounts, i, Some(stake_account(accounts[i], amount, now)));
}

/// A withdrawal keeps `total_staked` equal to the sum of all stakes: when
/// it was before, lowering it by the amount matches the account after.
pub proof fn lemma_withdraw_keeps_total_staked(
    accounts: Seq<Option<UserModel>>,
    i: int,
    total_staked: int,
    amount: u128,
)
    requires
        0 <= i < accounts.len(),
        total_staked == staked_sum(accounts),
        accounts[i] is Some,
        amount <= accounts[i]->Some_0.staked_amount,
    ensures
        total_staked - amount == staked_sum(accounts.update(i, withdraw_account(accounts[i]->Some_0, amount))),
{
    lemma_staked_sum_update(accounts, i, withdraw_account(accounts[i]->Some_0, amount));
}

/// Replacing a split keeps `total_staked` equal to the sum of all stakes.
pub proof fn lemma_reallocate_keeps_total_staked(
    accounts: Seq<Option<UserModel>>,
    i: int,
    total_staked: int,
    ps: Seq<AllocationPercentage>,
)
    requires
        0 <= i < accounts.len(),
        total_staked == staked_sum(accounts),
        accounts[i] is Some,
    ensures
        total_staked == staked_sum(accounts.update(i, Some(reallocate_account(accounts[i]->Some_0, ps)))),
{
    lemma_staked_sum_update(accounts, i, Some(reallocate_account(accounts[i]->Some_0, ps)));
}

proof fn lemma_percent_sum_of_valid(ps: Seq<AllocationPercentage>, regs: Seq<Allocation>)
    requires
        split_error(ps, regs) is None,
    ensures
        percent_sum(ps) == 100,
{
}

/// The split an account holds sums to exactly 100.
pub proof fn lemma_held_split_sums_to_hundred(u: UserModel, regs: Seq<Allocation>)
    requires
        account_wf(u, regs),
        u.percentages.len() > 0,
    ensures
        percent_sum(u.percentages) == 100,
{
    lemma_percent_sum_of_valid(u.percentages, regs);
}

/// A split with distinct known ids whose percentages do not sum to 100 is
/// refused with `PercentageMismatch`.
pub proof fn lemma_mismatched_split_refused(
    state: State,
    regs: Seq<Allocation>,
    u: UserModel,
    ps: Seq<AllocationPercentage>,
)
    requires
        id_error(ps, regs) is None,
        percent_sum(ps) != 100,
    ensures
        set_allocation_error(state, regs, Some(u), ps) == Some(ContractError::PercentageMismatch),
{
}

/// Depositing `amount` and then withdrawing the same amount gives back the
/// account as it was (none for a new staker). An account holding nothing
/// is left out: the withdrawal removes it instead of restoring it.
pub proof fn lemma_stake_then_withdraw_account(u: Option<UserModel>, amount: u128, now: u64)
    requires
        u is Some ==> u->Some_0.staked_amount > 0 && u->Some_0.staked_amount + amount <= u128::MAX
            && u->Some_0.allocations == new_split(u->Some_0.staked_amount as int, u->Some_0.percentages),
    ensures
        withdraw_account(stake_account(u, amount, now), amount) == u,
{
}

/// Moving the targets' backing from one split to another and straight back
/// restores every target, so `total_allocations` returns too.
pub proof fn lemma_moves_cancel(
    regs0: Seq<Allocation>,
    regs1: Seq<Allocation>,
    regs2: Seq<Allocation>,
    before: Seq<crate::state::UserAllocation>,
    after: Seq<crate::state::UserAllocation>,
)
    requires
        moved(regs0, regs1, before, after),
        moved(regs1, regs2, after, before),
    ensures
        regs2 == regs0,
{
    assert forall|k: int| 0 <= k < regs0.len() implies #[trigger] regs2[k] == regs0[k] by {
        assert(same_but_amount(regs0[k], regs1[k]));
        assert(same_but_amount(regs1[k], regs2[k]));
    }
    assert(regs2 =~= regs0);
}

} // verus!
