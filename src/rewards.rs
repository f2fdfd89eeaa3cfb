//! Time-proportional reward accrual, for targets and for stakers.
use vstd::prelude::*;
use crate::error::ContractError;
use crate::state::{Allocation, State, registry_wf, sum_allocated};

verus! {

/// Reward units emitted per second, to stakers and to targets alike.
pub const REWARD_RATE_PER_SECOND: u128 = 1_000_000;

/// `a` with its reward balance set to `rewards`.
pub open spec fn with_rewards(a: Allocation, rewards: int) -> Allocation {
    Allocation { accumulated_rewards: rewards as u128, ..a }
}

/// What `elapsed` seconds emit.
pub open spec fn emitted(elapsed: int) -> int {
    REWARD_RATE_PER_SECOND * elapsed
}

/// A target's part of `total_rewards`, by its share of the allocated capital.
pub open spec fn reward_share(amount: int, total_rewards: int, total_allocations: int) -> int {
    amount * total_rewards / total_allocations
}

/// Every target's share can be computed and credited within `u128`.
pub open spec fn accrual_fits(regs: Seq<Allocation>, total_rewards: int, total_allocations: int) -> bool {
    forall|k: int|
        0 <= k < regs.len() ==> #[trigger] regs[k].amount_allocated * total_rewards <= u128::MAX
            && regs[k].accumulated_rewards + reward_share(regs[k].amount_allocated as int, total_rewards, total_allocations)
            <= u128::MAX
}

/// `new` is `old` with each target credited its share of `total_rewards`.
pub open spec fn credited(old: Seq<Allocation>, new: Seq<Allocation>, total_rewards: int, total_allocations: int) -> bool {
    &&& new.len() == old.len()
    &&& forall|k: int|
        0 <= k < old.len() ==> #[trigger] new[k] == with_rewards(
            old[k],
            old[k].accumulated_rewards + reward_share(old[k].amount_allocated as int, total_rewards, total_allocations),
        )
}

proof fn lemma_sum_same_amounts(a: Seq<Allocation>, b: Seq<Allocation>)
    requires
        a.len() == b.len(),
        forall|k: int| 0 <= k < a.len() ==> #[trigger] a[k].amount_allocated == b[k].amount_allocated,
    ensures
        sum_allocated(a) == sum_allocated(b),
    decreases a.len(),
{
    if a.len() > 0 {
        lemma_sum_same_amounts(a.drop_last(), b.drop_last());
    }
}

/// Credits every target its share of what was emitted since `last_upkeep`:
/// `amount_allocated * emitted / total_allocations`. Returns the amount
/// emitted, the seconds elapsed and whether anything was credited. Nothing
/// is credited when no time has passed, there are no targets, or nothing is
/// allocated. Moving `last_upkeep` is left to the caller.
pub fn distribute_allocation_rewards(
    allocation_options: &mut Vec<Allocation>,
    state: &State,
    current_time: u64,
) -> (r: Result<(u128, u64, bool), ContractError>)
    requires
        registry_wf(*state, old(allocation_options)@),
        state.last_upkeep <= current_time,
    ensures
        ({
            let regs = old(allocation_options)@;
            let elapsed = current_time - state.last_upkeep;
            let total = state.total_allocations as int;
            if elapsed == 0 {
                r == Ok::<(u128, u64, bool), ContractError>((0u128, 0u64, false))
                    && final(allocation_options)@ == regs
            } else if regs.len() == 0 || total == 0 {
                r == Ok::<(u128, u64, bool), ContractError>((0u128, elapsed as u64, false))
                    && final(allocation_options)@ == regs
            } else if !accrual_fits(regs, emitted(elapsed), total) {
                r == Err::<(u128, u64, bool), ContractError>(ContractError::Overflow)
                    && final(allocation_options)@ == regs
            } else {
                &&& r == Ok::<(u128, u64, bool), ContractError>((emitted(elapsed) as u128, elapsed as u64, true))
                &&& credited(regs, final(allocation_options)@, emitted(elapsed), total)
            }
        }),
        registry_wf(*state, final(allocation_options)@),
{
    let time_elapsed = current_time - state.last_upkeep;
    if time_elapsed == 0 {
        return Ok((0, 0, false));
    }
    if allocation_options.len() == 0 {
        return Ok((0, time_elapsed, false));
    }
    let total = state.total_allocations;
    if total == 0 {
        return Ok((0, time_elapsed, false));
    }
    proof {
        assert(REWARD_RATE_PER_SECOND * time_elapsed <= 1_000_000 * u64::MAX) by (nonlinear_arith)
            requires
                time_elapsed <= u64::MAX,
                REWARD_RATE_PER_SECOND == 1_000_000,
        ;
    }
    let total_rewards: u128 = REWARD_RATE_PER_SECOND * (time_elapsed as u128);
    let ghost regs0 = allocation_options@;
    let n = allocation_options.len();
    let mut shares: Vec<u128> = Vec::new();
    let mut k: usize = 0;
    while k < n
        invariant
            n == regs0.len(),
            regs0 == allocation_options@,
            0 <= k <= n,
            total > 0,
            total == state.total_allocations,
            registry_wf(*state, regs0),
            total_rewards == emitted(current_time - state.last_upkeep),
            current_time - state.last_upkeep == time_elapsed,
            time_elapsed > 0,
            shares@.len() == k,
            forall|x: int| 0 <= x < k ==> #[trigger] regs0[x].amount_allocated * total_rewards <= u128::MAX
                && regs0[x].accumulated_rewards + reward_share(regs0[x].amount_allocated as int, total_rewards as int, total as int) <= u128::MAX,
            forall|x: int| 0 <= x < k ==> #[trigger] shares@[x] == reward_share(
                regs0[x].amount_allocated as int, total_rewards as int, total as int),
        decreases n - k,
    {
        let amount = allocation_options[k].amount_allocated;
        let acc = allocation_options[k].accumulated_rewards;
        if amount > 0 && total_rewards > u128::MAX / amount {
            proof {
                vstd::arithmetic::div_mod::lemma_fundamental_div_mod(u128::MAX as int, amount as int);
                assert(amount * total_rewards > u128::MAX) by (nonlinear_arith)
                    requires
                        total_rewards >= u128::MAX / amount + 1,
                        u128::MAX == amount * (u128::MAX / amount) + u128::MAX % amount,
                        u128::MAX % amount < amount,
                        amount > 0,
                ;
                assert(!accrual_fits(regs0, total_rewards as int, total as int));
            }
            return Err(ContractError::Overflow);
        }
        proof {
            if amount > 0 {
                vstd::arithmetic::div_mod::lemma_fundamental_div_mod(u128::MAX as int, amount as int);
                assert(amount * total_rewards <= u128::MAX) by (nonlinear_arith)
                    requires
                        total_rewards <= u128::MAX / amount,
                        u128::MAX == amount * (u128::MAX / amount) + u128::MAX % amount,
                        u128::MAX % amount >= 0,
                        amount > 0,
                ;
            }
        }
        let share = amount * total_rewards / total;
        if acc > u128::MAX - share {
            proof {
                assert(!accrual_fits(regs0, total_rewards as int, total as int));
            }
            return Err(ContractError::Overflow);
        }
        shares.push(share);
        k = k + 1;
    }
    let mut k: usize = 0;
    while k < n
        invariant
            n == regs0.len(),
            0 <= k <= n,
            total > 0,
            total == state.total_allocations,
            registry_wf(*state, regs0),
            total_rewards == emitted(current_time - state.last_upkeep),
            shares@.len() == n,
            allocation_options@.len() == n,
            forall|x: int| 0 <= x < n ==> #[trigger] regs0[x].amount_allocated * total_rewards <= u128::MAX
                && regs0[x].accumulated_rewards + reward_share(regs0[x].amount_allocated as int, total_rewards as int, total as int) <= u128::MAX,
            forall|x: int| 0 <= x < n ==> #[trigger] shares@[x] == reward_share(
                regs0[x].amount_allocated as int, total_rewards as int, total as int),
            forall|x: int| 0 <= x < k ==> #[trigger] allocation_options@[x] == with_rewards(
                regs0[x], regs0[x].accumulated_rewards + shares@[x]),
            forall|x: int| k <= x < n ==> #[trigger] allocation_options@[x] == regs0[x],
        decreases n - k,
    {
        let acc = allocation_options[k].accumulated_rewards;
        allocation_options[k].accumulated_rewards = acc + shares[k];
        k = k + 1;
    }
    proof {
        assert forall|x: int| 0 <= x < n implies #[trigger] allocation_options@[x].amount_allocated
            == regs0[x].amount_allocated by {}
        lemma_sum_same_amounts(allocation_options@, regs0);
    }
    Ok((total_rewards, time_elapsed, true))
}

/// A staker's reward for `elapsed` seconds: `staked * rate * elapsed /
/// total_staked`. Refused when no stake backs the division or the product
/// does not fit.
pub fn staking_reward(staked_amount: u128, elapsed: u64, total_staked: u128) -> (r: Result<u128, ContractError>)
    ensures
        total_staked == 0 ==> r == Err::<u128, ContractError>(ContractError::DivisionUndefined),
        total_staked > 0 && staked_amount * emitted(elapsed as int) > u128::MAX ==> r == Err::<u128, ContractError>(
            ContractError::Overflow),
        total_staked > 0 && staked_amount * emitted(elapsed as int) <= u128::MAX ==> r == Ok::<u128, ContractError>(
            (staked_amount * emitted(elapsed as int) / (total_staked as int)) as u128),
{
    if total_staked == 0 {
        return Err(ContractError::DivisionUndefined);
    }
    proof {
        assert(REWARD_RATE_PER_SECOND * elapsed <= 1_000_000 * u64::MAX) by (nonlinear_arith)
            requires
                elapsed <= u64::MAX,
                REWARD_RATE_PER_SECOND == 1_000_000,
        ;
    }
    let per_unit: u128 = REWARD_RATE_PER_SECOND * (elapsed as u128);
    match staked_amount.checked_mul(per_unit) {
        None => Err(ContractError::Overflow),
        Some(product) => Ok(product / total_staked),
    }
}

} // verus!
