//! The rebalancer: taking a staker's old split off the targets and
//! installing a new one, with the checks a split must pass.
use vstd::prelude::*;
use crate::error::ContractError;
use crate::state::{
    has_target, total_of,
    Allocation, AllocationPercentage, State, UserAllocation, backed_by, registry_wf, same_but_allocations,
    share_of, shifted, same_but_amount, lemma_share_nonneg, lemma_share_prefix, lemma_sum_ge_elem, lemma_sum_update,
};

verus! {

/// Removes a staker's old split from the registry: each entry's amount is
/// taken off every target with its id and off `total_allocations`. Entries
/// whose target is missing are skipped.
pub fn subtract_old_allocations(
    old_allocations: &Vec<UserAllocation>,
    allocation_options: &mut Vec<Allocation>,
    state: &mut State,
)
    requires
        registry_wf(*old(state), old(allocation_options)@),
        backed_by(old_allocations@, old(allocation_options)@),
    ensures
        shifted(
            old(allocation_options)@,
            final(allocation_options)@,
            |k: int| -share_of(old_allocations@, old(allocation_options)@[k].allocation_id),
        ),
        registry_wf(*final(state), final(allocation_options)@),
        same_but_allocations(*old(state), *final(state)),
        final(state).total_allocations <= old(state).total_allocations,
{
    let ghost regs0 = allocation_options@;
    let ghost state0 = *state;
    let ghost olds = old_allocations@;
    let n = old_allocations.len();
    let mut j: usize = 0;
    while j < n
        invariant
            n == olds.len(),
            olds == old_allocations@,
            0 <= j <= n,
            allocation_options@.len() == regs0.len(),
            forall|i: int| 0 <= i < regs0.len() ==> same_but_amount(regs0[i], #[trigger] allocation_options@[i])
                && allocation_options@[i].amount_allocated == regs0[i].amount_allocated - share_of(
                olds.take(j as int), regs0[i].allocation_id),
            registry_wf(*state, allocation_options@),
            same_but_allocations(state0, *state),
            state.total_allocations <= state0.total_allocations,
            backed_by(olds, regs0),
        decreases n - j,
    {
        let a = old_allocations[j];
        let m = allocation_options.len();
        let mut k: usize = 0;
        while k < m
            invariant
                n == olds.len(),
                olds == old_allocations@,
                0 <= j < n,
                a == olds[j as int],
                m == regs0.len(),
                0 <= k <= m,
                allocation_options@.len() == regs0.len(),
                forall|i: int| 0 <= i < k ==> same_but_amount(regs0[i], #[trigger] allocation_options@[i])
                    && allocation_options@[i].amount_allocated == regs0[i].amount_allocated - share_of(
                    olds.take(j + 1), regs0[i].allocation_id),
                forall|i: int| k <= i < m ==> same_but_amount(regs0[i], #[trigger] allocation_options@[i])
                    && allocation_options@[i].amount_allocated == regs0[i].amount_allocated - share_of(
                    olds.take(j as int), regs0[i].allocation_id),
                registry_wf(*state, allocation_options@),
                same_but_allocations(state0, *state),
                state.total_allocations <= state0.total_allocations,
                backed_by(olds, regs0),
            decreases m - k,
        {
            let ghost id = regs0[k as int].allocation_id;
            proof {
                lemma_share_prefix(olds, j as int, id);
                lemma_share_nonneg(olds.take(j as int), id);
                lemma_sum_ge_elem(allocation_options@, k as int);
            }
            if allocation_options[k].allocation_id == a.allocation_id {
                let cur = allocation_options[k].amount_allocated;
                let ghost before = allocation_options@;
                allocation_options[k].amount_allocated = cur - a.amount_allocated;
                state.total_allocations = state.total_allocations - a.amount_allocated;
                proof {
                    lemma_sum_update(before, k as int, allocation_options@[k as int]);
                    assert(allocation_options@ == before.update(k as int, allocation_options@[k as int]));
                }
            }
            k = k + 1;
        }
        j = j + 1;
    }
    proof {
        assert(olds.take(n as int) =~= olds);
    }
}


/// Sum of the percentages of a split.
pub open spec fn percent_sum(ps: Seq<AllocationPercentage>) -> int
    decreases ps.len(),
{
    if ps.len() == 0 {
        0
    } else {
        percent_sum(ps.drop_last()) + ps.last().percentage
    }
}

/// The first id problem of a split, scanning from the front: an id seen
/// before, or an id with no target.
pub open spec fn id_error(ps: Seq<AllocationPercentage>, regs: Seq<Allocation>) -> Option<ContractError>
    decreases ps.len(),
{
    if ps.len() == 0 {
        None
    } else {
        let prev = id_error(ps.drop_last(), regs);
        let id = ps.last().allocation_id;
        if prev is Some {
            prev
        } else if exists|i: int| 0 <= i < ps.len() - 1 && #[trigger] ps[i].allocation_id == id {
            Some(ContractError::DuplicateId)
        } else if !has_target(regs, id) {
            Some(ContractError::UnknownId(id))
        } else {
            None
        }
    }
}

/// Why a split is refused, if it is: an id problem first, then a sum other
/// than 100.
pub open spec fn split_error(ps: Seq<AllocationPercentage>, regs: Seq<Allocation>) -> Option<ContractError> {
    if id_error(ps, regs) is Some {
        id_error(ps, regs)
    } else if percent_sum(ps) != 100 {
        Some(ContractError::PercentageMismatch)
    } else {
        None
    }
}

/// The allocation entries for `capital` under a split: one per positive
/// percentage, in order, each `capital * percentage / 100` rounded down.
pub open spec fn split_amounts(capital: int, ps: Seq<AllocationPercentage>) -> Seq<UserAllocation>
    decreases ps.len(),
{
    if ps.len() == 0 {
        Seq::empty()
    } else {
        let prev = split_amounts(capital, ps.drop_last());
        let p = ps.last();
        if p.percentage > 0 {
            prev.push(
                UserAllocation {
                    allocation_id: p.allocation_id,
                    amount_allocated: (capital * p.percentage / 100) as u128,
                },
            )
        } else {
            prev
        }
    }
}

/// Why installing a split of `capital` is refused, if it is: a split
/// problem, or a `total_allocations` that could not take the whole capital.
/// For a move (see `rebalance`) the total is the one before the staker's
/// old entries are taken off.
pub open spec fn add_error(
    capital: int,
    ps: Seq<AllocationPercentage>,
    regs: Seq<Allocation>,
    total_allocations: int,
) -> Option<ContractError> {
    if split_error(ps, regs) is Some {
        split_error(ps, regs)
    } else if total_allocations + capital > u128::MAX {
        Some(ContractError::Overflow)
    } else {
        None
    }
}

pub(crate) proof fn lemma_percent_sum_take(ps: Seq<AllocationPercentage>, i: int)
    requires
        0 <= i < ps.len(),
    ensures
        percent_sum(ps.take(i + 1)) == percent_sum(ps.take(i)) + ps[i].percentage,
        percent_sum(ps.take(i + 1)) <= percent_sum(ps),
        percent_sum(ps.take(i)) >= 0,
    decreases ps.len(),
{
    assert(ps.take(i + 1).drop_last() =~= ps.take(i));
    lemma_percent_sum_nonneg(ps.take(i));
    if i + 1 == ps.len() {
        assert(ps.take(i + 1) =~= ps);
    } else {
        assert(ps.drop_last().take(i + 1) =~= ps.take(i + 1));
        assert(ps.drop_last().take(i) =~= ps.take(i));
        lemma_percent_sum_take(ps.drop_last(), i);
    }
}

proof fn lemma_percent_sum_nonneg(ps: Seq<AllocationPercentage>)
    ensures
        percent_sum(ps) >= 0,
    decreases ps.len(),
{
    if ps.len() > 0 {
        lemma_percent_sum_nonneg(ps.drop_last());
    }
}

proof fn lemma_id_error_take(ps: Seq<AllocationPercentage>, regs: Seq<Allocation>, i: int)
    requires
        0 <= i < ps.len(),
    ensures
        ps.take(i + 1).drop_last() == ps.take(i),
        ps.take(i + 1).last() == ps[i],
        forall|x: int| 0 <= x <= i ==> #[trigger] ps.take(i + 1)[x] == ps[x],
{
    assert(ps.take(i + 1).drop_last() =~= ps.take(i));
}

proof fn lemma_id_error_prefix(ps: Seq<AllocationPercentage>, regs: Seq<Allocation>, i: int)
    requires
        0 <= i <= ps.len(),
        id_error(ps.take(i), regs) is Some,
    ensures
        id_error(ps, regs) == id_error(ps.take(i), regs),
    decreases ps.len(),
{
    if i == ps.len() {
        assert(ps.take(i) =~= ps);
    } else {
        assert(ps.drop_last().take(i) =~= ps.take(i));
        lemma_id_error_prefix(ps.drop_last(), regs, i);
    }
}

/// Checks a split: ids distinct and known, percentages summing to 100.
pub fn validate_percentages(percentages: &Vec<AllocationPercentage>, allocation_options: &Vec<Allocation>) -> (r:
    Result<(), ContractError>)
    ensures
        r is Ok <==> split_error(percentages@, allocation_options@) is None,
        r is Err ==> r == Err::<(), ContractError>(split_error(percentages@, allocation_options@)->Some_0),
{
    let ghost ps = percentages@;
    let ghost regs = allocation_options@;
    let n = percentages.len();
    let mut i: usize = 0;
    while i < n
        invariant
            n == ps.len(),
            ps == percentages@,
            regs == allocation_options@,
            0 <= i <= n,
            id_error(ps.take(i as int), regs) is None,
        decreases n - i,
    {
        let id = percentages[i].allocation_id;
        proof {
            lemma_id_error_take(ps, regs, i as int);
        }
        let mut j: usize = 0;
        while j < i
            invariant
                n == ps.len(),
                ps == percentages@,
                0 <= j <= i < n,
                id == ps[i as int].allocation_id,
                regs == allocation_options@,
                id_error(ps.take(i as int), regs) is None,
                forall|x: int| 0 <= x < j ==> #[trigger] ps[x].allocation_id != id,
            decreases i - j,
        {
            if percentages[j].allocation_id == id {
                proof {
                    lemma_id_error_take(ps, regs, i as int);
                    let t = ps.take(i + 1);
                    assert(t[j as int].allocation_id == id);
                    assert(id_error(t, regs) == Some(ContractError::DuplicateId));
                    lemma_id_error_prefix(ps, regs, i + 1);
                }
                return Err(ContractError::DuplicateId);
            }
            j = j + 1;
        }
        let m = allocation_options.len();
        let mut k: usize = 0;
        let mut found = false;
        while k < m
            invariant
                m == regs.len(),
                regs == allocation_options@,
                0 <= k <= m,
                found <==> exists|x: int| 0 <= x < k && #[trigger] regs[x].allocation_id == id,
            decreases m - k,
        {
            if allocation_options[k].allocation_id == id {
                found = true;
            }
            k = k + 1;
        }
        proof {
            let t = ps.take(i + 1);
            assert forall|x: int| 0 <= x < t.len() - 1 implies #[trigger] t[x].allocation_id != id by {
                assert(t[x] == ps[x]);
            }
        }
        if !found {
            proof {
                let t = ps.take(i + 1);
                assert(id_error(t, regs) == Some(ContractError::UnknownId(id)));
                lemma_id_error_prefix(ps, regs, i + 1);
            }
            return Err(ContractError::UnknownId(id));
        }
        proof {
            let t = ps.take(i + 1);
            assert(has_target(regs, id));
            assert(id_error(t, regs) is None);
        }
        i = i + 1;
    }
    proof {
        assert(ps.take(n as int) =~= ps);
    }
    assert(id_error(ps, regs) is None);
    let mut sum: u128 = 0;
    let mut i: usize = 0;
    while i < n
        invariant
            n == ps.len(),
            ps == percentages@,
            0 <= i <= n,
            regs == allocation_options@,
            id_error(ps, regs) is None,
            sum == percent_sum(ps.take(i as int)),
            sum <= 100,
        decreases n - i,
    {
        let p = percentages[i].percentage;
        proof {
            lemma_percent_sum_take(ps, i as int);
        }
        if p > 100 - sum {
            return Err(ContractError::PercentageMismatch);
        }
        sum = sum + p;
        i = i + 1;
    }
    proof {
        assert(ps.take(n as int) =~= ps);
    }
    if sum != 100 {
        return Err(ContractError::PercentageMismatch);
    }
    Ok(())
}


proof fn lemma_id_ok(ps: Seq<AllocationPercentage>, regs: Seq<Allocation>, i: int)
    requires
        id_error(ps, regs) is None,
        0 <= i < ps.len(),
    ensures
        has_target(regs, ps[i].allocation_id),
        forall|j: int| 0 <= j < i ==> #[trigger] ps[j].allocation_id != ps[i].allocation_id,
    decreases ps.len(),
{
    if i < ps.len() - 1 {
        lemma_id_ok(ps.drop_last(), regs, i);
        assert forall|j: int| 0 <= j < i implies #[trigger] ps[j].allocation_id != ps[i].allocation_id by {
            assert(ps.drop_last()[j] == ps[j]);
        }
    }
}

pub(crate) proof fn lemma_split_take(c: int, ps: Seq<AllocationPercentage>, i: int)
    requires
        0 <= i < ps.len(),
    ensures
        split_amounts(c, ps.take(i + 1)) == if ps[i].percentage > 0 {
            split_amounts(c, ps.take(i)).push(
                UserAllocation {
                    allocation_id: ps[i].allocation_id,
                    amount_allocated: (c * ps[i].percentage / 100) as u128,
                },
            )
        } else {
            split_amounts(c, ps.take(i))
        },
{
    assert(ps.take(i + 1).drop_last() =~= ps.take(i));
}

proof fn lemma_share_push(allocs: Seq<UserAllocation>, e: UserAllocation, id: u32)
    ensures
        share_of(allocs.push(e), id) == share_of(allocs, id) + if e.allocation_id == id {
            e.amount_allocated as int
        } else {
            0
        },
        total_of(allocs.push(e)) == total_of(allocs) + e.amount_allocated,
{
    assert(allocs.push(e).drop_last() =~= allocs);
}

proof fn lemma_share_le_total(allocs: Seq<UserAllocation>, id: u32)
    ensures
        0 <= share_of(allocs, id) <= total_of(allocs),
    decreases allocs.len(),
{
    if allocs.len() > 0 {
        lemma_share_le_total(allocs.drop_last(), id);
    }
}

proof fn lemma_percent_of(a: int, p: int)
    requires
        0 <= a,
        0 <= p <= 100,
    ensures
        (a / 100) * p + (a % 100) * p / 100 == a * p / 100,
        (a / 100) * p <= a,
        (a % 100) * p <= 9900,
        100 * (a * p / 100) <= a * p,
        a * p / 100 <= a,
{
    let q = a / 100;
    let r = a % 100;
    vstd::arithmetic::div_mod::lemma_fundamental_div_mod(a, 100);
    vstd::arithmetic::div_mod::lemma_hoist_over_denominator(r * p, q * p, 100);
    assert(r * p + q * p * 100 == a * p) by (nonlinear_arith)
        requires
            a == 100 * q + r,
    ;
    assert(q * p <= a) by (nonlinear_arith)
        requires
            a == 100 * q + r,
            0 <= r,
            0 <= q,
            p <= 100,
    ;
    assert(r * p <= 9900) by (nonlinear_arith)
        requires
            0 <= r < 100,
            0 <= p <= 100,
    ;
    vstd::arithmetic::div_mod::lemma_fundamental_div_mod(a * p, 100);
    assert(a * p <= a * 100) by (nonlinear_arith)
        requires
            0 <= a,
            p <= 100,
    ;
}

/// `amount * percentage / 100`, rounded down, without an intermediate
/// product that could overflow.
pub fn percent_of(amount: u128, percentage: u128) -> (r: u128)
    requires
        percentage <= 100,
    ensures
        r == amount * percentage / 100,
{
    proof {
        lemma_percent_of(amount as int, percentage as int);
    }
    amount / 100 * percentage + amount % 100 * percentage / 100
}

/// Installs a split of `deposit_amount`: after checking the split (see
/// `validate_percentages`) and that `total_allocations` can take the whole
/// capital, each positive percentage routes its share to its target and to
/// `total_allocations`, and the new entries are returned. A refused split
/// changes nothing.
pub fn add_new_allocations(
    deposit_amount: u128,
    percentages: &Vec<AllocationPercentage>,
    allocation_options: &mut Vec<Allocation>,
    state: &mut State,
) -> (r: Result<Vec<UserAllocation>, ContractError>)
    requires
        registry_wf(*old(state), old(allocation_options)@),
    ensures
        r is Ok <==> add_error(
            deposit_amount as int,
            percentages@,
            old(allocation_options)@,
            old(state).total_allocations as int,
        ) is None,
        r is Err ==> {
            &&& r == Err::<Vec<UserAllocation>, ContractError>(
                add_error(
                    deposit_amount as int,
                    percentages@,
                    old(allocation_options)@,
                    old(state).total_allocations as int,
                )->Some_0,
            )
            &&& *final(state) == *old(state)
            &&& final(allocation_options)@ == old(allocation_options)@
        },
        r is Ok ==> {
            &&& r->Ok_0@ == split_amounts(deposit_amount as int, percentages@)
            &&& shifted(
                old(allocation_options)@,
                final(allocation_options)@,
                |k: int| share_of(r->Ok_0@, old(allocation_options)@[k].allocation_id),
            )
            &&& registry_wf(*final(state), final(allocation_options)@)
            &&& same_but_allocations(*old(state), *final(state))
        },
{
    match validate_percentages(percentages, allocation_options) {
        Err(e) => {
            return Err(e);
        },
        Ok(()) => {},
    }
    if state.total_allocations > u128::MAX - deposit_amount {
        return Err(ContractError::Overflow);
    }
    let ghost ps = percentages@;
    let ghost regs0 = allocation_options@;
    let ghost state0 = *state;
    let ghost c = deposit_amount as int;
    let mut out: Vec<UserAllocation> = Vec::new();
    let n = percentages.len();
    let mut i: usize = 0;
    proof {
        assert(ps.take(0) =~= Seq::<AllocationPercentage>::empty());
        assert(allocation_options@ =~= regs0);
    }
    while i < n
        invariant
            n == ps.len(),
            ps == percentages@,
            0 <= i <= n,
            split_error(ps, regs0) is None,
            state0.total_allocations + c <= u128::MAX,
            c == deposit_amount,
            out@ == split_amounts(c, ps.take(i as int)),
            allocation_options@.len() == regs0.len(),
            forall|x: int| 0 <= x < regs0.len() ==> same_but_amount(regs0[x], #[trigger] allocation_options@[x])
                && allocation_options@[x].amount_allocated == regs0[x].amount_allocated + share_of(
                out@, regs0[x].allocation_id),
            state.total_allocations == state0.total_allocations + total_of(out@),
            100 * total_of(out@) <= c * percent_sum(ps.take(i as int)),
            registry_wf(*state, allocation_options@),
            registry_wf(state0, regs0),
            same_but_allocations(state0, *state),
        decreases n - i,
    {
        let pc = percentages[i];
        proof {
            lemma_percent_sum_take(ps, i as int);
            lemma_split_take(c, ps, i as int);
            lemma_id_ok(ps, regs0, i as int);
        }
        if pc.percentage > 0 {
            let amount = percent_of(deposit_amount, pc.percentage);
            let e = UserAllocation { allocation_id: pc.allocation_id, amount_allocated: amount };
            let ghost out_prev = out@;
            let ghost out_next = out_prev.push(e);
            proof {
                lemma_share_push(out_prev, e, 0);
                lemma_percent_of(c, pc.percentage as int);
                assert(c * percent_sum(ps.take(i as int)) + c * pc.percentage == c * percent_sum(ps.take(i + 1)))
                    by (nonlinear_arith)
                    requires
                        percent_sum(ps.take(i + 1)) == percent_sum(ps.take(i as int)) + pc.percentage,
                ;
                vstd::arithmetic::mul::lemma_mul_inequality(percent_sum(ps.take(i + 1)), 100, c);
                assert(c * 100 == 100 * c) by (nonlinear_arith);
                assert(total_of(out_prev) + amount <= c);
            }
            let m = allocation_options.len();
            let mut k: usize = 0;
            let mut found = false;
            while k < m
                invariant
                    n == ps.len(),
                    0 <= i < n,
                    m == regs0.len(),
                    0 <= k <= m,
                    e.allocation_id == ps[i as int].allocation_id,
                    e.allocation_id == pc.allocation_id,
                    e.amount_allocated == amount,
                    has_target(regs0, e.allocation_id),
                    out_next == out_prev.push(e),
                    state0.total_allocations + c <= u128::MAX,
                    total_of(out_prev) + amount <= c,
                    allocation_options@.len() == regs0.len(),
                    forall|x: int| 0 <= x < k ==> same_but_amount(regs0[x], #[trigger] allocation_options@[x])
                        && allocation_options@[x].amount_allocated == regs0[x].amount_allocated + share_of(
                        out_next, regs0[x].allocation_id),
                    forall|x: int| k <= x < m ==> same_but_amount(regs0[x], #[trigger] allocation_options@[x])
                        && allocation_options@[x].amount_allocated == regs0[x].amount_allocated + share_of(
                        out_prev, regs0[x].allocation_id),
                    found <==> exists|x: int| 0 <= x < k && #[trigger] regs0[x].allocation_id == e.allocation_id,
                    state.total_allocations == state0.total_allocations + total_of(out_prev) + if found {
                        amount as int
                    } else {
                        0
                    },
                    registry_wf(*state, allocation_options@),
                    registry_wf(state0, regs0),
                    same_but_allocations(state0, *state),
                decreases m - k,
            {
                let ghost id = regs0[k as int].allocation_id;
                proof {
                    lemma_share_push(out_prev, e, id);
                }
                if allocation_options[k].allocation_id == pc.allocation_id {
                    proof {
                        if found {
                            let x = choose|x: int| 0 <= x < k && #[trigger] regs0[x].allocation_id == e.allocation_id;
                            assert(regs0[x].allocation_id != regs0[k as int].allocation_id);
                        }
                        lemma_sum_ge_elem(allocation_options@, k as int);
                        lemma_sum_ge_elem(regs0, k as int);
                        lemma_share_le_total(out_prev, id);
                        assert(regs0[k as int].amount_allocated + share_of(out_prev, id) <= u128::MAX);
                    }
                    let cur = allocation_options[k].amount_allocated;
                    let ghost before = allocation_options@;
                    allocation_options[k].amount_allocated = cur + amount;
                    state.total_allocations = state.total_allocations + amount;
                    found = true;
                    proof {
                        lemma_sum_update(before, k as int, allocation_options@[k as int]);
                        assert(allocation_options@ == before.update(k as int, allocation_options@[k as int]));
                        assert(share_of(out_next, id) == share_of(out_prev, id) + amount);
                    }
                } else {
                    assert(share_of(out_next, id) == share_of(out_prev, id));
                }
                k = k + 1;
            }
            out.push(e);
        }
        i = i + 1;
    }
    proof {
        assert(ps.take(n as int) =~= ps);
    }
    Ok(out)
}


/// The entries that installing a split of `capital` yields: none for zero
/// capital.
pub open spec fn new_split(capital: int, ps: Seq<AllocationPercentage>) -> Seq<UserAllocation> {
    if capital == 0 {
        Seq::empty()
    } else {
        split_amounts(capital, ps)
    }
}

/// Why moving a staker to a split of `capital` is refused, if it is. A
/// zero capital installs nothing and is never refused.
pub open spec fn rebalance_error(
    capital: int,
    ps: Seq<AllocationPercentage>,
    regs: Seq<Allocation>,
    total_allocations: int,
) -> Option<ContractError> {
    if capital == 0 {
        None
    } else {
        add_error(capital, ps, regs, total_allocations)
    }
}

pub(crate) proof fn lemma_id_error_same_ids(ps: Seq<AllocationPercentage>, a: Seq<Allocation>, b: Seq<Allocation>)
    requires
        a.len() == b.len(),
        forall|k: int| 0 <= k < a.len() ==> #[trigger] a[k].allocation_id == b[k].allocation_id,
    ensures
        id_error(ps, a) == id_error(ps, b),
    decreases ps.len(),
{
    if ps.len() > 0 {
        lemma_id_error_same_ids(ps.drop_last(), a, b);
        let id = ps.last().allocation_id;
        if has_target(a, id) {
            let k = choose|k: int| 0 <= k < a.len() && #[trigger] a[k].allocation_id == id;
            assert(b[k].allocation_id == id);
        }
        if has_target(b, id) {
            let k = choose|k: int| 0 <= k < b.len() && #[trigger] b[k].allocation_id == id;
            assert(a[k].allocation_id == id);
        }
    }
}

/// Moves a staker from the split `old_allocations` to `new_percentages`
/// of `new_capital`, as one step: the old entries are taken off the
/// registry, then, unless the capital is zero, the new split is installed.
/// The new split is checked before anything changes, so a refused move
/// changes nothing.
pub fn rebalance(
    old_allocations: &Vec<UserAllocation>,
    new_capital: u128,
    new_percentages: &Vec<AllocationPercentage>,
    allocation_options: &mut Vec<Allocation>,
    state: &mut State,
) -> (r: Result<Vec<UserAllocation>, ContractError>)
    requires
        registry_wf(*old(state), old(allocation_options)@),
        backed_by(old_allocations@, old(allocation_options)@),
    ensures
        r is Ok <==> rebalance_error(
            new_capital as int,
            new_percentages@,
            old(allocation_options)@,
            old(state).total_allocations as int,
        ) is None,
        r is Err ==> {
            &&& r == Err::<Vec<UserAllocation>, ContractError>(
                rebalance_error(
                    new_capital as int,
                    new_percentages@,
                    old(allocation_options)@,
                    old(state).total_allocations as int,
                )->Some_0,
            )
            &&& *final(state) == *old(state)
            &&& final(allocation_options)@ == old(allocation_options)@
        },
        r is Ok ==> {
            &&& r->Ok_0@ == new_split(new_capital as int, new_percentages@)
            &&& shifted(
                old(allocation_options)@,
                final(allocation_options)@,
                |k: int|
                    share_of(r->Ok_0@, old(allocation_options)@[k].allocation_id) - share_of(
                        old_allocations@,
                        old(allocation_options)@[k].allocation_id,
                    ),
            )
            &&& registry_wf(*final(state), final(allocation_options)@)
            &&& same_but_allocations(*old(state), *final(state))
            &&& backed_by(r->Ok_0@, final(allocation_options)@)
        },
{
    if new_capital > 0 {
        match validate_percentages(new_percentages, allocation_options) {
            Err(e) => {
                return Err(e);
            },
            Ok(()) => {},
        }
        if state.total_allocations > u128::MAX - new_capital {
            return Err(ContractError::Overflow);
        }
    }
    let ghost regs0 = allocation_options@;
    let ghost state0 = *state;
    subtract_old_allocations(old_allocations, allocation_options, state);
    let ghost regs1 = allocation_options@;
    if new_capital == 0 {
        let out: Vec<UserAllocation> = Vec::new();
        proof {
            assert forall|k: int| 0 <= k < regs1.len() implies share_of(out@, #[trigger] regs1[k].allocation_id)
                <= regs1[k].amount_allocated by {}
        }
        return Ok(out);
    }
    proof {
        assert forall|k: int| 0 <= k < regs0.len() implies #[trigger] regs0[k].allocation_id
            == regs1[k].allocation_id by {
            assert(same_but_amount(regs0[k], regs1[k]));
        }
        lemma_id_error_same_ids(new_percentages@, regs0, regs1);
    }
    let r = add_new_allocations(new_capital, new_percentages, allocation_options, state);
    proof {
        let out = r->Ok_0@;
        let fin = allocation_options@;
        assert forall|k: int| 0 <= k < regs0.len() implies same_but_amount(regs0[k], #[trigger] fin[k])
            && fin[k].amount_allocated == regs0[k].amount_allocated + (share_of(out, regs0[k].allocation_id)
            - share_of(old_allocations@, regs0[k].allocation_id)) by {
            assert(same_but_amount(regs0[k], regs1[k]));
            assert(same_but_amount(regs1[k], fin[k]));
        }
        assert forall|k: int| 0 <= k < fin.len() implies share_of(out, #[trigger] fin[k].allocation_id)
            <= fin[k].amount_allocated by {
            assert(same_but_amount(regs1[k], fin[k]));
        }
    }
    r
}


/// The position of the target with id `allocation_id`, if there is one.
pub fn find_allocation(allocation_options: &Vec<Allocation>, allocation_id: u32) -> (r: Option<usize>)
    ensures
        r is None <==> !has_target(allocation_options@, allocation_id),
        r is Some ==> r->Some_0 < allocation_options@.len() && allocation_options@[r->Some_0 as int].allocation_id
            == allocation_id,
{
    let n = allocation_options.len();
    let mut k: usize = 0;
    while k < n
        invariant
            n == allocation_options@.len(),
            0 <= k <= n,
            forall|x: int| 0 <= x < k ==> #[trigger] allocation_options@[x].allocation_id != allocation_id,
        decreases n - k,
    {
        if allocation_options[k].allocation_id == allocation_id {
            return Some(k);
        }
        k = k + 1;
    }
    None
}

} // verus!
