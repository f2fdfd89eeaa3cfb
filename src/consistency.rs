//! Executable tests of the agreement conditions, for callers that load
//! records the verifier has not seen.
use vstd::prelude::*;
use crate::allocation::{
    lemma_percent_sum_take, lemma_split_take, new_split, percent_of, percent_sum, split_amounts, split_error,
    validate_percentages,
};
use crate::contract::{account_wf, ledger_wf};
use crate::state::{
    Allocation, State, UserAllocation, UserInfo, account_of, backed_by, registry_wf, share_of, sum_allocated,
    lemma_share_nonneg, lemma_share_prefix,
};

verus! {

proof fn lemma_sum_take(regs: Seq<Allocation>, i: int)
    requires
        0 <= i < regs.len(),
    ensures
        sum_allocated(regs.take(i + 1)) == sum_allocated(regs.take(i)) + regs[i].amount_allocated,
        sum_allocated(regs.take(i)) >= 0,
        sum_allocated(regs.take(i + 1)) <= sum_allocated(regs),
    decreases regs.len(),
{
    assert(regs.take(i + 1).drop_last() =~= regs.take(i));
    crate::state::lemma_sum_nonneg(regs.take(i));
    if i + 1 == regs.len() {
        assert(regs.take(i + 1) =~= regs);
    } else {
        assert(regs.drop_last().take(i + 1) =~= regs.take(i + 1));
        assert(regs.drop_last().take(i) =~= regs.take(i));
        lemma_sum_take(regs.drop_last(), i);
    }
}

/// Whether the registry and the global record agree (`registry_wf`).
pub fn registry_consistent(state: &State, allocation_options: &Vec<Allocation>) -> (r: bool)
    ensures
        r == registry_wf(*state, allocation_options@),
{
    let ghost regs = allocation_options@;
    let n = allocation_options.len();
    let mut acc: u128 = 0;
    let mut i: usize = 0;
    while i < n
        invariant
            n == regs.len(),
            regs == allocation_options@,
            0 <= i <= n,
            acc == sum_allocated(regs.take(i as int)),
        decreases n - i,
    {
        let amount = allocation_options[i].amount_allocated;
        proof {
            lemma_sum_take(regs, i as int);
        }
        if acc > u128::MAX - amount {
            return false;
        }
        acc = acc + amount;
        i = i + 1;
    }
    proof {
        assert(regs.take(n as int) =~= regs);
    }
    if acc != state.total_allocations {
        return false;
    }
    let mut i: usize = 0;
    while i < n
        invariant
            n == regs.len(),
            regs == allocation_options@,
            0 <= i <= n,
            forall|k: int| 0 <= k < i ==> #[trigger] regs[k].allocation_id <= state.allocation_counter,
        decreases n - i,
    {
        if allocation_options[i].allocation_id > state.allocation_counter {
            return false;
        }
        i = i + 1;
    }
    let mut i: usize = 0;
    while i < n
        invariant
            n == regs.len(),
            regs == allocation_options@,
            0 <= i <= n,
            forall|a: int, b: int| 0 <= a < i && a < b < n ==> #[trigger] regs[a].allocation_id != #[trigger] regs[b].allocation_id,
        decreases n - i,
    {
        let id = allocation_options[i].allocation_id;
        let mut j: usize = i + 1;
        while j < n
            invariant
                n == regs.len(),
                regs == allocation_options@,
                0 <= i < n,
                i + 1 <= j <= n,
                id == regs[i as int].allocation_id,
                forall|b: int| i < b < j ==> #[trigger] regs[b].allocation_id != id,
            decreases n - j,
        {
            if allocation_options[j].allocation_id == id {
                return false;
            }
            j = j + 1;
        }
        i = i + 1;
    }
    true
}

/// The part of `allocs` routed to target `id`; `None` when it does not fit.
fn share_in(allocs: &Vec<UserAllocation>, id: u32) -> (r: Option<u128>)
    ensures
        r is Some <==> share_of(allocs@, id) <= u128::MAX,
        r is Some ==> r->Some_0 == share_of(allocs@, id),
{
    let ghost a = allocs@;
    let n = allocs.len();
    let mut acc: u128 = 0;
    let mut j: usize = 0;
    proof {
        assert(a.take(0) =~= Seq::<UserAllocation>::empty());
    }
    while j < n
        invariant
            n == a.len(),
            a == allocs@,
            0 <= j <= n,
            acc == share_of(a.take(j as int), id),
        decreases n - j,
    {
        proof {
            lemma_share_prefix(a, j as int, id);
            lemma_share_nonneg(a.take(j as int), id);
        }
        if allocs[j].allocation_id == id {
            if acc > u128::MAX - allocs[j].amount_allocated {
                return None;
            }
            acc = acc + allocs[j].amount_allocated;
        }
        j = j + 1;
    }
    proof {
        assert(a.take(n as int) =~= a);
    }
    Some(acc)
}

/// The entries a split of `capital` yields (`new_split`), for a split whose
/// percentages are at most 100 each.
fn split_of(capital: u128, percentages: &Vec<crate::state::AllocationPercentage>) -> (r: Vec<UserAllocation>)
    requires
        forall|i: int| 0 <= i < percentages@.len() ==> #[trigger] percentages@[i].percentage <= 100,
    ensures
        r@ == new_split(capital as int, percentages@),
{
    let mut out: Vec<UserAllocation> = Vec::new();
    if capital == 0 {
        return out;
    }
    let ghost ps = percentages@;
    let n = percentages.len();
    let mut i: usize = 0;
    proof {
        assert(ps.take(0) =~= Seq::<crate::state::AllocationPercentage>::empty());
    }
    while i < n
        invariant
            n == ps.len(),
            ps == percentages@,
            0 <= i <= n,
            forall|x: int| 0 <= x < ps.len() ==> #[trigger] ps[x].percentage <= 100,
            out@ == split_amounts(capital as int, ps.take(i as int)),
        decreases n - i,
    {
        let p = percentages[i];
        proof {
            lemma_split_take(capital as int, ps, i as int);
        }
        if p.percentage > 0 {
            out.push(UserAllocation { allocation_id: p.allocation_id, amount_allocated: percent_of(capital, p.percentage) });
        }
        i = i + 1;
    }
    proof {
        assert(ps.take(n as int) =~= ps);
    }
    out
}

/// Whether an account agrees with the registry (`account_wf`).
pub fn account_consistent(user: &UserInfo, allocation_options: &Vec<Allocation>) -> (r: bool)
    ensures
        r == account_wf(user@, allocation_options@),
{
    let ghost u = user@;
    let ghost regs = allocation_options@;
    if user.percentages.len() > 0 {
        match validate_percentages(&user.percentages, allocation_options) {
            Err(_) => {
                return false;
            },
            Ok(()) => {},
        }
        proof {
            assert(split_error(u.percentages, regs) is None);
            assert(percent_sum(u.percentages) == 100);
            assert forall|i: int| 0 <= i < u.percentages.len() implies #[trigger] u.percentages[i].percentage <= 100 by {
                lemma_percent_sum_take(u.percentages, i);
            }
        }
    }
    let expected = split_of(user.staked_amount, &user.percentages);
    let m = expected.len();
    if m != user.allocations.len() {
        return false;
    }
    let mut j: usize = 0;
    while j < m
        invariant
            m == expected@.len(),
            m == user.allocations@.len(),
            expected@ == new_split(user.staked_amount as int, user.percentages@),
            0 <= j <= m,
            forall|x: int| 0 <= x < j ==> #[trigger] expected@[x] == user.allocations@[x],
        decreases m - j,
    {
        let e = expected[j];
        let a = user.allocations[j];
        if e.allocation_id != a.allocation_id || e.amount_allocated != a.amount_allocated {
            return false;
        }
        j = j + 1;
    }
    proof {
        assert(expected@ =~= user.allocations@);
    }
    let n = allocation_options.len();
    let mut k: usize = 0;
    while k < n
        invariant
            n == regs.len(),
            regs == allocation_options@,
            u == user@,
            0 <= k <= n,
            forall|x: int| 0 <= x < k ==> share_of(u.allocations, #[trigger] regs[x].allocation_id) <= regs[x].amount_allocated,
        decreases n - k,
    {
        match share_in(&user.allocations, allocation_options[k].allocation_id) {
            None => {
                return false;
            },
            Some(share) => {
                if share > allocation_options[k].amount_allocated {
                    return false;
                }
            },
        }
        k = k + 1;
    }
    true
}

/// Whether the records an operation loads agree with one another
/// (`ledger_wf`): what every operation of the ledger needs and keeps.
pub fn ledger_consistent(state: &State, allocation_options: &Vec<Allocation>, user: &Option<UserInfo>) -> (r: bool)
    ensures
        r == ledger_wf(*state, allocation_options@, account_of(*user)),
{
    if !registry_consistent(state, allocation_options) {
        return false;
    }
    match user {
        None => true,
        Some(u) => account_consistent(u, allocation_options) && u.staked_amount <= state.total_staked,
    }
}

} // verus!
