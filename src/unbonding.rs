//! The time-locked unbonding queue.
use vstd::prelude::*;
use crate::state::UnbondingEntry;

verus! {

/// Seconds between a withdrawal request and its release: 21 days.
pub const UNBONDING_PERIOD: u64 = 21 * 24 * 60 * 60;

/// Sum of the entries whose unlock time is at or before `now`.
pub open spec fn matured_sum(entries: Seq<UnbondingEntry>, now: u64) -> int
    decreases entries.len(),
{
    if entries.len() == 0 {
        0
    } else {
        matured_sum(entries.drop_last(), now) + if entries.last().unbonding_time <= now {
            entries.last().amount as int
        } else {
            0
        }
    }
}

/// The entries still locked at `now`, in their order.
pub open spec fn pending(entries: Seq<UnbondingEntry>, now: u64) -> Seq<UnbondingEntry>
    decreases entries.len(),
{
    if entries.len() == 0 {
        Seq::empty()
    } else if entries.last().unbonding_time <= now {
        pending(entries.drop_last(), now)
    } else {
        pending(entries.drop_last(), now).push(entries.last())
    }
}

proof fn lemma_matured_take(entries: Seq<UnbondingEntry>, now: u64, i: int)
    requires
        0 <= i < entries.len(),
    ensures
        matured_sum(entries.take(i + 1), now) == matured_sum(entries.take(i), now) + if entries[i].unbonding_time
            <= now {
            entries[i].amount as int
        } else {
            0
        },
        pending(entries.take(i + 1), now) == if entries[i].unbonding_time <= now {
            pending(entries.take(i), now)
        } else {
            pending(entries.take(i), now).push(entries[i])
        },
        matured_sum(entries.take(i), now) >= 0,
        matured_sum(entries.take(i + 1), now) <= matured_sum(entries, now),
    decreases entries.len(),
{
    assert(entries.take(i + 1).drop_last() =~= entries.take(i));
    lemma_matured_nonneg(entries.take(i), now);
    if i + 1 == entries.len() {
        assert(entries.take(i + 1) =~= entries);
    } else {
        assert(entries.drop_last().take(i + 1) =~= entries.take(i + 1));
        assert(entries.drop_last().take(i) =~= entries.take(i));
        lemma_matured_take(entries.drop_last(), now, i);
    }
}

proof fn lemma_matured_nonneg(entries: Seq<UnbondingEntry>, now: u64)
    ensures
        matured_sum(entries, now) >= 0,
    decreases entries.len(),
{
    if entries.len() > 0 {
        lemma_matured_nonneg(entries.drop_last(), now);
    }
}

/// Splits a queue at `now`: the sum of the matured entries and the entries
/// still locked. `None` when the sum does not fit in `u128`.
pub fn split_matured(entries: &Vec<UnbondingEntry>, now: u64) -> (r: Option<(u128, Vec<UnbondingEntry>)>)
    ensures
        matured_sum(entries@, now) > u128::MAX ==> r is None,
        matured_sum(entries@, now) <= u128::MAX ==> r is Some && r->Some_0.0 == matured_sum(entries@, now)
            && r->Some_0.1@ == pending(entries@, now),
{
    let ghost es = entries@;
    let n = entries.len();
    let mut sum: u128 = 0;
    let mut kept: Vec<UnbondingEntry> = Vec::new();
    let mut i: usize = 0;
    proof {
        assert(es.take(0) =~= Seq::<UnbondingEntry>::empty());
    }
    while i < n
        invariant
            n == es.len(),
            es == entries@,
            0 <= i <= n,
            sum == matured_sum(es.take(i as int), now),
            kept@ == pending(es.take(i as int), now),
        decreases n - i,
    {
        let e = entries[i];
        proof {
            lemma_matured_take(es, now, i as int);
        }
        if e.unbonding_time <= now {
            if sum > u128::MAX - e.amount {
                return None;
            }
            sum = sum + e.amount;
        } else {
            kept.push(e);
        }
        i = i + 1;
    }
    proof {
        assert(es.take(n as int) =~= es);
    }
    Some((sum, kept))
}

} // verus!
