//! The ledger's operations, each on the records the host loads for it.
use vstd::prelude::*;
use crate::allocation::{
    find_allocation, lemma_id_error_same_ids, new_split, rebalance, rebalance_error, split_error, validate_percentages,
};
use crate::error::ContractError;
use crate::msg::{AllocationEdit, InstantiateMsg, ReceiveMsg, SendMsg, TokenAction, UserInfoResponse};
use crate::state::{
    Allocation, AllocationPercentage, State, UnbondingEntry, UserAllocation, UserInfo, UserModel, account_of,
    backed_by, has_target, registry_wf, same_but_amount, share_of, shifted, sum_allocated,
    lemma_sum_push, lemma_sum_update,
};
use crate::rewards::{accrual_fits, credited, distribute_allocation_rewards, emitted, staking_reward};
use crate::unbonding::{UNBONDING_PERIOD, matured_sum, pending, split_matured};

verus! {

/// An account agrees with the registry: what it routes is backed by the
/// targets, its entries are its split of its stake, and a split it holds
/// is one the registry accepts (distinct known ids, summing to 100).
pub open spec fn account_wf(u: UserModel, regs: Seq<Allocation>) -> bool {
    &&& backed_by(u.allocations, regs)
    &&& u.allocations == new_split(u.staked_amount as int, u.percentages)
    &&& u.percentages.len() > 0 ==> split_error(u.percentages, regs) is None
}

/// The records that one operation loads agree with one another.
pub open spec fn ledger_wf(state: State, regs: Seq<Allocation>, user: Option<UserModel>) -> bool {
    &&& registry_wf(state, regs)
    &&& match user {
        Some(u) => account_wf(u, regs) && u.staked_amount <= state.total_staked,
        None => true,
    }
}

/// The entries an account routes, none without an account.
pub open spec fn allocations_of(user: Option<UserModel>) -> Seq<UserAllocation> {
    match user {
        Some(u) => u.allocations,
        None => Seq::empty(),
    }
}

/// The global record with new totals and nothing else changed.
pub open spec fn same_but_totals(a: State, b: State) -> bool {
    b == State { total_staked: b.total_staked, total_allocations: b.total_allocations, ..a }
}

/// Every target's backing moved from what `before` routes to what `after`
/// routes.
pub open spec fn moved(old: Seq<Allocation>, new: Seq<Allocation>, before: Seq<UserAllocation>, after: Seq<UserAllocation>) -> bool {
    shifted(old, new, |k: int| share_of(after, old[k].allocation_id) - share_of(before, old[k].allocation_id))
}

/// The account after a deposit of `amount` at `now`: a new account holds
/// the deposit and no split; an existing one grows and is split again.
pub open spec fn stake_account(user: Option<UserModel>, amount: u128, now: u64) -> UserModel {
    match user {
        None => UserModel {
            staked_amount: amount,
            last_claim: now,
            allocations: Seq::empty(),
            percentages: Seq::empty(),
        },
        Some(u) => UserModel {
            staked_amount: (u.staked_amount + amount) as u128,
            allocations: new_split(u.staked_amount + amount, u.percentages),
            ..u
        },
    }
}

/// Why a deposit is refused, if it is.
pub open spec fn stake_error(state: State, regs: Seq<Allocation>, user: Option<UserModel>, amount: u128) -> Option<
    ContractError,
> {
    if state.total_staked + amount > u128::MAX {
        Some(ContractError::Overflow)
    } else {
        match user {
            None => None,
            Some(u) => if u.staked_amount + amount > u128::MAX {
                Some(ContractError::Overflow)
            } else {
                rebalance_error(u.staked_amount + amount, u.percentages, regs, state.total_allocations as int)
            },
        }
    }
}

/// The account after `amount` is withdrawn: gone when nothing is left,
/// else smaller and split again.
pub open spec fn withdraw_account(u: UserModel, amount: u128) -> Option<UserModel> {
    let rest = u.staked_amount - amount;
    if rest == 0 {
        None
    } else {
        Some(
            UserModel {
                staked_amount: rest as u128,
                allocations: new_split(rest, u.percentages),
                ..u
            },
        )
    }
}

/// Why a withdrawal is refused, if it is.
pub open spec fn withdraw_error(
    state: State,
    regs: Seq<Allocation>,
    user: Option<UserModel>,
    amount: u128,
    now: u64,
) -> Option<ContractError> {
    match user {
        None => Some(ContractError::NoDeposit),
        Some(u) => if u.staked_amount < amount {
            Some(ContractError::InsufficientFunds)
        } else if now + UNBONDING_PERIOD > u64::MAX {
            Some(ContractError::Overflow)
        } else {
            rebalance_error(u.staked_amount - amount, u.percentages, regs, state.total_allocations as int)
        },
    }
}

/// The account after its split is replaced by `ps`.
pub open spec fn reallocate_account(u: UserModel, ps: Seq<AllocationPercentage>) -> UserModel {
    UserModel { allocations: new_split(u.staked_amount as int, ps), percentages: ps, ..u }
}

/// Why replacing a split is refused, if it is.
pub open spec fn set_allocation_error(
    state: State,
    regs: Seq<Allocation>,
    user: Option<UserModel>,
    ps: Seq<AllocationPercentage>,
) -> Option<ContractError> {
    match user {
        None => Some(ContractError::NoDeposit),
        Some(u) => if split_error(ps, regs) is Some {
            split_error(ps, regs)
        } else {
            rebalance_error(u.staked_amount as int, ps, regs, state.total_allocations as int)
        },
    }
}

proof fn lemma_account_kept(u: UserModel, regs0: Seq<Allocation>, regs1: Seq<Allocation>, after: Seq<UserAllocation>)
    requires
        u.percentages.len() > 0 ==> split_error(u.percentages, regs0) is None,
        shifted(regs0, regs1, |k: int| share_of(after, regs0[k].allocation_id) - share_of(u.allocations, regs0[k].allocation_id)),
    ensures
        u.percentages.len() > 0 ==> split_error(u.percentages, regs1) is None,
{
    assert forall|k: int| 0 <= k < regs0.len() implies #[trigger] regs0[k].allocation_id == regs1[k].allocation_id by {
        assert(same_but_amount(regs0[k], regs1[k]));
    }
    lemma_id_error_same_ids(u.percentages, regs0, regs1);
}

/// Books a deposit of `amount` by `user` at `now`: a new staker gets an
/// account with no split; an existing one is moved to the same split of
/// the larger stake. `total_staked` grows by `amount`.
pub fn receive_stake(
    state: &mut State,
    allocation_options: &mut Vec<Allocation>,
    user: &mut Option<UserInfo>,
    amount: u128,
    now: u64,
) -> (r: Result<(), ContractError>)
    requires
        ledger_wf(*old(state), old(allocation_options)@, account_of(*old(user))),
    ensures
        r is Ok <==> stake_error(*old(state), old(allocation_options)@, account_of(*old(user)), amount) is None,
        r is Err ==> {
            &&& r == Err::<(), ContractError>(
                stake_error(*old(state), old(allocation_options)@, account_of(*old(user)), amount)->Some_0,
            )
            &&& *final(state) == *old(state)
            &&& final(allocation_options)@ == old(allocation_options)@
            &&& *final(user) == *old(user)
        },
        r is Ok ==> {
            &&& account_of(*final(user)) == Some(stake_account(account_of(*old(user)), amount, now))
            &&& final(state).total_staked == old(state).total_staked + amount
            &&& same_but_totals(*old(state), *final(state))
            &&& moved(
                old(allocation_options)@,
                final(allocation_options)@,
                allocations_of(account_of(*old(user))),
                allocations_of(account_of(*final(user))),
            )
        },
        ledger_wf(*final(state), final(allocation_options)@, account_of(*final(user))),
{
    if state.total_staked > u128::MAX - amount {
        return Err(ContractError::Overflow);
    }
    let taken = user.take();
    match taken {
        None => {
            *user = Some(
                UserInfo { staked_amount: amount, last_claim: now, allocations: Vec::new(), percentages: Vec::new() },
            );
            proof {
                let e = Seq::<UserAllocation>::empty();
                assert(shifted(allocation_options@, allocation_options@, |k: int| share_of(e, allocation_options@[k].allocation_id) - share_of(e, allocation_options@[k].allocation_id)));
                assert(account_of(*user)->Some_0.allocations =~= e);
                assert(account_of(*user)->Some_0.percentages =~= Seq::<AllocationPercentage>::empty());
            }
        },
        Some(mut u) => {
            if u.staked_amount > u128::MAX - amount {
                *user = Some(u);
                return Err(ContractError::Overflow);
            }
            let new_amount = u.staked_amount + amount;
            let ghost regs0 = allocation_options@;
            match rebalance(&u.allocations, new_amount, &u.percentages, allocation_options, state) {
                Err(e) => {
                    *user = Some(u);
                    return Err(e);
                },
                Ok(v) => {
                    proof {
                        lemma_account_kept(u@, regs0, allocation_options@, v@);
                    }
                    u.allocations = v;
                    u.staked_amount = new_amount;
                },
            }
            *user = Some(u);
        },
    }
    state.total_staked = state.total_staked + amount;
    Ok(())
}

/// The deposit callback: only the staked token's contract may make it.
pub fn try_receive(
    state: &mut State,
    allocation_options: &mut Vec<Allocation>,
    user: &mut Option<UserInfo>,
    caller: &String,
    amount: u128,
    msg: ReceiveMsg,
    now: u64,
) -> (r: Result<(), ContractError>)
    requires
        ledger_wf(*old(state), old(allocation_options)@, account_of(*old(user))),
    ensures
        caller@ != old(state).erth_token_contract@ ==> {
            &&& r == Err::<(), ContractError>(ContractError::UntrustedSource)
            &&& *final(state) == *old(state)
            &&& final(allocation_options)@ == old(allocation_options)@
            &&& *final(user) == *old(user)
        },
        caller@ == old(state).erth_token_contract@ ==> {
            &&& r is Ok <==> stake_error(*old(state), old(allocation_options)@, account_of(*old(user)), amount) is None
            &&& r is Err ==> r == Err::<(), ContractError>(
                stake_error(*old(state), old(allocation_options)@, account_of(*old(user)), amount)->Some_0,
            ) && *final(state) == *old(state) && final(allocation_options)@ == old(allocation_options)@
                && *final(user) == *old(user)
            &&& r is Ok ==> account_of(*final(user)) == Some(stake_account(account_of(*old(user)), amount, now))
                && final(state).total_staked == old(state).total_staked + amount
                && same_but_totals(*old(state), *final(state))
                && moved(
                old(allocation_options)@,
                final(allocation_options)@,
                allocations_of(account_of(*old(user))),
                allocations_of(account_of(*final(user))),
            )
        },
        ledger_wf(*final(state), final(allocation_options)@, account_of(*final(user))),
{
    if !caller.eq(&state.erth_token_contract) {
        return Err(ContractError::UntrustedSource);
    }
    match msg {
        ReceiveMsg::StakeErth {} => receive_stake(state, allocation_options, user, amount, now),
    }
}


/// Starts a withdrawal of `amount`: the stake shrinks at once (the account
/// goes when nothing is left), the rest is split again, `total_staked`
/// drops, and an entry unlocking `UNBONDING_PERIOD` seconds after `now` is
/// queued and returned. No tokens move yet.
pub fn execute_withdraw(
    state: &mut State,
    allocation_options: &mut Vec<Allocation>,
    user: &mut Option<UserInfo>,
    unbonding_entries: &mut Vec<UnbondingEntry>,
    amount: u128,
    now: u64,
) -> (r: Result<UnbondingEntry, ContractError>)
    requires
        ledger_wf(*old(state), old(allocation_options)@, account_of(*old(user))),
    ensures
        r is Ok <==> withdraw_error(*old(state), old(allocation_options)@, account_of(*old(user)), amount, now) is None,
        r is Err ==> {
            &&& r == Err::<UnbondingEntry, ContractError>(
                withdraw_error(*old(state), old(allocation_options)@, account_of(*old(user)), amount, now)->Some_0,
            )
            &&& *final(state) == *old(state)
            &&& final(allocation_options)@ == old(allocation_options)@
            &&& *final(user) == *old(user)
            &&& final(unbonding_entries)@ == old(unbonding_entries)@
        },
        r is Ok ==> {
            &&& r->Ok_0 == UnbondingEntry { amount, unbonding_time: (now + UNBONDING_PERIOD) as u64 }
            &&& final(unbonding_entries)@ == old(unbonding_entries)@.push(r->Ok_0)
            &&& account_of(*final(user)) == withdraw_account(account_of(*old(user))->Some_0, amount)
            &&& final(state).total_staked == old(state).total_staked - amount
            &&& same_but_totals(*old(state), *final(state))
            &&& moved(
                old(allocation_options)@,
                final(allocation_options)@,
                allocations_of(account_of(*old(user))),
                allocations_of(account_of(*final(user))),
            )
        },
        ledger_wf(*final(state), final(allocation_options)@, account_of(*final(user))),
{
    let taken = user.take();
    let mut u = match taken {
        None => {
            return Err(ContractError::NoDeposit);
        },
        Some(u) => u,
    };
    if u.staked_amount < amount {
        *user = Some(u);
        return Err(ContractError::InsufficientFunds);
    }
    if now > u64::MAX - UNBONDING_PERIOD {
        *user = Some(u);
        return Err(ContractError::Overflow);
    }
    let rest = u.staked_amount - amount;
    let ghost regs0 = allocation_options@;
    match rebalance(&u.allocations, rest, &u.percentages, allocation_options, state) {
        Err(e) => {
            *user = Some(u);
            return Err(e);
        },
        Ok(v) => {
            proof {
                lemma_account_kept(u@, regs0, allocation_options@, v@);
            }
            if rest == 0 {
                proof {
                    assert(v@ =~= Seq::<UserAllocation>::empty());
                }
            } else {
                u.allocations = v;
                u.staked_amount = rest;
                *user = Some(u);
            }
        },
    }
    state.total_staked = state.total_staked - amount;
    let entry = UnbondingEntry { amount, unbonding_time: now + UNBONDING_PERIOD };
    unbonding_entries.push(entry);
    Ok(entry)
}

/// Replaces a staker's split with `percentages` and moves the stake to it.
/// The split is checked even when nothing is staked.
pub fn execute_set_allocation(
    state: &mut State,
    allocation_options: &mut Vec<Allocation>,
    user: &mut Option<UserInfo>,
    percentages: Vec<AllocationPercentage>,
) -> (r: Result<(), ContractError>)
    requires
        ledger_wf(*old(state), old(allocation_options)@, account_of(*old(user))),
    ensures
        r is Ok <==> set_allocation_error(*old(state), old(allocation_options)@, account_of(*old(user)), percentages@)
            is None,
        r is Err ==> {
            &&& r == Err::<(), ContractError>(
                set_allocation_error(*old(state), old(allocation_options)@, account_of(*old(user)), percentages@)->Some_0,
            )
            &&& *final(state) == *old(state)
            &&& final(allocation_options)@ == old(allocation_options)@
            &&& *final(user) == *old(user)
        },
        r is Ok ==> {
            &&& account_of(*final(user)) == Some(reallocate_account(account_of(*old(user))->Some_0, percentages@))
            &&& same_but_totals(*old(state), *final(state))
            &&& final(state).total_staked == old(state).total_staked
            &&& moved(
                old(allocation_options)@,
                final(allocation_options)@,
                allocations_of(account_of(*old(user))),
                allocations_of(account_of(*final(user))),
            )
        },
        ledger_wf(*final(state), final(allocation_options)@, account_of(*final(user))),
{
    let taken = user.take();
    let mut u = match taken {
        None => {
            return Err(ContractError::NoDeposit);
        },
        Some(u) => u,
    };
    match validate_percentages(&percentages, allocation_options) {
        Err(e) => {
            *user = Some(u);
            return Err(e);
        },
        Ok(()) => {},
    }
    let ghost regs0 = allocation_options@;
    match rebalance(&u.allocations, u.staked_amount, &percentages, allocation_options, state) {
        Err(e) => {
            *user = Some(u);
            return Err(e);
        },
        Ok(v) => {
            proof {
                assert forall|k: int| 0 <= k < regs0.len() implies #[trigger] regs0[k].allocation_id
                    == allocation_options@[k].allocation_id by {
                    assert(same_but_amount(regs0[k], allocation_options@[k]));
                }
                lemma_id_error_same_ids(percentages@, regs0, allocation_options@);
            }
            u.allocations = v;
            u.percentages = percentages;
            *user = Some(u);
        },
    }
    Ok(())
}


/// `action` mints `amount` to `recipient`.
pub open spec fn is_mint(action: TokenAction, recipient: Seq<char>, amount: u128) -> bool {
    match action {
        TokenAction::Mint { recipient: to, amount: a } => to@ == recipient && a == amount,
        _ => false,
    }
}

/// `action` sends `amount` to the contract `recipient` with code hash
/// `hash`, naming target `id`.
pub open spec fn is_send(action: TokenAction, recipient: Seq<char>, hash: Seq<char>, amount: u128, id: u32) -> bool {
    match action {
        TokenAction::Send { recipient: to, recipient_code_hash: h, amount: a, msg } => to@ == recipient && h@ == hash
            && a == amount && msg == SendMsg::AllocationSend { allocation_id: id },
        _ => false,
    }
}

/// `action` transfers `amount` to `recipient`.
pub open spec fn is_transfer(action: TokenAction, recipient: Seq<char>, amount: u128) -> bool {
    match action {
        TokenAction::Transfer { recipient: to, amount: a } => to@ == recipient && a == amount,
        _ => false,
    }
}

/// A target after its rewards are paid out at `now`.
pub open spec fn claimed(a: Allocation, now: u64) -> Allocation {
    Allocation { accumulated_rewards: 0, last_claim: now, ..a }
}

/// `caller` may claim target `a`: anyone when it names no claimer.
pub open spec fn may_claim(a: Allocation, caller: Seq<char>) -> bool {
    a.claimer_addr is Some ==> a.claimer_addr->Some_0@ == caller
}

/// Pays out a target's rewards. With no rewards nothing happens and no
/// action is returned. A direct target gets them minted to its address; a
/// forwarding one gets them minted to the ledger (`contract_addr`) and sent
/// on with its id, and needs a delivery code for that.
pub fn execute_claim_allocation(
    allocation_options: &mut Vec<Allocation>,
    state: &State,
    caller: &String,
    contract_addr: &String,
    allocation_id: u32,
    now: u64,
) -> (r: Result<Vec<TokenAction>, ContractError>)
    requires
        registry_wf(*state, old(allocation_options)@),
    ensures
        registry_wf(*state, final(allocation_options)@),
        !has_target(old(allocation_options)@, allocation_id) ==> r == Err::<Vec<TokenAction>, ContractError>(
            ContractError::NotFound) && final(allocation_options)@ == old(allocation_options)@,
        forall|k: int|
            0 <= k < old(allocation_options)@.len() && #[trigger] old(allocation_options)@[k].allocation_id
                == allocation_id ==> {
                let a = old(allocation_options)@[k];
                if !may_claim(a, caller@) {
                    r == Err::<Vec<TokenAction>, ContractError>(ContractError::Unauthorized)
                        && final(allocation_options)@ == old(allocation_options)@
                } else if a.accumulated_rewards == 0 {
                    r is Ok && r->Ok_0@.len() == 0 && final(allocation_options)@ == old(allocation_options)@
                } else if a.use_send && a.recieve_hash is None {
                    r == Err::<Vec<TokenAction>, ContractError>(ContractError::MissingDeliveryCode)
                        && final(allocation_options)@ == old(allocation_options)@
                } else {
                    &&& r is Ok
                    &&& final(allocation_options)@ == old(allocation_options)@.update(k, claimed(a, now))
                    &&& if a.use_send {
                        &&& r->Ok_0@.len() == 2
                        &&& is_mint(r->Ok_0@[0], contract_addr@, a.accumulated_rewards)
                        &&& is_send(r->Ok_0@[1], a.recieve_addr@, a.recieve_hash->Some_0@, a.accumulated_rewards, allocation_id)
                    } else {
                        r->Ok_0@.len() == 1 && is_mint(r->Ok_0@[0], a.recieve_addr@, a.accumulated_rewards)
                    }
                }
            },
{
    let k = match find_allocation(allocation_options, allocation_id) {
        None => {
            return Err(ContractError::NotFound);
        },
        Some(k) => k,
    };
    let ghost regs0 = allocation_options@;
    proof {
        assert forall|x: int| 0 <= x < regs0.len() && #[trigger] regs0[x].allocation_id == allocation_id implies x
            == k by {
            if x != k {
                assert(regs0[x].allocation_id != regs0[k as int].allocation_id);
            }
        }
    }
    match &allocation_options[k].claimer_addr {
        Some(c) => {
            if !c.eq(caller) {
                return Err(ContractError::Unauthorized);
            }
        },
        None => {},
    }
    let rewards = allocation_options[k].accumulated_rewards;
    let mut actions: Vec<TokenAction> = Vec::new();
    if rewards == 0 {
        return Ok(actions);
    }
    if allocation_options[k].use_send {
        let hash = match &allocation_options[k].recieve_hash {
            None => {
                return Err(ContractError::MissingDeliveryCode);
            },
            Some(h) => h.clone(),
        };
        actions.push(TokenAction::Mint { recipient: contract_addr.clone(), amount: rewards });
        actions.push(
            TokenAction::Send {
                recipient: allocation_options[k].recieve_addr.clone(),
                recipient_code_hash: hash,
                amount: rewards,
                msg: SendMsg::AllocationSend { allocation_id },
            },
        );
    } else {
        actions.push(TokenAction::Mint { recipient: allocation_options[k].recieve_addr.clone(), amount: rewards });
    }
    allocation_options[k].accumulated_rewards = 0;
    allocation_options[k].last_claim = now;
    proof {
        assert(allocation_options@ =~= regs0.update(k as int, claimed(regs0[k as int], now)));
        lemma_sum_update(regs0, k as int, claimed(regs0[k as int], now));
        assert forall|x: int| 0 <= x < allocation_options@.len() implies #[trigger] allocation_options@[x].allocation_id
            == regs0[x].allocation_id by {}
    }
    Ok(actions)
}

/// `a` after `edit`.
pub open spec fn edited(a: Allocation, edit: AllocationEdit) -> Allocation {
    match edit {
        AllocationEdit::RecieveAddr(v) => Allocation { recieve_addr: v->Some_0, ..a },
        AllocationEdit::RecieveHash(v) => Allocation { recieve_hash: v, ..a },
        AllocationEdit::ManagerAddr(v) => Allocation { manager_addr: v, ..a },
        AllocationEdit::ClaimerAddr(v) => Allocation { claimer_addr: v, ..a },
        AllocationEdit::UseSend(v) => Allocation { use_send: v->Some_0, ..a },
    }
}

/// `edit` clears a field that must hold a value.
pub open spec fn clears_required(edit: AllocationEdit) -> bool {
    match edit {
        AllocationEdit::RecieveAddr(v) => v is None,
        AllocationEdit::UseSend(v) => v is None,
        _ => false,
    }
}

/// `caller` may edit target `a`: the ledger's manager or the target's own.
pub open spec fn may_edit(state: State, a: Allocation, caller: Seq<char>) -> bool {
    caller == state.contract_manager@ || (a.manager_addr is Some && a.manager_addr->Some_0@ == caller)
}

/// Changes one field of a target.
pub fn execute_edit_allocation(
    allocation_options: &mut Vec<Allocation>,
    state: &State,
    caller: &String,
    allocation_id: u32,
    edit: AllocationEdit,
) -> (r: Result<(), ContractError>)
    requires
        registry_wf(*state, old(allocation_options)@),
    ensures
        registry_wf(*state, final(allocation_options)@),
        !has_target(old(allocation_options)@, allocation_id) ==> r == Err::<(), ContractError>(ContractError::NotFound)
            && final(allocation_options)@ == old(allocation_options)@,
        forall|k: int|
            0 <= k < old(allocation_options)@.len() && #[trigger] old(allocation_options)@[k].allocation_id
                == allocation_id ==> {
                let a = old(allocation_options)@[k];
                if !may_edit(*state, a, caller@) {
                    r == Err::<(), ContractError>(ContractError::Unauthorized)
                        && final(allocation_options)@ == old(allocation_options)@
                } else if clears_required(edit) {
                    r == Err::<(), ContractError>(ContractError::InvalidValue)
                        && final(allocation_options)@ == old(allocation_options)@
                } else {
                    r is Ok && final(allocation_options)@ == old(allocation_options)@.update(k, edited(a, edit))
                }
            },
{
    let k = match find_allocation(allocation_options, allocation_id) {
        None => {
            return Err(ContractError::NotFound);
        },
        Some(k) => k,
    };
    let ghost regs0 = allocation_options@;
    proof {
        assert forall|x: int| 0 <= x < regs0.len() && #[trigger] regs0[x].allocation_id == allocation_id implies x
            == k by {
            if x != k {
                assert(regs0[x].allocation_id != regs0[k as int].allocation_id);
            }
        }
    }
    if !caller.eq(&state.contract_manager) {
        match &allocation_options[k].manager_addr {
            Some(m) => {
                if !caller.eq(m) {
                    return Err(ContractError::Unauthorized);
                }
            },
            None => {
                return Err(ContractError::Unauthorized);
            },
        }
    }
    let ghost e = edit;
    match edit {
        AllocationEdit::RecieveAddr(v) => match v {
            Some(addr) => {
                allocation_options[k].recieve_addr = addr;
            },
            None => {
                return Err(ContractError::InvalidValue);
            },
        },
        AllocationEdit::RecieveHash(v) => {
            allocation_options[k].recieve_hash = v;
        },
        AllocationEdit::ManagerAddr(v) => {
            allocation_options[k].manager_addr = v;
        },
        AllocationEdit::ClaimerAddr(v) => {
            allocation_options[k].claimer_addr = v;
        },
        AllocationEdit::UseSend(v) => match v {
            Some(b) => {
                allocation_options[k].use_send = b;
            },
            None => {
                return Err(ContractError::InvalidValue);
            },
        },
    }
    proof {
        assert(allocation_options@ =~= regs0.update(k as int, edited(regs0[k as int], e)));
        lemma_sum_update(regs0, k as int, edited(regs0[k as int], e));
        assert forall|x: int| 0 <= x < allocation_options@.len() implies #[trigger] allocation_options@[x].allocation_id
            == regs0[x].allocation_id by {}
    }
    Ok(())
}

/// The edit that a field name and a value stand for: the names are those of
/// the target's fields; `use_send` takes `true` or `false`.
pub open spec fn edit_of(key: Seq<char>, value: Option<String>) -> Result<AllocationEdit, ContractError> {
    if key == "recieve_addr"@ {
        Ok(AllocationEdit::RecieveAddr(value))
    } else if key == "recieve_hash"@ {
        Ok(AllocationEdit::RecieveHash(value))
    } else if key == "manager_addr"@ {
        Ok(AllocationEdit::ManagerAddr(value))
    } else if key == "claimer_addr"@ {
        Ok(AllocationEdit::ClaimerAddr(value))
    } else if key == "use_send"@ {
        match value {
            None => Ok(AllocationEdit::UseSend(None)),
            Some(v) => if v@ == "true"@ {
                Ok(AllocationEdit::UseSend(Some(true)))
            } else if v@ == "false"@ {
                Ok(AllocationEdit::UseSend(Some(false)))
            } else {
                Err(ContractError::InvalidValue)
            },
        }
    } else {
        Err(ContractError::InvalidValue)
    }
}

fn same_text(s: &String, lit: &str) -> (r: bool)
    ensures
        r == (s@ == lit@),
{
    let t = lit.to_owned();
    s.eq(&t)
}

/// Reads an edit from a field name and a value.
pub fn parse_edit(key: &String, value: Option<String>) -> (r: Result<AllocationEdit, ContractError>)
    ensures
        r == edit_of(key@, value),
{
    if same_text(key, "recieve_addr") {
        Ok(AllocationEdit::RecieveAddr(value))
    } else if same_text(key, "recieve_hash") {
        Ok(AllocationEdit::RecieveHash(value))
    } else if same_text(key, "manager_addr") {
        Ok(AllocationEdit::ManagerAddr(value))
    } else if same_text(key, "claimer_addr") {
        Ok(AllocationEdit::ClaimerAddr(value))
    } else if same_text(key, "use_send") {
        match value {
            None => Ok(AllocationEdit::UseSend(None)),
            Some(v) => if same_text(&v, "true") {
                Ok(AllocationEdit::UseSend(Some(true)))
            } else if same_text(&v, "false") {
                Ok(AllocationEdit::UseSend(Some(false)))
            } else {
                Err(ContractError::InvalidValue)
            },
        }
    } else {
        Err(ContractError::InvalidValue)
    }
}


/// Registers a new target under the next id, with no backing and no
/// rewards, and returns the id. Only the ledger's manager may.
pub fn execute_add_allocation(
    state: &mut State,
    allocation_options: &mut Vec<Allocation>,
    caller: &String,
    recieve_addr: String,
    recieve_hash: Option<String>,
    manager_addr: Option<String>,
    claimer_addr: Option<String>,
    use_send: bool,
    now: u64,
) -> (r: Result<u32, ContractError>)
    requires
        registry_wf(*old(state), old(allocation_options)@),
    ensures
        registry_wf(*final(state), final(allocation_options)@),
        caller@ != old(state).contract_manager@ ==> r == Err::<u32, ContractError>(ContractError::Unauthorized),
        caller@ == old(state).contract_manager@ && old(state).allocation_counter == u32::MAX ==> r == Err::<
            u32,
            ContractError,
        >(ContractError::Overflow),
        r is Err ==> *final(state) == *old(state) && final(allocation_options)@ == old(allocation_options)@,
        caller@ == old(state).contract_manager@ && old(state).allocation_counter < u32::MAX ==> {
            &&& r == Ok::<u32, ContractError>((old(state).allocation_counter + 1) as u32)
            &&& *final(state) == State { allocation_counter: r->Ok_0, ..*old(state) }
            &&& final(allocation_options)@ == old(allocation_options)@.push(
                Allocation {
                    allocation_id: r->Ok_0,
                    accumulated_rewards: 0,
                    recieve_addr,
                    recieve_hash,
                    manager_addr,
                    claimer_addr,
                    use_send,
                    amount_allocated: 0,
                    last_claim: now,
                },
            )
        },
{
    if !caller.eq(&state.contract_manager) {
        return Err(ContractError::Unauthorized);
    }
    if state.allocation_counter == u32::MAX {
        return Err(ContractError::Overflow);
    }
    let ghost regs0 = allocation_options@;
    let id = state.allocation_counter + 1;
    state.allocation_counter = id;
    let a = Allocation {
        allocation_id: id,
        accumulated_rewards: 0,
        recieve_addr,
        recieve_hash,
        manager_addr,
        claimer_addr,
        use_send,
        amount_allocated: 0,
        last_claim: now,
    };
    proof {
        lemma_sum_push(regs0, a);
    }
    allocation_options.push(a);
    proof {
        assert forall|i: int, j: int| 0 <= i < j < allocation_options@.len() implies #[trigger] allocation_options@[i].allocation_id
            != #[trigger] allocation_options@[j].allocation_id by {
            if j == regs0.len() {
                assert(regs0[i].allocation_id <= id - 1);
            } else {
                assert(regs0[i].allocation_id != regs0[j].allocation_id);
            }
        }
        assert forall|k: int| 0 <= k < allocation_options@.len() implies #[trigger] allocation_options@[k].allocation_id
            <= id by {
            if k < regs0.len() {
                assert(regs0[k].allocation_id <= id - 1);
            }
        }
    }
    Ok(id)
}

/// What an accrual at `now` does to the registry, from
/// `distribute_allocation_rewards`.
pub open spec fn accrual(
    old: Seq<Allocation>,
    new: Seq<Allocation>,
    state: State,
    now: u64,
    r: Result<(u128, u64, bool), ContractError>,
) -> bool {
    let elapsed = now - state.last_upkeep;
    let total = state.total_allocations as int;
    if elapsed == 0 {
        r == Ok::<(u128, u64, bool), ContractError>((0u128, 0u64, false)) && new == old
    } else if old.len() == 0 || total == 0 {
        r == Ok::<(u128, u64, bool), ContractError>((0u128, elapsed as u64, false)) && new == old
    } else if !accrual_fits(old, emitted(elapsed), total) {
        r == Err::<(u128, u64, bool), ContractError>(ContractError::Overflow) && new == old
    } else {
        &&& r == Ok::<(u128, u64, bool), ContractError>((emitted(elapsed) as u128, elapsed as u64, true))
        &&& credited(old, new, emitted(elapsed), total)
    }
}

/// The manager's accrual command: credits the targets for the time since
/// the last checkpoint and moves the checkpoint to `now`. Refused when no
/// time has passed.
pub fn execute_distribute_allocation_rewards(
    state: &mut State,
    allocation_options: &mut Vec<Allocation>,
    caller: &String,
    now: u64,
) -> (r: Result<(u128, u64, bool), ContractError>)
    requires
        registry_wf(*old(state), old(allocation_options)@),
        old(state).last_upkeep <= now,
    ensures
        registry_wf(*final(state), final(allocation_options)@),
        caller@ != old(state).contract_manager@ ==> r == Err::<(u128, u64, bool), ContractError>(
            ContractError::Unauthorized),
        caller@ == old(state).contract_manager@ && now == old(state).last_upkeep ==> r == Err::<
            (u128, u64, bool),
            ContractError,
        >(ContractError::NothingToDistribute),
        r is Err ==> *final(state) == *old(state) && final(allocation_options)@ == old(allocation_options)@,
        caller@ == old(state).contract_manager@ && now > old(state).last_upkeep ==> {
            &&& accrual(old(allocation_options)@, final(allocation_options)@, *old(state), now, r)
            &&& r is Ok ==> *final(state) == State { last_upkeep: now, ..*old(state) }
        },
{
    if !caller.eq(&state.contract_manager) {
        return Err(ContractError::Unauthorized);
    }
    if now == state.last_upkeep {
        return Err(ContractError::NothingToDistribute);
    }
    let r = distribute_allocation_rewards(allocation_options, state, now);
    if r.is_ok() {
        state.last_upkeep = now;
    }
    r
}

/// Why a staker's reward claim is refused, if it is.
pub open spec fn staking_claim_error(state: State, regs: Seq<Allocation>, user: Option<UserModel>, now: u64) -> Option<
    ContractError,
> {
    match user {
        None => Some(ContractError::NotFound),
        Some(u) => {
            let per_unit = emitted(now - u.last_claim);
            if now == u.last_claim {
                Some(ContractError::NothingToClaim)
            } else if state.total_staked == 0 {
                Some(ContractError::DivisionUndefined)
            } else if u.staked_amount * per_unit > u128::MAX {
                Some(ContractError::Overflow)
            } else if now > state.last_upkeep && regs.len() > 0 && state.total_allocations > 0 && !accrual_fits(
                regs,
                emitted(now - state.last_upkeep),
                state.total_allocations as int,
            ) {
                Some(ContractError::Overflow)
            } else {
                None
            }
        },
    }
}

/// A staker's reward since the account's checkpoint.
pub open spec fn staking_reward_due(state: State, u: UserModel, now: u64) -> int {
    u.staked_amount * emitted(now - u.last_claim) / (state.total_staked as int)
}

/// A staker's reward claim: first credits the targets for the time since
/// the global checkpoint (moving it to `now` if time has passed), then
/// pays the staker `staked * rate * elapsed / total_staked` for the time
/// since the account's checkpoint, which moves to `now`. Returns the
/// reward and what the accrual returned.
pub fn execute_claim_staking_rewards(
    state: &mut State,
    allocation_options: &mut Vec<Allocation>,
    user: &mut Option<UserInfo>,
    now: u64,
) -> (r: Result<(u128, (u128, u64, bool)), ContractError>)
    requires
        ledger_wf(*old(state), old(allocation_options)@, account_of(*old(user))),
        old(state).last_upkeep <= now,
        *old(user) is Some ==> (*old(user))->Some_0.last_claim <= now,
    ensures
        ledger_wf(*final(state), final(allocation_options)@, account_of(*final(user))),
        r is Ok <==> staking_claim_error(*old(state), old(allocation_options)@, account_of(*old(user)), now) is None,
        r is Err ==> {
            &&& r == Err::<(u128, (u128, u64, bool)), ContractError>(
                staking_claim_error(*old(state), old(allocation_options)@, account_of(*old(user)), now)->Some_0,
            )
            &&& *final(state) == *old(state)
            &&& final(allocation_options)@ == old(allocation_options)@
            &&& *final(user) == *old(user)
        },
        r is Ok ==> {
            let u = account_of(*old(user))->Some_0;
            &&& r->Ok_0.0 == staking_reward_due(*old(state), u, now)
            &&& account_of(*final(user)) == Some(UserModel { last_claim: now, ..u })
            &&& accrual(old(allocation_options)@, final(allocation_options)@, *old(state), now, Ok(r->Ok_0.1))
            &&& *final(state) == State { last_upkeep: now, ..*old(state) }
        },
{
    let taken = user.take();
    let mut u = match taken {
        None => {
            return Err(ContractError::NotFound);
        },
        Some(u) => u,
    };
    let elapsed = now - u.last_claim;
    if elapsed == 0 {
        *user = Some(u);
        return Err(ContractError::NothingToClaim);
    }
    let reward = match staking_reward(u.staked_amount, elapsed, state.total_staked) {
        Err(e) => {
            *user = Some(u);
            return Err(e);
        },
        Ok(v) => v,
    };
    let ghost regs0 = allocation_options@;
    let upkeep = match distribute_allocation_rewards(allocation_options, state, now) {
        Err(e) => {
            *user = Some(u);
            return Err(e);
        },
        Ok(v) => v,
    };
    state.last_upkeep = now;
    u.last_claim = now;
    *user = Some(u);
    proof {
        let regs1 = allocation_options@;
        assert forall|k: int| 0 <= k < regs0.len() implies #[trigger] regs0[k].allocation_id == regs1[k].allocation_id
            && regs0[k].amount_allocated == regs1[k].amount_allocated by {}
        lemma_id_error_same_ids(u@.percentages, regs0, regs1);
    }
    Ok((reward, upkeep))
}

/// Releases the matured part of a staker's unbonding queue: entries whose
/// unlock time is at or before `now` leave the queue and their sum is
/// transferred to `caller`. Refused when that sum is zero.
pub fn execute_claim_unbonded(
    unbonding_entries: &mut Vec<UnbondingEntry>,
    caller: &String,
    now: u64,
) -> (r: Result<TokenAction, ContractError>)
    ensures
        matured_sum(old(unbonding_entries)@, now) == 0 ==> r == Err::<TokenAction, ContractError>(
            ContractError::NothingClaimable),
        matured_sum(old(unbonding_entries)@, now) > u128::MAX ==> r == Err::<TokenAction, ContractError>(
            ContractError::Overflow),
        r is Err ==> final(unbonding_entries)@ == old(unbonding_entries)@,
        0 < matured_sum(old(unbonding_entries)@, now) <= u128::MAX ==> {
            &&& r is Ok
            &&& is_transfer(r->Ok_0, caller@, matured_sum(old(unbonding_entries)@, now) as u128)
            &&& final(unbonding_entries)@ == pending(old(unbonding_entries)@, now)
        },
{
    match split_matured(unbonding_entries, now) {
        None => Err(ContractError::Overflow),
        Some((amount, kept)) => {
            if amount == 0 {
                return Err(ContractError::NothingClaimable);
            }
            *unbonding_entries = kept;
            Ok(TokenAction::Transfer { recipient: caller.clone(), amount })
        },
    }
}

/// A staker's account, the reward due now, the total stake and the
/// unbonding queue. A staker with no account reads as an empty one whose
/// checkpoint is `now`.
pub fn query_user_info(
    state: &State,
    user: Option<UserInfo>,
    unbonding_entries: Vec<UnbondingEntry>,
    now: u64,
) -> (r: Result<UserInfoResponse, ContractError>)
    requires
        user is Some ==> user->Some_0.last_claim <= now,
    ensures
        ({
            let u = match user {
                Some(v) => v@,
                None => UserModel {
                    staked_amount: 0,
                    last_claim: now,
                    allocations: Seq::empty(),
                    percentages: Seq::empty(),
                },
            };
            let per_unit = emitted(now - u.last_claim);
            &&& if now == u.last_claim {
                r is Ok && r->Ok_0.staking_rewards_due == 0
            } else if state.total_staked == 0 {
                r == Err::<UserInfoResponse, ContractError>(ContractError::DivisionUndefined)
            } else if u.staked_amount * per_unit > u128::MAX {
                r == Err::<UserInfoResponse, ContractError>(ContractError::Overflow)
            } else {
                r is Ok && r->Ok_0.staking_rewards_due == staking_reward_due(*state, u, now)
            }
            &&& r is Ok ==> r->Ok_0.user_info@ == u && r->Ok_0.total_staked == state.total_staked
                && r->Ok_0.unbonding_entries@ == unbonding_entries@
        }),
{
    let info = match user {
        Some(v) => v,
        None => UserInfo { staked_amount: 0, last_claim: now, allocations: Vec::new(), percentages: Vec::new() },
    };
    let elapsed = now - info.last_claim;
    let due = if elapsed > 0 {
        match staking_reward(info.staked_amount, elapsed, state.total_staked) {
            Err(e) => {
                return Err(e);
            },
            Ok(v) => v,
        }
    } else {
        0
    };
    Ok(UserInfoResponse {
        user_info: info,
        staking_rewards_due: due,
        total_staked: state.total_staked,
        unbonding_entries,
    })
}

/// A new ledger managed by `manager`, checkpointed at `now`, with nothing
/// staked and no targets.
pub fn instantiate(manager: String, msg: InstantiateMsg, now: u64) -> (r: (State, Vec<Allocation>))
    ensures
        r.0 == (State {
            contract_manager: manager,
            erth_token_contract: msg.erth_contract,
            erth_token_hash: msg.erth_hash,
            total_staked: 0,
            total_allocations: 0,
            allocation_counter: 0,
            last_upkeep: now,
        }),
        r.1@.len() == 0,
        ledger_wf(r.0, r.1@, None),
{
    let state = State {
        contract_manager: manager,
        erth_token_contract: msg.erth_contract,
        erth_token_hash: msg.erth_hash,
        total_staked: 0,
        total_allocations: 0,
        allocation_counter: 0,
        last_upkeep: now,
    };
    let regs: Vec<Allocation> = Vec::new();
    proof {
        assert(sum_allocated(regs@) == 0);
    }
    (state, regs)
}

} // verus!
