use erth_staking::allocation::{add_new_allocations, percent_of, rebalance, subtract_old_allocations, validate_percentages};
use erth_staking::consistency::{account_consistent, ledger_consistent, registry_consistent};
use erth_staking::contract::{
    execute_add_allocation, execute_claim_allocation, execute_claim_staking_rewards, execute_claim_unbonded,
    execute_distribute_allocation_rewards, execute_edit_allocation, execute_set_allocation, execute_withdraw,
    instantiate, parse_edit, query_user_info, receive_stake, try_receive,
};
use erth_staking::error::ContractError;
use erth_staking::msg::{AllocationEdit, InstantiateMsg, ReceiveMsg, SendMsg, TokenAction};
use erth_staking::rewards::{distribute_allocation_rewards, staking_reward, REWARD_RATE_PER_SECOND};
use erth_staking::state::{Allocation, AllocationPercentage, State, UnbondingEntry, UserAllocation, UserInfo};
use erth_staking::unbonding::{split_matured, UNBONDING_PERIOD};

const START: u64 = 1_000;

fn s(v: &str) -> String {
    v.to_string()
}

fn new_ledger() -> (State, Vec<Allocation>) {
    instantiate(s("manager"), InstantiateMsg { erth_contract: s("token"), erth_hash: s("hash") }, START)
}

fn add_target(state: &mut State, regs: &mut Vec<Allocation>, addr: &str) -> u32 {
    execute_add_allocation(state, regs, &s("manager"), s(addr), None, None, None, false, START).unwrap()
}

fn pct(id: u32, p: u128) -> AllocationPercentage {
    AllocationPercentage { allocation_id: id, percentage: p }
}

/// Two targets and one staker of 1000 split 60/40.
fn split_ledger() -> (State, Vec<Allocation>, Option<UserInfo>) {
    let (mut state, mut regs) = new_ledger();
    let t1 = add_target(&mut state, &mut regs, "one");
    let t2 = add_target(&mut state, &mut regs, "two");
    let mut user = None;
    receive_stake(&mut state, &mut regs, &mut user, 1000, START).unwrap();
    execute_set_allocation(&mut state, &mut regs, &mut user, vec![pct(t1, 60), pct(t2, 40)]).unwrap();
    (state, regs, user)
}

#[test]
fn instantiate_starts_empty() {
    let (state, regs) = new_ledger();
    assert_eq!(state.contract_manager, "manager");
    assert_eq!(state.erth_token_contract, "token");
    assert_eq!(state.total_staked, 0);
    assert_eq!(state.total_allocations, 0);
    assert_eq!(state.allocation_counter, 0);
    assert_eq!(state.last_upkeep, START);
    assert!(regs.is_empty());
}

#[test]
fn add_allocation_assigns_increasing_ids() {
    let (mut state, mut regs) = new_ledger();
    assert_eq!(add_target(&mut state, &mut regs, "one"), 1);
    assert_eq!(add_target(&mut state, &mut regs, "two"), 2);
    assert_eq!(state.allocation_counter, 2);
    assert_eq!(regs.len(), 2);
    assert_eq!(regs[1].recieve_addr, "two");
    assert_eq!(regs[1].amount_allocated, 0);
    assert_eq!(regs[1].accumulated_rewards, 0);
}

#[test]
fn add_allocation_needs_manager() {
    let (mut state, mut regs) = new_ledger();
    let r = execute_add_allocation(&mut state, &mut regs, &s("someone"), s("x"), None, None, None, false, START);
    assert_eq!(r, Err(ContractError::Unauthorized));
    assert!(regs.is_empty());
    assert_eq!(state.allocation_counter, 0);
}

#[test]
fn sixty_forty_split_and_accrual() {
    let (mut state, mut regs, _user) = split_ledger();
    assert_eq!(regs[0].amount_allocated, 600);
    assert_eq!(regs[1].amount_allocated, 400);
    assert_eq!(state.total_allocations, 1000);
    let r = execute_distribute_allocation_rewards(&mut state, &mut regs, &s("manager"), START + 10).unwrap();
    assert_eq!(r, (10_000_000, 10, true));
    assert_eq!(regs[0].accumulated_rewards, 6_000_000);
    assert_eq!(regs[1].accumulated_rewards, 4_000_000);
    assert_eq!(state.last_upkeep, START + 10);
}

#[test]
fn accrual_truncates_uneven_shares() {
    let (mut state, mut regs) = new_ledger();
    let t1 = add_target(&mut state, &mut regs, "one");
    let t2 = add_target(&mut state, &mut regs, "two");
    let t3 = add_target(&mut state, &mut regs, "three");
    let mut user = None;
    receive_stake(&mut state, &mut regs, &mut user, 3, START).unwrap();
    execute_set_allocation(&mut state, &mut regs, &mut user, vec![pct(t1, 34), pct(t2, 33), pct(t3, 33)]).unwrap();
    // 3 * 34 / 100 = 1, 3 * 33 / 100 = 0: the dust is not routed anywhere.
    assert_eq!(regs[0].amount_allocated, 1);
    assert_eq!(regs[1].amount_allocated, 0);
    assert_eq!(regs[2].amount_allocated, 0);
    assert_eq!(state.total_allocations, 1);
    let (total, elapsed, done) = distribute_allocation_rewards(&mut regs, &state, START + 1).unwrap();
    assert_eq!((total, elapsed, done), (1_000_000, 1, true));
    assert_eq!(regs[0].accumulated_rewards, 1_000_000);
}

#[test]
fn accrual_without_time_or_allocations_is_a_no_op() {
    let (state, mut regs, _user) = split_ledger();
    let before = regs.clone();
    assert_eq!(distribute_allocation_rewards(&mut regs, &state, START), Ok((0, 0, false)));
    assert_eq!(regs, before);
    let (state2, mut regs2) = new_ledger();
    assert_eq!(distribute_allocation_rewards(&mut regs2, &state2, START + 5), Ok((0, 5, false)));
}

#[test]
fn distribute_refuses_zero_elapsed_and_strangers() {
    let (mut state, mut regs, _user) = split_ledger();
    assert_eq!(
        execute_distribute_allocation_rewards(&mut state, &mut regs, &s("manager"), START),
        Err(ContractError::NothingToDistribute)
    );
    assert_eq!(
        execute_distribute_allocation_rewards(&mut state, &mut regs, &s("bob"), START + 5),
        Err(ContractError::Unauthorized)
    );
    assert_eq!(regs[0].accumulated_rewards, 0);
}

#[test]
fn set_allocation_off_by_one_percent_is_refused() {
    let (mut state, mut regs, mut user) = split_ledger();
    let (s0, r0, u0) = (state.clone(), regs.clone(), user.clone());
    for ps in [vec![pct(1, 60), pct(2, 39)], vec![pct(1, 60), pct(2, 41)]] {
        let r = execute_set_allocation(&mut state, &mut regs, &mut user, ps);
        assert_eq!(r, Err(ContractError::PercentageMismatch));
        assert_eq!(state, s0);
        assert_eq!(regs, r0);
        assert_eq!(user, u0);
    }
}

#[test]
fn set_allocation_rejects_duplicate_and_unknown_ids() {
    let (mut state, mut regs, mut user) = split_ledger();
    assert_eq!(
        execute_set_allocation(&mut state, &mut regs, &mut user, vec![pct(1, 50), pct(1, 50)]),
        Err(ContractError::DuplicateId)
    );
    assert_eq!(
        execute_set_allocation(&mut state, &mut regs, &mut user, vec![pct(1, 50), pct(9, 50)]),
        Err(ContractError::UnknownId(9))
    );
    let mut nobody = None;
    assert_eq!(
        execute_set_allocation(&mut state, &mut regs, &mut nobody, vec![pct(1, 100)]),
        Err(ContractError::NoDeposit)
    );
}

#[test]
fn set_allocation_moves_backing() {
    let (mut state, mut regs, mut user) = split_ledger();
    execute_set_allocation(&mut state, &mut regs, &mut user, vec![pct(2, 100)]).unwrap();
    assert_eq!(regs[0].amount_allocated, 0);
    assert_eq!(regs[1].amount_allocated, 1000);
    assert_eq!(state.total_allocations, 1000);
    let u = user.unwrap();
    assert_eq!(u.allocations, vec![UserAllocation { allocation_id: 2, amount_allocated: 1000 }]);
    assert_eq!(u.percentages, vec![pct(2, 100)]);
}

#[test]
fn zero_percent_entries_get_no_allocation() {
    let (mut state, mut regs, mut user) = split_ledger();
    execute_set_allocation(&mut state, &mut regs, &mut user, vec![pct(1, 0), pct(2, 100)]).unwrap();
    assert_eq!(user.unwrap().allocations, vec![UserAllocation { allocation_id: 2, amount_allocated: 1000 }]);
}

#[test]
fn restake_resplits_the_larger_stake() {
    let (mut state, mut regs, mut user) = split_ledger();
    receive_stake(&mut state, &mut regs, &mut user, 500, START + 3).unwrap();
    assert_eq!(regs[0].amount_allocated, 900);
    assert_eq!(regs[1].amount_allocated, 600);
    assert_eq!(state.total_allocations, 1500);
    assert_eq!(state.total_staked, 1500);
    let u = user.unwrap();
    assert_eq!(u.staked_amount, 1500);
    assert_eq!(u.last_claim, START);
}

#[test]
fn restake_without_split_is_refused() {
    let (mut state, mut regs) = new_ledger();
    add_target(&mut state, &mut regs, "one");
    let mut user = None;
    receive_stake(&mut state, &mut regs, &mut user, 10, START).unwrap();
    assert_eq!(receive_stake(&mut state, &mut regs, &mut user, 10, START), Err(ContractError::PercentageMismatch));
    assert_eq!(state.total_staked, 10);
}

#[test]
fn try_receive_checks_the_token_contract() {
    let (mut state, mut regs) = new_ledger();
    let mut user = None;
    let r = try_receive(&mut state, &mut regs, &mut user, &s("fake"), 10, ReceiveMsg::StakeErth {}, START);
    assert_eq!(r, Err(ContractError::UntrustedSource));
    assert!(user.is_none());
    try_receive(&mut state, &mut regs, &mut user, &s("token"), 10, ReceiveMsg::StakeErth {}, START).unwrap();
    assert_eq!(user.unwrap().staked_amount, 10);
    assert_eq!(state.total_staked, 10);
}

#[test]
fn stake_overflow_is_refused() {
    let (mut state, mut regs) = new_ledger();
    let mut user = None;
    receive_stake(&mut state, &mut regs, &mut user, u128::MAX, START).unwrap();
    let mut other = None;
    assert_eq!(receive_stake(&mut state, &mut regs, &mut other, 1, START), Err(ContractError::Overflow));
    assert!(other.is_none());
}

#[test]
fn withdraw_more_than_staked_changes_nothing() {
    let (mut state, mut regs, mut user) = split_ledger();
    let mut queue: Vec<UnbondingEntry> = Vec::new();
    let (s0, r0, u0) = (state.clone(), regs.clone(), user.clone());
    let r = execute_withdraw(&mut state, &mut regs, &mut user, &mut queue, 1001, START);
    assert_eq!(r, Err(ContractError::InsufficientFunds));
    assert_eq!(state, s0);
    assert_eq!(regs, r0);
    assert_eq!(user, u0);
    assert!(queue.is_empty());
}

#[test]
fn withdraw_without_account_is_refused() {
    let (mut state, mut regs, _) = split_ledger();
    let mut nobody = None;
    let mut queue = Vec::new();
    assert_eq!(
        execute_withdraw(&mut state, &mut regs, &mut nobody, &mut queue, 1, START),
        Err(ContractError::NoDeposit)
    );
}

#[test]
fn partial_withdraw_resplits_the_rest() {
    let (mut state, mut regs, mut user) = split_ledger();
    let mut queue = Vec::new();
    let e = execute_withdraw(&mut state, &mut regs, &mut user, &mut queue, 500, START).unwrap();
    assert_eq!(e, UnbondingEntry { amount: 500, unbonding_time: START + 21 * 24 * 60 * 60 });
    assert_eq!(regs[0].amount_allocated, 300);
    assert_eq!(regs[1].amount_allocated, 200);
    assert_eq!(state.total_allocations, 500);
    assert_eq!(state.total_staked, 500);
    assert_eq!(user.unwrap().staked_amount, 500);
}

#[test]
fn stake_then_withdraw_all_round_trip() {
    let (mut state, mut regs, mut user) = split_ledger();
    let (staked0, allocs0, regs0, user0) = (state.total_staked, state.total_allocations, regs.clone(), user.clone());
    let mut queue = Vec::new();
    receive_stake(&mut state, &mut regs, &mut user, 250, START + 1).unwrap();
    execute_withdraw(&mut state, &mut regs, &mut user, &mut queue, 250, START + 2).unwrap();
    assert_eq!(state.total_staked, staked0);
    assert_eq!(state.total_allocations, allocs0);
    assert_eq!(regs, regs0);
    assert_eq!(user, user0);
    assert_eq!(queue, vec![UnbondingEntry { amount: 250, unbonding_time: START + 2 + UNBONDING_PERIOD }]);
}

#[test]
fn fresh_stake_then_withdraw_all_removes_account() {
    let (mut state, mut regs) = new_ledger();
    let mut user = None;
    let mut queue = Vec::new();
    receive_stake(&mut state, &mut regs, &mut user, 777, START).unwrap();
    execute_withdraw(&mut state, &mut regs, &mut user, &mut queue, 777, START).unwrap();
    assert!(user.is_none());
    assert_eq!(state.total_staked, 0);
    assert_eq!(state.total_allocations, 0);
    assert_eq!(queue.len(), 1);
    assert_eq!(queue[0].amount, 777);
    assert_eq!(queue[0].unbonding_time, START + 1_814_400);
}

#[test]
fn claim_unbonded_waits_for_unlock() {
    let (mut state, mut regs, mut user) = split_ledger();
    let mut queue = Vec::new();
    execute_withdraw(&mut state, &mut regs, &mut user, &mut queue, 300, START).unwrap();
    execute_withdraw(&mut state, &mut regs, &mut user, &mut queue, 200, START + 1000).unwrap();
    let early = execute_claim_unbonded(&mut queue, &s("alice"), START + UNBONDING_PERIOD - 1);
    assert_eq!(early, Err(ContractError::NothingClaimable));
    assert_eq!(queue.len(), 2);
    let r = execute_claim_unbonded(&mut queue, &s("alice"), START + UNBONDING_PERIOD).unwrap();
    assert_eq!(r, TokenAction::Transfer { recipient: s("alice"), amount: 300 });
    assert_eq!(queue, vec![UnbondingEntry { amount: 200, unbonding_time: START + 1000 + UNBONDING_PERIOD }]);
    let again = execute_claim_unbonded(&mut queue, &s("alice"), START + UNBONDING_PERIOD);
    assert_eq!(again, Err(ContractError::NothingClaimable));
}

#[test]
fn claim_unbonded_on_empty_queue() {
    let mut queue: Vec<UnbondingEntry> = Vec::new();
    assert_eq!(execute_claim_unbonded(&mut queue, &s("a"), 5), Err(ContractError::NothingClaimable));
}

#[test]
fn split_matured_keeps_order_of_pending() {
    let q = vec![
        UnbondingEntry { amount: 1, unbonding_time: 10 },
        UnbondingEntry { amount: 2, unbonding_time: 30 },
        UnbondingEntry { amount: 4, unbonding_time: 20 },
        UnbondingEntry { amount: 8, unbonding_time: 40 },
    ];
    let (sum, kept) = split_matured(&q, 20).unwrap();
    assert_eq!(sum, 5);
    assert_eq!(kept, vec![q[1], q[3]]);
    let big = vec![UnbondingEntry { amount: u128::MAX, unbonding_time: 0 }, UnbondingEntry { amount: 1, unbonding_time: 0 }];
    assert_eq!(split_matured(&big, 0), None);
}

#[test]
fn claim_allocation_with_no_rewards_is_a_no_op() {
    let (state, mut regs, _user) = split_ledger();
    let before = regs.clone();
    let r = execute_claim_allocation(&mut regs, &state, &s("anyone"), &s("ledger"), 1, START + 5);
    assert_eq!(r, Ok(vec![]));
    assert_eq!(regs, before);
    assert_eq!(state.total_allocations, 1000);
}

#[test]
fn claim_allocation_mints_directly() {
    let (mut state, mut regs, _user) = split_ledger();
    execute_distribute_allocation_rewards(&mut state, &mut regs, &s("manager"), START + 10).unwrap();
    let r = execute_claim_allocation(&mut regs, &state, &s("anyone"), &s("ledger"), 1, START + 11).unwrap();
    assert_eq!(r, vec![TokenAction::Mint { recipient: s("one"), amount: 6_000_000 }]);
    assert_eq!(regs[0].accumulated_rewards, 0);
    assert_eq!(regs[0].last_claim, START + 11);
    assert_eq!(regs[0].amount_allocated, 600);
    assert_eq!(regs[1].accumulated_rewards, 4_000_000);
}

#[test]
fn claim_allocation_forwards_with_code() {
    let (mut state, mut regs, _user) = split_ledger();
    execute_edit_allocation(&mut regs, &state, &s("manager"), 2, AllocationEdit::UseSend(Some(true))).unwrap();
    execute_distribute_allocation_rewards(&mut state, &mut regs, &s("manager"), START + 10).unwrap();
    let missing = execute_claim_allocation(&mut regs, &state, &s("x"), &s("ledger"), 2, START + 10);
    assert_eq!(missing, Err(ContractError::MissingDeliveryCode));
    assert_eq!(regs[1].accumulated_rewards, 4_000_000);
    execute_edit_allocation(&mut regs, &state, &s("manager"), 2, AllocationEdit::RecieveHash(Some(s("code")))).unwrap();
    let r = execute_claim_allocation(&mut regs, &state, &s("x"), &s("ledger"), 2, START + 10).unwrap();
    assert_eq!(
        r,
        vec![
            TokenAction::Mint { recipient: s("ledger"), amount: 4_000_000 },
            TokenAction::Send {
                recipient: s("two"),
                recipient_code_hash: s("code"),
                amount: 4_000_000,
                msg: SendMsg::AllocationSend { allocation_id: 2 },
            },
        ]
    );
}

#[test]
fn claim_allocation_respects_claimer() {
    let (mut state, mut regs, _user) = split_ledger();
    execute_edit_allocation(&mut regs, &state, &s("manager"), 1, AllocationEdit::ClaimerAddr(Some(s("carol")))).unwrap();
    execute_distribute_allocation_rewards(&mut state, &mut regs, &s("manager"), START + 1).unwrap();
    let r = execute_claim_allocation(&mut regs, &state, &s("dave"), &s("ledger"), 1, START + 1);
    assert_eq!(r, Err(ContractError::Unauthorized));
    assert!(execute_claim_allocation(&mut regs, &state, &s("carol"), &s("ledger"), 1, START + 1).is_ok());
    let missing = execute_claim_allocation(&mut regs, &state, &s("carol"), &s("ledger"), 7, START + 1);
    assert_eq!(missing, Err(ContractError::NotFound));
}

#[test]
fn edit_allocation_rights_and_values() {
    let (state, mut regs, _user) = split_ledger();
    let no = execute_edit_allocation(&mut regs, &state, &s("eve"), 1, AllocationEdit::RecieveHash(None));
    assert_eq!(no, Err(ContractError::Unauthorized));
    execute_edit_allocation(&mut regs, &state, &s("manager"), 1, AllocationEdit::ManagerAddr(Some(s("eve")))).unwrap();
    execute_edit_allocation(&mut regs, &state, &s("eve"), 1, AllocationEdit::RecieveAddr(Some(s("new")))).unwrap();
    assert_eq!(regs[0].recieve_addr, "new");
    let cleared = execute_edit_allocation(&mut regs, &state, &s("eve"), 1, AllocationEdit::RecieveAddr(None));
    assert_eq!(cleared, Err(ContractError::InvalidValue));
    let no_bool = execute_edit_allocation(&mut regs, &state, &s("eve"), 1, AllocationEdit::UseSend(None));
    assert_eq!(no_bool, Err(ContractError::InvalidValue));
    let other = execute_edit_allocation(&mut regs, &state, &s("eve"), 2, AllocationEdit::RecieveHash(None));
    assert_eq!(other, Err(ContractError::Unauthorized));
    let missing = execute_edit_allocation(&mut regs, &state, &s("manager"), 9, AllocationEdit::RecieveHash(None));
    assert_eq!(missing, Err(ContractError::NotFound));
}

#[test]
fn parse_edit_reads_keys_and_flags() {
    assert_eq!(parse_edit(&s("recieve_addr"), Some(s("a"))), Ok(AllocationEdit::RecieveAddr(Some(s("a")))));
    assert_eq!(parse_edit(&s("recieve_hash"), None), Ok(AllocationEdit::RecieveHash(None)));
    assert_eq!(parse_edit(&s("manager_addr"), Some(s("m"))), Ok(AllocationEdit::ManagerAddr(Some(s("m")))));
    assert_eq!(parse_edit(&s("claimer_addr"), None), Ok(AllocationEdit::ClaimerAddr(None)));
    assert_eq!(parse_edit(&s("use_send"), Some(s("true"))), Ok(AllocationEdit::UseSend(Some(true))));
    assert_eq!(parse_edit(&s("use_send"), Some(s("false"))), Ok(AllocationEdit::UseSend(Some(false))));
    assert_eq!(parse_edit(&s("use_send"), Some(s("yes"))), Err(ContractError::InvalidValue));
    assert_eq!(parse_edit(&s("use_send"), None), Ok(AllocationEdit::UseSend(None)));
    assert_eq!(parse_edit(&s("colour"), Some(s("x"))), Err(ContractError::InvalidValue));
}

#[test]
fn staking_rewards_single_staker() {
    let (mut state, mut regs, mut user) = split_ledger();
    let (reward, upkeep) = execute_claim_staking_rewards(&mut state, &mut regs, &mut user, START + 10).unwrap();
    assert_eq!(reward, 10_000_000);
    assert_eq!(upkeep, (10_000_000, 10, true));
    assert_eq!(user.as_ref().unwrap().last_claim, START + 10);
    assert_eq!(state.last_upkeep, START + 10);
    assert_eq!(regs[0].accumulated_rewards, 6_000_000);
    let again = execute_claim_staking_rewards(&mut state, &mut regs, &mut user, START + 10);
    assert_eq!(again, Err(ContractError::NothingToClaim));
}

#[test]
fn staking_rewards_by_share() {
    let (mut state, mut regs, mut alice) = split_ledger();
    let mut bob = None;
    receive_stake(&mut state, &mut regs, &mut bob, 3000, START).unwrap();
    let (reward, _) = execute_claim_staking_rewards(&mut state, &mut regs, &mut alice, START + 4).unwrap();
    assert_eq!(reward, 1000 * REWARD_RATE_PER_SECOND * 4 / 4000);
    let mut nobody = None;
    assert_eq!(
        execute_claim_staking_rewards(&mut state, &mut regs, &mut nobody, START + 5),
        Err(ContractError::NotFound)
    );
}

#[test]
fn staking_reward_with_no_stake_is_undefined() {
    let (mut state, mut regs) = new_ledger();
    let mut user = None;
    receive_stake(&mut state, &mut regs, &mut user, 0, START).unwrap();
    let r = execute_claim_staking_rewards(&mut state, &mut regs, &mut user, START + 1);
    assert_eq!(r, Err(ContractError::DivisionUndefined));
    assert_eq!(staking_reward(5, 1, 0), Err(ContractError::DivisionUndefined));
    assert_eq!(staking_reward(u128::MAX, 1, 1), Err(ContractError::Overflow));
    assert_eq!(staking_reward(7, 3, 21), Ok(1_000_000));
}

#[test]
fn query_user_info_reports_due_rewards() {
    let (state, _regs, user) = split_ledger();
    let queue = vec![UnbondingEntry { amount: 5, unbonding_time: 9 }];
    let r = query_user_info(&state, user.clone(), queue.clone(), START + 3).unwrap();
    assert_eq!(r.staking_rewards_due, 3_000_000);
    assert_eq!(r.total_staked, 1000);
    assert_eq!(r.unbonding_entries, queue);
    assert_eq!(r.user_info, user.unwrap());
    let none = query_user_info(&state, None, vec![], START + 3).unwrap();
    assert_eq!(none.staking_rewards_due, 0);
    assert_eq!(none.user_info.last_claim, START + 3);
    assert_eq!(none.user_info.staked_amount, 0);
}

#[test]
fn percent_of_is_exact_for_large_amounts() {
    assert_eq!(percent_of(1000, 60), 600);
    assert_eq!(percent_of(999, 33), 329);
    assert_eq!(percent_of(u128::MAX, 100), u128::MAX);
    assert_eq!(percent_of(u128::MAX, 50), u128::MAX / 2);
    assert_eq!(percent_of(12345, 0), 0);
}

#[test]
fn validate_percentages_orders_errors() {
    let (mut state, mut regs) = new_ledger();
    add_target(&mut state, &mut regs, "one");
    add_target(&mut state, &mut regs, "two");
    assert_eq!(validate_percentages(&vec![pct(1, 100)], &regs), Ok(()));
    assert_eq!(validate_percentages(&vec![], &regs), Err(ContractError::PercentageMismatch));
    assert_eq!(validate_percentages(&vec![pct(3, 100), pct(1, 0), pct(1, 0)], &regs), Err(ContractError::UnknownId(3)));
    assert_eq!(validate_percentages(&vec![pct(1, 100), pct(1, 0)], &regs), Err(ContractError::DuplicateId));
    assert_eq!(
        validate_percentages(&vec![pct(1, u128::MAX), pct(2, 2)], &regs),
        Err(ContractError::PercentageMismatch)
    );
}

#[test]
fn rebalance_phases_move_backing() {
    let (mut state, mut regs, user) = split_ledger();
    let u = user.unwrap();
    let mut regs2 = regs.clone();
    let mut state2 = state.clone();
    subtract_old_allocations(&u.allocations, &mut regs2, &mut state2);
    assert_eq!(regs2[0].amount_allocated, 0);
    assert_eq!(regs2[1].amount_allocated, 0);
    assert_eq!(state2.total_allocations, 0);
    let out = add_new_allocations(200, &vec![pct(1, 50), pct(2, 50)], &mut regs2, &mut state2).unwrap();
    assert_eq!(out, vec![UserAllocation { allocation_id: 1, amount_allocated: 100 }, UserAllocation { allocation_id: 2, amount_allocated: 100 }]);
    assert_eq!(state2.total_allocations, 200);
    let empty = rebalance(&u.allocations, 0, &vec![pct(9, 1)], &mut regs, &mut state).unwrap();
    assert!(empty.is_empty());
    assert_eq!(state.total_allocations, 0);
    let big = add_new_allocations(u128::MAX, &vec![pct(1, 100)], &mut regs2, &mut state2);
    assert_eq!(big, Err(ContractError::Overflow));
    assert_eq!(state2.total_allocations, 200);
}

#[test]
fn records_stay_consistent_across_operations() {
    let (mut state, mut regs, mut user) = split_ledger();
    assert!(ledger_consistent(&state, &regs, &user));
    let mut queue = Vec::new();
    execute_withdraw(&mut state, &mut regs, &mut user, &mut queue, 333, START).unwrap();
    assert!(ledger_consistent(&state, &regs, &user));
    receive_stake(&mut state, &mut regs, &mut user, 41, START).unwrap();
    assert!(ledger_consistent(&state, &regs, &user));
    execute_set_allocation(&mut state, &mut regs, &mut user, vec![pct(2, 70), pct(1, 30)]).unwrap();
    assert!(ledger_consistent(&state, &regs, &user));
    assert!(registry_consistent(&state, &regs));
    assert!(account_consistent(user.as_ref().unwrap(), &regs));
}

#[test]
fn tampered_records_are_inconsistent() {
    let (state, regs, user) = split_ledger();
    let mut bad_total = state.clone();
    bad_total.total_allocations = 999;
    assert!(!registry_consistent(&bad_total, &regs));
    let mut dup = regs.clone();
    dup[1].allocation_id = 1;
    assert!(!registry_consistent(&state, &dup));
    let mut high = regs.clone();
    high[1].allocation_id = 5;
    assert!(!registry_consistent(&state, &high));
    let mut thin = regs.clone();
    thin[0].amount_allocated = 599;
    thin[1].amount_allocated = 401;
    assert!(registry_consistent(&state, &thin));
    assert!(!account_consistent(user.as_ref().unwrap(), &thin));
    let mut resplit = user.clone().unwrap();
    resplit.staked_amount = 2000;
    assert!(!account_consistent(&resplit, &regs));
    let mut rich = user.clone();
    rich.as_mut().unwrap().staked_amount = 1000;
    let mut poor = state.clone();
    poor.total_staked = 10;
    assert!(!ledger_consistent(&poor, &regs, &rich));
}
