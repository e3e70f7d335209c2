use sc_delegation::delegation::{ContractStakeModule, Delegation, StakeSaleModule, UnexpectedBalanceModule};
use sc_delegation::nodes::NodeConfigModule;
use sc_delegation::rewards::{split_service_reward, RewardsModule};
use sc_delegation::types::{DelegationError, FundType, NodeState};

fn addr(b: u8) -> Vec<u8> {
    vec![b; 32]
}

fn key(b: u8) -> Vec<u8> {
    vec![b; 96]
}

fn sig(b: u8) -> Vec<u8> {
    vec![b; 48]
}

fn owner() -> Vec<u8> {
    addr(1)
}

fn pairs(ks: &[u8]) -> Vec<(Vec<u8>, Vec<u8>)> {
    ks.iter().map(|&k| (key(k), sig(k))).collect()
}

fn keys(ks: &[u8]) -> Vec<Vec<u8>> {
    ks.iter().map(|&k| key(k)).collect()
}

fn stake(d: &Delegation, user: usize, t: FundType) -> u64 {
    d.ledger().get_user_stake_of_type(user, t)
}

/// Owner (user 1) and users 2 and 3 deposit 100, 200, 300; nodes 1..=n registered.
fn contract(stake_per_node: u64, nodes: u8) -> Delegation {
    let mut d = Delegation::new(&owner(), stake_per_node, 1000, 10);
    assert_eq!(d.deposit_stake(&owner(), 100), Ok(1));
    assert_eq!(d.deposit_stake(&addr(2), 200), Ok(2));
    assert_eq!(d.deposit_stake(&addr(3), 300), Ok(3));
    let ks: Vec<u8> = (1..=nodes).collect();
    assert_eq!(d.add_nodes(&owner(), &pairs(&ks)), Ok(()));
    d
}

fn no_node_pending(d: &Delegation) {
    for id in 1..=d.nodes().get_num_nodes() {
        let s = d.nodes().get_node_state(id);
        assert!(s != NodeState::PendingActivation && s != NodeState::PendingDeactivation && s != NodeState::PendingUnBond);
    }
}

fn conserved(d: &Delegation) {
    let l = d.ledger();
    let types = [
        FundType::Inactive,
        FundType::PendingActivation,
        FundType::Active,
        FundType::PendingDeactivation,
        FundType::UnBondPeriod,
        FundType::PendingUnBond,
        FundType::WithdrawOnly,
        FundType::StakeForSale,
    ];
    for t in types {
        let sum: u64 = (1..=l.get_num_users()).map(|u| l.get_user_stake_of_type(u, t)).sum();
        assert_eq!(l.get_user_stake_of_type(0, t), sum);
    }
    for u in 0..=l.get_num_users() {
        let sum: u64 = types.iter().map(|&t| l.get_user_stake_of_type(u, t)).sum();
        assert_eq!(l.get_user_total_stake(u), sum);
    }
}

#[test]
fn activation_pools_oldest_stake_first() {
    let mut d = contract(250, 2);
    let ids = d.activate_nodes(&owner(), &pairs(&[1, 2])).unwrap();
    assert_eq!(ids, vec![1, 2]);
    assert_eq!(stake(&d, 1, FundType::PendingActivation), 100);
    assert_eq!(stake(&d, 2, FundType::PendingActivation), 200);
    assert_eq!(stake(&d, 3, FundType::PendingActivation), 200);
    assert_eq!(stake(&d, 3, FundType::Inactive), 100);
    assert_eq!(stake(&d, 0, FundType::PendingActivation), 500);
    assert_eq!(d.nodes().get_node_state(1), NodeState::PendingActivation);
    assert_eq!(d.nodes().get_node_state(2), NodeState::PendingActivation);
    conserved(&d);
}

#[test]
fn activation_success_makes_stake_active() {
    let mut d = contract(250, 2);
    let ids = d.activate_nodes(&owner(), &pairs(&[1, 2])).unwrap();
    assert_eq!(d.auction_stake_callback(&ids, true), Ok(()));
    assert_eq!(d.get_total_active_stake(), 500);
    assert_eq!(stake(&d, 0, FundType::PendingActivation), 0);
    assert_eq!(stake(&d, 3, FundType::Active), 200);
    assert_eq!(d.nodes().get_node_state(1), NodeState::Active);
    no_node_pending(&d);
    conserved(&d);
}

#[test]
fn activation_failure_reverts_nodes_and_stake() {
    let mut d = contract(250, 2);
    let ids = d.activate_nodes(&owner(), &pairs(&[1, 2])).unwrap();
    assert_eq!(d.auction_stake_callback(&ids, false), Ok(()));
    assert_eq!(d.nodes().get_node_state(1), NodeState::Inactive);
    assert_eq!(d.nodes().get_node_state(2), NodeState::Inactive);
    assert_eq!(stake(&d, 1, FundType::Inactive), 100);
    assert_eq!(stake(&d, 2, FundType::Inactive), 200);
    assert_eq!(stake(&d, 3, FundType::Inactive), 300);
    assert_eq!(stake(&d, 0, FundType::PendingActivation), 0);
    assert_eq!(d.get_total_active_stake(), 0);
    no_node_pending(&d);
    conserved(&d);
}

#[test]
fn activation_guards_change_nothing() {
    let mut d = contract(250, 3);
    assert_eq!(d.activate_nodes(&addr(2), &pairs(&[1])), Err(DelegationError::NotOwner));
    assert_eq!(d.activate_nodes(&owner(), &vec![(key(1), vec![0u8; 47])]), Err(DelegationError::MalformedInput));
    assert_eq!(d.activate_nodes(&owner(), &pairs(&[1, 1])), Err(DelegationError::UnexpectedState));
    assert_eq!(d.activate_nodes(&owner(), &pairs(&[9])), Err(DelegationError::UnexpectedState));
    assert_eq!(d.activate_nodes(&owner(), &pairs(&[1, 2, 3])), Err(DelegationError::InsufficientFunds));
    assert_eq!(d.nodes().get_node_state(1), NodeState::Inactive);
    assert_eq!(stake(&d, 0, FundType::PendingActivation), 0);
    let ids = d.activate_nodes(&owner(), &pairs(&[1])).unwrap();
    assert_eq!(d.activate_nodes(&owner(), &pairs(&[1])), Err(DelegationError::UnexpectedState));
    assert_eq!(d.auction_unstake_callback(&ids, true), Err(DelegationError::UnexpectedState));
    assert_eq!(d.auction_stake_callback(&vec![1, 1], true), Err(DelegationError::UnexpectedState));
}

#[test]
fn full_lifecycle_returns_to_inactive() {
    let mut d = contract(300, 2);
    let ids = d.activate_nodes(&owner(), &pairs(&[1, 2])).unwrap();
    assert_eq!(d.auction_stake_callback(&ids, true), Ok(()));
    assert_eq!(d.deactivate_nodes(&addr(2), &keys(&[2])), Err(DelegationError::NotOwner));
    let ids = d.deactivate_nodes(&owner(), &keys(&[2])).unwrap();
    assert_eq!(ids, vec![2]);
    assert_eq!(d.get_total_active_stake(), 300);
    assert_eq!(stake(&d, 3, FundType::PendingDeactivation), 300);
    assert_eq!(d.nodes().get_node_state(2), NodeState::PendingDeactivation);
    assert_eq!(d.auction_unstake_callback(&ids, true), Ok(()));
    assert_eq!(d.nodes().get_node_state(2), NodeState::UnBondPeriod);
    assert_eq!(stake(&d, 3, FundType::UnBondPeriod), 300);
    no_node_pending(&d);
    assert_eq!(d.unbond(&keys(&[1])), Err(DelegationError::UnexpectedState));
    let ids = d.unbond(&keys(&[2])).unwrap();
    assert_eq!(d.nodes().get_node_state(2), NodeState::PendingUnBond);
    assert_eq!(stake(&d, 3, FundType::PendingUnBond), 300);
    assert_eq!(d.auction_unbond_callback(&ids, false), Ok(()));
    assert_eq!(d.nodes().get_node_state(2), NodeState::UnBondPeriod);
    let ids = d.unbond(&keys(&[2])).unwrap();
    assert_eq!(d.auction_unbond_callback(&ids, true), Ok(()));
    assert_eq!(d.nodes().get_node_state(2), NodeState::Inactive);
    assert_eq!(stake(&d, 3, FundType::Inactive), 300);
    assert_eq!(stake(&d, 0, FundType::PendingUnBond), 0);
    no_node_pending(&d);
    conserved(&d);
}

#[test]
fn deactivation_failure_restores_active_stake() {
    let mut d = contract(300, 2);
    let ids = d.activate_nodes(&owner(), &pairs(&[1, 2])).unwrap();
    assert_eq!(d.auction_stake_callback(&ids, true), Ok(()));
    let ids = d.deactivate_nodes(&owner(), &keys(&[1])).unwrap();
    assert_eq!(d.auction_unstake_callback(&ids, false), Ok(()));
    assert_eq!(d.nodes().get_node_state(1), NodeState::Active);
    assert_eq!(d.get_total_active_stake(), 600);
    assert_eq!(stake(&d, 0, FundType::PendingDeactivation), 0);
    no_node_pending(&d);
    conserved(&d);
}

#[test]
fn service_reward_split() {
    assert_eq!(split_service_reward(1000, 1000), (100, 900));
    assert_eq!(split_service_reward(1234, 10), (1, 8));
    assert_eq!(split_service_reward(0, 77), (0, 77));
    assert_eq!(split_service_reward(10000, 77), (77, 0));
}

/// Owner, user 2 and user 3 each hold 300 active stake; 1000 rewards arrive.
fn rewarded() -> Delegation {
    let mut d = Delegation::new(&owner(), 300, 1000, 10);
    assert_eq!(d.deposit_stake(&owner(), 300), Ok(1));
    assert_eq!(d.deposit_stake(&addr(2), 300), Ok(2));
    assert_eq!(d.deposit_stake(&addr(3), 300), Ok(3));
    assert_eq!(d.add_nodes(&owner(), &pairs(&[1, 2, 3])), Ok(()));
    let ids = d.activate_nodes(&owner(), &pairs(&[1, 2, 3])).unwrap();
    assert_eq!(d.auction_stake_callback(&ids, true), Ok(()));
    assert_eq!(d.get_total_active_stake(), 900);
    assert_eq!(d.receive_rewards(1000), Ok(()));
    d
}

#[test]
fn rewards_shared_pro_rata_net_of_fee() {
    let d = rewarded();
    assert_eq!(d.get_claimable_rewards(&addr(2)), 300);
    assert_eq!(d.get_claimable_rewards(&addr(3)), 300);
    assert_eq!(d.get_claimable_rewards(&owner()), 400);
    assert_eq!(d.get_claimable_rewards(&addr(9)), 0);
    assert_eq!(d.get_total_unclaimed_rewards(), 1000);
}

#[test]
fn claim_sends_and_counts_rewards() {
    let mut d = rewarded();
    assert_eq!(d.claim_rewards(&addr(9), false), Err(DelegationError::UnknownCaller));
    assert_eq!(d.claim_rewards(&addr(2), true), Err(DelegationError::CheckpointingInProgress));
    assert_eq!(d.claim_rewards(&addr(2), false), Ok(300));
    assert_eq!(d.rewards().get_sent_rewards(), 300);
    assert_eq!(d.rewards().get_total_cumulated_rewards(), 1000);
    assert_eq!(d.claim_rewards(&addr(2), false), Ok(0));
    assert_eq!(d.rewards().get_sent_rewards(), 300);
    assert_eq!(d.get_claimable_rewards(&addr(2)), 0);
    assert_eq!(d.receive_rewards(100), Ok(()));
    assert_eq!(d.get_claimable_rewards(&addr(2)), 30);
    assert!(d.rewards().get_sent_rewards() <= d.rewards().get_total_cumulated_rewards());
}

#[test]
fn recompute_twice_changes_nothing_more() {
    let mut d = rewarded();
    assert_eq!(d.compute_one_user_reward(2), Ok(()));
    let first = d.rewards().load_user_reward_data(2);
    assert_eq!(first.unclaimed_rewards, 300);
    assert_eq!(first.reward_checkpoint, 1000);
    assert_eq!(d.compute_one_user_reward(2), Ok(()));
    assert_eq!(d.rewards().load_user_reward_data(2), first);
    assert_eq!(d.compute_one_user_reward(0), Err(DelegationError::UnknownCaller));
    assert_eq!(d.compute_one_user_reward(9), Err(DelegationError::UnknownCaller));
}

#[test]
fn reward_overflow_is_refused() {
    let mut d = rewarded();
    assert_eq!(d.receive_rewards(u64::MAX), Err(DelegationError::Overflow));
    assert_eq!(d.rewards().get_total_cumulated_rewards(), 1000);
}

#[test]
fn buyer_keeps_rewards_earned_before_purchase() {
    let mut d = Delegation::new(&owner(), 450, 0, 10);
    assert_eq!(d.deposit_stake(&addr(2), 450), Ok(2));
    assert_eq!(d.deposit_stake(&addr(3), 450), Ok(3));
    assert_eq!(d.add_nodes(&owner(), &pairs(&[1, 2])), Ok(()));
    let ids = d.activate_nodes(&owner(), &pairs(&[1, 2])).unwrap();
    assert_eq!(d.auction_stake_callback(&ids, true), Ok(()));
    assert_eq!(d.receive_rewards(1000), Ok(()));
    assert_eq!(d.claim_rewards(&addr(2), false), Ok(500));
    assert_eq!(d.offer_stake_for_sale(&addr(2), 450, 5), Ok(()));
    assert_eq!(d.purchase_stake(&addr(3), &addr(2), 450), Ok(()));
    assert_eq!(d.rewards().load_user_reward_data(3).unclaimed_rewards, 500);
    assert_eq!(d.claim_rewards(&addr(3), false), Ok(500));
    assert_eq!(d.rewards().get_sent_rewards(), 1000);
    assert_eq!(d.receive_rewards(100), Ok(()));
    assert_eq!(d.get_claimable_rewards(&addr(3)), 100);
    assert_eq!(d.get_claimable_rewards(&addr(2)), 0);
}

#[test]
fn stake_sale_and_purchase() {
    let mut d = rewarded();
    assert_eq!(d.offer_stake_for_sale(&addr(9), 10, 5), Err(DelegationError::UnknownCaller));
    assert_eq!(d.offer_stake_for_sale(&addr(2), 301, 5), Err(DelegationError::InsufficientFunds));
    assert_eq!(d.offer_stake_for_sale(&addr(2), 100, 5), Ok(()));
    assert_eq!(d.get_stake_for_sale(&addr(2)), 100);
    assert_eq!(d.get_stake_for_sale(&addr(9)), 0);
    assert_eq!(d.purchase_stake(&addr(7), &addr(9), 10), Err(DelegationError::UnknownCaller));
    assert_eq!(d.purchase_stake(&addr(7), &addr(2), 101), Err(DelegationError::PaymentExceedsOffer));
    assert_eq!(d.purchase_stake(&addr(7), &addr(2), 0), Ok(()));
    assert_eq!(d.ledger().get_num_users(), 3);
    assert_eq!(d.purchase_stake(&addr(7), &addr(2), 60), Ok(()));
    assert_eq!(d.ledger().get_user_id(&addr(7)), 4);
    assert_eq!(stake(&d, 4, FundType::Active), 60);
    assert_eq!(stake(&d, 2, FundType::Active), 240);
    assert_eq!(d.ledger().get_user_total_stake(2), 240);
    assert_eq!(d.get_stake_for_sale(&addr(2)), 40);
    assert_eq!(d.get_total_active_stake(), 900);
    conserved(&d);
}

#[test]
fn force_unstake_takes_requester_stake_first() {
    let mut d = contract(200, 3);
    let ids = d.activate_nodes(&owner(), &pairs(&[1, 2, 3])).unwrap();
    assert_eq!(d.auction_stake_callback(&ids, true), Ok(()));
    assert_eq!(d.force_unstake(&addr(9), 100), Err(DelegationError::UnknownCaller));
    assert_eq!(d.force_unstake(&owner(), 100), Err(DelegationError::NoStakeForSale));
    assert_eq!(d.offer_stake_for_sale(&owner(), 100, 50), Ok(()));
    assert_eq!(d.force_unstake(&owner(), 60), Err(DelegationError::TooSoon));
    let ids = d.force_unstake(&owner(), 61).unwrap();
    assert_eq!(ids, vec![3]);
    assert_eq!(d.nodes().get_node_state(3), NodeState::PendingDeactivation);
    assert_eq!(stake(&d, 1, FundType::PendingDeactivation), 100);
    assert_eq!(stake(&d, 3, FundType::PendingDeactivation), 100);
    assert_eq!(stake(&d, 2, FundType::PendingDeactivation), 0);
    assert_eq!(d.get_total_active_stake(), 400);
    conserved(&d);
    assert_eq!(d.auction_unstake_callback(&ids, true), Ok(()));
    no_node_pending(&d);
}

#[test]
fn deposits_and_withdrawals() {
    let mut d = contract(250, 0);
    assert_eq!(d.withdraw_inactive_stake(&addr(9), 1), Err(DelegationError::UnknownCaller));
    assert_eq!(d.withdraw_inactive_stake(&addr(2), 201), Err(DelegationError::InsufficientFunds));
    assert_eq!(d.withdraw_inactive_stake(&addr(2), 50), Ok(()));
    assert_eq!(stake(&d, 2, FundType::Inactive), 150);
    assert_eq!(d.deposit_stake(&addr(4), u64::MAX), Err(DelegationError::Overflow));
    assert_eq!(d.ledger().get_num_users(), 3);
    conserved(&d);
}

#[test]
fn unexpected_balance_is_surplus_only() {
    let mut d = rewarded();
    assert_eq!(d.withdraw_inactive_stake(&owner(), 0), Ok(()));
    assert_eq!(d.get_unexpected_balance(1000), 0);
    assert_eq!(d.get_unexpected_balance(1250), 250);
    assert_eq!(d.claim_rewards(&addr(2), false), Ok(300));
    assert_eq!(d.get_unexpected_balance(1000), 300);
    assert_eq!(d.withdraw_unexpected_balance(&addr(2), 1000), Err(DelegationError::NotOwner));
    assert_eq!(d.withdraw_unexpected_balance(&owner(), 1000), Ok(300));
}

#[test]
fn node_registration_is_owner_only() {
    let mut d = contract(250, 2);
    assert_eq!(d.add_nodes(&addr(2), &pairs(&[5])), Err(DelegationError::NotOwner));
    assert_eq!(d.remove_nodes(&addr(2), &keys(&[1])), Err(DelegationError::NotOwner));
    assert_eq!(d.remove_nodes(&owner(), &keys(&[1])), Ok(()));
    assert_eq!(d.nodes().get_node_state(1), NodeState::Removed);
    assert_eq!(d.activate_nodes(&owner(), &pairs(&[1])), Err(DelegationError::UnexpectedState));
    assert_eq!(d.remove_nodes(&owner(), &keys(&[7])), Err(DelegationError::NotRegistered));
}

#[test]
fn new_user_starts_at_current_rewards() {
    let mut d = rewarded();
    assert_eq!(d.deposit_stake(&addr(8), 50), Ok(4));
    assert_eq!(d.rewards().load_user_reward_data(4).reward_checkpoint, 1000);
    assert_eq!(d.get_claimable_rewards(&addr(8)), 0);
}

#[test]
fn claim_moves_rewards_from_unclaimed_to_sent() {
    let mut d = rewarded();
    let before = d.rewards().get_sent_rewards() + d.get_total_unclaimed_rewards();
    assert_eq!(d.claim_rewards(&owner(), false), Ok(400));
    assert_eq!(d.rewards().get_sent_rewards() + d.get_total_unclaimed_rewards(), before);
    assert_eq!(d.get_total_unclaimed_rewards(), 600);
}

#[test]
fn deactivation_failure_settles_rewards_first() {
    let mut d = rewarded();
    let ids = d.deactivate_nodes(&owner(), &keys(&[3])).unwrap();
    assert_eq!(d.receive_rewards(600), Ok(()));
    assert_eq!(d.auction_unstake_callback(&ids, false), Ok(()));
    assert_eq!(d.rewards().load_user_reward_data(2).reward_checkpoint, 1600);
    assert!(d.rewards().get_sent_rewards() + d.get_total_unclaimed_rewards() <= d.rewards().get_total_cumulated_rewards());
}
