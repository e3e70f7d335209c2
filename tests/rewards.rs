use sc_delegation::ledger::FundLedger;
use sc_delegation::rewards::{RewardDistributor, RewardsModule, UserRewardData};
use sc_delegation::types::{DelegationError, FundType, SweepOrder};

/// Users 1, 2, 3 hold 100, 200, 300 active stake; 1000 rewards have arrived.
fn setup(fee: u64) -> (FundLedger, RewardDistributor) {
    let mut l = FundLedger::new();
    assert_eq!(l.deposit(&vec![1u8; 32], 100), Ok(1));
    assert_eq!(l.deposit(&vec![2u8; 32], 200), Ok(2));
    assert_eq!(l.deposit(&vec![3u8; 32], 300), Ok(3));
    assert_eq!(l.transform(FundType::Inactive, FundType::Active, 600, SweepOrder::Ascending), Ok(()));
    let mut r = RewardDistributor::new(fee, 4);
    assert_eq!(r.receive_rewards(1000), Ok(()));
    (l, r)
}

#[test]
fn updated_rewards_are_pro_rata() {
    let (l, r) = setup(1000);
    // delegators share 900; the owner (user 1) also takes the 100 fee
    assert_eq!(r.load_updated_user_rewards(&l, 1).unwrap().unclaimed_rewards, 250);
    assert_eq!(r.load_updated_user_rewards(&l, 2).unwrap().unclaimed_rewards, 300);
    assert_eq!(r.load_updated_user_rewards(&l, 3).unwrap().unclaimed_rewards, 450);
    assert_eq!(r.load_updated_user_rewards(&l, 3).unwrap().reward_checkpoint, 1000);
    assert_eq!(r.get_total_unclaimed_rewards(&l), Ok(1000));
    assert_eq!(r.load_user_reward_data(3), UserRewardData { reward_checkpoint: 0, unclaimed_rewards: 0 });
}

#[test]
fn rounding_remainder_is_not_distributed() {
    let (l, mut r) = setup(3333);
    assert_eq!(r.receive_rewards(1), Ok(()));
    // 1001 new rewards: fee part 333, delegator part 667
    assert_eq!(r.load_updated_user_rewards(&l, 2).unwrap().unclaimed_rewards, 222);
    assert_eq!(r.load_updated_user_rewards(&l, 3).unwrap().unclaimed_rewards, 333);
    assert_eq!(r.load_updated_user_rewards(&l, 1).unwrap().unclaimed_rewards, 333 + 111);
    assert_eq!(r.get_total_unclaimed_rewards(&l), Ok(999));
}

#[test]
fn compute_all_then_claim() {
    let (l, mut r) = setup(0);
    assert_eq!(r.compute_all_rewards(&l), Ok(()));
    assert_eq!(r.load_user_reward_data(2), UserRewardData { reward_checkpoint: 1000, unclaimed_rewards: 333 });
    assert_eq!(r.load_user_reward_data(0), UserRewardData { reward_checkpoint: 0, unclaimed_rewards: 0 });
    assert_eq!(r.claim_user_rewards(&l, 2), Ok(333));
    assert_eq!(r.get_sent_rewards(), 333);
    assert_eq!(r.get_total_cumulated_rewards(), 1000);
    assert_eq!(r.load_user_reward_data(2).unclaimed_rewards, 0);
    assert_eq!(r.compute_one_user_reward(&l, 2), Ok(()));
    assert_eq!(r.load_user_reward_data(2).unclaimed_rewards, 0);
}

#[test]
fn reward_counter_overflow() {
    let (_, mut r) = setup(0);
    assert_eq!(r.receive_rewards(u64::MAX - 1000), Ok(()));
    assert_eq!(r.receive_rewards(1), Err(DelegationError::Overflow));
    assert_eq!(r.get_total_cumulated_rewards(), u64::MAX);
}
