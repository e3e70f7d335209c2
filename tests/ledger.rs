use sc_delegation::ledger::FundLedger;
use sc_delegation::types::{DelegationError, FundType, SweepOrder};

fn addr(b: u8) -> Vec<u8> {
    vec![b; 32]
}

fn all_types() -> Vec<FundType> {
    vec![
        FundType::Inactive,
        FundType::PendingActivation,
        FundType::Active,
        FundType::PendingDeactivation,
        FundType::UnBondPeriod,
        FundType::PendingUnBond,
        FundType::WithdrawOnly,
        FundType::StakeForSale,
    ]
}

fn three_users() -> FundLedger {
    let mut l = FundLedger::new();
    assert_eq!(l.deposit(&addr(1), 100), Ok(1));
    assert_eq!(l.deposit(&addr(2), 200), Ok(2));
    assert_eq!(l.deposit(&addr(3), 300), Ok(3));
    l
}

fn assert_conserved(l: &FundLedger) {
    let n = l.get_num_users();
    for t in all_types() {
        let mut sum = 0u64;
        for u in 1..=n {
            sum += l.get_user_stake_of_type(u, t);
        }
        assert_eq!(l.get_user_stake_of_type(0, t), sum);
    }
    for u in 0..=n {
        let mut sum = 0u64;
        for t in all_types() {
            sum += l.get_user_stake_of_type(u, t);
        }
        assert_eq!(l.get_user_total_stake(u), sum);
    }
}

#[test]
fn ascending_transform_draws_oldest_users_first() {
    let mut l = three_users();
    assert_eq!(l.transform_user_stake_asc(FundType::Inactive, FundType::PendingActivation, 500), Ok(()));
    assert_eq!(l.get_user_stake_of_type(1, FundType::PendingActivation), 100);
    assert_eq!(l.get_user_stake_of_type(2, FundType::PendingActivation), 200);
    assert_eq!(l.get_user_stake_of_type(3, FundType::PendingActivation), 200);
    assert_eq!(l.get_user_stake_of_type(1, FundType::Inactive), 0);
    assert_eq!(l.get_user_stake_of_type(2, FundType::Inactive), 0);
    assert_eq!(l.get_user_stake_of_type(3, FundType::Inactive), 100);
    assert_eq!(l.get_user_stake_of_type(0, FundType::PendingActivation), 500);
    assert_eq!(l.get_user_stake_of_type(0, FundType::Inactive), 100);
    assert_conserved(&l);
}

#[test]
fn descending_transform_draws_newest_users_first() {
    let mut l = three_users();
    assert_eq!(l.transform(FundType::Inactive, FundType::Active, 350, SweepOrder::Descending), Ok(()));
    assert_eq!(l.get_user_stake_of_type(3, FundType::Active), 300);
    assert_eq!(l.get_user_stake_of_type(2, FundType::Active), 50);
    assert_eq!(l.get_user_stake_of_type(1, FundType::Active), 0);
    assert_eq!(l.get_user_stake_of_type(2, FundType::Inactive), 150);
    assert_eq!(l.get_user_stake_of_type(1, FundType::Inactive), 100);
    assert_conserved(&l);
}

#[test]
fn transform_is_atomic_when_funds_are_short() {
    let mut l = three_users();
    assert_eq!(
        l.transform_user_stake_desc(FundType::Inactive, FundType::Active, 601),
        Err(DelegationError::InsufficientFunds)
    );
    for u in 1..=3 {
        assert_eq!(l.get_user_stake_of_type(u, FundType::Active), 0);
    }
    assert_eq!(l.get_user_stake_of_type(3, FundType::Inactive), 300);
    assert_eq!(l.transform(FundType::Inactive, FundType::Active, 600, SweepOrder::Ascending), Ok(()));
    assert_eq!(l.get_user_stake_of_type(0, FundType::Inactive), 0);
    assert_conserved(&l);
}

#[test]
fn transform_of_zero_moves_nothing() {
    let mut l = three_users();
    assert_eq!(l.transform(FundType::Inactive, FundType::Active, 0, SweepOrder::Ascending), Ok(()));
    assert_eq!(l.get_user_stake_of_type(0, FundType::Active), 0);
    assert_eq!(l.get_user_stake_of_type(1, FundType::Inactive), 100);
}

#[test]
fn single_user_draw_yields_what_is_left() {
    let mut l = three_users();
    assert_eq!(l.transform_user_stake(2, FundType::Inactive, FundType::Active, 250), 50);
    assert_eq!(l.get_user_stake_of_type(2, FundType::Active), 200);
    assert_eq!(l.get_user_stake_of_type(0, FundType::Active), 200);
    assert_eq!(l.transform_user_stake(3, FundType::Inactive, FundType::Active, 50), 0);
    assert_eq!(l.get_user_stake_of_type(3, FundType::Inactive), 250);
    assert_conserved(&l);
}

#[test]
fn deposits_assign_ids_in_first_seen_order() {
    let mut l = three_users();
    assert_eq!(l.get_user_id(&addr(2)), 2);
    assert_eq!(l.get_user_id(&addr(9)), 0);
    assert_eq!(l.deposit(&addr(2), 5), Ok(2));
    assert_eq!(l.get_user_stake_of_type(2, FundType::Inactive), 205);
    assert_eq!(l.get_user_total_stake(2), 205);
    assert_eq!(l.get_num_users(), 3);
    assert_eq!(l.deposit(&addr(9), 1), Ok(4));
    assert_eq!(l.get_num_users(), 4);
    assert_conserved(&l);
}

#[test]
fn deposit_overflow_is_refused() {
    let mut l = FundLedger::new();
    assert_eq!(l.deposit(&addr(1), u64::MAX), Ok(1));
    assert_eq!(l.deposit(&addr(2), 1), Err(DelegationError::Overflow));
    assert_eq!(l.get_num_users(), 1);
}

#[test]
fn withdraw_takes_inactive_stake_only() {
    let mut l = three_users();
    assert_eq!(l.withdraw_inactive_stake(&addr(9), 1), Err(DelegationError::UnknownCaller));
    assert_eq!(l.withdraw_inactive_stake(&addr(1), 101), Err(DelegationError::InsufficientFunds));
    assert_eq!(l.withdraw_inactive_stake(&addr(1), 40), Ok(1));
    assert_eq!(l.get_user_stake_of_type(1, FundType::Inactive), 60);
    assert_eq!(l.get_user_total_stake(1), 60);
    assert_eq!(l.get_user_total_stake(0), 560);
    assert_conserved(&l);
}

#[test]
fn active_stake_transfer_moves_totals() {
    let mut l = three_users();
    assert_eq!(l.transform(FundType::Inactive, FundType::Active, 600, SweepOrder::Ascending), Ok(()));
    assert_eq!(l.transfer_active_stake(3, 1, 301), Err(DelegationError::PaymentExceedsOffer));
    assert_eq!(l.transfer_active_stake(3, 1, 120), Ok(()));
    assert_eq!(l.get_user_stake_of_type(3, FundType::Active), 180);
    assert_eq!(l.get_user_stake_of_type(1, FundType::Active), 220);
    assert_eq!(l.get_user_total_stake(3), 180);
    assert_eq!(l.get_user_total_stake(1), 220);
    assert_eq!(l.get_user_stake_of_type(0, FundType::Active), 600);
    assert_conserved(&l);
}

#[test]
fn unknown_user_ids_hold_nothing() {
    let l = three_users();
    assert_eq!(l.get_user_stake_of_type(7, FundType::Inactive), 0);
    assert_eq!(l.get_user_total_stake(7), 0);
}

#[test]
fn transform_to_same_type_moves_nothing() {
    let mut l = three_users();
    assert_eq!(l.transform(FundType::Inactive, FundType::Inactive, 600, SweepOrder::Ascending), Ok(()));
    assert_eq!(l.transform(FundType::Inactive, FundType::Inactive, 601, SweepOrder::Descending), Err(DelegationError::InsufficientFunds));
    assert_eq!(l.get_user_stake_of_type(3, FundType::Inactive), 300);
    assert_eq!(l.transform_user_stake(2, FundType::Inactive, FundType::Inactive, 250), 50);
    assert_eq!(l.get_user_stake_of_type(2, FundType::Inactive), 200);
    assert_conserved(&l);
}
