use xrs_node::errors::LedgerError;
use xrs_node::staking::{claim_rewards, initialize_stake, slash, stake, unstake};

#[test]
fn initialization_needs_the_proposer_minimum() {
    let owner = String::from("validator-one");
    let r = initialize_stake(owner.clone(), 999_999_999_999, 50);
    assert!(matches!(r, Err(LedgerError::InsufficientStake)));
    let a = initialize_stake(owner.clone(), 1_000_000_000_000, 50).unwrap();
    assert_eq!(a.owner, owner);
    assert_eq!(a.amount, 1_000_000_000_000);
    assert_eq!(a.last_updated, 50);
    assert_eq!(a.reputation_score, 100);
}

#[test]
fn staking_grows_the_amount_and_the_reputation() {
    let mut a = initialize_stake(String::from("v"), 1_000_000_000_000, 0).unwrap();
    stake(&mut a, 500_000_000_000, 100_000_000_000_000, 60).unwrap();
    assert_eq!(a.amount, 1_500_000_000_000);
    assert_eq!(a.last_updated, 60);
    assert_eq!(a.reputation_score, 110);
}

#[test]
fn staking_past_the_concentration_cap_is_refused() {
    let mut a = initialize_stake(String::from("v"), 1_000_000_000_000, 0).unwrap();
    // The cap is 10% of total stake: 1.5e12 > 1e13 / 10 fails.
    let r = stake(&mut a, 500_000_000_000, 10_000_000_000_000, 60);
    assert!(matches!(r, Err(LedgerError::ConcentrationCapExceeded)));
    assert_eq!(a.amount, 1_000_000_000_000);
    assert_eq!(a.reputation_score, 100);
    assert_eq!(a.last_updated, 0);
}

#[test]
fn staking_exactly_at_the_cap_is_allowed() {
    let mut a = initialize_stake(String::from("v"), 1_000_000_000_000, 0).unwrap();
    // 1e12 + 5e11 == 1.5e13 / 10 exactly.
    stake(&mut a, 500_000_000_000, 15_000_000_000_000, 60).unwrap();
    assert_eq!(a.amount, 1_500_000_000_000);
}

#[test]
fn unstaking_is_checked_subtraction() {
    let mut a = initialize_stake(String::from("v"), 2_000_000_000_000, 0).unwrap();
    unstake(&mut a, 500_000_000_000, 30).unwrap();
    assert_eq!(a.amount, 1_500_000_000_000);
    assert_eq!(a.last_updated, 30);
    let r = unstake(&mut a, 2_000_000_000_000, 40);
    assert!(matches!(r, Err(LedgerError::InsufficientFunds)));
    assert_eq!(a.amount, 1_500_000_000_000);
    assert_eq!(a.last_updated, 30);
}

#[test]
fn rewards_accrue_at_seven_percent_a_year() {
    let mut a = initialize_stake(String::from("v"), 1_000_000_000_000, 0).unwrap();
    // Half a year: reward = amount * 7 / 100 / 2 = 35e9.
    claim_rewards(&mut a, 15_768_000).unwrap();
    assert_eq!(a.amount, 1_000_000_000_000 + 35_000_000_000);
    assert_eq!(a.last_updated, 15_768_000);
}

#[test]
fn a_backwards_clock_accrues_nothing() {
    let mut a = initialize_stake(String::from("v"), 1_000_000_000_000, 1000).unwrap();
    claim_rewards(&mut a, 500).unwrap();
    assert_eq!(a.amount, 1_000_000_000_000);
    assert_eq!(a.last_updated, 500);
}

#[test]
fn an_instant_claim_accrues_nothing() {
    let mut a = initialize_stake(String::from("v"), 1_000_000_000_000, 77).unwrap();
    claim_rewards(&mut a, 77).unwrap();
    assert_eq!(a.amount, 1_000_000_000_000);
}

#[test]
fn slashing_cuts_stake_and_reputation() {
    let mut a = initialize_stake(String::from("v"), 2_000_000_000_000, 0).unwrap();
    slash(&mut a, 500_000_000_000).unwrap();
    assert_eq!(a.amount, 1_500_000_000_000);
    assert_eq!(a.reputation_score, 75);
}

#[test]
fn reputation_saturates_at_zero_under_repeated_slashing() {
    let mut a = initialize_stake(String::from("v"), 10_000_000_000_000, 0).unwrap();
    for _ in 0..6 {
        slash(&mut a, 1).unwrap();
    }
    assert_eq!(a.reputation_score, 0);
    assert_eq!(a.amount, 10_000_000_000_000 - 6);
}

#[test]
fn slashing_more_than_the_stake_is_refused() {
    let mut a = initialize_stake(String::from("v"), 1_000_000_000_000, 0).unwrap();
    let r = slash(&mut a, 2_000_000_000_000);
    assert!(matches!(r, Err(LedgerError::InsufficientFunds)));
    assert_eq!(a.amount, 1_000_000_000_000);
    assert_eq!(a.reputation_score, 100);
}

#[test]
fn overflowing_stake_growth_is_refused() {
    let mut a = initialize_stake(String::from("v"), u64::MAX - 5, 0).unwrap();
    let r = stake(&mut a, 100, u64::MAX, 10);
    // The cap check fires first: u64::MAX - 5 + 100 > u64::MAX / 10.
    assert!(matches!(r, Err(LedgerError::ConcentrationCapExceeded)));
    assert_eq!(a.amount, u64::MAX - 5);
}

#[test]
fn an_overflowing_reward_is_refused() {
    let mut a = initialize_stake(String::from("v"), u64::MAX, 0).unwrap();
    // A full reward-denominator of seconds accrues seven times the stake.
    let r = claim_rewards(&mut a, 3_153_600_000);
    assert!(matches!(r, Err(LedgerError::ArithmeticOverflow)));
    assert_eq!(a.amount, u64::MAX);
    assert_eq!(a.last_updated, 0);
}
