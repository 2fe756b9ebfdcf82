use matchain_supply_apis::vesting::{
    calculate_pool_vesting, PoolCalculation, VestingError, VestingType,
};

const DAY: u64 = 86_400;
const TGE: u64 = 1_700_000_000;
const RP: u128 = 1_000_000;

fn at_day(days: u64) -> u64 {
    TGE + days * DAY
}

fn linear(initial: u128, tge: u64, cliff: u64, vesting: u64, days: u64) -> PoolCalculation {
    calculate_pool_vesting(initial, tge, cliff, vesting, RP, at_day(days), TGE, DAY, VestingType::Linear)
        .unwrap()
}

fn stepped(initial: u128, tge: u64, cliff: u64, rp: u128, days: u64) -> PoolCalculation {
    calculate_pool_vesting(initial, tge, cliff, 0, rp, at_day(days), TGE, DAY, VestingType::Stepped)
        .unwrap()
}

#[test]
fn scenario_cliff_just_ended() {
    let c = linear(1_000_000, 10, 30, 90, 30);
    assert_eq!(c.days_passed, 30);
    assert_eq!(c.unlocked_fraction, 100_000);
    assert_eq!(c.locked_amount, 900_000);
    assert_eq!(c.days_until_lock_ends, 0);
    assert_eq!(c.days_until_vesting_ends, 90);
    assert_eq!(c.initial, 1_000_000);
    assert_eq!(c.ratio_precision, RP);
}

#[test]
fn scenario_thirty_days_into_vesting() {
    // 30 days past the cliff: 100,000 + 30 * 1,000,000 / 90
    let c = linear(1_000_000, 10, 30, 90, 60);
    assert_eq!(c.unlocked_fraction, 433_333);
    assert_eq!(c.locked_amount, 566_667);
    assert_eq!(c.days_until_vesting_ends, 60);
}

#[test]
fn linear_fully_vested_after_cliff_plus_vesting() {
    let c = linear(1_000_000, 10, 30, 90, 120);
    assert_eq!(c.unlocked_fraction, RP);
    assert_eq!(c.locked_amount, 0);
    assert_eq!(c.days_until_vesting_ends, 0);
}

#[test]
fn before_cliff_only_tge_share() {
    let c = linear(1_000_000, 10, 30, 90, 12);
    assert_eq!(c.unlocked_fraction, 100_000);
    assert_eq!(c.locked_amount, 900_000);
    assert_eq!(c.days_until_lock_ends, 18);
    assert_eq!(c.days_until_vesting_ends, 108);
}

#[test]
fn before_tge_no_days_passed() {
    let c = calculate_pool_vesting(1_000, 0, 10, 10, RP, TGE - 5 * DAY, TGE, DAY, VestingType::Linear)
        .unwrap();
    assert_eq!(c.days_passed, 0);
    assert_eq!(c.locked_amount, 1_000);
}

#[test]
fn at_tge_unlocked_is_tge_share() {
    for vt in [VestingType::Linear, VestingType::Stepped] {
        let c = calculate_pool_vesting(777_777, 25, 0, 100, RP, TGE, TGE, DAY, vt).unwrap();
        assert_eq!(c.days_passed, 0);
        assert_eq!(c.unlocked_fraction, 250_000);
    }
}

#[test]
fn partial_days_round_down() {
    let c = calculate_pool_vesting(1_000, 0, 0, 10, RP, TGE + 2 * DAY - 1, TGE, DAY, VestingType::Linear)
        .unwrap();
    assert_eq!(c.days_passed, 1);
    assert_eq!(c.unlocked_fraction, 100_000);
    assert_eq!(c.locked_amount, 900);
}

#[test]
fn zero_vesting_length_keeps_tge_share() {
    let c = linear(1_000_000, 10, 30, 0, 400);
    assert_eq!(c.unlocked_fraction, 100_000);
    assert_eq!(c.locked_amount, 900_000);
}

#[test]
fn linear_locked_never_grows() {
    let mut last = u128::MAX;
    for day in 0..200 {
        let c = linear(123_456_789, 7, 20, 150, day);
        assert!(c.locked_amount <= last);
        assert!(c.locked_amount <= 123_456_789);
        assert!(c.unlocked_fraction <= RP);
        last = c.locked_amount;
    }
}

#[test]
fn stepped_compounding_releases() {
    assert_eq!(stepped(1_000_000, 10, 0, RP, 89).unlocked_fraction, 100_000);
    assert_eq!(stepped(1_000_000, 10, 0, RP, 90).unlocked_fraction, 250_030);
    assert_eq!(stepped(1_000_000, 10, 0, RP, 180).unlocked_fraction, 375_049);
    assert_eq!(stepped(1_000_000, 10, 0, RP, 180).locked_amount, 624_951);
}

#[test]
fn stepped_six_periods_small_precision_fully_unlocked() {
    let c = stepped(5_000_000, 10, 30, 100_000, 30 + 540);
    assert_eq!(c.unlocked_fraction, 100_000);
    assert_eq!(c.locked_amount, 0);
}

#[test]
fn stepped_six_periods_full_tge_share() {
    let c = stepped(5_000_000, 100, 30, RP, 30 + 600);
    assert_eq!(c.unlocked_fraction, RP);
    assert_eq!(c.locked_amount, 0);
}

#[test]
fn stepped_large_precision_keeps_a_remainder() {
    // each period releases 16.67% of what is left: a remainder stays locked
    let six = stepped(1_000_000, 0, 0, RP, 540);
    let later = stepped(1_000_000, 0, 0, RP, 5_000);
    assert_eq!(six.unlocked_fraction, 665_180);
    assert_eq!(later.unlocked_fraction, 665_180);
    assert_eq!(six.locked_amount, 334_820);
}

#[test]
fn invalid_parameters_are_rejected() {
    let bad = Err(VestingError::InvalidVestingParameters);
    let too_much: u128 = 1_000_000_000_000_000_000_000_000_001;
    assert_eq!(
        calculate_pool_vesting(too_much, 0, 0, 0, RP, TGE, TGE, DAY, VestingType::Linear),
        bad
    );
    assert_eq!(calculate_pool_vesting(1, 0, 2191, 0, RP, TGE, TGE, DAY, VestingType::Linear), bad);
    assert_eq!(calculate_pool_vesting(1, 0, 0, 2191, RP, TGE, TGE, DAY, VestingType::Linear), bad);
    assert_eq!(calculate_pool_vesting(1, 0, 0, 0, 999, TGE, TGE, DAY, VestingType::Linear), bad);
    assert_eq!(
        calculate_pool_vesting(1, 0, 0, 0, 10_000_000_000_000_001, TGE, TGE, DAY, VestingType::Linear),
        bad
    );
    assert_eq!(calculate_pool_vesting(1, 0, 0, 0, RP, TGE, TGE, 0, VestingType::Linear), bad);
}

#[test]
fn bounds_themselves_are_accepted() {
    let most: u128 = 1_000_000_000_000_000_000_000_000_000;
    let c = calculate_pool_vesting(
        most,
        3,
        2190,
        2190,
        10_000_000_000_000_000,
        at_day(4400),
        TGE,
        DAY,
        VestingType::Linear,
    )
    .unwrap();
    assert_eq!(c.unlocked_fraction, 10_000_000_000_000_000);
    assert_eq!(c.locked_amount, 0);
    let d = calculate_pool_vesting(most, 3, 2190, 2190, 1000, TGE, TGE, DAY, VestingType::Linear)
        .unwrap();
    assert_eq!(d.unlocked_fraction, 30);
    assert_eq!(d.locked_amount, most - most / 1000 * 30);
}

#[test]
fn same_inputs_same_result() {
    let a = calculate_pool_vesting(9_999, 15, 40, 300, RP, at_day(77), TGE, DAY, VestingType::Stepped);
    let b = calculate_pool_vesting(9_999, 15, 40, 300, RP, at_day(77), TGE, DAY, VestingType::Stepped);
    assert_eq!(a, b);
}
