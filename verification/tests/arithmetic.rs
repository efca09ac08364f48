use unipos::math::{mul_div, wide_div, wide_from_u128, wide_mul, wide_to_u128, Wide};
use unipos::sharecore::contract::calc_proportional_rewards;
use unipos::sharecore::types::{ShareInfo, ShareholderInfo};
use unipos::stakecore::types::{Config, StakeInfo, PRECISION, UNIPOS_YEAR};

fn stake_config(lock_period: u64, apy: u128, installment_num: u128) -> Config {
    Config {
        lock_period,
        cliff_period: 0,
        apy,
        installment_num,
        min_stake_amount: 0,
        enable_staker_whitelist: false,
        enable_beneficiary_whitelist: false,
    }
}

fn stake(start_time: u64, total_principal: u128, total_rewards: u128) -> StakeInfo {
    StakeInfo {
        owner: "alice".to_string(),
        start_time,
        total_principal,
        withdrawn_principal: 0,
        total_rewards,
        withdrawn_rewards: 0,
    }
}

#[test]
fn mul_div_exact_values() {
    assert_eq!(mul_div(10, 20, 3), Some(66));
    assert_eq!(mul_div(7, 0, 5), Some(0));
    assert_eq!(mul_div(u128::MAX, u128::MAX, u128::MAX), Some(u128::MAX));
    assert_eq!(mul_div(u128::MAX, 3, 2), None);
    assert_eq!(mul_div(5, 5, 0), None);
}

#[test]
fn wide_product_and_quotient() {
    let a = wide_from_u128(u128::MAX);
    let p = wide_mul(a, wide_from_u128(2)).unwrap();
    assert_eq!(p.hi, 1);
    assert_eq!(p.lo, u128::MAX - 1);
    assert_eq!(wide_to_u128(p), None);
    let q = wide_div(p, wide_from_u128(2)).unwrap();
    assert_eq!(wide_to_u128(q), Some(u128::MAX));
    assert!(wide_div(p, wide_from_u128(0)).is_none());
    let big = Wide { hi: u128::MAX, lo: 0 };
    assert!(wide_mul(big, wide_from_u128(2)).is_none());
}

#[test]
fn security_deposit_for_a_year_at_ten_percent() {
    let c = stake_config(UNIPOS_YEAR as u64, PRECISION / 10, 12);
    assert_eq!(c.calc_security_deposit_by_collateral(1000), 100);
    assert_eq!(c.calc_security_deposit_by_collateral(0), 0);
    assert!(c.security_deposit_fits(1000));
    let half = stake_config((UNIPOS_YEAR / 2) as u64, PRECISION / 10, 12);
    assert_eq!(half.calc_security_deposit_by_collateral(1000), 50);
}

#[test]
fn security_deposit_that_does_not_fit() {
    let c = stake_config(UNIPOS_YEAR as u64, u128::MAX, 1);
    assert!(!c.security_deposit_fits(u128::MAX));
}

#[test]
fn installments_unlock_in_steps() {
    let c = stake_config(100, PRECISION, 4);
    let s = stake(1000, 500, 1000);
    assert_eq!(c.calc_unlocked_installment_reward(900, &s), 0);
    assert_eq!(c.calc_unlocked_installment_reward(1000, &s), 0);
    assert_eq!(c.calc_unlocked_installment_reward(1024, &s), 0);
    assert_eq!(c.calc_unlocked_installment_reward(1025, &s), 250);
    assert_eq!(c.calc_unlocked_installment_reward(1049, &s), 250);
    assert_eq!(c.calc_unlocked_installment_reward(1075, &s), 750);
    assert_eq!(c.calc_unlocked_installment_reward(1100, &s), 1000);
    assert_eq!(c.calc_unlocked_installment_reward(5000, &s), 1000);
    assert!(c.installment_fits(1000, 30));
    assert!(!stake_config(100, PRECISION, 0).installment_fits(1000, 30));
}

#[test]
fn principal_unlocks_at_the_end_of_the_lock() {
    let c = stake_config(100, PRECISION, 4);
    let s = stake(1000, 500, 1000);
    assert_eq!(c.calc_unlocked_installment_principal(1099, &s), 0);
    assert_eq!(c.calc_unlocked_installment_principal(1100, &s), 500);
}

#[test]
fn withdrawable_amounts_subtract_what_was_withdrawn() {
    let c = stake_config(100, PRECISION, 4);
    let mut s = stake(0, 500, 1000);
    s.withdrawn_rewards = 300;
    assert_eq!(c.calc_withdrawable_reward(50, &s), 200);
    assert_eq!(c.calc_withdrawable_reward(25, &s), 0);
    s.withdrawn_principal = 100;
    assert_eq!(c.calc_withdrawable_principal(100, &s), 400);
    assert_eq!(c.calc_withdrawable_principal(99, &s), 0);
}

#[test]
fn unlocking_never_decreases_over_time() {
    let c = stake_config(97, PRECISION, 7);
    let s = stake(3, 0, 12345);
    let mut last = 0;
    for t in 0..120u64 {
        let u = c.calc_unlocked_installment_reward(t, &s);
        assert!(u >= last);
        assert!(u <= 12345);
        last = u;
    }
    assert_eq!(last, 12345);
}

#[test]
fn unlocking_takes_whole_installments() {
    let c = stake_config(97, PRECISION, 7);
    let s = stake(3, 0, 12345);
    let mut seen: Vec<u128> = Vec::new();
    for t in 0..200u64 {
        let u = c.calc_unlocked_installment_reward(t, &s);
        assert!((0..=7u128).any(|k| u == 12345 * k / 7));
        if !seen.contains(&u) {
            seen.push(u);
        }
    }
    assert_eq!(seen.len(), 8);
}

fn share(total_rewards: u128, claimed_rewards: u128, total_principal: u128, claimed_principal: u128) -> ShareInfo {
    ShareInfo {
        start_time: 100,
        recycled_time: 100,
        end_time: 200,
        total_rewards,
        claimed_rewards,
        withdrawn_rewards: 0,
        granted_rewards: 0,
        total_recycled_rewards: 0,
        withdrawn_recycled_rewards: 0,
        total_principal,
        claimed_principal,
        withdrawn_principal: 0,
        granted_principal: 0,
    }
}

fn holder(pre: u128, granted_rewards: u128, granted_principal: u128) -> ShareholderInfo {
    ShareholderInfo {
        pre_recycled_rewards: pre,
        granted_rewards,
        withdrawn_rewards: 0,
        granted_principal,
        withdrawn_principal: 0,
    }
}

#[test]
fn share_balances() {
    let mut s = share(1000, 600, 400, 100);
    s.granted_rewards = 300;
    s.total_recycled_rewards = 200;
    s.withdrawn_rewards = 150;
    s.withdrawn_principal = 40;
    assert_eq!(s.ungranted_rewards(), 500);
    assert_eq!(s.rewards_balance(), 450);
    assert_eq!(s.principal_balance(), 360);
}

#[test]
fn recycling_is_proportional_to_time() {
    let mut s = share(1000, 0, 0, 0);
    s.granted_rewards = 200;
    assert_eq!(s.recyclable_rewards(100), 0);
    assert_eq!(s.recyclable_rewards(125), 200);
    assert_eq!(s.recyclable_rewards(150), 400);
    assert_eq!(s.recyclable_rewards(200), 800);
}

#[test]
fn shareholder_parts_of_claims() {
    let s = share(1000, 500, 400, 100);
    let h = holder(0, 200, 80);
    assert_eq!(s.calc_shareholder_unlocked_rewards(&h), 100);
    assert_eq!(s.calc_shareholder_unlocked_principal(&h), 20);
    let mut h2 = h;
    h2.withdrawn_rewards = 60;
    h2.withdrawn_principal = 30;
    assert_eq!(s.calc_shareholder_withdrawable_rewards(&h2), 40);
    assert_eq!(s.calc_shareholder_withdrawable_principal(&h2), 0);
    let late = holder(100, 100, 0);
    assert_eq!(s.calc_shareholder_unlocked_rewards(&late), 0);
    let all = share(1000, 1000, 400, 400);
    assert_eq!(all.calc_shareholder_unlocked_rewards(&late), 100);
    let none = share(1000, 0, 400, 0);
    assert_eq!(none.calc_shareholder_unlocked_rewards(&h), 0);
    assert_eq!(none.calc_shareholder_unlocked_principal(&h), 0);
}

#[test]
fn proportional_rewards_for_a_late_grant() {
    assert_eq!(calc_proportional_rewards(150, 100, 200, 1000), 1000);
    assert_eq!(calc_proportional_rewards(100, 100, 200, 1000), 0);
    assert_eq!(calc_proportional_rewards(175, 100, 200, 30), 90);
}
