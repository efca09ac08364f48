use unipos::collateral::{StakeInfo as PoolStake, PRECISION, UNIPOS_YEAR};
use unipos::collateral_pool::CollateralPool;
use unipos::env::{Env, MessageInfo};
use unipos::errors::StdError;
use unipos::holder_pool::{HolderPool, PoolLookup};
use unipos::sharecore::contract::{InstantiateMsg as ShareMsg, ShareCore, StakecoreLookup};
use unipos::sharecore::replay::ReplyEffect;
use unipos::stakecore::contract::{InstantiateMsg as StakeMsg, StakeCore};
use unipos::stakecore::types::{Config as StakeConfig, StakeInfo};
use unipos::universal_token::{Coin, TokenConfig};

fn s(x: &str) -> String {
    x.to_string()
}

fn info(sender: &str) -> MessageInfo {
    MessageInfo { sender: s(sender), funds: vec![] }
}

fn env(time: u64) -> Env {
    Env { time, contract_address: s("me") }
}

#[test]
fn stake_core_range_checks() {
    let msg = StakeMsg {
        admin: s("admin"),
        providers: vec![s("prov")],
        is_native_token: true,
        token: s("uatom"),
        lock_period: 100,
        cliff_period: 0,
        apy: PRECISION,
        installment_num: 4,
        min_stake_amount: 0,
        enable_staker_whitelist: false,
        enable_beneficiary_whitelist: false,
    };
    let mut sc = StakeCore::instantiate(&msg, Ok(()), Ok(s("admin")), vec![Ok(s("prov"))]).unwrap();
    let funded = MessageInfo { sender: s("prov"), funds: vec![Coin { denom: s("uatom"), amount: u128::MAX }] };
    sc.execute_deposit_security(&env(0), &funded, u128::MAX, None).unwrap();
    assert!(!sc.deposit_security_fits(&info("prov"), 1));
    assert!(sc.deposit_security_fits(&info("bob"), 1));
    assert!(sc.stake_fits(&info("alice"), &Ok(s("alice")), 1000));
    assert!(sc.stake_fits(&info("alice"), &Err(StdError::GenericErr { msg: s("bad") }), u128::MAX));
    assert!(sc.collect_fits(true, &s("uosmo")));
    assert!(sc.collect_fits(true, &s("uatom")));
    let payer = MessageInfo { sender: s("alice"), funds: vec![Coin { denom: s("uatom"), amount: 1000 }] };
    let out = sc.execute_stake(&env(0), &payer, Ok(s("alice")), 1000, None).unwrap();
    assert_eq!((out.principal, out.rewards), (1000, 0));
    assert!(!sc.collect_fits(true, &s("uatom")));
    assert!(sc.collect_fits(true, &s("uosmo")));
}

fn share_core() -> ShareCore {
    let msg = ShareMsg {
        admin: s("admin"),
        stakecore: Some(s("stakecore")),
        is_native_token: true,
        token: s("uatom"),
        enable_shareholder_whitelist: false,
    };
    let lookup = StakecoreLookup { addr: Ok(s("stakecore")), token: Ok(TokenConfig { is_native: true, token: s("uatom") }) };
    let mut sc = ShareCore::instantiate(&msg, Ok(()), Ok(s("admin")), Some(lookup)).unwrap();
    let config = StakeConfig {
        lock_period: 1000,
        cliff_period: 0,
        apy: 1,
        installment_num: 1,
        min_stake_amount: 0,
        enable_staker_whitelist: false,
        enable_beneficiary_whitelist: false,
    };
    let stake = StakeInfo {
        owner: s("me"),
        start_time: 0,
        total_principal: 1000,
        withdrawn_principal: 0,
        total_rewards: 1000,
        withdrawn_rewards: 0,
    };
    sc.execute_register_new_share(&config, &vec![(0, stake)]);
    sc.execute_add_shareholder(&info("admin"), Ok(s("alice")), 0, 500, 500).unwrap();
    sc
}

#[test]
fn share_core_range_checks() {
    let mut sc = share_core();
    assert!(sc.check_shares());
    assert!(!sc.add_shareholder_fits(&info("admin"), &Ok(s("bob")), 0, 0, 0, u128::MAX));
    assert!(sc.add_shareholder_fits(&info("admin"), &Ok(s("bob")), 0, 0, 10, 10));
    assert!(sc.add_shareholder_fits(&info("carol"), &Ok(s("bob")), 0, 0, 0, u128::MAX));
    assert!(!sc.share_fits(&info("alice"), 0, &Ok(s("bob")), u128::MAX, 1));
    let effect = ReplyEffect::ClaimedRewards { share_id: 0, amount: 400 };
    assert!(sc.reply_fits(&effect));
    sc.apply_reply(&effect).unwrap();
    assert!(sc.withdraw_rewards_fits(&info("alice"), 0));
    sc.held_funds = 10;
    assert!(!sc.withdraw_rewards_fits(&info("alice"), 0));
    assert!(!sc.recycle_fits(0, 20));
    assert!(sc.recycle_fits(0, 5));
    assert!(!sc.reply_fits(&ReplyEffect::ClaimedRewards { share_id: 0, amount: u128::MAX }));
    let batch = ReplyEffect::ClaimedRewardsBatch { share_ids: vec![0, 0], amounts: vec![u128::MAX - 500, 200] };
    assert!(!sc.reply_fits(&batch));
    let missing = ReplyEffect::ClaimedRewardsBatch { share_ids: vec![7, 0], amounts: vec![1, u128::MAX] };
    assert!(sc.reply_fits(&missing));
    let mut bad = *sc.share_infos.get(&0).unwrap();
    bad.withdrawn_rewards = bad.claimed_rewards + 1;
    sc.share_infos.insert(0, bad);
    assert!(!sc.check_shares());
}

#[test]
fn collateral_pool_range_checks() {
    let mut p = CollateralPool::instantiate(
        Ok(s("token")),
        UNIPOS_YEAR,
        PRECISION / 2,
        PRECISION / 10,
        0,
        4,
        Ok(s("prov")),
        Ok(s("admin")),
    )
    .unwrap();
    assert!(p.deposit_security_fits(&info("prov"), u128::MAX));
    p.execute_deposit_security(&env(0), &info("prov"), 1000).unwrap();
    assert!(!p.deposit_security_fits(&info("prov"), u128::MAX));
    assert!(p.withdraw_security_fits(&info("prov")));
    assert!(p.stake_fits(&Ok(s("alice")), 1000));
    p.execute_stake(&env(5), &info("alice"), Ok(s("alice")), 1000).unwrap();
    assert!(!p.stake_fits(&Ok(s("alice")), u128::MAX));
    assert!(p.unstake_fits(&env(0), &info("alice"), 0));
    assert!(p.claim_reward_fits(&env(UNIPOS_YEAR as u64), &info("alice"), 0));
    assert!(p.claim_rewards_batch_fits(&env(UNIPOS_YEAR as u64), &info("alice"), &vec![0, 0, 9]));
    assert!(p.collect_fits(&info("admin"), &Ok(5000)));
    assert!(p.collect_fits(&info("admin"), &Ok(u128::MAX)));
    p.asset_info.unstaked_collateral = 1;
    assert!(!p.collect_fits(&info("admin"), &Ok(u128::MAX)));
    assert!(p.collect_fits(&info("prov"), &Ok(u128::MAX)));
    p.config.staker_reward_share = 0;
    assert!(!p.claim_reward_fits(&env(UNIPOS_YEAR as u64), &info("alice"), 0));
    assert!(!p.accrual_fits(1));
    p.config.lock_period = u128::MAX;
    assert!(!p.unstake_fits(&env(0), &info("alice"), 0));
    assert!(p.claim_fits(0, &PoolStake {
        owner: s("alice"),
        amount: 1,
        start_at: 0,
        total_reward: 10,
        claimed_reward: 0,
        unstaked: false,
    }));
}

#[test]
fn holder_pool_range_checks() {
    let mut r = HolderPool::instantiate(None, Ok(s("admin"))).unwrap();
    let stake = PoolStake { owner: s("me"), amount: 100, start_at: 0, total_reward: 100, claimed_reward: 0, unstaked: false };
    r.execute_sync_stake_info(&vec![(1, stake)]);
    assert!(r.add_holder_fits(&Ok(s("alice")), 1, u128::MAX, 0));
    assert!(r.add_holder_fits(&Ok(s("alice")), 2, u128::MAX, 0));
    r.execute_add_holder(&info("admin"), Ok(s("alice")), 1, 50, 50).unwrap();
    assert!(!r.add_holder_fits(&Ok(s("bob")), 1, u128::MAX, 0));
    r.apply_reply(&ReplyEffect::ClaimedRewards { share_id: 1, amount: 100 }).unwrap();
    assert!(!r.claim_reward_fits(&info("alice"), 1));
    assert!(r.claim_principal_fits(&info("alice"), 1));
    assert!(!r.collect_fits(&info("admin"), &Ok(1000)));
    r.execute_init_stake_core(&info("admin"), PoolLookup { addr: Ok(s("pool")), token: Ok(s("token")) }).unwrap();
    assert!(r.claim_reward_fits(&info("alice"), 1));
    assert!(r.collect_fits(&info("admin"), &Ok(1000)));
    let call = r.execute_claim_stake_reward(1).unwrap();
    assert_eq!(call.reply_id, 1);
    assert_eq!(r.pending_submsg_payload, Some(b"1".to_vec()));
    assert!(!r.reply_fits(&ReplyEffect::ClaimedRewards { share_id: 1, amount: u128::MAX }));
    let batch = ReplyEffect::ClaimedRewardsBatch { share_ids: vec![1, 1], amounts: vec![u128::MAX - 200, 150] };
    assert!(!r.reply_fits(&batch));
    assert!(r.reply_fits(&ReplyEffect::ClaimedRewardsBatch { share_ids: vec![1], amounts: vec![5] }));
}
