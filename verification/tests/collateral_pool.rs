use unipos::collateral::{Config, StakeInfo, PRECISION, UNIPOS_YEAR};
use unipos::collateral_pool::{CollateralPool, PoolError, QueryMsg, QueryResponse};
use unipos::env::{Env, MessageInfo};
use unipos::errors::StdError;
use unipos::ownership::Ownership;
use unipos::universal_token::TokenMsg;

fn s(x: &str) -> String {
    x.to_string()
}

fn env(time: u64) -> Env {
    Env { time, contract_address: s("pool") }
}

fn info(sender: &str) -> MessageInfo {
    MessageInfo { sender: s(sender), funds: vec![] }
}

fn pool() -> CollateralPool {
    CollateralPool::instantiate(
        Ok(s("token")),
        UNIPOS_YEAR,
        PRECISION / 2,
        PRECISION / 10,
        10,
        4,
        Ok(s("prov")),
        Ok(s("admin")),
    )
    .unwrap()
}

fn staked() -> CollateralPool {
    let mut p = pool();
    let out = p.execute_deposit_security(&env(0), &info("prov"), 100).unwrap();
    assert_eq!(out.amount, 100);
    match &out.messages[..] {
        [TokenMsg::Cw20TransferFrom { contract, owner, recipient, amount }] => {
            assert_eq!(
                (contract.as_str(), owner.as_str(), recipient.as_str(), *amount),
                ("token", "prov", "pool", 100)
            );
        },
        other => panic!("unexpected {:?}", other),
    }
    let out = p.execute_stake(&env(0), &info("payer"), Ok(s("alice")), 1000).unwrap();
    assert_eq!(out.amount, 1000);
    p
}

#[test]
fn pool_calculations() {
    let c = Config {
        token: s("token"),
        lock_period: UNIPOS_YEAR,
        staker_reward_share: PRECISION / 2,
        apy: PRECISION / 10,
        min_stake_amount: 0,
        installment_num: 4,
        provider: Ownership::new(s("prov")),
        admin: Ownership::new(s("admin")),
    };
    assert_eq!(c.calc_security_deposit_by_collateral(1000), 100);
    assert_eq!(c.calc_staker_reward(1000), 50);
    assert_eq!(c.calc_beneficiary_reward_by_staker_reward(50), 50);
    let st = StakeInfo {
        owner: s("alice"),
        amount: 1000,
        start_at: 100,
        total_reward: 80,
        claimed_reward: 20,
        unstaked: false,
    };
    assert_eq!(c.calc_unlocked_installment_reward(100 + UNIPOS_YEAR / 2, &st), 40);
    assert_eq!(c.calc_claimable_reward(100 + UNIPOS_YEAR / 2, &st), 20);
    assert_eq!(c.calc_unlocked_installment_reward(50, &st), 0);
}

#[test]
fn pool_stakes_against_the_deposit() {
    let mut p = staked();
    let st = p.stake_infos.get(0).unwrap();
    assert_eq!((st.owner.as_str(), st.amount, st.total_reward, st.start_at), ("alice", 1000, 50, 0));
    assert_eq!(p.asset_info.total_collateral, 1000);
    assert!(matches!(p.execute_stake(&env(1), &info("payer"), Ok(s("alice")), 5), Err(PoolError::InsufficientStakeAmount)));
    assert!(matches!(p.execute_stake(&env(1), &info("payer"), Ok(s("alice")), 10), Err(PoolError::InsufficientFunds)));
    assert!(matches!(
        p.execute_stake(&env(1), &info("payer"), Err(StdError::GenericErr { msg: s("bad") }), 100),
        Err(PoolError::Std(_))
    ));
    assert!(matches!(p.execute_withdraw_security(&info("prov"), 1), Err(PoolError::InsufficientFunds)));
    assert!(matches!(p.execute_withdraw_security(&info("alice"), 1), Err(PoolError::Unauthorized)));
    assert!(matches!(p.execute_deposit_security(&env(0), &info("alice"), 1), Err(PoolError::Unauthorized)));
    p.execute_deposit_security(&env(0), &info("prov"), 30).unwrap();
    assert_eq!(p.execute_withdraw_security(&info("prov"), 30).unwrap().amount, 100);
}

#[test]
fn pool_unstakes_once_after_the_lock() {
    let mut p = staked();
    assert!(matches!(p.execute_unstake(&env(10), &info("alice"), 0), Err(PoolError::LockPeriodNotEnded)));
    assert!(matches!(p.execute_unstake(&env(UNIPOS_YEAR as u64), &info("bob"), 0), Err(PoolError::Unauthorized)));
    assert!(matches!(
        p.execute_unstake(&env(UNIPOS_YEAR as u64), &info("alice"), 4),
        Err(PoolError::Std(StdError::OutOfBounds { key: 4 }))
    ));
    let out = p.execute_unstake(&env(UNIPOS_YEAR as u64), &info("alice"), 0).unwrap();
    assert_eq!(out.amount, 1000);
    assert_eq!(p.asset_info.unstaked_collateral, 1000);
    assert!(matches!(p.execute_unstake(&env(UNIPOS_YEAR as u64), &info("alice"), 0), Err(PoolError::AlreadyUnstaked)));
}

#[test]
fn pool_rewards_accrue_to_the_beneficiary() {
    let mut p = staked();
    let quarter = (UNIPOS_YEAR / 4) as u64;
    assert_eq!(p.execute_claim_reward(&env(quarter - 1), &info("alice"), 0).unwrap().amount, 0);
    let out = p.execute_claim_reward(&env(quarter), &info("alice"), 0).unwrap();
    assert_eq!(out.amount, 12);
    assert_eq!(p.stake_infos.get(0).unwrap().claimed_reward, 12);
    assert_eq!(p.beneficiary_info.total_reward, 12);
    assert_eq!(p.asset_info.total_claimed_reward, 12);
    assert!(matches!(p.execute_claim_beneficiary_reward(&info("ben")), Err(PoolError::Unauthorized)));
    assert!(matches!(p.execute_init_beneficiary(&info("prov"), Ok(s("ben"))), Err(PoolError::Unauthorized)));
    p.execute_init_beneficiary(&info("admin"), Ok(s("ben"))).unwrap();
    assert!(matches!(p.execute_init_beneficiary(&info("admin"), Ok(s("other"))), Err(PoolError::Unauthorized)));
    let out = p.execute_claim_beneficiary_reward(&info("ben")).unwrap();
    assert_eq!(out.amount, 12);
    assert_eq!(p.asset_info.total_claimed_reward, 24);
    assert_eq!(p.execute_claim_beneficiary_reward(&info("ben")).unwrap().amount, 0);
}

#[test]
fn pool_batch_claims_each_stake_once() {
    let mut p = staked();
    p.execute_deposit_security(&env(0), &info("prov"), 100).unwrap();
    p.execute_stake(&env(0), &info("alice"), Ok(s("alice")), 1000).unwrap();
    let half = (UNIPOS_YEAR / 2) as u64;
    let out = p.execute_claim_rewards_batch(&env(half), &info("alice"), &vec![0, 1, 0]).unwrap();
    assert_eq!(out.amounts, vec![25, 25, 0]);
    assert_eq!(out.total, 50);
    assert_eq!(p.beneficiary_info.total_reward, 50);
    assert!(matches!(
        p.execute_claim_rewards_batch(&env(half), &info("alice"), &vec![0, 2]),
        Err(PoolError::Std(StdError::OutOfBounds { key: 2 }))
    ));
    assert!(matches!(p.execute_claim_rewards_batch(&env(half), &info("bob"), &vec![0]), Err(PoolError::Unauthorized)));
    assert_eq!(p.asset_info.total_claimed_reward, 50);
}

#[test]
fn pool_roles_hand_over_in_two_steps() {
    let mut p = pool();
    assert!(matches!(p.execute_transfer_provider_ownership(&info("x"), Ok(s("p2"))), Err(PoolError::Unauthorized)));
    p.execute_transfer_provider_ownership(&info("prov"), Ok(s("p2"))).unwrap();
    assert!(matches!(p.execute_accept_provider_ownership(&info("x")), Err(PoolError::Unauthorized)));
    p.execute_accept_provider_ownership(&info("p2")).unwrap();
    assert_eq!(p.config.provider.owner, s("p2"));
    p.execute_transfer_admin_ownership(&info("admin"), Ok(s("a2"))).unwrap();
    p.execute_accept_admin_ownership(&info("a2")).unwrap();
    assert_eq!(p.config.admin.owner, s("a2"));
    assert_eq!(p.config.admin.pending_owner, None);
}

#[test]
fn pool_collects_the_excess_for_the_provider() {
    let p = staked();
    let out = p.execute_collect(&info("admin"), Ok(1150)).unwrap();
    assert_eq!(out.amount, 50);
    match &out.messages[..] {
        [TokenMsg::Cw20Transfer { recipient, amount, .. }] => assert_eq!((recipient.as_str(), *amount), ("prov", 50)),
        other => panic!("unexpected {:?}", other),
    }
    assert!(matches!(p.execute_collect(&info("admin"), Ok(1100)), Err(PoolError::NoLockedFunds)));
    assert!(matches!(p.execute_collect(&info("prov"), Ok(1150)), Err(PoolError::Unauthorized)));
}

#[test]
fn pool_queries() {
    let p = staked();
    match p.query(&QueryMsg::StakerIndexes { staker: s("alice") }, Ok(s("alice"))) {
        Ok(QueryResponse::StakerIndexes(r)) => assert_eq!(r.indexes, vec![0]),
        other => panic!("unexpected {:?}", other),
    }
    assert!(matches!(
        p.query(&QueryMsg::StakerIndexes { staker: s("bob") }, Ok(s("bob"))),
        Err(StdError::NotFound { .. })
    ));
    assert!(matches!(p.query(&QueryMsg::StakeInfo { index: 3 }, Ok(s("x"))), Err(StdError::OutOfBounds { key: 3 })));
    match p.query(&QueryMsg::AssetInfo, Ok(s("x"))) {
        Ok(QueryResponse::AssetInfo(a)) => assert_eq!(a.total_security_deposit, 100),
        other => panic!("unexpected {:?}", other),
    }
    assert!(matches!(p.query(&QueryMsg::BeneficiaryInfo, Ok(s("x"))), Ok(QueryResponse::BeneficiaryInfo(_))));
}
