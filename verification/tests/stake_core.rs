use unipos::access_control::AccessControlError;
use unipos::env::{Env, MessageInfo};
use unipos::errors::StdError;
use unipos::stakecore::contract::{InstantiateMsg, StakeCore, PROVIDER_ROLE};
use unipos::stakecore::error::ContractError;
use unipos::stakecore::msg::{QueryMsg, QueryResponse};
use unipos::stakecore::types::{PRECISION, UNIPOS_YEAR};
use unipos::universal_token::{Coin, TokenMsg};

const YEAR: u64 = UNIPOS_YEAR as u64;

fn s(x: &str) -> String {
    x.to_string()
}

fn env(time: u64) -> Env {
    Env { time, contract_address: s("stakecore") }
}

fn info(sender: &str, funds: Vec<Coin>) -> MessageInfo {
    MessageInfo { sender: s(sender), funds }
}

fn uatom(amount: u128) -> Vec<Coin> {
    vec![Coin { denom: s("uatom"), amount }]
}

fn msg(apy: u128) -> InstantiateMsg {
    InstantiateMsg {
        admin: s("admin"),
        providers: vec![s("prov")],
        is_native_token: true,
        token: s("uatom"),
        lock_period: YEAR,
        cliff_period: 0,
        apy,
        installment_num: 4,
        min_stake_amount: 10,
        enable_staker_whitelist: false,
        enable_beneficiary_whitelist: false,
    }
}

fn setup() -> StakeCore {
    let mut sc = StakeCore::instantiate(&msg(PRECISION / 10), Ok(()), Ok(s("admin")), vec![Ok(s("prov"))]).unwrap();
    assert!(sc.deposit_security_fits(&info("prov", uatom(100)), 100));
    sc.execute_deposit_security(&env(0), &info("prov", uatom(100)), 100, None).unwrap();
    assert!(sc.stake_fits(&info("alice", uatom(1000)), &Ok(s("alice")), 1000));
    let out = sc.execute_stake(&env(0), &info("alice", uatom(1000)), Ok(s("alice")), 1000, None).unwrap();
    assert_eq!((out.principal, out.rewards, out.index, out.start_time), (1000, 100, 0, 0));
    sc
}

#[test]
fn instantiate_checks_its_inputs() {
    let mut bad = msg(PRECISION / 10);
    bad.installment_num = 0;
    assert!(matches!(
        StakeCore::instantiate(&bad, Ok(()), Ok(s("admin")), vec![]),
        Err(ContractError::InvalidInput)
    ));
    let err = StdError::GenericErr { msg: s("invalid address") };
    assert!(matches!(
        StakeCore::instantiate(&msg(1), Ok(()), Err(err.clone()), vec![]),
        Err(ContractError::Std(StdError::GenericErr { .. }))
    ));
    assert!(matches!(
        StakeCore::instantiate(&msg(1), Ok(()), Ok(s("admin")), vec![Ok(s("p")), Err(err)]),
        Err(ContractError::Std(StdError::GenericErr { .. }))
    ));
    let mut cw20 = msg(1);
    cw20.is_native_token = false;
    assert!(matches!(
        StakeCore::instantiate(&cw20, Err(StdError::GenericErr { msg: s("bad token") }), Ok(s("admin")), vec![]),
        Err(ContractError::Std(_))
    ));
    let sc = StakeCore::instantiate(&msg(1), Ok(()), Ok(s("admin")), vec![Ok(s("prov"))]).unwrap();
    assert!(sc.access_control.has_role(&s(PROVIDER_ROLE), &s("prov")));
    assert!(sc.check_accounting());
}

#[test]
fn deposit_needs_a_provider_and_rewards() {
    let mut sc = StakeCore::instantiate(&msg(PRECISION / 10), Ok(()), Ok(s("admin")), vec![Ok(s("prov"))]).unwrap();
    match sc.execute_deposit_security(&env(0), &info("bob", uatom(5)), 5, None) {
        Err(ContractError::AccessControl(AccessControlError::UnauthorizedAccount { account, needed_role })) => {
            assert_eq!((account, needed_role), (s("bob"), s(PROVIDER_ROLE)));
        },
        other => panic!("unexpected {:?}", other),
    }
    assert!(matches!(
        sc.execute_deposit_security(&env(0), &info("prov", uatom(4)), 5, None),
        Err(ContractError::UniversalTokenError(_))
    ));
    assert_eq!(sc.asset_info.total_security_deposit, 0);
    let mut no_apy = StakeCore::instantiate(&msg(0), Ok(()), Ok(s("admin")), vec![Ok(s("prov"))]).unwrap();
    assert!(matches!(
        no_apy.execute_deposit_security(&env(0), &info("prov", uatom(5)), 5, None),
        Err(ContractError::Forbidden)
    ));
}

#[test]
fn stake_records_principal_and_rewards() {
    let mut sc = setup();
    assert_eq!(sc.asset_info.total_principal, 1000);
    assert_eq!(sc.asset_info.total_rewards, 100);
    assert!(matches!(
        sc.execute_stake(&env(1), &info("alice", uatom(5)), Ok(s("alice")), 5, None),
        Err(ContractError::InsufficientStakeAmount)
    ));
    assert!(matches!(
        sc.execute_stake(&env(1), &info("alice", uatom(1000)), Ok(s("alice")), 1000, None),
        Err(ContractError::InsufficientFunds)
    ));
    assert!(matches!(
        sc.execute_withdraw_security(&info("prov", vec![]), 1),
        Err(ContractError::InsufficientFunds)
    ));
    assert_eq!(sc.stake_records.len(), 1);
    assert!(sc.check_accounting());
}

#[test]
fn stake_without_apy_is_all_rewards() {
    let mut sc = StakeCore::instantiate(&msg(0), Ok(()), Ok(s("admin")), vec![]).unwrap();
    let out = sc.execute_stake(&env(0), &info("alice", uatom(400)), Ok(s("bob")), 400, None).unwrap();
    assert_eq!((out.principal, out.rewards), (0, 400));
    assert_eq!(sc.query_stake_info(0).unwrap().owner, s("bob"));
    assert_eq!(*sc.query_staker_indexes(Ok(s("bob"))).unwrap(), vec![0]);
    assert!(matches!(sc.query_staker_indexes(Ok(s("alice"))), Err(StdError::NotFound { .. })));
}

#[test]
fn rewards_unlock_by_installments() {
    let mut sc = setup();
    assert!(sc.withdraw_rewards_fits(&env(YEAR / 4), &info("alice", vec![]), 0));
    let out = sc.execute_withdraw_rewards(&env(YEAR / 4), &info("alice", vec![]), 0).unwrap();
    assert_eq!(out.amount, 25);
    match &out.messages[..] {
        [TokenMsg::BankSend { to_address, denom, amount }] => {
            assert_eq!((to_address.as_str(), denom.as_str(), *amount), ("alice", "uatom", 25));
        },
        other => panic!("unexpected {:?}", other),
    }
    let again = sc.execute_withdraw_rewards(&env(YEAR / 4 + 10), &info("alice", vec![]), 0).unwrap();
    assert_eq!(again.amount, 0);
    assert!(again.messages.is_empty());
    assert!(matches!(
        sc.execute_withdraw_rewards(&env(YEAR), &info("bob", vec![]), 0),
        Err(ContractError::Unauthorized)
    ));
    assert!(matches!(
        sc.execute_withdraw_rewards(&env(YEAR), &info("alice", vec![]), 7),
        Err(ContractError::Std(StdError::OutOfBounds { key: 7 }))
    ));
    assert_eq!(sc.asset_info.withdrawn_rewards, 25);
    assert!(sc.check_accounting());
}

#[test]
fn principal_unlocks_after_the_lock() {
    let mut sc = setup();
    assert_eq!(sc.execute_withdraw_principal(&env(YEAR - 1), &info("alice", vec![]), 0).unwrap().amount, 0);
    let out = sc.execute_withdraw_principal(&env(YEAR), &info("alice", vec![]), 0).unwrap();
    assert_eq!(out.amount, 1000);
    assert_eq!(sc.execute_withdraw_principal(&env(YEAR + 5), &info("alice", vec![]), 0).unwrap().amount, 0);
    assert_eq!(sc.asset_info.withdrawn_principal, 1000);
}

#[test]
fn batch_withdrawal_reports_each_amount() {
    let mut sc = setup();
    assert!(sc.claim_rewards_batch_fits(&env(YEAR), &info("alice", vec![]), &vec![0, 0]));
    let out = sc.execute_claim_rewards_batch(&env(YEAR / 2), &info("alice", vec![]), &vec![0, 0]).unwrap();
    assert_eq!(out.amounts, vec![50, 0]);
    assert_eq!(out.total, 50);
    assert_eq!(out.messages.len(), 1);
    assert!(matches!(
        sc.execute_claim_rewards_batch(&env(YEAR), &info("alice", vec![]), &vec![0, 3]),
        Err(ContractError::Std(StdError::OutOfBounds { key: 3 }))
    ));
    assert_eq!(sc.asset_info.withdrawn_rewards, 50);
    let none = sc.execute_claim_rewards_batch(&env(YEAR / 2), &info("alice", vec![]), &vec![]).unwrap();
    assert_eq!((none.total, none.messages.len()), (0, 0));
}

#[test]
fn collect_takes_only_the_excess() {
    let sc = setup();
    assert!(sc.collect_fits(true, &s("uatom")));
    let out = sc.execute_collect(&info("admin", vec![]), true, s("uatom"), Ok(()), Ok(1150)).unwrap();
    assert_eq!(out.amount, 50);
    assert!(matches!(
        sc.execute_collect(&info("admin", vec![]), true, s("uatom"), Ok(()), Ok(1100)),
        Err(ContractError::NoExcessTokens)
    ));
    let other = sc.execute_collect(&info("admin", vec![]), true, s("uosmo"), Ok(()), Ok(7)).unwrap();
    assert_eq!(other.amount, 7);
    assert!(matches!(
        sc.execute_collect(&info("prov", vec![]), true, s("uatom"), Ok(()), Ok(1150)),
        Err(ContractError::AccessControl(_))
    ));
}

#[test]
fn roles_and_queries() {
    let mut sc = setup();
    assert!(sc.execute_grant_role(&info("bob", vec![]), s("staker"), Ok(s("carol"))).is_err());
    sc.execute_grant_role(&info("admin", vec![]), s("staker"), Ok(s("carol"))).unwrap();
    assert_eq!(sc.query_have_role(&s("staker"), Ok(s("carol"))).unwrap(), true);
    assert_eq!(sc.query_have_role(&s("staker"), Ok(s("dave"))).unwrap(), false);
    sc.execute_grant_role(&info("prov", vec![]), s(PROVIDER_ROLE), Ok(s("prov2"))).unwrap();
    assert!(sc.only_provider(&s("prov2")).is_ok());
    match sc.query(&QueryMsg::StakeInfo { index: 0 }, Err(StdError::GenericErr { msg: s("unused") })) {
        Ok(QueryResponse::StakeInfo(info)) => assert_eq!(info.total_principal, 1000),
        other => panic!("unexpected {:?}", other),
    }
    match sc.query(&QueryMsg::StakerIndexes { account: s("alice") }, Ok(s("alice"))) {
        Ok(QueryResponse::StakerIndexes(r)) => assert_eq!(r.indexes, vec![0]),
        other => panic!("unexpected {:?}", other),
    }
    match sc.query(&QueryMsg::HaveRole { role: s(PROVIDER_ROLE), account: s("prov") }, Ok(s("prov"))) {
        Ok(QueryResponse::HaveRole(b)) => assert!(b),
        other => panic!("unexpected {:?}", other),
    }
    assert!(matches!(
        sc.query(&QueryMsg::StakeInfo { index: 1 }, Ok(s("x"))),
        Err(StdError::OutOfBounds { key: 1 })
    ));
    assert!(matches!(sc.query(&QueryMsg::Token, Ok(s("x"))), Ok(QueryResponse::Token(_))));
}

#[test]
fn a_second_batch_at_the_same_time_pays_nothing() {
    let mut sc = setup();
    let first = sc.execute_claim_rewards_batch(&env(YEAR / 2), &info("alice", vec![]), &vec![0]).unwrap();
    assert_eq!((first.total, first.amounts.clone(), first.messages.len()), (50, vec![50], 1));
    let second = sc.execute_claim_rewards_batch(&env(YEAR / 2), &info("alice", vec![]), &vec![0, 0]).unwrap();
    assert_eq!((second.total, second.amounts, second.messages.len()), (0, vec![0, 0], 0));
}
