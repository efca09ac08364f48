use unipos::collateral::StakeInfo;
use unipos::collateral_pool::ExecuteMsg;
use unipos::env::MessageInfo;
use unipos::errors::StdError;
use unipos::holder::{HolderInfo, ShareInfo};
use unipos::holder_pool::{HolderPool, PoolLookup, QueryMsg, QueryResponse, RegistryError};
use unipos::sharecore::replay::{Attribute, Event, ReplyEffect};
use unipos::universal_token::TokenMsg;

fn s(x: &str) -> String {
    x.to_string()
}

fn info(sender: &str) -> MessageInfo {
    MessageInfo { sender: s(sender), funds: vec![] }
}

fn lookup() -> PoolLookup {
    PoolLookup { addr: Ok(s("pool")), token: Ok(s("token")) }
}

fn event(attrs: &[(&str, &str)]) -> Event {
    Event {
        ty: s("wasm"),
        attributes: attrs.iter().map(|(k, v)| Attribute { key: s(k), value: s(v) }).collect(),
    }
}

fn stake(amount: u128, total_reward: u128) -> StakeInfo {
    StakeInfo { owner: s("registry"), amount, start_at: 0, total_reward, claimed_reward: 0, unstaked: false }
}

fn registry() -> HolderPool {
    let mut r = HolderPool::instantiate(Some(lookup()), Ok(s("admin"))).unwrap();
    let plan = r.sync_plan(&vec![3, 5]);
    assert_eq!(plan, vec![3, 5]);
    r.execute_sync_stake_info(&vec![(3, stake(1000, 400)), (5, stake(200, 0))]);
    assert_eq!(r.sync_plan(&vec![3, 5]), Vec::<u32>::new());
    assert_eq!(r.sync_plan(&vec![3, 5, 8]), vec![8]);
    r.execute_add_holder(&info("admin"), Ok(s("alice")), 3, 100, 500).unwrap();
    r
}

fn credit(r: &mut HolderPool, id: u64, action: &str, amount: &str) {
    let events = vec![event(&[("action", action), ("amount", amount)])];
    let effect = r.reply(id, Ok(events)).unwrap();
    r.apply_reply(&effect).unwrap();
}

#[test]
fn registry_setup() {
    assert!(matches!(
        HolderPool::instantiate(Some(PoolLookup { addr: Err(StdError::GenericErr { msg: s("bad") }), token: Ok(s("t")) }), Ok(s("admin"))),
        Err(RegistryError::Std(_))
    ));
    let mut r = HolderPool::instantiate(None, Ok(s("admin"))).unwrap();
    assert_eq!(r.config.token, None);
    assert!(matches!(r.execute_init_stake_core(&info("x"), lookup()), Err(RegistryError::Unauthorized)));
    r.execute_init_stake_core(&info("admin"), lookup()).unwrap();
    assert_eq!(r.config.stake_core, Some(s("pool")));
    assert_eq!(r.config.token, Some(s("token")));
    assert!(matches!(r.execute_init_stake_core(&info("admin"), lookup()), Err(RegistryError::StakecoreAlreadyInitialized)));
}

#[test]
fn registry_mirrors_stakes_and_grants_parts() {
    let mut r = registry();
    assert_eq!(r.share_info_indexes, vec![3, 5]);
    assert_eq!(
        *r.share_infos.get(&3).unwrap(),
        ShareInfo { total_reward: 400, claimed_reward: 0, granted_reward: 100, principal: 1000, claimed_principal: 0, granted_principal: 500 }
    );
    assert!(matches!(r.execute_add_holder(&info("admin"), Ok(s("alice")), 3, 1, 1), Err(RegistryError::HolderAlreadyRegistered)));
    assert!(matches!(r.execute_add_holder(&info("admin"), Ok(s("bob")), 3, 301, 0), Err(RegistryError::InsufficientReward)));
    assert!(matches!(r.execute_add_holder(&info("admin"), Ok(s("bob")), 3, 0, 501), Err(RegistryError::InsufficientPrincipal)));
    assert!(matches!(
        r.execute_add_holder(&info("admin"), Ok(s("bob")), 4, 0, 0),
        Err(RegistryError::Std(StdError::NotFound { .. }))
    ));
    assert!(matches!(r.execute_add_holder(&info("bob"), Ok(s("bob")), 3, 0, 0), Err(RegistryError::Unauthorized)));
    r.execute_add_holder(&info("admin"), Ok(s("bob")), 3, 300, 0).unwrap();
    assert_eq!(r.share_infos.get(&3).unwrap().granted_reward, 400);
}

#[test]
fn registry_pays_holders_their_part() {
    let mut r = registry();
    assert!(matches!(r.execute_claim_reward(&info("alice"), 3), Err(RegistryError::NoReward)));
    let call = r.execute_claim_stake_reward(3).unwrap();
    assert_eq!(call.contract, s("pool"));
    assert!(matches!(call.msg, ExecuteMsg::ClaimReward { index: 3 }));
    credit(&mut r, call.reply_id, "claim_reward", "200");
    assert_eq!(r.share_infos.get(&3).unwrap().claimed_reward, 200);
    let out = r.execute_claim_reward(&info("alice"), 3).unwrap();
    assert_eq!(out.amount, 50);
    match &out.messages[..] {
        [TokenMsg::Cw20Transfer { contract, recipient, amount }] => {
            assert_eq!((contract.as_str(), recipient.as_str(), *amount), ("token", "alice", 50))
        },
        other => panic!("unexpected {:?}", other),
    }
    assert!(matches!(r.execute_claim_reward(&info("alice"), 3), Err(RegistryError::NoReward)));
    assert!(matches!(r.execute_claim_reward(&info("bob"), 3), Err(RegistryError::Std(StdError::NotFound { .. }))));
    assert!(matches!(r.execute_claim_stake_reward(9), Err(RegistryError::ShareInfoNotFound)));
}

#[test]
fn registry_principal_record_counts_the_last_payout() {
    let mut r = registry();
    let call = r.execute_claim_stake_principal(3).unwrap();
    assert!(matches!(call.msg, ExecuteMsg::Unstake { index: 3 }));
    credit(&mut r, call.reply_id, "unstake", "400");
    assert_eq!(r.execute_claim_principal(&info("alice"), 3).unwrap().amount, 200);
    let h = *r.holder_infos.get(&(s("alice"), 3)).unwrap();
    assert_eq!(h, HolderInfo { granted_reward: 100, claimed_reward: 0, granted_principal: 500, claimed_principal: 200 });
    assert!(matches!(r.execute_claim_principal(&info("alice"), 3), Err(RegistryError::NoPrincipal)));
    credit(&mut r, call.reply_id, "unstake", "200");
    assert_eq!(r.execute_claim_principal(&info("alice"), 3).unwrap().amount, 100);
}

#[test]
fn registry_principal_payouts_follow_the_record() {
    let mut r = registry();
    let call = r.execute_claim_stake_principal(3).unwrap();
    credit(&mut r, call.reply_id, "unstake", "400");
    assert_eq!(r.execute_claim_principal(&info("alice"), 3).unwrap().amount, 200);
    credit(&mut r, call.reply_id, "unstake", "200");
    assert_eq!(r.execute_claim_principal(&info("alice"), 3).unwrap().amount, 100);
    credit(&mut r, call.reply_id, "unstake", "400");
    assert_eq!(r.execute_claim_principal(&info("alice"), 3).unwrap().amount, 400);
    assert_eq!(r.holder_infos.get(&(s("alice"), 3)).unwrap().claimed_principal, 400);
}

#[test]
fn registry_batch_reply_credits_all_shares() {
    let mut r = registry();
    let call = r.execute_claim_stake_rewards_batch();
    match &call.msg {
        ExecuteMsg::ClaimRewardsBatch { indexes } => assert_eq!(indexes, &vec![3, 5]),
        other => panic!("unexpected {:?}", other),
    }
    let events = vec![event(&[("action", "claim_rewards_batch"), ("amounts", "[\"10\",\"0\"]")])];
    let effect = r.reply(call.reply_id, Ok(events)).unwrap();
    match &effect {
        ReplyEffect::ClaimedRewardsBatch { share_ids, amounts } => {
            assert_eq!((share_ids.clone(), amounts.clone()), (vec![3, 5], vec![10, 0]))
        },
        other => panic!("unexpected {:?}", other),
    }
    r.apply_reply(&effect).unwrap();
    assert_eq!(r.share_infos.get(&3).unwrap().claimed_reward, 10);
    let missing = ReplyEffect::ClaimedRewardsBatch { share_ids: vec![3, 7], amounts: vec![1, 1] };
    assert!(matches!(r.apply_reply(&missing), Err(RegistryError::ShareInfoNotFound)));
    assert_eq!(r.share_infos.get(&3).unwrap().claimed_reward, 10);
    assert!(matches!(r.reply(4, Ok(vec![])), Err(RegistryError::UnknownReplyId { id: 4 })));
    match r.reply(1, Ok(vec![])) {
        Err(RegistryError::InnerError { msg }) => assert_eq!(msg, s("cannot get amount from event in claim_reward")),
        other => panic!("unexpected {:?}", other),
    }
}

#[test]
fn registry_collects_what_holders_are_not_owed() {
    let mut r = registry();
    let call = r.execute_claim_stake_reward(3).unwrap();
    credit(&mut r, call.reply_id, "claim_reward", "200");
    r.execute_claim_reward(&info("alice"), 3).unwrap();
    assert!(matches!(r.execute_collect(&info("alice"), Ok(500)), Err(RegistryError::Unauthorized)));
    let out = r.execute_collect(&info("admin"), Ok(500)).unwrap();
    assert_eq!(out.amount, 350);
    let none = r.execute_collect(&info("admin"), Ok(150)).unwrap();
    assert_eq!((none.amount, none.messages.len()), (0, 0));
}

#[test]
fn registry_queries() {
    let r = registry();
    match r.query(&QueryMsg::ShareInfos, Ok(s("x"))) {
        Ok(QueryResponse::ShareInfos(resp)) => assert_eq!(resp.share_ids, vec![3, 5]),
        other => panic!("unexpected {:?}", other),
    }
    match r.query(&QueryMsg::Holders, Ok(s("x"))) {
        Ok(QueryResponse::Holders(resp)) => assert_eq!(resp.holders, vec![(s("alice"), 3)]),
        other => panic!("unexpected {:?}", other),
    }
    assert!(matches!(
        r.query(&QueryMsg::HolderInfo { share_id: 5, addr: s("alice") }, Ok(s("alice"))),
        Err(StdError::NotFound { .. })
    ));
    assert!(matches!(r.query(&QueryMsg::ShareInfo { share_id: 5 }, Ok(s("x"))), Ok(QueryResponse::ShareInfo(_))));
}
