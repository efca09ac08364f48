use unipos::env::{Env, MessageInfo};
use unipos::errors::StdError;
use unipos::sharecore::contract::{InstantiateMsg, ShareCore, StakecoreLookup, StakecoreMsg};
use unipos::sharecore::error::ContractError;
use unipos::sharecore::msg::{QueryMsg, QueryResponse};
use unipos::sharecore::replay::{get_value_from_event, Attribute, Event, ReplyEffect};
use unipos::stakecore::types::{Config as StakeConfig, StakeInfo};
use unipos::universal_token::{TokenConfig, TokenMsg};

fn s(x: &str) -> String {
    x.to_string()
}

fn info(sender: &str) -> MessageInfo {
    MessageInfo { sender: s(sender), funds: vec![] }
}

fn event(attrs: &[(&str, &str)]) -> Event {
    Event {
        ty: s("wasm"),
        attributes: attrs.iter().map(|(k, v)| Attribute { key: s(k), value: s(v) }).collect(),
    }
}

fn uatom() -> TokenConfig {
    TokenConfig { is_native: true, token: s("uatom") }
}

fn instantiate_msg() -> InstantiateMsg {
    InstantiateMsg {
        admin: s("admin"),
        stakecore: Some(s("stakecore")),
        is_native_token: true,
        token: s("uatom"),
        enable_shareholder_whitelist: false,
    }
}

fn lookup() -> StakecoreLookup {
    StakecoreLookup { addr: Ok(s("stakecore")), token: Ok(uatom()) }
}

fn stake_config() -> StakeConfig {
    StakeConfig {
        lock_period: 1000,
        cliff_period: 100,
        apy: 1,
        installment_num: 4,
        min_stake_amount: 0,
        enable_staker_whitelist: false,
        enable_beneficiary_whitelist: false,
    }
}

fn setup() -> ShareCore {
    let mut sc = ShareCore::instantiate(&instantiate_msg(), Ok(()), Ok(s("admin")), Some(lookup())).unwrap();
    assert_eq!(sc.register_plan(&vec![0, 1]), vec![0, 1]);
    let stake = StakeInfo {
        owner: s("sharecore"),
        start_time: 1000,
        total_principal: 1000,
        withdrawn_principal: 0,
        total_rewards: 400,
        withdrawn_rewards: 0,
    };
    sc.execute_register_new_share(&stake_config(), &vec![(0, stake)]);
    assert_eq!(sc.register_plan(&vec![0, 1]), vec![1]);
    assert_eq!(sc.execute_add_shareholder(&info("admin"), Ok(s("alice")), 0, 200, 500).unwrap(), 0);
    assert_eq!(sc.execute_add_shareholder_with_time(&info("admin"), Ok(s("bob")), 0, 1550, 100, 0).unwrap(), 100);
    sc
}

fn credit_rewards(sc: &mut ShareCore, amount: &str) {
    let call = sc.execute_claim_stake_rewards(0).unwrap();
    assert_eq!(call.contract, s("stakecore"));
    assert!(matches!(call.msg, StakecoreMsg::WithdrawRewards { index: 0 }));
    let events = vec![event(&[("action", "withdraw_rewards"), ("amount", amount)])];
    let effect = sc.reply(call.reply_id, Ok(events)).unwrap();
    sc.apply_reply(&effect).unwrap();
}

#[test]
fn instantiate_checks_the_token_of_the_stake_core() {
    let other = StakecoreLookup { addr: Ok(s("stakecore")), token: Ok(TokenConfig { is_native: true, token: s("uosmo") }) };
    match ShareCore::instantiate(&instantiate_msg(), Ok(()), Ok(s("admin")), Some(other)) {
        Err(ContractError::InvalidParamter { key }) => assert_eq!(key, s("token")),
        other => panic!("unexpected {:?}", other.err()),
    }
    let mut msg = instantiate_msg();
    msg.stakecore = None;
    let mut sc = ShareCore::instantiate(&msg, Ok(()), Ok(s("admin")), None).unwrap();
    assert!(sc.execute_init_stakecore(&info("bob"), lookup()).is_err());
    sc.execute_init_stakecore(&info("admin"), lookup()).unwrap();
    assert!(matches!(
        sc.execute_init_stakecore(&info("admin"), lookup()),
        Err(ContractError::StakecoreAlreadyInitialized)
    ));
}

#[test]
fn registering_mirrors_stakes_as_shares() {
    let sc = setup();
    let share = sc.share_infos.get(&0).unwrap();
    assert_eq!((share.start_time, share.recycled_time, share.end_time), (1100, 1100, 2000));
    assert_eq!((share.total_rewards, share.total_principal), (400, 1000));
    assert_eq!((share.granted_rewards, share.total_recycled_rewards, share.granted_principal), (300, 100, 500));
    assert_eq!(sc.share_info_indexes, vec![0]);
}

#[test]
fn grants_beyond_the_share_are_refused() {
    let mut sc = setup();
    match sc.execute_add_shareholder(&info("admin"), Ok(s("carol")), 0, 1, 0) {
        Err(ContractError::InvalidParamter { key }) => assert_eq!(key, s("granted_rewards")),
        other => panic!("unexpected {:?}", other),
    }
    match sc.execute_add_shareholder(&info("admin"), Ok(s("carol")), 0, 0, 501) {
        Err(ContractError::InvalidParamter { key }) => assert_eq!(key, s("granted_principal")),
        other => panic!("unexpected {:?}", other),
    }
    match sc.execute_add_shareholder_with_time(&info("admin"), Ok(s("carol")), 0, 1000, 0, 0) {
        Err(ContractError::InvalidParamter { key }) => assert_eq!(key, s("start_time")),
        other => panic!("unexpected {:?}", other),
    }
    assert!(matches!(
        sc.execute_add_shareholder(&info("admin"), Ok(s("carol")), 9, 0, 0),
        Err(ContractError::Std(StdError::NotFound { .. }))
    ));
    assert!(matches!(
        sc.execute_add_shareholder(&info("carol"), Ok(s("carol")), 0, 0, 0),
        Err(ContractError::AccessControl(_))
    ));
}

#[test]
fn shareholders_withdraw_their_part_of_claimed_rewards() {
    let mut sc = setup();
    assert!(matches!(sc.execute_withdraw_rewards(&info("alice"), 0), Err(ContractError::AmountExceedsWithdrawable)));
    credit_rewards(&mut sc, "200");
    assert_eq!(sc.held_funds, 200);
    assert_eq!(sc.share_infos.get(&0).unwrap().claimed_rewards, 200);
    let out = sc.execute_withdraw_rewards(&info("alice"), 0).unwrap();
    assert_eq!(out.amount, 100);
    match &out.messages[..] {
        [TokenMsg::BankSend { to_address, amount, .. }] => assert_eq!((to_address.as_str(), *amount), ("alice", 100)),
        other => panic!("unexpected {:?}", other),
    }
    assert_eq!(sc.held_funds, 100);
    assert!(matches!(sc.execute_withdraw_rewards(&info("bob"), 0), Err(ContractError::AmountExceedsWithdrawable)));
    assert!(matches!(sc.execute_withdraw_rewards(&info("carol"), 0), Err(ContractError::Std(StdError::NotFound { .. }))));
}

#[test]
fn recycled_rewards_can_be_taken_by_the_admin() {
    let mut sc = setup();
    match sc.execute_accrue_rewards(&Env { time: 1000, contract_address: s("sharecore") }, &info("admin"), 0, 1300) {
        Err(ContractError::InvalidParamter { key }) => assert_eq!(key, s("recycled_time")),
        other => panic!("unexpected {:?}", other),
    }
    let env = Env { time: 2000, contract_address: s("sharecore") };
    assert_eq!(sc.execute_accrue_rewards(&env, &info("admin"), 0, 2000).unwrap(), 0);
    credit_rewards(&mut sc, "400");
    let msgs = sc.execute_recycle(&info("admin"), 0, 100).unwrap();
    assert_eq!(msgs.len(), 1);
    assert_eq!(sc.share_infos.get(&0).unwrap().withdrawn_recycled_rewards, 100);
    assert!(sc.execute_recycle(&info("admin"), 0, 1).is_err());
}

#[test]
fn principal_follows_the_claimed_principal() {
    let mut sc = setup();
    let call = sc.execute_claim_stake_principal(0).unwrap();
    assert!(matches!(call.msg, StakecoreMsg::WithdrawPrincipal { index: 0 }));
    let events = vec![
        event(&[("action", "other"), ("amount", "7")]),
        event(&[("amount", "1000"), ("action", "withdraw_principal")]),
    ];
    let effect = sc.reply(call.reply_id, Ok(events)).unwrap();
    assert!(matches!(effect, ReplyEffect::ClaimedPrincipal { share_id: 0, amount: 1000 }));
    sc.apply_reply(&effect).unwrap();
    assert_eq!(sc.execute_withdraw_principal(&info("alice"), 0).unwrap().amount, 500);
    assert_eq!(sc.held_funds, 500);
}

#[test]
fn batch_replies_credit_each_share() {
    let mut sc = setup();
    let call = sc.execute_claim_stake_rewards_batch();
    match &call.msg {
        StakecoreMsg::WithdrawRewardsBatch { indexes } => assert_eq!(indexes, &vec![0]),
        other => panic!("unexpected {:?}", other),
    }
    assert_eq!(sc.pending_submsg_payload, Some(b"[0]".to_vec()));
    let events = vec![event(&[("action", "withdraw_rewards_batch"), ("amounts", "[\"40\"]")])];
    let effect = sc.reply(call.reply_id, Ok(events)).unwrap();
    sc.apply_reply(&effect).unwrap();
    assert_eq!(sc.share_infos.get(&0).unwrap().claimed_rewards, 40);
    let bad = vec![event(&[("action", "withdraw_rewards_batch"), ("amounts", "[\"1\",\"2\"]")])];
    match sc.reply(call.reply_id, Ok(bad)) {
        Err(ContractError::InnerError { msg }) => {
            assert_eq!(msg, s("share_ids and amounts length do not match: expected: 1, actual: 2"))
        },
        other => panic!("unexpected {:?}", other),
    }
}

#[test]
fn replies_that_cannot_be_read() {
    let sc = setup();
    assert!(matches!(sc.reply(9, Ok(vec![])), Err(ContractError::UnknownReplyId { id: 9 })));
    assert!(matches!(sc.reply(1, Err(s("boom"))), Err(ContractError::SubMsgFailed { .. })));
    match sc.reply(1, Ok(vec![])) {
        Err(ContractError::InnerError { msg }) => assert_eq!(msg, s("cannot get amount from event in withdraw_rewards")),
        other => panic!("unexpected {:?}", other),
    }
    let events = vec![event(&[("action", "withdraw_rewards"), ("amount", "12")])];
    assert!(matches!(sc.reply(1, Ok(events)), Err(ContractError::Std(StdError::NotFound { .. }))));
}

#[test]
fn event_values_come_from_the_first_matching_event() {
    let events = vec![
        event(&[("amount", "1")]),
        event(&[("action", "x"), ("amount", "2")]),
        event(&[("action", "y"), ("amount", "3")]),
    ];
    assert_eq!(get_value_from_event(&events, &s("x"), &s("amount")), Some(s("2")));
    assert_eq!(get_value_from_event(&events, &s("y"), &s("amount")), Some(s("3")));
    assert_eq!(get_value_from_event(&events, &s("z"), &s("amount")), None);
}

#[test]
fn shares_can_be_passed_on() {
    let mut sc = setup();
    sc.execute_grant_role(&info("admin"), s("__DEFAULT_ADMIN__"), Ok(s("alice"))).unwrap();
    assert_eq!(sc.execute_share(&info("alice"), 0, Ok(s("carol")), 50, 100).unwrap(), 0);
    let alice = sc.shareholder_infos.get(&(s("alice"), 0)).unwrap();
    assert_eq!((alice.granted_rewards, alice.granted_principal), (150, 400));
    let carol = sc.shareholder_infos.get(&(s("carol"), 0)).unwrap();
    assert_eq!((carol.granted_rewards, carol.granted_principal), (50, 100));
}

#[test]
fn share_core_queries() {
    let sc = setup();
    match sc.query(&QueryMsg::ShareInfos, Ok(s("unused"))) {
        Ok(QueryResponse::ShareInfos(r)) => assert_eq!(r.share_ids, vec![0]),
        other => panic!("unexpected {:?}", other),
    }
    match sc.query(&QueryMsg::Shareholders, Ok(s("unused"))) {
        Ok(QueryResponse::Shareholders(r)) => assert_eq!(r.shareholders, vec![(s("bob"), 0), (s("alice"), 0)]),
        other => panic!("unexpected {:?}", other),
    }
    match sc.query(&QueryMsg::Shareholder { share_id: 0, addr: s("bob") }, Ok(s("bob"))) {
        Ok(QueryResponse::Shareholder(h)) => assert_eq!((h.pre_recycled_rewards, h.granted_rewards), (100, 100)),
        other => panic!("unexpected {:?}", other),
    }
    assert!(matches!(
        sc.query(&QueryMsg::Shareholder { share_id: 1, addr: s("bob") }, Ok(s("bob"))),
        Err(StdError::NotFound { .. })
    ));
    assert!(matches!(sc.query(&QueryMsg::HeldFunds, Ok(s("x"))), Ok(QueryResponse::HeldFunds(0))));
    assert!(matches!(
        sc.query(&QueryMsg::HaveRole { role: s("__DEFAULT_ADMIN__"), account: s("admin") }, Ok(s("admin"))),
        Ok(QueryResponse::HaveRole(true))
    ));
}

#[test]
fn collect_keeps_the_held_funds() {
    let mut sc = setup();
    credit_rewards(&mut sc, "200");
    let out = sc.execute_collect(&info("admin"), true, s("uatom"), Ok(()), Ok(250)).unwrap();
    assert_eq!(out.amount, 50);
    assert!(matches!(
        sc.execute_collect(&info("admin"), true, s("uatom"), Ok(()), Ok(200)),
        Err(ContractError::NoExcessTokens)
    ));
}

fn funds_of_shares(sc: &ShareCore) -> i128 {
    sc.share_infos
        .entries()
        .iter()
        .map(|(_, s)| {
            s.claimed_rewards as i128 + s.claimed_principal as i128
                - s.withdrawn_rewards as i128
                - s.withdrawn_principal as i128
        })
        .sum()
}

#[test]
fn held_funds_track_what_the_shares_hold() {
    let mut sc = setup();
    assert_eq!(sc.held_funds as i128, funds_of_shares(&sc));
    credit_rewards(&mut sc, "400");
    assert_eq!((sc.held_funds, funds_of_shares(&sc)), (400, 400));
    let call = sc.execute_claim_stake_principal(0).unwrap();
    let events = vec![event(&[("action", "withdraw_principal"), ("amount", "600")])];
    let effect = sc.reply(call.reply_id, Ok(events)).unwrap();
    sc.apply_reply(&effect).unwrap();
    assert_eq!((sc.held_funds, funds_of_shares(&sc)), (1000, 1000));
    assert_eq!(sc.execute_withdraw_rewards(&info("alice"), 0).unwrap().amount, 200);
    assert_eq!(sc.execute_withdraw_principal(&info("alice"), 0).unwrap().amount, 300);
    assert_eq!((sc.held_funds, funds_of_shares(&sc)), (500, 500));
    sc.execute_recycle(&info("admin"), 0, 100).unwrap();
    assert_eq!((sc.held_funds, funds_of_shares(&sc)), (400, 400));
}

#[test]
fn missing_records_name_their_kind() {
    let mut sc = setup();
    match sc.query(&QueryMsg::ShareInfo { share_id: 9 }, Ok(s("alice"))) {
        Err(StdError::NotFound { kind }) => assert_eq!(kind, s("sharecore::types::ShareInfo")),
        other => panic!("unexpected {:?}", other.err()),
    }
    match sc.execute_withdraw_rewards(&info("carol"), 0) {
        Err(ContractError::Std(StdError::NotFound { kind })) => assert_eq!(kind, s("sharecore::types::ShareholderInfo")),
        other => panic!("unexpected {:?}", other.err()),
    }
}

#[test]
fn passing_shares_on_keeps_the_grants() {
    let mut sc = setup();
    sc.execute_grant_role(&info("admin"), s("__DEFAULT_ADMIN__"), Ok(s("bob"))).unwrap();
    let bob = *sc.shareholder_infos.get(&(s("bob"), 0)).unwrap();
    let alice = *sc.shareholder_infos.get(&(s("alice"), 0)).unwrap();
    let moved = sc.execute_share(&info("bob"), 0, Ok(s("alice")), 40, 0).unwrap();
    assert_eq!(moved, 40);
    let bob2 = *sc.shareholder_infos.get(&(s("bob"), 0)).unwrap();
    let alice2 = *sc.shareholder_infos.get(&(s("alice"), 0)).unwrap();
    assert_eq!(bob2.granted_rewards + alice2.granted_rewards, bob.granted_rewards + alice.granted_rewards);
    assert_eq!(bob2.pre_recycled_rewards + alice2.pre_recycled_rewards, bob.pre_recycled_rewards + alice.pre_recycled_rewards);
    assert_eq!(bob2.granted_principal + alice2.granted_principal, bob.granted_principal + alice.granted_principal);
    assert_eq!((bob2.granted_rewards, bob2.pre_recycled_rewards), (60, 60));
}

#[test]
fn unreadable_amounts_and_payloads_are_reported_by_kind() {
    let mut sc = setup();
    let call = sc.execute_claim_stake_rewards(0).unwrap();
    let bad_amount = vec![event(&[("action", "withdraw_rewards"), ("amount", "12x")])];
    assert!(matches!(sc.reply(call.reply_id, Ok(bad_amount)), Err(ContractError::Std(StdError::GenericErr { .. }))));
    sc.pending_submsg_payload = Some(b"\"zero\"".to_vec());
    let good_amount = vec![event(&[("action", "withdraw_rewards"), ("amount", "12")])];
    assert!(matches!(sc.reply(call.reply_id, Ok(good_amount)), Err(ContractError::Std(StdError::ParseErr { .. }))));
}

#[test]
fn length_mismatch_reports_both_lengths_in_decimal() {
    let mut sc = setup();
    let call = sc.execute_claim_stake_rewards_batch();
    let events = vec![event(&[("action", "withdraw_rewards_batch"), ("amounts", "[\"1\",\"2\",\"3\",\"4\",\"5\",\"6\",\"7\",\"8\",\"9\",\"10\",\"11\",\"12\"]")])];
    match sc.reply(call.reply_id, Ok(events)) {
        Err(ContractError::InnerError { msg }) => {
            assert_eq!(msg, s("share_ids and amounts length do not match: expected: 1, actual: 12"))
        },
        other => panic!("unexpected {:?}", other),
    }
}
