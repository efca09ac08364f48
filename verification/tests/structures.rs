use unipos::access_control::{AccessControl, AccessControlError, DEFAULT_ADMIN_ROLE};
use unipos::assoc_map::AssocMap;
use unipos::errors::StdError;
use unipos::ownership::Ownership;
use unipos::universal_token::{
    Allowance, Coin, Expiration, TokenConfig, TokenMsg, UniversalToken, UniversalTokenError,
};
use unipos::vector::{decode_len, encode_len, Vector};

fn s(x: &str) -> String {
    x.to_string()
}

#[test]
fn roles_are_granted_by_their_admins() {
    let mut ac = AccessControl::new();
    assert!(!ac.has_role(&s(DEFAULT_ADMIN_ROLE), &s("root")));
    assert!(ac._grant_role(&s(DEFAULT_ADMIN_ROLE), &s("root")));
    assert!(!ac._grant_role(&s(DEFAULT_ADMIN_ROLE), &s("root")));
    assert_eq!(ac.get_role_admin(&s("minter")), s(DEFAULT_ADMIN_ROLE));
    assert!(ac.grant_role(&s("root"), &s("minter"), &s("bob")).is_ok());
    assert!(ac.has_role(&s("minter"), &s("bob")));
    assert!(ac.check_role(&s("minter"), &s("bob")).is_ok());
    match ac.grant_role(&s("bob"), &s("minter"), &s("carol")) {
        Err(AccessControlError::UnauthorizedAccount { account, needed_role }) => {
            assert_eq!(account, s("bob"));
            assert_eq!(needed_role, s(DEFAULT_ADMIN_ROLE));
        },
        other => panic!("unexpected {:?}", other),
    }
    assert!(!ac.has_role(&s("minter"), &s("carol")));
}

#[test]
fn role_admins_can_be_changed() {
    let mut ac = AccessControl::new();
    ac._grant_role(&s("minter_admin"), &s("dave"));
    ac.set_role_admin(&s("minter"), &s("minter_admin"));
    assert_eq!(ac.get_role_admin(&s("minter")), s("minter_admin"));
    assert!(ac.check_is_admin(&s("minter"), &s("dave")).is_ok());
    assert!(ac.grant_role(&s("dave"), &s("minter"), &s("erin")).is_ok());
    assert!(ac.revoke_role(&s("dave"), &s("minter"), &s("erin")).is_ok());
    assert!(!ac.has_role(&s("minter"), &s("erin")));
    assert!(ac.revoke_role(&s("erin"), &s("minter"), &s("dave")).is_err());
    assert!(!ac._revoke_role(&s("minter"), &s("erin")));
    assert_eq!(ac.role_entries().len(), 1);
    assert_eq!(ac.admin_role_entries().len(), 1);
}

#[test]
fn vector_push_get_set_pop() {
    let mut v: Vector<u64> = Vector::new();
    assert_eq!(v.len(), 0);
    assert!(v.push(10).is_ok());
    assert!(v.push(20).is_ok());
    assert_eq!(*v.get(1).unwrap(), 20);
    match v.get(2) {
        Err(StdError::OutOfBounds { key }) => assert_eq!(key, 2),
        other => panic!("unexpected {:?}", other),
    }
    assert!(v.set(0, 11).is_ok());
    assert!(v.set(2, 30).is_ok());
    assert!(v.set(5, 50).is_err());
    assert_eq!(v.len(), 3);
    let r = v.range();
    assert_eq!(r.len(), 3);
    assert_eq!((r[0].0, *r[0].1), (0, 11));
    assert_eq!((r[2].0, *r[2].1), (2, 30));
    assert_eq!(v.pop().unwrap(), 30);
    assert_eq!(v.pop().unwrap(), 20);
    assert_eq!(v.pop().unwrap(), 11);
    match v.pop() {
        Err(StdError::GenericErr { msg }) => assert_eq!(msg, s("Pop on empty Vector")),
        other => panic!("unexpected {:?}", other),
    }
}

#[test]
fn vector_length_encoding_round_trips() {
    assert_eq!(decode_len(None).unwrap(), 0);
    let e = encode_len(0x0102_0304);
    assert_eq!(e, vec![1, 2, 3, 4]);
    assert_eq!(decode_len(Some(&e[..])).unwrap(), 0x0102_0304);
    assert_eq!(decode_len(Some(&encode_len(u32::MAX)[..])).unwrap(), u32::MAX);
    assert!(matches!(decode_len(Some(&[1u8, 2, 3][..])), Err(StdError::ParseErr { .. })));
}

#[test]
fn assoc_map_insert_remove_and_sorted_keys() {
    let mut m: AssocMap<u32, u64> = AssocMap::new();
    m.insert(7, 70);
    m.insert(3, 30);
    m.insert(9, 90);
    m.insert(3, 33);
    assert_eq!(m.get(&3), Some(&33));
    assert!(m.contains_key(&9));
    assert_eq!(m.sorted_keys(), vec![3, 7, 9]);
    assert_eq!(m.remove(&7), Some(70));
    assert_eq!(m.remove(&7), None);
    assert_eq!(m.sorted_keys(), vec![3, 9]);
    assert_eq!(m.entries().len(), 2);
}

#[test]
fn ownership_hands_over_in_two_steps() {
    let mut o = Ownership::new(s("alice"));
    assert!(o.validate(&s("alice")));
    assert!(!o.validate(&s("bob")));
    assert!(!o.accept_ownership(&s("bob")));
    o.pending_owner = Some(s("bob"));
    assert!(!o.accept_ownership(&s("carol")));
    assert_eq!(o.owner, s("alice"));
    assert!(o.accept_ownership(&s("bob")));
    assert_eq!(o.owner, s("bob"));
    assert_eq!(o.pending_owner, None);
}

fn native() -> UniversalToken {
    UniversalToken::new(TokenConfig { is_native: true, token: s("uatom") })
}

fn cw20() -> UniversalToken {
    UniversalToken::new(TokenConfig { is_native: false, token: s("cw20contract") })
}

#[test]
fn sending_native_and_cw20_tokens() {
    assert!(native().is_native());
    assert!(!cw20().is_native());
    match &native().send_token(&s("bob"), 5)[..] {
        [TokenMsg::BankSend { to_address, denom, amount }] => {
            assert_eq!((to_address.as_str(), denom.as_str(), *amount), ("bob", "uatom", 5));
        },
        other => panic!("unexpected {:?}", other),
    }
    match &cw20().send_token(&s("bob"), 6)[..] {
        [TokenMsg::Cw20Transfer { contract, recipient, amount }] => {
            assert_eq!((contract.as_str(), recipient.as_str(), *amount), ("cw20contract", "bob", 6));
        },
        other => panic!("unexpected {:?}", other),
    }
}

#[test]
fn receiving_native_tokens() {
    let t = native();
    let ok = vec![Coin { denom: s("uatom"), amount: 10 }];
    assert!(t.receive_token(&ok, &s("bob"), &s("me"), None, 10).unwrap().is_empty());
    assert!(matches!(t.receive_token(&vec![], &s("bob"), &s("me"), None, 10), Err(UniversalTokenError::IllegalMsgFunds)));
    let wrong_denom = vec![Coin { denom: s("uosmo"), amount: 10 }];
    assert!(matches!(
        t.receive_token(&wrong_denom, &s("bob"), &s("me"), None, 10),
        Err(UniversalTokenError::WrongDenom { .. })
    ));
    match t.receive_token(&ok, &s("bob"), &s("me"), None, 11) {
        Err(UniversalTokenError::WrongAmount { expect, got }) => assert_eq!((expect, got), (11, 10)),
        other => panic!("unexpected {:?}", other),
    }
}

#[test]
fn receiving_cw20_tokens() {
    let t = cw20();
    let enough = Some(Ok(Allowance { allowance: 10, expired: false }));
    match &t.receive_token(&vec![], &s("bob"), &s("me"), enough, 10).unwrap()[..] {
        [TokenMsg::Cw20TransferFrom { contract, owner, recipient, amount }] => {
            assert_eq!(
                (contract.as_str(), owner.as_str(), recipient.as_str(), *amount),
                ("cw20contract", "bob", "me", 10)
            );
        },
        other => panic!("unexpected {:?}", other),
    }
    let short = Some(Ok(Allowance { allowance: 9, expired: false }));
    match t.receive_token(&vec![], &s("bob"), &s("me"), short, 10) {
        Err(UniversalTokenError::WrongAmount { expect, got }) => assert_eq!((expect, got), (10, 9)),
        other => panic!("unexpected {:?}", other),
    }
    let expired = Some(Ok(Allowance { allowance: 100, expired: true }));
    match t.receive_token(&vec![], &s("bob"), &s("me"), expired, 10) {
        Err(UniversalTokenError::WrongAmount { expect, got }) => assert_eq!((expect, got), (10, 0)),
        other => panic!("unexpected {:?}", other),
    }
    let coins = vec![Coin { denom: s("uatom"), amount: 1 }];
    assert!(matches!(
        t.receive_token(&coins, &s("bob"), &s("me"), Some(Ok(Allowance { allowance: 10, expired: false })), 10),
        Err(UniversalTokenError::IllegalMsgFunds)
    ));
    let failed = Some(Err(StdError::GenericErr { msg: s("query failed") }));
    assert!(matches!(t.receive_token(&vec![], &s("bob"), &s("me"), failed, 10), Err(UniversalTokenError::Std(_))));
}

#[test]
fn allowances_lapse_at_their_height_or_time() {
    assert!(!Expiration::AtHeight(10).is_expired(9, 1_000));
    assert!(Expiration::AtHeight(10).is_expired(10, 0));
    assert!(!Expiration::AtTime(5_000).is_expired(100, 4_999));
    assert!(Expiration::AtTime(5_000).is_expired(0, 5_000));
    assert!(!Expiration::Never.is_expired(u64::MAX, u64::MAX));
}

#[test]
fn holder_keys_come_in_storage_order() {
    let mut m: AssocMap<(String, u32), u8> = AssocMap::new();
    m.insert((s("alice"), 2), 0);
    m.insert((s("bob"), 9), 0);
    m.insert((s("alice"), 1), 0);
    m.insert((s("carl"), 0), 0);
    m.insert((s("bob"), 3), 0);
    m.insert((s("\u{e9}a"), 0), 0);
    m.insert((s("abc"), 7), 0);
    assert_eq!(
        m.sorted_holder_keys(),
        vec![
            (s("abc"), 7),
            (s("bob"), 3),
            (s("bob"), 9),
            (s("\u{e9}a"), 0),
            (s("carl"), 0),
            (s("alice"), 1),
            (s("alice"), 2),
        ]
    );
}
