//! The stake core's replies to the share core's withdrawal calls: reading the
//! amount paid out from the reply's events, and crediting it to the shares.

use crate::errors::StdError;
use crate::json::{
    decimal_u128, from_json_u32, from_json_u32_list, from_json_uint128_list, json_u32_list_value, json_u32_value,
    json_uint128_list_value, uint128_from_str,
};
use crate::sharecore::contract::{
    ShareCore, EXECUTE_CLAIM_STAKE_PRINCIPAL__WITHDRAW_PRINCIPAL,
    EXECUTE_CLAIM_STAKE_REWARDS_BATCH__WITHDRAW_REWARDS_BATCH, EXECUTE_CLAIM_STAKE_REWARDS__WITHDRAW_REWARDS,
};
use crate::sharecore::error::ContractError;
use crate::sharecore::types::{lemma_total_funds_insert, total_funds, ShareInfo};
use vstd::prelude::*;

verus! {

/// A key and value of an event.
#[derive(Debug)]
pub struct Attribute {
    pub key: String,
    pub value: String,
}

/// An event of a reply.
#[derive(Debug)]
pub struct Event {
    pub ty: String,
    pub attributes: Vec<Attribute>,
}

/// What a reply credits: the amount the stake core paid out for one share,
/// or for each of a list of shares.
#[derive(Debug)]
pub enum ReplyEffect {
    ClaimedRewards { share_id: u32, amount: u128 },
    ClaimedRewardsBatch { share_ids: Vec<u32>, amounts: Vec<u128> },
    ClaimedPrincipal { share_id: u32, amount: u128 },
}

/// Scanning the attributes of one event: whether the `action` attribute
/// names `action`, and the last value under `key` seen so far.
pub open spec fn attrs_fold(attrs: Seq<Attribute>, action: Seq<char>, key: Seq<char>, res: Option<String>) -> (
    bool,
    Option<String>,
)
    decreases attrs.len(),
{
    if attrs.len() == 0 {
        (false, res)
    } else {
        let (found, r) = attrs_fold(attrs.drop_last(), action, key, res);
        let a = attrs.last();
        if a.key@ == "action"@ && a.value@ == action {
            (true, r)
        } else if a.key@ == key {
            (found, Some(a.value))
        } else {
            (found, r)
        }
    }
}

/// Scanning events in order until one names `action`.
pub open spec fn scan_events(events: Seq<Event>, action: Seq<char>, key: Seq<char>) -> (bool, Option<String>)
    decreases events.len(),
{
    if events.len() == 0 {
        (false, None)
    } else {
        let (found, r) = scan_events(events.drop_last(), action, key);
        if found {
            (true, r)
        } else {
            attrs_fold(events.last().attributes@, action, key, r)
        }
    }
}

/// The value under `key` last seen up to the end of the first event whose
/// `action` attribute names `action`; none if no event does.
pub open spec fn event_value_spec(events: Seq<Event>, action: Seq<char>, key: Seq<char>) -> Option<String> {
    let (found, r) = scan_events(events, action, key);
    if found {
        r
    } else {
        None
    }
}

/// The decimal digits of `n`, as text, without leading zeros.
pub open spec fn decimal_text(n: nat) -> Seq<char>
    decreases n,
{
    if n < 10 {
        seq![(48 + n) as char]
    } else {
        decimal_text(n / 10).push((48 + n % 10) as char)
    }
}

/// The text reporting share ids and amounts of different lengths.
pub open spec fn length_mismatch_text(expected: usize, actual: usize) -> Seq<char> {
    "share_ids and amounts length do not match: expected: "@ + decimal_text(expected as nat) + ", actual: "@
        + decimal_text(actual as nat)
}

/// The decimal digit `d` as text.
fn digit_str(d: usize) -> (r: &'static str)
    requires
        d < 10,
    ensures
        r@ == seq![(48 + d) as char],
{
    match d {
        0 => {
            proof {
                reveal_strlit("0");
            }
            "0"
        },
        1 => {
            proof {
                reveal_strlit("1");
            }
            "1"
        },
        2 => {
            proof {
                reveal_strlit("2");
            }
            "2"
        },
        3 => {
            proof {
                reveal_strlit("3");
            }
            "3"
        },
        4 => {
            proof {
                reveal_strlit("4");
            }
            "4"
        },
        5 => {
            proof {
                reveal_strlit("5");
            }
            "5"
        },
        6 => {
            proof {
                reveal_strlit("6");
            }
            "6"
        },
        7 => {
            proof {
                reveal_strlit("7");
            }
            "7"
        },
        8 => {
            proof {
                reveal_strlit("8");
            }
            "8"
        },
        _ => {
            proof {
                reveal_strlit("9");
            }
            "9"
        },
    }
}

/// The decimal digits of `n`, without leading zeros.
fn decimal_string(n: usize) -> (r: String)
    ensures
        r@ == decimal_text(n as nat),
    decreases n,
{
    if n < 10 {
        String::from_str(digit_str(n))
    } else {
        let mut s = decimal_string(n / 10);
        s.append(digit_str(n % 10));
        s
    }
}

/// The report that the share ids and the amounts differ in length.
pub(crate) fn length_mismatch_msg(expected: usize, actual: usize) -> (r: String)
    ensures
        r@ == length_mismatch_text(expected, actual),
{
    let mut msg = String::from_str("share_ids and amounts length do not match: expected: ");
    let e = decimal_string(expected);
    msg.append(e.as_str());
    msg.append(", actual: ");
    let a = decimal_string(actual);
    msg.append(a.as_str());
    msg
}

/// The value under `key` in the reply events, as the stake core's event with
/// action `action` reports it.
pub fn get_value_from_event(events: &Vec<Event>, action: &String, key: &String) -> (r: Option<String>)
    ensures
        r == event_value_spec(events@, action@, key@),
{
    let action_key = String::from_str("action");
    let mut result: Option<String> = None;
    let mut i: usize = 0;
    while i < events.len()
        invariant
            i <= events@.len(),
            action_key@ == "action"@,
            scan_events(events@.take(i as int), action@, key@) == (false, result),
        decreases events@.len() - i,
    {
        let attrs = &events[i].attributes;
        let ghost before = result;
        let mut found = false;
        let mut j: usize = 0;
        while j < attrs.len()
            invariant
                j <= attrs@.len(),
                action_key@ == "action"@,
                attrs_fold(attrs@.take(j as int), action@, key@, before) == (found, result),
            decreases attrs@.len() - j,
        {
            let a = &attrs[j];
            assert(attrs@.take(j as int + 1).drop_last() =~= attrs@.take(j as int));
            if a.key == action_key && a.value == *action {
                found = true;
            } else if a.key == *key {
                result = Some(a.value.clone());
            }
            j += 1;
        }
        assert(attrs@.take(attrs@.len() as int) =~= attrs@);
        assert(events@.take(i as int + 1).drop_last() =~= events@.take(i as int));
        if found {
            proof {
                lemma_scan_found(events@, i as int + 1, action@, key@);
            }
            return result;
        }
        i += 1;
    }
    assert(events@.take(events@.len() as int) =~= events@);
    None
}

/// Once an event names the action, later events change nothing.
pub proof fn lemma_scan_found(events: Seq<Event>, n: int, action: Seq<char>, key: Seq<char>)
    requires
        0 <= n <= events.len(),
        scan_events(events.take(n), action, key).0,
    ensures
        scan_events(events, action, key) == scan_events(events.take(n), action, key),
    decreases events.len(),
{
    if n < events.len() {
        assert(events.drop_last().take(n) =~= events.take(n));
        lemma_scan_found(events.drop_last(), n, action, key);
    } else {
        assert(events.take(n) =~= events);
    }
}

/// The shares after crediting `amts[i]` of claimed rewards to share `ids[i]`
/// in turn, with the total credited; none if some share does not exist.
pub open spec fn claim_batch_spec(m: Map<u32, ShareInfo>, ids: Seq<u32>, amts: Seq<u128>) -> Option<(Map<u32, ShareInfo>, int)>
    decreases ids.len(),
{
    if ids.len() == 0 || amts.len() == 0 {
        Some((m, 0))
    } else {
        match claim_batch_spec(m, ids.drop_last(), amts.drop_last()) {
            None => None,
            Some((m2, t)) => {
                let id = ids.last();
                if !m2.contains_key(id) {
                    None
                } else {
                    Some((
                        m2.insert(id, ShareInfo { claimed_rewards: (m2[id].claimed_rewards + amts.last()) as u128, ..m2[id] }),
                        t + amts.last(),
                    ))
                }
            },
        }
    }
}

/// Crediting a batch adds nothing that overflows.
pub open spec fn claim_batch_fits(m: Map<u32, ShareInfo>, ids: Seq<u32>, amts: Seq<u128>) -> bool {
    forall|k: int|
        0 <= k < ids.len() && k < amts.len() ==> match #[trigger] claim_batch_spec(m, ids.take(k), amts.take(k)) {
            Some((m2, t)) => m2.contains_key(ids[k]) ==> m2[ids[k]].claimed_rewards + amts[k] <= u128::MAX && t
                + amts[k] <= u128::MAX,
            None => true,
        }
}

/// A batch keeps the set of shares, and fails exactly when a listed share is missing.
pub proof fn lemma_claim_batch_dom(m: Map<u32, ShareInfo>, ids: Seq<u32>, amts: Seq<u128>)
    requires
        ids.len() == amts.len(),
    ensures
        claim_batch_spec(m, ids, amts) is Some <==> forall|k: int| 0 <= k < ids.len() ==> m.contains_key(#[trigger] ids[k]),
        claim_batch_spec(m, ids, amts) matches Some((m2, t)) ==> m2.dom() == m.dom() && t >= 0,
    decreases ids.len(),
{
    if ids.len() > 0 {
        lemma_claim_batch_dom(m, ids.drop_last(), amts.drop_last());
        if claim_batch_spec(m, ids.drop_last(), amts.drop_last()) is Some {
            let (m2, t) = claim_batch_spec(m, ids.drop_last(), amts.drop_last())->0;
            let id = ids.last();
            assert forall|k: int| 0 <= k < ids.len() - 1 implies m.contains_key(#[trigger] ids.drop_last()[k]) == m.contains_key(ids[k]) by {}
            if m2.contains_key(id) {
                assert(m2.insert(id, ShareInfo { claimed_rewards: (m2[id].claimed_rewards + amts.last()) as u128, ..m2[id] }).dom() =~= m.dom());
                assert forall|k: int| 0 <= k < ids.len() implies m.contains_key(#[trigger] ids[k]) by {
                    if k < ids.len() - 1 {
                        assert(m.contains_key(ids.drop_last()[k]));
                    }
                }
            } else {
                assert(!m.contains_key(ids[ids.len() - 1]));
            }
        } else {
            let k0 = choose|k: int| 0 <= k < ids.drop_last().len() && !m.contains_key(#[trigger] ids.drop_last()[k]);
            assert(ids.drop_last()[k0] == ids[k0]);
            assert(!m.contains_key(ids[k0]));
        }
    }
}

impl ShareCore {
    /// Reads what the stake core's reply `id` paid out. `result` is the
    /// reply: its events, or the failure message of the call.
    pub fn reply(&self, id: u64, result: Result<Vec<Event>, String>) -> (r: Result<ReplyEffect, ContractError>)
        ensures
            result is Err ==> r == Err::<ReplyEffect, ContractError>(ContractError::SubMsgFailed { msg: result->Err_0 }),
            result is Ok && id != EXECUTE_CLAIM_STAKE_REWARDS__WITHDRAW_REWARDS && id
                != EXECUTE_CLAIM_STAKE_REWARDS_BATCH__WITHDRAW_REWARDS_BATCH && id
                != EXECUTE_CLAIM_STAKE_PRINCIPAL__WITHDRAW_PRINCIPAL ==> r == Err::<ReplyEffect, ContractError>(
                ContractError::UnknownReplyId { id },
            ),
            result is Ok && id == EXECUTE_CLAIM_STAKE_REWARDS__WITHDRAW_REWARDS ==> self.single_reply_spec(
                result->Ok_0@,
                "withdraw_rewards"@,
                r,
                false,
            ),
            result is Ok && id == EXECUTE_CLAIM_STAKE_PRINCIPAL__WITHDRAW_PRINCIPAL ==> self.single_reply_spec(
                result->Ok_0@,
                "withdraw_principal"@,
                r,
                true,
            ),
            result is Ok && id == EXECUTE_CLAIM_STAKE_REWARDS_BATCH__WITHDRAW_REWARDS_BATCH ==> self.batch_reply_spec(
                result->Ok_0@,
                r,
            ),
    {
        let events = match result {
            Err(msg) => return Err(ContractError::SubMsgFailed { msg }),
            Ok(events) => events,
        };
        if id == EXECUTE_CLAIM_STAKE_REWARDS__WITHDRAW_REWARDS {
            self.reply_claim_stake_rewards(&events)
        } else if id == EXECUTE_CLAIM_STAKE_REWARDS_BATCH__WITHDRAW_REWARDS_BATCH {
            self.reply_claim_stake_rewards_batch(&events)
        } else if id == EXECUTE_CLAIM_STAKE_PRINCIPAL__WITHDRAW_PRINCIPAL {
            self.reply_claim_stake_principal(&events)
        } else {
            Err(ContractError::UnknownReplyId { id })
        }
    }

    /// The reading of a reply about one share: the `amount` of the event with
    /// action `action`, and the pending share id.
    pub open spec fn single_reply_spec(
        &self,
        events: Seq<Event>,
        action: Seq<char>,
        r: Result<ReplyEffect, ContractError>,
        principal: bool,
    ) -> bool {
        let v = event_value_spec(events, action, "amount"@);
        if v is None {
            r matches Err(ContractError::InnerError { msg }) && msg@ == "cannot get amount from event in "@ + action
        } else if self.pending_submsg_payload is None {
            r matches Err(ContractError::Std(StdError::NotFound { kind })) && kind@ == "alloc::vec::Vec<u8>"@
        } else if decimal_u128(v->0@) is None {
            r matches Err(ContractError::Std(StdError::GenericErr { .. }))
        } else if json_u32_value(self.pending_submsg_payload->0@) is None {
            r matches Err(ContractError::Std(StdError::ParseErr { .. }))
        } else if principal {
            r == Ok::<ReplyEffect, ContractError>(
                ReplyEffect::ClaimedPrincipal {
                    share_id: json_u32_value(self.pending_submsg_payload->0@)->0,
                    amount: decimal_u128(v->0@)->0,
                },
            )
        } else {
            r == Ok::<ReplyEffect, ContractError>(
                ReplyEffect::ClaimedRewards {
                    share_id: json_u32_value(self.pending_submsg_payload->0@)->0,
                    amount: decimal_u128(v->0@)->0,
                },
            )
        }
    }

    /// The reading of a reply about all registered shares: the `amounts` of
    /// the batch event, matched with the pending share ids.
    pub open spec fn batch_reply_spec(&self, events: Seq<Event>, r: Result<ReplyEffect, ContractError>) -> bool {
        let v = event_value_spec(events, "withdraw_rewards_batch"@, "amounts"@);
        if v is None {
            r matches Err(ContractError::InnerError { msg }) && msg@
                == "cannot get amount from event in withdraw_rewards_batch"@
        } else if json_uint128_list_value(v->0@) is None {
            r matches Err(ContractError::Std(StdError::ParseErr { .. }))
        } else if self.pending_submsg_payload is None {
            r matches Err(ContractError::Std(StdError::NotFound { kind })) && kind@ == "alloc::vec::Vec<u8>"@
        } else if json_u32_list_value(self.pending_submsg_payload->0@) is None {
            r matches Err(ContractError::Std(StdError::ParseErr { .. }))
        } else {
            let ids = json_u32_list_value(self.pending_submsg_payload->0@)->0;
            let amts = json_uint128_list_value(v->0@)->0;
            if ids.len() != amts.len() {
                r matches Err(ContractError::InnerError { msg }) && msg@ == length_mismatch_text(
                    ids.len() as usize,
                    amts.len() as usize,
                )
            } else {
                r matches Ok(ReplyEffect::ClaimedRewardsBatch { share_ids, amounts }) && share_ids@ == ids
                    && amounts@ == amts
            }
        }
    }

    fn pending_payload(&self) -> (r: Result<&Vec<u8>, ContractError>)
        ensures
            self.pending_submsg_payload is None ==> (r matches Err(ContractError::Std(StdError::NotFound { kind }))
                && kind@ == "alloc::vec::Vec<u8>"@),
            self.pending_submsg_payload is Some ==> r == Ok::<&Vec<u8>, ContractError>(
                &self.pending_submsg_payload->0,
            ),
    {
        match &self.pending_submsg_payload {
            Some(p) => Ok(p),
            None => Err(ContractError::Std(StdError::NotFound { kind: String::from_str("alloc::vec::Vec<u8>") })),
        }
    }

    fn read_single(&self, events: &Vec<Event>, action: &'static str, principal: bool) -> (r: Result<ReplyEffect, ContractError>)
        ensures
            self.single_reply_spec(events@, action@, r, principal),
    {
        let action_s = String::from_str(action);
        let amount = match get_value_from_event(events, &action_s, &String::from_str("amount")) {
            Some(a) => a,
            None => {
                let mut msg = String::from_str("cannot get amount from event in ");
                msg.append(action);
                return Err(ContractError::InnerError { msg });
            },
        };
        let payload = self.pending_payload()?;
        let amount = match uint128_from_str(&amount) {
            Ok(a) => a,
            Err(e) => return Err(ContractError::Std(e)),
        };
        let share_id = match from_json_u32(payload) {
            Ok(s) => s,
            Err(e) => return Err(ContractError::Std(e)),
        };
        if principal {
            Ok(ReplyEffect::ClaimedPrincipal { share_id, amount })
        } else {
            Ok(ReplyEffect::ClaimedRewards { share_id, amount })
        }
    }

    /// Reads the rewards the stake core paid out for the pending share.
    pub fn reply_claim_stake_rewards(&self, events: &Vec<Event>) -> (r: Result<ReplyEffect, ContractError>)
        ensures
            self.single_reply_spec(events@, "withdraw_rewards"@, r, false),
    {
        self.read_single(events, "withdraw_rewards", false)
    }

    /// Reads the principal the stake core paid out for the pending share.
    pub fn reply_claim_stake_principal(&self, events: &Vec<Event>) -> (r: Result<ReplyEffect, ContractError>)
        ensures
            self.single_reply_spec(events@, "withdraw_principal"@, r, true),
    {
        self.read_single(events, "withdraw_principal", true)
    }

    /// Reads the rewards the stake core paid out for each pending share.
    pub fn reply_claim_stake_rewards_batch(&self, events: &Vec<Event>) -> (r: Result<ReplyEffect, ContractError>)
        ensures
            self.batch_reply_spec(events@, r),
    {
        let amounts = match get_value_from_event(
            events,
            &String::from_str("withdraw_rewards_batch"),
            &String::from_str("amounts"),
        ) {
            Some(a) => a,
            None => return Err(
                ContractError::InnerError { msg: String::from_str("cannot get amount from event in withdraw_rewards_batch") },
            ),
        };
        let amounts = match from_json_uint128_list(&amounts) {
            Ok(a) => a,
            Err(e) => return Err(ContractError::Std(e)),
        };
        let payload = self.pending_payload()?;
        let share_ids = match from_json_u32_list(payload) {
            Ok(s) => s,
            Err(e) => return Err(ContractError::Std(e)),
        };
        if amounts.len() != share_ids.len() {
            return Err(ContractError::InnerError { msg: length_mismatch_msg(share_ids.len(), amounts.len()) });
        }
        Ok(ReplyEffect::ClaimedRewardsBatch { share_ids, amounts })
    }

    /// A reply read while the payload of a claim for share `id` is pending
    /// credits share `id`, whatever the events report.
    pub proof fn lemma_reply_credits_claimed_share(
        &self,
        events: Seq<Event>,
        action: Seq<char>,
        r: Result<ReplyEffect, ContractError>,
        principal: bool,
        id: u32,
    )
        requires
            self.pending_submsg_payload matches Some(p) && json_u32_value(p@) == Some(id),
            self.single_reply_spec(events, action, r, principal),
            r is Ok,
        ensures
            principal ==> (r matches Ok(ReplyEffect::ClaimedPrincipal { share_id, .. }) && share_id == id),
            !principal ==> (r matches Ok(ReplyEffect::ClaimedRewards { share_id, .. }) && share_id == id),
    {
    }

    /// A batch reply read while the payload of a batch claim of `ids` is
    /// pending credits exactly the shares `ids`, in that order.
    pub proof fn lemma_batch_reply_credits_claimed_shares(
        &self,
        events: Seq<Event>,
        r: Result<ReplyEffect, ContractError>,
        ids: Seq<u32>,
    )
        requires
            self.pending_submsg_payload matches Some(p) && json_u32_list_value(p@) == Some(ids),
            self.batch_reply_spec(events, r),
            r is Ok,
        ensures
            r matches Ok(ReplyEffect::ClaimedRewardsBatch { share_ids, .. }) && share_ids@ == ids,
    {
    }

    /// Crediting the effect adds nothing that overflows.
    pub open spec fn reply_fits_spec(&self, effect: ReplyEffect) -> bool {
        match effect {
            ReplyEffect::ClaimedRewards { share_id, amount } => self.share_infos@.contains_key(share_id) ==> {
                &&& self.share_infos@[share_id].claimed_rewards + amount <= u128::MAX
                &&& self.held_funds + amount <= u128::MAX
            },
            ReplyEffect::ClaimedPrincipal { share_id, amount } => self.share_infos@.contains_key(share_id) ==> {
                &&& self.share_infos@[share_id].claimed_principal + amount <= u128::MAX
                &&& self.held_funds + amount <= u128::MAX
            },
            ReplyEffect::ClaimedRewardsBatch { share_ids, amounts } => {
                &&& claim_batch_fits(self.share_infos@, share_ids@, amounts@)
                &&& claim_batch_spec(self.share_infos@, share_ids@, amounts@) matches Some((m2, t)) ==> self.held_funds
                    + t <= u128::MAX
            },
        }
    }

    /// Crediting a read reply to the shares and the held funds: the amount
    /// claimed for a share is added to what it has claimed.
    pub fn apply_reply(&mut self, effect: &ReplyEffect) -> (r: Result<(), ContractError>)
        requires
            old(self).inv(),
            old(self).reply_fits_spec(*effect),
            effect matches ReplyEffect::ClaimedRewardsBatch { share_ids, amounts } ==> share_ids@.len()
                == amounts@.len(),
        ensures
            final(self).inv(),
            old(self).funds_balanced() ==> final(self).funds_balanced(),
            r matches Err(e) ==> e matches ContractError::InvalidShareId && *final(self) == *old(self),
            final(self).same_setup(&*old(self)),
            final(self).shareholder_infos == old(self).shareholder_infos,
            match *effect {
                ReplyEffect::ClaimedRewards { share_id, amount } => if old(self).share_infos@.contains_key(share_id) {
                    let s = old(self).share_infos@[share_id];
                    &&& r is Ok
                    &&& final(self).share_infos@ == old(self).share_infos@.insert(
                        share_id,
                        ShareInfo { claimed_rewards: (s.claimed_rewards + amount) as u128, ..s },
                    )
                    &&& final(self).held_funds == old(self).held_funds + amount
                } else {
                    r is Err
                },
                ReplyEffect::ClaimedPrincipal { share_id, amount } => if old(self).share_infos@.contains_key(share_id) {
                    let s = old(self).share_infos@[share_id];
                    &&& r is Ok
                    &&& final(self).share_infos@ == old(self).share_infos@.insert(
                        share_id,
                        ShareInfo { claimed_principal: (s.claimed_principal + amount) as u128, ..s },
                    )
                    &&& final(self).held_funds == old(self).held_funds + amount
                } else {
                    r is Err
                },
                ReplyEffect::ClaimedRewardsBatch { share_ids, amounts } => match claim_batch_spec(
                    old(self).share_infos@,
                    share_ids@,
                    amounts@,
                ) {
                    None => r is Err,
                    Some((m2, t)) => r is Ok && final(self).share_infos@ == m2 && final(self).held_funds
                        == old(self).held_funds + t,
                },
            },
    {
        match effect {
            ReplyEffect::ClaimedRewards { share_id, amount } => {
                let mut share_info = match self.share_infos.get(share_id) {
                    Some(s) => *s,
                    None => return Err(ContractError::InvalidShareId),
                };
                share_info.claimed_rewards = share_info.claimed_rewards + *amount;
                proof {
                    self.share_infos.lemma_finite();
                    lemma_total_funds_insert(self.share_infos@, *share_id, share_info);
                }
                self.share_infos.insert(*share_id, share_info);
                self.held_funds = self.held_funds + *amount;
                Ok(())
            },
            ReplyEffect::ClaimedPrincipal { share_id, amount } => {
                let mut share_info = match self.share_infos.get(share_id) {
                    Some(s) => *s,
                    None => return Err(ContractError::InvalidShareId),
                };
                share_info.claimed_principal = share_info.claimed_principal + *amount;
                proof {
                    self.share_infos.lemma_finite();
                    lemma_total_funds_insert(self.share_infos@, *share_id, share_info);
                }
                self.share_infos.insert(*share_id, share_info);
                self.held_funds = self.held_funds + *amount;
                Ok(())
            },
            ReplyEffect::ClaimedRewardsBatch { share_ids, amounts } => self.apply_batch(share_ids, amounts),
        }
    }

    fn apply_batch(&mut self, share_ids: &Vec<u32>, amounts: &Vec<u128>) -> (r: Result<(), ContractError>)
        requires
            old(self).inv(),
            share_ids@.len() == amounts@.len(),
            claim_batch_fits(old(self).share_infos@, share_ids@, amounts@),
            claim_batch_spec(old(self).share_infos@, share_ids@, amounts@) matches Some((m2, t)) ==> old(
                self,
            ).held_funds + t <= u128::MAX,
        ensures
            final(self).inv(),
            old(self).funds_balanced() ==> final(self).funds_balanced(),
            r matches Err(e) ==> e matches ContractError::InvalidShareId && *final(self) == *old(self),
            final(self).same_setup(&*old(self)),
            final(self).shareholder_infos == old(self).shareholder_infos,
            match claim_batch_spec(old(self).share_infos@, share_ids@, amounts@) {
                None => r is Err,
                Some((m2, t)) => r is Ok && final(self).share_infos@ == m2 && final(self).held_funds == old(
                    self,
                ).held_funds + t,
            },
    {
        let ghost m0 = self.share_infos@;
        proof {
            lemma_claim_batch_dom(m0, share_ids@, amounts@);
        }
        let mut i: usize = 0;
        while i < share_ids.len()
            invariant
                *self == *old(self),
                old(self).inv(),
                share_ids@.len() == amounts@.len(),
                self.share_infos.wf(),
                self.share_infos@ == m0,
                i <= share_ids@.len(),
                forall|k: int| 0 <= k < i ==> m0.contains_key(#[trigger] share_ids@[k]),
            decreases share_ids@.len() - i,
        {
            if !self.share_infos.contains_key(&share_ids[i]) {
                proof {
                    lemma_claim_batch_dom(m0, share_ids@, amounts@);
                    assert(!m0.contains_key(share_ids@[i as int]));
                }
                return Err(ContractError::InvalidShareId);
            }
            i += 1;
        }
        let mut total: u128 = 0;
        let mut j: usize = 0;
        while j < share_ids.len()
            invariant
                old(self).inv(),
                self.inv(),
                share_ids@.len() == amounts@.len(),
                j <= share_ids@.len(),
                forall|k: int| 0 <= k < share_ids@.len() ==> m0.contains_key(#[trigger] share_ids@[k]),
                m0 == old(self).share_infos@,
                claim_batch_fits(m0, share_ids@, amounts@),
                claim_batch_spec(m0, share_ids@.take(j as int), amounts@.take(j as int)) == Some(
                    (self.share_infos@, total as int),
                ),
                self.held_funds == old(self).held_funds,
                old(self).funds_balanced() ==> total_funds(self.share_infos@) == old(self).held_funds + total,
                self.same_setup(&*old(self)),
                self.shareholder_infos == old(self).shareholder_infos,
            decreases share_ids@.len() - j,
        {
            let id = share_ids[j];
            let amount = amounts[j];
            proof {
                assert(share_ids@.take(j as int + 1).drop_last() =~= share_ids@.take(j as int));
                assert(amounts@.take(j as int + 1).drop_last() =~= amounts@.take(j as int));
                lemma_claim_batch_dom(m0, share_ids@.take(j as int), amounts@.take(j as int));
                let _ = share_ids@[j as int];
                let _ = claim_batch_spec(m0, share_ids@.take(j as int), amounts@.take(j as int));
            }
            let mut share_info = *self.share_infos.get(&id).unwrap();
            share_info.claimed_rewards = share_info.claimed_rewards + amount;
            proof {
                self.share_infos.lemma_finite();
                lemma_total_funds_insert(self.share_infos@, id, share_info);
            }
            self.share_infos.insert(id, share_info);
            total = total + amount;
            j += 1;
        }
        assert(share_ids@.take(share_ids@.len() as int) =~= share_ids@);
        assert(amounts@.take(amounts@.len() as int) =~= amounts@);
        self.held_funds = self.held_funds + total;
        Ok(())
    }
}

} // verus!
