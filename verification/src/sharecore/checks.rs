//! Whether a share core operation's arithmetic stays within range: the tests
//! a caller makes on state read back from storage before running an
//! operation, each equal to the condition the operation requires.

use crate::access_control::DEFAULT_ADMIN_ROLE;
use crate::env::MessageInfo;
use crate::errors::StdError;
use crate::math::mul_div;
use crate::sharecore::contract::{
    calc_proportional_rewards, grant_fits, lookup_holder, share_ok, ShareCore, SHAREHOLDER_ROLE,
};
use crate::sharecore::replay::{claim_batch_fits, claim_batch_spec, ReplyEffect};
use crate::sharecore::types::{
    excess_spec, unlocked_principal_computable, unlocked_principal_spec, unlocked_rewards_computable,
    unlocked_rewards_spec, ShareInfo, ShareholderInfo,
};
use vstd::prelude::*;

verus! {

/// Once a prefix of a credited batch fails, every longer prefix fails.
pub proof fn lemma_claim_batch_none_stays(m: Map<u32, ShareInfo>, ids: Seq<u32>, amts: Seq<u128>, k: int, j: int)
    requires
        0 <= k <= j <= ids.len(),
        ids.len() == amts.len(),
        claim_batch_spec(m, ids.take(k), amts.take(k)) is None,
    ensures
        claim_batch_spec(m, ids.take(j), amts.take(j)) is None,
    decreases j - k,
{
    if j > k {
        lemma_claim_batch_none_stays(m, ids, amts, k, j - 1);
        assert(ids.take(j).drop_last() =~= ids.take(j - 1));
        assert(amts.take(j).drop_last() =~= amts.take(j - 1));
    }
}

impl ShareCore {
    /// Whether every share's amounts are consistent, for state read back
    /// from storage.
    pub fn check_shares(&self) -> (r: bool)
        requires
            self.share_infos.wf(),
            self.shareholder_infos.wf(),
            self.access_control.wf(),
        ensures
            r == self.inv(),
    {
        let entries = self.share_infos.entries();
        let mut i: usize = 0;
        while i < entries.len()
            invariant
                self.share_infos.wf(),
                i <= entries@.len(),
                forall|k: int| #![trigger entries@[k]] 0 <= k < entries@.len() ==> self.share_infos@.contains_key(
                    entries@[k].0,
                ) && self.share_infos@[entries@[k].0] == entries@[k].1,
                forall|id: u32| #[trigger] self.share_infos@.contains_key(id) ==> exists|k: int|
                    0 <= k < entries@.len() && entries@[k].0 == id,
                forall|k: int| 0 <= k < i ==> share_ok(#[trigger] entries@[k].1),
            decreases entries@.len() - i,
        {
            let s = &entries[i].1;
            let ok = s.granted_rewards as u128 <= s.total_rewards && s.total_recycled_rewards <= s.total_rewards
                - s.granted_rewards && s.withdrawn_rewards <= s.claimed_rewards && s.withdrawn_recycled_rewards
                <= s.total_recycled_rewards && s.granted_principal <= s.total_principal && s.withdrawn_principal
                <= s.total_principal;
            if !ok {
                proof {
                    assert(self.share_infos@.contains_key(entries@[i as int].0));
                }
                return false;
            }
            i += 1;
        }
        proof {
            assert forall|id: u32| #[trigger] self.share_infos@.contains_key(id) implies share_ok(self.share_infos@[id]) by {
                let k = choose|k: int| 0 <= k < entries@.len() && entries@[k].0 == id;
                let _ = entries@[k];
            }
        }
        true
    }

    /// Whether `execute_recycle` may be called: the held funds cover the amount.
    pub fn recycle_fits(&self, share_id: u32, amount: u128) -> (r: bool)
        requires
            self.inv(),
        ensures
            r == (self.share_infos@.contains_key(share_id) && amount <= self.share_infos@[share_id].claimed_rewards
                - self.share_infos@[share_id].withdrawn_rewards ==> amount <= self.held_funds),
    {
        match self.share_infos.get(&share_id) {
            None => true,
            Some(s) => amount > s.claimed_rewards - s.withdrawn_rewards || amount <= self.held_funds,
        }
    }

    /// Whether adding a shareholder may be called: an admitted grant's
    /// arithmetic cannot overflow.
    pub fn add_shareholder_fits(
        &self,
        info: &MessageInfo,
        owner: &Result<String, StdError>,
        share_id: u32,
        start_time: u64,
        granted_rewards: u128,
        granted_principal: u128,
    ) -> (r: bool)
        requires
            self.inv(),
        ensures
            r == (self.add_admitted(*info, *owner, share_id, start_time) ==> self.add_computable(
                owner->Ok_0@,
                share_id,
                start_time,
                granted_rewards,
                granted_principal,
            )),
    {
        let g = granted_rewards;
        let gp = granted_principal;
        let o = match owner {
            Ok(o) => o,
            Err(_) => return true,
        };
        if !self.access_control.has_role(&String::from_str(DEFAULT_ADMIN_ROLE), &info.sender) {
            return true;
        }
        if self.config.enable_shareholder_whitelist && !self.access_control.has_role(
            &String::from_str(SHAREHOLDER_ROLE),
            o,
        ) {
            return true;
        }
        let s = match self.share_infos.get(&share_id) {
            Some(s) => *s,
            None => return true,
        };
        if !(s.recycled_time <= start_time && start_time <= s.end_time) {
            return true;
        }
        let principal_sum = match s.granted_principal.checked_add(gp) {
            Some(x) => x,
            None => return false,
        };
        let principal_ok = principal_sum <= s.total_principal;
        if g != 0 && start_time < s.end_time && principal_ok {
            if s.start_time > start_time {
                return false;
            }
            if g.checked_mul((start_time - s.recycled_time) as u128).is_none() {
                return false;
            }
            if g.checked_mul((start_time - s.start_time) as u128).is_none() {
                return false;
            }
        }
        if !((start_time < s.end_time || g == 0) && principal_ok) {
            return true;
        }
        let (unrecycled, pre): (u128, u128) = if g != 0 {
            (
                calc_proportional_rewards(start_time, s.recycled_time, s.end_time, g),
                calc_proportional_rewards(start_time, s.start_time, s.end_time, g),
            )
        } else {
            (0, 0)
        };
        let total = match g.checked_add(unrecycled) {
            None => return false,
            Some(t) => match t.checked_add(s.granted_rewards) {
                None => return false,
                Some(t) => match t.checked_add(s.total_recycled_rewards) {
                    None => return false,
                    Some(t) => t,
                },
            },
        };
        if total > s.total_rewards {
            return true;
        }
        match self.shareholder_infos.get(&(o.clone(), share_id)) {
            None => true,
            Some(h) => h.granted_rewards.checked_add(g).is_some() && h.granted_principal.checked_add(gp).is_some()
                && h.pre_recycled_rewards.checked_add(pre).is_some(),
        }
    }

    /// Whether `execute_share` may be called: the amounts add up, and an
    /// admitted transfer's arithmetic cannot overflow.
    pub fn share_fits(
        &self,
        info: &MessageInfo,
        share_id: u32,
        new_owner: &Result<String, StdError>,
        granted_rewards: u128,
        granted_principal: u128,
    ) -> (r: bool)
        requires
            self.inv(),
        ensures
            r == ((new_owner is Ok ==> granted_rewards + granted_principal <= u128::MAX) && (self.share_admitted(
                *info,
                *new_owner,
                share_id,
            ) ==> self.share_computable(*info, new_owner->Ok_0@, share_id, granted_rewards, granted_principal))),
    {
        let g = granted_rewards;
        let gp = granted_principal;
        let o = match new_owner {
            Ok(o) => o,
            Err(_) => return true,
        };
        if g.checked_add(gp).is_none() {
            return false;
        }
        if !self.access_control.has_role(&String::from_str(DEFAULT_ADMIN_ROLE), &info.sender) {
            return true;
        }
        if self.config.enable_shareholder_whitelist && !self.access_control.has_role(
            &String::from_str(SHAREHOLDER_ROLE),
            o,
        ) {
            return true;
        }
        let h = match self.shareholder_infos.get(&(info.sender.clone(), share_id)) {
            Some(h) => *h,
            None => return true,
        };
        let gw = match g.checked_add(h.withdrawn_rewards) {
            Some(x) => x,
            None => return false,
        };
        let gpw = match gp.checked_add(h.withdrawn_principal) {
            Some(x) => x,
            None => return false,
        };
        if !(gw <= h.granted_rewards && gpw <= h.granted_principal) {
            return true;
        }
        let prod = match g.checked_mul(h.pre_recycled_rewards) {
            Some(p) => p,
            None => return false,
        };
        let pre: u128 = if h.granted_rewards == 0 {
            0
        } else {
            proof {
                let gi = g as int;
                let p = h.pre_recycled_rewards as int;
                let d = h.granted_rewards as int;
                assert(gi * p <= d * p) by (nonlinear_arith)
                    requires gi <= d, 0 <= p;
                vstd::arithmetic::div_mod::lemma_div_is_ordered(gi * p, d * p, d);
                vstd::arithmetic::div_mod::lemma_div_multiples_vanish(p, d);
                vstd::arithmetic::div_mod::lemma_div_pos_is_pos(gi * p, d);
            }
            prod / h.granted_rewards
        };
        let ghost h2 = ShareholderInfo {
            granted_rewards: (h.granted_rewards - g) as u128,
            granted_principal: (h.granted_principal - gp) as u128,
            pre_recycled_rewards: (h.pre_recycled_rewards - pre) as u128,
            ..h
        };
        let target = if *o == info.sender {
            ShareholderInfo {
                granted_rewards: h.granted_rewards - g,
                granted_principal: h.granted_principal - gp,
                pre_recycled_rewards: h.pre_recycled_rewards - pre,
                ..h
            }
        } else {
            match self.shareholder_infos.get(&(o.clone(), share_id)) {
                None => return true,
                Some(t) => *t,
            }
        };
        proof {
            let m2 = self.shareholder_infos@.insert((info.sender@, share_id), h2);
            assert(lookup_holder(m2, (o@, share_id)) == Some(target));
        }
        target.granted_rewards.checked_add(g).is_some() && target.granted_principal.checked_add(gp).is_some()
            && target.pre_recycled_rewards.checked_add(pre).is_some()
    }

    /// Whether `execute_withdraw_rewards` may be called: the computation is
    /// defined and the held funds cover the payout.
    pub fn withdraw_rewards_fits(&self, info: &MessageInfo, share_id: u32) -> (r: bool)
        requires
            self.inv(),
        ensures
            r == (self.shareholder_infos@.contains_key((info.sender@, share_id)) && self.share_infos@.contains_key(
                share_id,
            ) ==> {
                let s = self.share_infos@[share_id];
                let h = self.shareholder_infos@[(info.sender@, share_id)];
                &&& unlocked_rewards_computable(s, h)
                &&& Self::payout_spec(
                    excess_spec(unlocked_rewards_spec(s, h), h.withdrawn_rewards as int),
                    s.claimed_rewards - s.withdrawn_rewards,
                ) <= self.held_funds
            }),
    {
        let h = match self.shareholder_infos.get(&(info.sender.clone(), share_id)) {
            Some(h) => *h,
            None => return true,
        };
        let s = match self.share_infos.get(&share_id) {
            Some(s) => *s,
            None => return true,
        };
        if s.total_rewards != 0 && s.claimed_rewards != 0 {
            match h.pre_recycled_rewards.checked_add(h.granted_rewards) {
                None => return false,
                Some(sum) => {
                    if mul_div(sum, s.claimed_rewards, s.total_rewards).is_none() {
                        return false;
                    }
                },
            }
        }
        let w = s.calc_shareholder_withdrawable_rewards(&h);
        let balance = s.claimed_rewards - s.withdrawn_rewards;
        let payout = if balance < w {
            balance
        } else {
            w
        };
        payout <= self.held_funds
    }

    /// Whether `execute_withdraw_principal` may be called: the computation
    /// is defined and the held funds cover the payout.
    pub fn withdraw_principal_fits(&self, info: &MessageInfo, share_id: u32) -> (r: bool)
        requires
            self.inv(),
        ensures
            r == (self.shareholder_infos@.contains_key((info.sender@, share_id)) && self.share_infos@.contains_key(
                share_id,
            ) ==> {
                let s = self.share_infos@[share_id];
                let h = self.shareholder_infos@[(info.sender@, share_id)];
                &&& unlocked_principal_computable(s, h)
                &&& Self::payout_spec(
                    excess_spec(unlocked_principal_spec(s, h), h.withdrawn_principal as int),
                    s.total_principal - s.withdrawn_principal,
                ) <= self.held_funds
            }),
    {
        let h = match self.shareholder_infos.get(&(info.sender.clone(), share_id)) {
            Some(h) => *h,
            None => return true,
        };
        let s = match self.share_infos.get(&share_id) {
            Some(s) => *s,
            None => return true,
        };
        if s.total_principal != 0 && s.claimed_principal != 0 {
            if mul_div(h.granted_principal, s.claimed_principal, s.total_principal).is_none() {
                return false;
            }
        }
        let w = s.calc_shareholder_withdrawable_principal(&h);
        let balance = s.total_principal - s.withdrawn_principal;
        let payout = if balance < w {
            balance
        } else {
            w
        };
        payout <= self.held_funds
    }

    /// Whether `apply_reply` may be called with `effect`: crediting it
    /// overflows nothing.
    pub fn reply_fits(&self, effect: &ReplyEffect) -> (r: bool)
        requires
            self.inv(),
            effect matches ReplyEffect::ClaimedRewardsBatch { share_ids, amounts } ==> share_ids@.len()
                == amounts@.len(),
        ensures
            r == self.reply_fits_spec(*effect),
    {
        match effect {
            ReplyEffect::ClaimedRewards { share_id, amount } => match self.share_infos.get(share_id) {
                None => true,
                Some(s) => s.claimed_rewards.checked_add(*amount).is_some() && self.held_funds.checked_add(
                    *amount,
                ).is_some(),
            },
            ReplyEffect::ClaimedPrincipal { share_id, amount } => match self.share_infos.get(share_id) {
                None => true,
                Some(s) => s.claimed_principal.checked_add(*amount).is_some() && self.held_funds.checked_add(
                    *amount,
                ).is_some(),
            },
            ReplyEffect::ClaimedRewardsBatch { share_ids, amounts } => self.batch_fits(share_ids, amounts),
        }
    }

    fn batch_fits(&self, ids: &Vec<u32>, amts: &Vec<u128>) -> (r: bool)
        requires
            self.inv(),
            ids@.len() == amts@.len(),
        ensures
            r == (claim_batch_fits(self.share_infos@, ids@, amts@) && (claim_batch_spec(
                self.share_infos@,
                ids@,
                amts@,
            ) matches Some((m2, t)) ==> self.held_funds + t <= u128::MAX)),
    {
        let ghost m = self.share_infos@;
        let mut claimed: crate::assoc_map::AssocMap<u32, u128> = crate::assoc_map::AssocMap::new();
        let mut total: u128 = 0;
        let mut k: usize = 0;
        proof {
            assert(ids@.take(0) =~= Seq::<u32>::empty());
            assert(amts@.take(0) =~= Seq::<u128>::empty());
        }
        while k < ids.len()
            invariant
                self.inv(),
                m == self.share_infos@,
                ids@.len() == amts@.len(),
                k <= ids@.len(),
                claimed.wf(),
                claim_batch_spec(m, ids@.take(k as int), amts@.take(k as int)) matches Some((m2, t)) && t == total
                    && m2.dom() == m.dom() && (forall|id: u32|
                    #![trigger m2[id]]
                    m.contains_key(id) ==> m2[id].claimed_rewards == (if claimed@.contains_key(id) {
                        claimed@[id]
                    } else {
                        m[id].claimed_rewards
                    })),
                forall|id: u32| #[trigger] claimed@.contains_key(id) ==> m.contains_key(id),
                forall|j: int|
                    0 <= j < k ==> match #[trigger] claim_batch_spec(m, ids@.take(j), amts@.take(j)) {
                        Some((m2, t)) => m2.contains_key(ids@[j]) ==> m2[ids@[j]].claimed_rewards + amts@[j] <= u128::MAX
                            && t + amts@[j] <= u128::MAX,
                        None => true,
                    },
            decreases ids@.len() - k,
        {
            let id = ids[k];
            let amount = amts[k];
            let ghost prev = claim_batch_spec(m, ids@.take(k as int), amts@.take(k as int));
            proof {
                assert(ids@.take(k as int + 1).drop_last() =~= ids@.take(k as int));
                assert(amts@.take(k as int + 1).drop_last() =~= amts@.take(k as int));
                assert(ids@.take(k as int + 1).last() == id);
                assert(amts@.take(k as int + 1).last() == amount);
            }
            let s = match self.share_infos.get(&id) {
                None => {
                    proof {
                        let (m2, t) = prev->0;
                        assert(!m2.contains_key(id));
                        assert(claim_batch_spec(m, ids@.take(k as int + 1), amts@.take(k as int + 1)) is None);
                        assert forall|j: int| 0 <= j < ids@.len() && j < amts@.len() implies match #[trigger] claim_batch_spec(
                            m,
                            ids@.take(j),
                            amts@.take(j),
                        ) {
                            Some((m2, t)) => m2.contains_key(ids@[j]) ==> m2[ids@[j]].claimed_rewards + amts@[j]
                                <= u128::MAX && t + amts@[j] <= u128::MAX,
                            None => true,
                        } by {
                            if j > k {
                                lemma_claim_batch_none_stays(m, ids@, amts@, k as int + 1, j);
                            }
                        }
                        lemma_claim_batch_none_stays(m, ids@, amts@, k as int + 1, ids@.len() as int);
                        assert(ids@.take(ids@.len() as int) =~= ids@);
                        assert(amts@.take(amts@.len() as int) =~= amts@);
                    }
                    return true;
                },
                Some(s) => *s,
            };
            let current = match claimed.get(&id) {
                Some(c) => *c,
                None => s.claimed_rewards,
            };
            proof {
                let (m2, t) = prev->0;
                let _ = m2[id];
            }
            let new_claimed = match current.checked_add(amount) {
                Some(x) => x,
                None => return false,
            };
            let new_total = match total.checked_add(amount) {
                Some(x) => x,
                None => return false,
            };
            claimed.insert(id, new_claimed);
            total = new_total;
            proof {
                let (m2, t) = prev->0;
                let m3 = m2.insert(id, ShareInfo { claimed_rewards: (m2[id].claimed_rewards + amount) as u128, ..m2[id] });
                assert(claim_batch_spec(m, ids@.take(k as int + 1), amts@.take(k as int + 1)) == Some((m3, t + amount)));
                assert(m3.dom() =~= m.dom());
                assert forall|x: u32| m.contains_key(x) implies #[trigger] m3[x].claimed_rewards == (if claimed@.contains_key(x) {
                    claimed@[x]
                } else {
                    m[x].claimed_rewards
                }) by {
                    if x != id {
                        let _ = m2[x];
                    }
                }
            }
            k += 1;
        }
        proof {
            assert(ids@.take(ids@.len() as int) =~= ids@);
            assert(amts@.take(amts@.len() as int) =~= amts@);
        }
        self.held_funds.checked_add(total).is_some()
    }
}

} // verus!
