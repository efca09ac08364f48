//! Share and shareholder records, and the proportional-payout arithmetic.

use crate::math::{mul_div, mul_div_spec};
use vstd::arithmetic::div_mod::{lemma_div_is_ordered, lemma_div_multiples_vanish, lemma_div_pos_is_pos};
use vstd::arithmetic::mul::lemma_mul_is_commutative;
use vstd::prelude::*;

verus! {

/// Parameters of a share core.
#[derive(Debug)]
pub struct Config {
    pub stakecore: Option<String>,
    pub enable_shareholder_whitelist: bool,
}

impl Clone for Config {
    fn clone(&self) -> (r: Self)
        ensures
            r == *self,
    {
        Config {
            stakecore: match &self.stakecore {
                Some(s) => Some(s.clone()),
                None => None,
            },
            enable_shareholder_whitelist: self.enable_shareholder_whitelist,
        }
    }
}

/// One share: a stake of the stake core, as the share core accounts for it.
///
/// `claimed_*` is what the share core has received from the stake core,
/// `withdrawn_*` what shareholders (or recycling) have taken out of that, and
/// `granted_*` what has been handed to shareholders.
#[derive(Clone, Copy, Debug)]
pub struct ShareInfo {
    pub start_time: u64,
    pub recycled_time: u64,
    pub end_time: u64,
    pub total_rewards: u128,
    pub claimed_rewards: u128,
    pub withdrawn_rewards: u128,
    pub granted_rewards: u128,
    pub total_recycled_rewards: u128,
    pub withdrawn_recycled_rewards: u128,
    pub total_principal: u128,
    pub claimed_principal: u128,
    pub withdrawn_principal: u128,
    pub granted_principal: u128,
}

/// A shareholder's part in one share.
#[derive(Clone, Copy, Debug)]
pub struct ShareholderInfo {
    pub pre_recycled_rewards: u128,
    pub granted_rewards: u128,
    pub withdrawn_rewards: u128,
    pub granted_principal: u128,
    pub withdrawn_principal: u128,
}

/// Rewards neither granted nor recycled.
pub open spec fn ungranted_rewards_spec(s: ShareInfo) -> int {
    s.total_rewards - s.granted_rewards - s.total_recycled_rewards
}

/// Ungranted rewards that fall due for recycling between the last recycling
/// time and `t`, in proportion to the time left until the share ends.
pub open spec fn recyclable_rewards_spec(s: ShareInfo, t: u64) -> int {
    mul_div_spec(ungranted_rewards_spec(s), t - s.recycled_time, s.end_time - s.recycled_time)
}

/// The recycling computation neither underflows, divides by zero nor overflows.
pub open spec fn recyclable_computable(s: ShareInfo, t: u64) -> bool {
    &&& s.granted_rewards + s.total_recycled_rewards <= s.total_rewards
    &&& s.recycled_time <= t
    &&& s.recycled_time < s.end_time
    &&& recyclable_rewards_spec(s, t) <= u128::MAX
}

/// A shareholder's part of the principal the share core has claimed, in
/// proportion to the principal granted to it.
pub open spec fn unlocked_principal_spec(s: ShareInfo, h: ShareholderInfo) -> int {
    if s.total_principal == 0 || s.claimed_principal == 0 {
        0
    } else {
        mul_div_spec(h.granted_principal as int, s.claimed_principal as int, s.total_principal as int)
    }
}

/// The shareholder's gross part of the claimed rewards: its granted rewards
/// together with those recycled before it joined, in proportion.
pub open spec fn gross_rewards_spec(s: ShareInfo, h: ShareholderInfo) -> int {
    mul_div_spec(h.pre_recycled_rewards + h.granted_rewards, s.claimed_rewards as int, s.total_rewards as int)
}

/// A shareholder's unlocked rewards: its gross part less what was recycled
/// before it joined.
pub open spec fn unlocked_rewards_spec(s: ShareInfo, h: ShareholderInfo) -> int {
    if s.total_rewards == 0 || s.claimed_rewards == 0 {
        0
    } else if gross_rewards_spec(s, h) > h.pre_recycled_rewards {
        gross_rewards_spec(s, h) - h.pre_recycled_rewards
    } else {
        0
    }
}

/// The reward computation stays within 128 bits.
pub open spec fn unlocked_rewards_computable(s: ShareInfo, h: ShareholderInfo) -> bool {
    s.total_rewards == 0 || s.claimed_rewards == 0 || {
        &&& h.pre_recycled_rewards + h.granted_rewards <= u128::MAX
        &&& gross_rewards_spec(s, h) <= u128::MAX
    }
}

/// The principal computation stays within 128 bits.
pub open spec fn unlocked_principal_computable(s: ShareInfo, h: ShareholderInfo) -> bool {
    unlocked_principal_spec(s, h) <= u128::MAX
}

/// Unlocked and not yet withdrawn; zero when withdrawals have caught up.
pub open spec fn excess_spec(unlocked: int, withdrawn: int) -> int {
    if unlocked > withdrawn {
        unlocked - withdrawn
    } else {
        0
    }
}

impl ShareInfo {
    /// Rewards neither granted nor recycled.
    pub fn ungranted_rewards(&self) -> (r: u128)
        requires
            self.granted_rewards + self.total_recycled_rewards <= self.total_rewards,
        ensures
            r == ungranted_rewards_spec(*self),
    {
        self.total_rewards - self.granted_rewards - self.total_recycled_rewards
    }

    /// Claimed rewards still held.
    pub fn rewards_balance(&self) -> (r: u128)
        requires
            self.withdrawn_rewards <= self.claimed_rewards,
        ensures
            r == self.claimed_rewards - self.withdrawn_rewards,
    {
        self.claimed_rewards - self.withdrawn_rewards
    }

    /// Principal not yet withdrawn.
    pub fn principal_balance(&self) -> (r: u128)
        requires
            self.withdrawn_principal <= self.total_principal,
        ensures
            r == self.total_principal - self.withdrawn_principal,
    {
        self.total_principal - self.withdrawn_principal
    }

    /// Ungranted rewards that fall due for recycling at `recycling_time`.
    pub fn recyclable_rewards(&self, recycling_time: u64) -> (r: u128)
        requires
            recyclable_computable(*self, recycling_time),
        ensures
            r == recyclable_rewards_spec(*self, recycling_time),
    {
        let ungranted = self.ungranted_rewards();
        mul_div(
            ungranted,
            (recycling_time - self.recycled_time) as u128,
            (self.end_time - self.recycled_time) as u128,
        ).unwrap()
    }

    /// The shareholder's part of the claimed principal.
    pub fn calc_shareholder_unlocked_principal(&self, shareholder_info: &ShareholderInfo) -> (r: u128)
        requires
            unlocked_principal_computable(*self, *shareholder_info),
        ensures
            r == unlocked_principal_spec(*self, *shareholder_info),
    {
        if self.total_principal == 0 || self.claimed_principal == 0 {
            return 0;
        }
        mul_div(shareholder_info.granted_principal, self.claimed_principal, self.total_principal).unwrap()
    }

    /// The shareholder's unlocked principal not yet withdrawn.
    pub fn calc_shareholder_withdrawable_principal(&self, shareholder_info: &ShareholderInfo) -> (r: u128)
        requires
            unlocked_principal_computable(*self, *shareholder_info),
        ensures
            r == excess_spec(unlocked_principal_spec(*self, *shareholder_info), shareholder_info.withdrawn_principal as int),
    {
        let unlocked_principal = self.calc_shareholder_unlocked_principal(shareholder_info);
        if unlocked_principal > shareholder_info.withdrawn_principal {
            unlocked_principal - shareholder_info.withdrawn_principal
        } else {
            0
        }
    }

    /// The shareholder's unlocked rewards not yet withdrawn.
    pub fn calc_shareholder_withdrawable_rewards(&self, shareholder_info: &ShareholderInfo) -> (r: u128)
        requires
            unlocked_rewards_computable(*self, *shareholder_info),
        ensures
            r == excess_spec(unlocked_rewards_spec(*self, *shareholder_info), shareholder_info.withdrawn_rewards as int),
    {
        let unlocked_rewards = self.calc_shareholder_unlocked_rewards(shareholder_info);
        if unlocked_rewards > shareholder_info.withdrawn_rewards {
            unlocked_rewards - shareholder_info.withdrawn_rewards
        } else {
            0
        }
    }

    /// The shareholder's unlocked rewards.
    pub fn calc_shareholder_unlocked_rewards(&self, shareholder_info: &ShareholderInfo) -> (r: u128)
        requires
            unlocked_rewards_computable(*self, *shareholder_info),
        ensures
            r == unlocked_rewards_spec(*self, *shareholder_info),
    {
        if self.total_rewards == 0 || self.claimed_rewards == 0 {
            return 0;
        }
        let gross = mul_div(
            shareholder_info.pre_recycled_rewards + shareholder_info.granted_rewards,
            self.claimed_rewards,
            self.total_rewards,
        ).unwrap();
        if gross > shareholder_info.pre_recycled_rewards {
            gross - shareholder_info.pre_recycled_rewards
        } else {
            0
        }
    }
}

/// `floor(a * c / t) <= a` whenever `c <= t`.
pub proof fn lemma_proportion_bounded(a: int, c: int, t: int)
    requires
        0 <= a,
        0 <= c <= t,
        0 < t,
    ensures
        0 <= mul_div_spec(a, c, t) <= a,
{
    assert(0 <= a * c <= a * t) by (nonlinear_arith)
        requires 0 <= a, 0 <= c <= t;
    lemma_div_is_ordered(a * c, a * t, t);
    lemma_div_multiples_vanish(a, t);
    lemma_mul_is_commutative(a, t);
    lemma_div_pos_is_pos(a * c, t);
}

/// A shareholder never unlocks more principal than was granted to it, as long
/// as the share has not claimed more than its total.
pub proof fn lemma_unlocked_principal_within_grant(s: ShareInfo, h: ShareholderInfo)
    requires
        s.claimed_principal <= s.total_principal,
    ensures
        0 <= unlocked_principal_spec(s, h) <= h.granted_principal,
{
    if s.total_principal != 0 && s.claimed_principal != 0 {
        lemma_proportion_bounded(h.granted_principal as int, s.claimed_principal as int, s.total_principal as int);
    }
}

/// A shareholder never unlocks more rewards than were granted to it, as long
/// as the share has not claimed more than its total.
pub proof fn lemma_unlocked_rewards_within_grant(s: ShareInfo, h: ShareholderInfo)
    requires
        s.claimed_rewards <= s.total_rewards,
    ensures
        0 <= unlocked_rewards_spec(s, h) <= h.granted_rewards,
{
    if s.total_rewards != 0 && s.claimed_rewards != 0 {
        lemma_proportion_bounded(
            h.pre_recycled_rewards + h.granted_rewards,
            s.claimed_rewards as int,
            s.total_rewards as int,
        );
    }
}

/// Nothing is recycled at the last recycling time, and at the end of the
/// share all ungranted rewards are.
pub proof fn lemma_recycling_endpoints(s: ShareInfo)
    requires
        s.recycled_time < s.end_time,
        s.granted_rewards + s.total_recycled_rewards <= s.total_rewards,
    ensures
        recyclable_rewards_spec(s, s.recycled_time) == 0,
        recyclable_rewards_spec(s, s.end_time) == ungranted_rewards_spec(s),
{
    let u = ungranted_rewards_spec(s);
    let d = s.end_time - s.recycled_time;
    assert(u * 0 == 0);
    assert(0int / d == 0);
    lemma_div_multiples_vanish(u, d);
    lemma_mul_is_commutative(u, d);
}

/// Recycling later never recycles less, and never more than what is ungranted.
pub proof fn lemma_recycling_monotonic(s: ShareInfo, t1: u64, t2: u64)
    requires
        s.recycled_time <= t1 <= t2 <= s.end_time,
        s.recycled_time < s.end_time,
        s.granted_rewards + s.total_recycled_rewards <= s.total_rewards,
    ensures
        0 <= recyclable_rewards_spec(s, t1) <= recyclable_rewards_spec(s, t2) <= ungranted_rewards_spec(s),
{
    let u = ungranted_rewards_spec(s);
    let d = s.end_time - s.recycled_time;
    let e1 = t1 - s.recycled_time;
    let e2 = t2 - s.recycled_time;
    assert(0 <= u * e1 <= u * e2) by (nonlinear_arith)
        requires 0 <= u, 0 <= e1 <= e2;
    lemma_div_is_ordered(u * e1, u * e2, d);
    lemma_proportion_bounded(u, e2, d);
    lemma_div_pos_is_pos(u * e1, d);
}

/// What a share core holds for one share: the rewards and principal claimed
/// from the stake core, less what has been paid out of them.
pub open spec fn share_funds(s: ShareInfo) -> int {
    s.claimed_rewards + s.claimed_principal - s.withdrawn_rewards - s.withdrawn_principal
}

/// What a share core holds for all the shares of `m`.
pub open spec fn total_funds(m: Map<u32, ShareInfo>) -> int
    decreases m.dom().len(),
    when m.dom().finite()
{
    if m.dom().len() == 0 {
        0
    } else {
        let k = m.dom().choose();
        share_funds(m[k]) + total_funds(m.remove(k))
    }
}

/// The total may be split at any share.
pub proof fn lemma_total_funds_remove(m: Map<u32, ShareInfo>, k: u32)
    requires
        m.dom().finite(),
        m.contains_key(k),
    ensures
        total_funds(m) == share_funds(m[k]) + total_funds(m.remove(k)),
    decreases m.dom().len(),
{
    assert(m.dom().len() != 0);
    let c = m.dom().choose();
    assert(m.dom().contains(c));
    if c != k {
        lemma_total_funds_remove(m.remove(c), k);
        lemma_total_funds_remove(m.remove(k), c);
        assert(m.remove(c).remove(k) =~= m.remove(k).remove(c));
    }
}

/// Setting share `k` to `v` changes the total by the change of that share.
pub proof fn lemma_total_funds_insert(m: Map<u32, ShareInfo>, k: u32, v: ShareInfo)
    requires
        m.dom().finite(),
    ensures
        total_funds(m.insert(k, v)) == total_funds(m) - (if m.contains_key(k) { share_funds(m[k]) } else { 0 })
            + share_funds(v),
{
    lemma_total_funds_remove(m.insert(k, v), k);
    if m.contains_key(k) {
        lemma_total_funds_remove(m, k);
        assert(m.insert(k, v).remove(k) =~= m.remove(k));
    } else {
        assert(m.insert(k, v).remove(k) =~= m);
    }
}

} // verus!
