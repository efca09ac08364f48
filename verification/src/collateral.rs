//! The collateral-backed stake model: a provider backs stakes with a security
//! deposit, stakers earn a share of it, and a beneficiary the remainder.

use crate::math::{mul_div, mul_div_spec, pow256, wide_div, wide_from_u128, wide_mul, wide_to_u128};
use crate::ownership::Ownership;
use crate::vesting::{installment_vested, lemma_installment_vested};
use vstd::prelude::*;

verus! {

/// Seconds in a protocol year (360 days).
pub const UNIPOS_YEAR: u128 = 360 * 86400;

/// Fixed-point scale of `apy` and `staker_reward_share`.
pub const PRECISION: u128 = 1_000_000_000_000_000_000;

/// Parameters of a collateral-backed stake pool.
#[derive(Debug)]
pub struct Config {
    pub token: String,
    pub lock_period: u128,
    pub staker_reward_share: u128,
    pub apy: u128,
    pub min_stake_amount: u128,
    pub installment_num: u128,
    pub provider: Ownership,
    pub admin: Ownership,
}

impl Clone for Config {
    fn clone(&self) -> (r: Self)
        ensures
            r == *self,
    {
        Config {
            token: self.token.clone(),
            lock_period: self.lock_period,
            staker_reward_share: self.staker_reward_share,
            apy: self.apy,
            min_stake_amount: self.min_stake_amount,
            installment_num: self.installment_num,
            provider: self.provider.clone(),
            admin: self.admin.clone(),
        }
    }
}

/// The beneficiary and the rewards accrued to it.
#[derive(Debug)]
pub struct BeneficiaryInfo {
    pub beneficiary: Option<String>,
    pub total_reward: u128,
    pub claimed_reward: u128,
}

impl Clone for BeneficiaryInfo {
    fn clone(&self) -> (r: Self)
        ensures
            r == *self,
    {
        BeneficiaryInfo {
            beneficiary: match &self.beneficiary {
                Some(b) => Some(b.clone()),
                None => None,
            },
            total_reward: self.total_reward,
            claimed_reward: self.claimed_reward,
        }
    }
}

impl Default for BeneficiaryInfo {
    fn default() -> (r: Self)
        ensures
            r.beneficiary is None,
            r.total_reward == 0,
            r.claimed_reward == 0,
    {
        BeneficiaryInfo { beneficiary: None, total_reward: 0, claimed_reward: 0 }
    }
}

/// Totals over the pool.
#[derive(Clone, Copy, Debug)]
pub struct AssetInfo {
    pub total_collateral: u128,
    pub unstaked_collateral: u128,
    pub total_claimed_reward: u128,
    pub total_security_deposit: u128,
}

impl Default for AssetInfo {
    fn default() -> (r: Self)
        ensures
            r.total_collateral == 0,
            r.unstaked_collateral == 0,
            r.total_claimed_reward == 0,
            r.total_security_deposit == 0,
    {
        AssetInfo { total_collateral: 0, unstaked_collateral: 0, total_claimed_reward: 0, total_security_deposit: 0 }
    }
}

/// One stake of collateral.
#[derive(Debug)]
pub struct StakeInfo {
    pub owner: String,
    pub amount: u128,
    pub start_at: u128,
    pub total_reward: u128,
    pub claimed_reward: u128,
    pub unstaked: bool,
}

impl Clone for StakeInfo {
    fn clone(&self) -> (r: Self)
        ensures
            r == *self,
    {
        StakeInfo {
            owner: self.owner.clone(),
            amount: self.amount,
            start_at: self.start_at,
            total_reward: self.total_reward,
            claimed_reward: self.claimed_reward,
            unstaked: self.unstaked,
        }
    }
}

/// `amount * apy * lock_period / (PRECISION * UNIPOS_YEAR)`: the deposit that
/// backs `amount` of collateral over one lock period.
pub open spec fn security_deposit_spec(c: Config, amount: u128) -> int {
    (amount * c.apy * c.lock_period) / (PRECISION * UNIPOS_YEAR)
}

/// The deposit computation fits its 256-bit product and 128-bit result.
pub open spec fn security_deposit_computable(c: Config, amount: u128) -> bool {
    &&& amount * c.apy * c.lock_period < pow256()
    &&& security_deposit_spec(c, amount) <= u128::MAX
}

/// The staker's part of the deposit for `amount`.
pub open spec fn staker_reward_spec(c: Config, amount: u128) -> int {
    mul_div_spec(security_deposit_spec(c, amount), c.staker_reward_share as int, PRECISION as int)
}

/// Seconds elapsed since `start`, zero before it.
pub open spec fn elapsed_spec(now: u128, start: u128) -> int {
    if now <= start {
        0
    } else {
        now - start
    }
}

/// Rewards of `s` unlocked at `now`, in `installment_num` equal installments.
pub open spec fn unlocked_reward_spec(c: Config, s: StakeInfo, now: u128) -> int {
    let e = elapsed_spec(now, s.start_at);
    if e >= c.lock_period {
        s.total_reward as int
    } else {
        (s.total_reward * ((e * c.installment_num) / (c.lock_period as int))) / (c.installment_num as int)
    }
}

/// The installment computation at `now` stays within 128 bits and divides by a
/// positive installment count.
pub open spec fn installment_computable(c: Config, s: StakeInfo, now: u128) -> bool {
    let e = elapsed_spec(now, s.start_at);
    e >= c.lock_period || {
        &&& c.installment_num > 0
        &&& e * c.installment_num <= u128::MAX
        &&& s.total_reward * ((e * c.installment_num) / (c.lock_period as int)) <= u128::MAX
    }
}

/// The beneficiary's reward matching a staker reward of `amount`:
/// `amount * (PRECISION - share) / share`.
pub open spec fn beneficiary_reward_spec(c: Config, amount: u128) -> int {
    mul_div_spec(amount as int, PRECISION - c.staker_reward_share, c.staker_reward_share as int)
}

impl Config {
    /// The deposit that backs `amount` of collateral.
    pub fn calc_security_deposit_by_collateral(&self, amount: u128) -> (r: u128)
        requires
            security_deposit_computable(*self, amount),
        ensures
            r == security_deposit_spec(*self, amount),
    {
        proof {
            let p = crate::math::pow128() as int;
            assert((amount as int) * (self.apy as int) < p * p) by (nonlinear_arith)
                requires 0 <= amount < p, 0 <= self.apy < p;
        }
        let a = wide_mul(wide_from_u128(amount), wide_from_u128(self.apy)).unwrap();
        let b = wide_mul(a, wide_from_u128(self.lock_period)).unwrap();
        let q = wide_div(b, wide_from_u128(PRECISION * UNIPOS_YEAR)).unwrap();
        wide_to_u128(q).unwrap()
    }

    /// Whether the deposit computation for `amount` is defined: its 256-bit
    /// product and its 128-bit result do not overflow.
    pub fn security_deposit_fits(&self, amount: u128) -> (r: bool)
        ensures
            r == security_deposit_computable(*self, amount),
    {
        proof {
            let p = crate::math::pow128() as int;
            assert((amount as int) * (self.apy as int) < p * p) by (nonlinear_arith)
                requires 0 <= amount < p, 0 <= self.apy < p;
        }
        let a = wide_mul(wide_from_u128(amount), wide_from_u128(self.apy)).unwrap();
        match wide_mul(a, wide_from_u128(self.lock_period)) {
            None => false,
            Some(b) => {
                let q = wide_div(b, wide_from_u128(PRECISION * UNIPOS_YEAR)).unwrap();
                wide_to_u128(q).is_some()
            },
        }
    }

    /// Whether the installment computation for `stake_info` at `now` is defined.
    pub fn installment_fits(&self, now: u128, stake_info: &StakeInfo) -> (r: bool)
        ensures
            r == installment_computable(*self, *stake_info, now),
    {
        let elapsed_t: u128 = if now <= stake_info.start_at {
            0
        } else {
            now - stake_info.start_at
        };
        if elapsed_t >= self.lock_period {
            return true;
        }
        if self.installment_num == 0 {
            return false;
        }
        match elapsed_t.checked_mul(self.installment_num) {
            None => false,
            Some(p) => stake_info.total_reward.checked_mul(p / self.lock_period).is_some(),
        }
    }

    /// Whether the beneficiary's reward for `amount` is defined.
    pub fn beneficiary_reward_fits(&self, amount: u128) -> (r: bool)
        ensures
            r == (0 < self.staker_reward_share <= PRECISION && beneficiary_reward_spec(*self, amount) <= u128::MAX),
    {
        if self.staker_reward_share == 0 || self.staker_reward_share > PRECISION {
            return false;
        }
        mul_div(amount, PRECISION - self.staker_reward_share, self.staker_reward_share).is_some()
    }

    /// The staker's reward for staking `amount`.
    pub fn calc_staker_reward(&self, amount: u128) -> (r: u128)
        requires
            security_deposit_computable(*self, amount),
            staker_reward_spec(*self, amount) <= u128::MAX,
        ensures
            r == staker_reward_spec(*self, amount),
    {
        let total_reward = self.calc_security_deposit_by_collateral(amount);
        mul_div(total_reward, self.staker_reward_share, PRECISION).unwrap()
    }

    /// Rewards of `stake_info` unlocked at time `now`.
    pub fn calc_unlocked_installment_reward(&self, now: u128, stake_info: &StakeInfo) -> (r: u128)
        requires
            installment_computable(*self, *stake_info, now),
        ensures
            r == unlocked_reward_spec(*self, *stake_info, now),
    {
        let elapsed_t: u128 = if now <= stake_info.start_at {
            0
        } else {
            now - stake_info.start_at
        };
        if elapsed_t >= self.lock_period {
            stake_info.total_reward
        } else {
            let k: u128 = elapsed_t * self.installment_num / self.lock_period;
            stake_info.total_reward * k / self.installment_num
        }
    }

    /// Unlocked rewards not yet claimed.
    pub fn calc_claimable_reward(&self, now: u128, stake_info: &StakeInfo) -> (r: u128)
        requires
            installment_computable(*self, *stake_info, now),
            stake_info.claimed_reward <= unlocked_reward_spec(*self, *stake_info, now),
        ensures
            r == unlocked_reward_spec(*self, *stake_info, now) - stake_info.claimed_reward,
    {
        let unlocked_reward = self.calc_unlocked_installment_reward(now, stake_info);
        unlocked_reward - stake_info.claimed_reward
    }

    /// The beneficiary's reward matching a staker reward of `amount`.
    pub fn calc_beneficiary_reward_by_staker_reward(&self, amount: u128) -> (r: u128)
        requires
            0 < self.staker_reward_share <= PRECISION,
            beneficiary_reward_spec(*self, amount) <= u128::MAX,
        ensures
            r == beneficiary_reward_spec(*self, amount),
    {
        mul_div(amount, PRECISION - self.staker_reward_share, self.staker_reward_share).unwrap()
    }
}

/// The unlocked installment reward never falls as time passes and never
/// exceeds the stake's total reward; it is nothing up to the stake's start,
/// all of the total once the lock period has passed, and one of
/// `installment_num + 1` values: `k` of the `installment_num` parts of the
/// total for some `k` from none to all.
pub proof fn lemma_unlocked_reward_law(c: Config, s: StakeInfo, t1: u128, t2: u128)
    requires
        c.lock_period > 0,
        c.installment_num > 0,
        t1 <= t2,
    ensures
        0 <= unlocked_reward_spec(c, s, t1) <= unlocked_reward_spec(c, s, t2) <= s.total_reward,
        t1 <= s.start_at ==> unlocked_reward_spec(c, s, t1) == 0,
        t1 - s.start_at >= c.lock_period ==> unlocked_reward_spec(c, s, t1) == s.total_reward,
        exists|k: int|
            0 <= k <= c.installment_num && unlocked_reward_spec(c, s, t1) == #[trigger] ((s.total_reward * k) / (
            c.installment_num as int)),
{
    let e1 = elapsed_spec(t1, s.start_at);
    let e2 = elapsed_spec(t2, s.start_at);
    let n = c.installment_num as int;
    let l = c.lock_period as int;
    let t = s.total_reward as int;
    assert(unlocked_reward_spec(c, s, t1) == installment_vested(t, e1, n, l));
    assert(unlocked_reward_spec(c, s, t2) == installment_vested(t, e2, n, l));
    lemma_installment_vested(t, e1, e2, n, l);
}

} // verus!
