//! Configuration and records of the stake core, and the vesting arithmetic.

use crate::math::{mul_div_spec, pow256, wide_div, wide_from_u128, wide_mul, wide_to_u128, Wide};
use vstd::arithmetic::div_mod::{
    lemma_div_is_ordered, lemma_div_multiples_vanish, lemma_div_pos_is_pos, lemma_multiply_divide_le,
    lemma_multiply_divide_lt,
};
use vstd::arithmetic::mul::{lemma_mul_inequality, lemma_mul_is_commutative};
use crate::vesting::{installment_vested, lemma_installment_vested};
use vstd::prelude::*;

verus! {

/// Seconds in a protocol year (360 days).
pub const UNIPOS_YEAR: u128 = 360 * 86400;

/// Fixed-point scale of `apy`.
pub const PRECISION: u128 = 1_000_000_000_000_000_000;

/// Parameters of a stake core.
#[derive(Clone, Copy, Debug)]
pub struct Config {
    pub lock_period: u64,
    pub cliff_period: u64,
    pub apy: u128,
    pub installment_num: u128,
    pub min_stake_amount: u128,
    pub enable_staker_whitelist: bool,
    pub enable_beneficiary_whitelist: bool,
}

/// Totals over all stakes and the provider's security deposit.
#[derive(Clone, Copy, Debug)]
pub struct AssetInfo {
    pub total_principal: u128,
    pub withdrawn_principal: u128,
    pub total_rewards: u128,
    pub withdrawn_rewards: u128,
    pub total_security_deposit: u128,
}

impl Default for AssetInfo {
    fn default() -> (r: Self)
        ensures
            r == AssetInfo::zero_spec(),
    {
        AssetInfo {
            total_principal: 0,
            withdrawn_principal: 0,
            total_rewards: 0,
            withdrawn_rewards: 0,
            total_security_deposit: 0,
        }
    }
}

impl AssetInfo {
    /// All totals zero.
    pub open spec fn zero_spec() -> AssetInfo {
        AssetInfo {
            total_principal: 0,
            withdrawn_principal: 0,
            total_rewards: 0,
            withdrawn_rewards: 0,
            total_security_deposit: 0,
        }
    }
}

/// One stake: its owner, when it started, and what it holds and has paid out.
#[derive(Debug)]
pub struct StakeInfo {
    pub owner: String,
    pub start_time: u64,
    pub total_principal: u128,
    pub withdrawn_principal: u128,
    pub total_rewards: u128,
    pub withdrawn_rewards: u128,
}

impl Clone for StakeInfo {
    fn clone(&self) -> (r: Self)
        ensures
            r == *self,
    {
        StakeInfo {
            owner: self.owner.clone(),
            start_time: self.start_time,
            total_principal: self.total_principal,
            withdrawn_principal: self.withdrawn_principal,
            total_rewards: self.total_rewards,
            withdrawn_rewards: self.withdrawn_rewards,
        }
    }
}

/// Seconds elapsed since `start`, zero before it.
pub open spec fn elapsed_spec(now: u64, start: u64) -> int {
    if now <= start {
        0
    } else {
        now - start
    }
}

/// `floor(apy * lock_period / UNIPOS_YEAR)`: the deposit rate per unit of collateral,
/// scaled by `PRECISION`.
pub open spec fn deposit_rate_spec(c: Config) -> int {
    (c.apy * c.lock_period) / (UNIPOS_YEAR as int)
}

/// The security deposit (equally, the rewards) owed for `amount` of collateral.
pub open spec fn security_deposit_spec(c: Config, amount: u128) -> int {
    (amount * deposit_rate_spec(c)) / (PRECISION as int)
}

/// The deposit computation neither overflows its 256-bit product nor its 128-bit result.
pub open spec fn security_deposit_computable(c: Config, amount: u128) -> bool {
    &&& amount * deposit_rate_spec(c) < pow256()
    &&& security_deposit_spec(c, amount) <= u128::MAX
}

/// The part of `total` unlocked `elapsed` seconds into the lock period, in
/// `installment_num` equal installments.
pub open spec fn installment_unlocked_spec(c: Config, total: u128, elapsed: int) -> int {
    if elapsed >= c.lock_period {
        total as int
    } else {
        (total * ((elapsed * c.installment_num) / (c.lock_period as int))) / (c.installment_num as int)
    }
}

/// The installment computation at this point in time stays within 128 bits
/// and divides by a positive installment count.
pub open spec fn installment_computable(c: Config, total: u128, elapsed: int) -> bool {
    elapsed >= c.lock_period || {
        &&& c.installment_num > 0
        &&& elapsed * c.installment_num <= u128::MAX
        &&& total * ((elapsed * c.installment_num) / (c.lock_period as int)) <= u128::MAX
    }
}

/// Rewards of `s` unlocked at time `now`.
pub open spec fn unlocked_reward_spec(c: Config, s: StakeInfo, now: u64) -> int {
    installment_unlocked_spec(c, s.total_rewards, elapsed_spec(now, s.start_time))
}

/// Principal of `s` unlocked at time `now`: all of it once the lock period has passed.
pub open spec fn unlocked_principal_spec(c: Config, s: StakeInfo, now: u64) -> int {
    if elapsed_spec(now, s.start_time) >= c.lock_period {
        s.total_principal as int
    } else {
        0
    }
}

/// What is unlocked and not yet withdrawn; zero when withdrawals have caught up.
pub open spec fn withdrawable_spec(unlocked: int, withdrawn: int) -> int {
    if unlocked <= withdrawn {
        0
    } else {
        unlocked - withdrawn
    }
}

impl Config {
    /// The deposit required (and the rewards granted) for `amount` of collateral.
    pub fn calc_security_deposit_by_collateral(&self, amount: u128) -> (r: u128)
        requires
            security_deposit_computable(*self, amount),
        ensures
            r == security_deposit_spec(*self, amount),
            r == (amount * ((self.apy * self.lock_period) / (UNIPOS_YEAR as int))) / (PRECISION as int),
    {
        let apy_lock = wide_mul(wide_from_u128(self.apy), wide_from_u128(self.lock_period as u128));
        proof {
            let p = crate::math::pow128() as int;
            assert((self.apy as int) * (self.lock_period as int) < p * p) by (nonlinear_arith)
                requires 0 <= self.apy < p, 0 <= self.lock_period < p;
        }
        let rate = wide_div(apy_lock.unwrap(), wide_from_u128(UNIPOS_YEAR)).unwrap();
        let prod = wide_mul(wide_from_u128(amount), rate).unwrap();
        let q = wide_div(prod, wide_from_u128(PRECISION)).unwrap();
        wide_to_u128(q).unwrap()
    }

    /// Whether `calc_security_deposit_by_collateral(amount)` is defined: its
    /// 256-bit product and its 128-bit result do not overflow.
    pub fn security_deposit_fits(&self, amount: u128) -> (r: bool)
        ensures
            r == security_deposit_computable(*self, amount),
    {
        proof {
            let p = crate::math::pow128() as int;
            assert((self.apy as int) * (self.lock_period as int) < p * p) by (nonlinear_arith)
                requires 0 <= self.apy < p, 0 <= self.lock_period < p;
        }
        let apy_lock = wide_mul(wide_from_u128(self.apy), wide_from_u128(self.lock_period as u128)).unwrap();
        let rate = wide_div(apy_lock, wide_from_u128(UNIPOS_YEAR)).unwrap();
        match wide_mul(wide_from_u128(amount), rate) {
            None => false,
            Some(prod) => {
                let q = wide_div(prod, wide_from_u128(PRECISION)).unwrap();
                wide_to_u128(q).is_some()
            },
        }
    }

    /// Whether the installment computation of `total` is defined `elapsed`
    /// seconds into the lock period.
    pub fn installment_fits(&self, total: u128, elapsed: u64) -> (r: bool)
        ensures
            r == installment_computable(*self, total, elapsed as int),
    {
        if elapsed >= self.lock_period {
            return true;
        }
        if self.installment_num == 0 {
            return false;
        }
        match (elapsed as u128).checked_mul(self.installment_num) {
            None => false,
            Some(p) => total.checked_mul(p / (self.lock_period as u128)).is_some(),
        }
    }

    /// Rewards of `stake_info` unlocked at time `now` (seconds).
    pub fn calc_unlocked_installment_reward(&self, now: u64, stake_info: &StakeInfo) -> (r: u128)
        requires
            installment_computable(*self, stake_info.total_rewards, elapsed_spec(now, stake_info.start_time)),
        ensures
            r == unlocked_reward_spec(*self, *stake_info, now),
    {
        let elapsed_t: u64 = if now <= stake_info.start_time {
            0
        } else {
            now - stake_info.start_time
        };
        if elapsed_t >= self.lock_period {
            stake_info.total_rewards
        } else {
            let k: u128 = (elapsed_t as u128) * self.installment_num / (self.lock_period as u128);
            stake_info.total_rewards * k / self.installment_num
        }
    }

    /// Principal of `stake_info` unlocked at time `now`.
    pub fn calc_unlocked_installment_principal(&self, now: u64, stake_info: &StakeInfo) -> (r: u128)
        ensures
            r == unlocked_principal_spec(*self, *stake_info, now),
    {
        let elapsed_t: u64 = if now <= stake_info.start_time {
            0
        } else {
            now - stake_info.start_time
        };
        if elapsed_t >= self.lock_period {
            return stake_info.total_principal;
        }
        0
    }

    /// Unlocked rewards not yet withdrawn.
    pub fn calc_withdrawable_reward(&self, now: u64, stake_info: &StakeInfo) -> (r: u128)
        requires
            installment_computable(*self, stake_info.total_rewards, elapsed_spec(now, stake_info.start_time)),
        ensures
            r == withdrawable_spec(unlocked_reward_spec(*self, *stake_info, now), stake_info.withdrawn_rewards as int),
    {
        let unlocked_reward = self.calc_unlocked_installment_reward(now, stake_info);
        if unlocked_reward <= stake_info.withdrawn_rewards {
            return 0;
        }
        unlocked_reward - stake_info.withdrawn_rewards
    }

    /// Unlocked principal not yet withdrawn.
    pub fn calc_withdrawable_principal(&self, now: u64, stake_info: &StakeInfo) -> (r: u128)
        ensures
            r == withdrawable_spec(unlocked_principal_spec(*self, *stake_info, now), stake_info.withdrawn_principal as int),
    {
        let unlocked_principal = self.calc_unlocked_installment_principal(now, stake_info);
        if unlocked_principal <= stake_info.withdrawn_principal {
            return 0;
        }
        unlocked_principal - stake_info.withdrawn_principal
    }
}


/// Vesting never releases more than the stake holds: the unlocked rewards lie
/// between zero and the stake's total rewards.
pub proof fn lemma_unlocked_reward_bounded(c: Config, s: StakeInfo, now: u64)
    requires
        c.installment_num > 0,
    ensures
        0 <= unlocked_reward_spec(c, s, now) <= s.total_rewards,
{
    let e = elapsed_spec(now, s.start_time);
    let n = c.installment_num as int;
    let l = c.lock_period as int;
    if e < l {
        let k = (e * n) / l;
        assert(0 <= e * n) by (nonlinear_arith)
            requires 0 <= e, 0 <= n;
        assert(e * n <= l * n) by (nonlinear_arith)
            requires e < l, 0 < n;
        assert(l * n == n * l) by (nonlinear_arith);
        lemma_multiply_divide_le(e * n, l, n);
        assert(0 <= k) by {
            vstd::arithmetic::div_mod::lemma_div_pos_is_pos(e * n, l);
        }
        let t = s.total_rewards as int;
        assert(0 <= t * k <= t * n) by (nonlinear_arith)
            requires 0 <= k <= n, 0 <= t;
        lemma_div_is_ordered(t * k, t * n, n);
        assert((t * n) / n == t) by {
            vstd::arithmetic::div_mod::lemma_div_multiples_vanish(t, n);
            lemma_mul_is_commutative(t, n);
        }
        assert(0 <= (t * k) / n) by {
            vstd::arithmetic::div_mod::lemma_div_pos_is_pos(t * k, n);
        }
    }
}

/// Unlocking is monotonic in time: a later moment never has fewer rewards unlocked.
pub proof fn lemma_unlocked_reward_monotonic(c: Config, s: StakeInfo, t1: u64, t2: u64)
    requires
        c.installment_num > 0,
        t1 <= t2,
    ensures
        unlocked_reward_spec(c, s, t1) <= unlocked_reward_spec(c, s, t2),
{
    lemma_unlocked_reward_bounded(c, s, t1);
    lemma_unlocked_reward_bounded(c, s, t2);
    let e1 = elapsed_spec(t1, s.start_time);
    let e2 = elapsed_spec(t2, s.start_time);
    let n = c.installment_num as int;
    let l = c.lock_period as int;
    assert(e1 <= e2);
    if e2 < l {
        let t = s.total_rewards as int;
        assert(e1 * n <= e2 * n) by (nonlinear_arith)
            requires e1 <= e2, 0 < n;
        lemma_div_is_ordered(e1 * n, e2 * n, l);
        let k1 = (e1 * n) / l;
        let k2 = (e2 * n) / l;
        assert(t * k1 <= t * k2) by (nonlinear_arith)
            requires k1 <= k2, 0 <= t;
        lemma_div_is_ordered(t * k1, t * k2, n);
    }
}

/// Nothing unlocks before a stake starts (for a positive lock period).
pub proof fn lemma_nothing_unlocked_before_start(c: Config, s: StakeInfo, now: u64)
    requires
        c.installment_num > 0,
        c.lock_period > 0,
        now <= s.start_time,
    ensures
        unlocked_reward_spec(c, s, now) == 0,
        unlocked_principal_spec(c, s, now) == 0,
{
    let n = c.installment_num as int;
    assert(0 * n == 0);
    assert(0int / (c.lock_period as int) == 0);
    assert((s.total_rewards * 0) == 0);
    assert(0int / n == 0);
}

/// Everything is unlocked once the lock period has run out.
pub proof fn lemma_all_unlocked_after_lock(c: Config, s: StakeInfo, now: u64)
    requires
        now >= s.start_time + c.lock_period,
    ensures
        unlocked_reward_spec(c, s, now) == s.total_rewards,
        unlocked_principal_spec(c, s, now) == s.total_principal,
{
}

/// What a withdrawal may take never lifts the withdrawn amount above what is
/// unlocked, unless it was already above it.
pub proof fn lemma_withdrawable_tops_up_to_unlocked(unlocked: int, withdrawn: int)
    requires
        0 <= withdrawn,
    ensures
        withdrawable_spec(unlocked, withdrawn) >= 0,
        withdrawn + withdrawable_spec(unlocked, withdrawn) == if unlocked <= withdrawn {
            withdrawn
        } else {
            unlocked
        },
{
}

/// The unlocked rewards take at most `installment_num + 1` values: whole
/// installments, `k` of `installment_num` parts of the total for some `k`
/// from none to all.
pub proof fn lemma_unlocked_reward_installments(c: Config, s: StakeInfo, now: u64)
    requires
        c.installment_num > 0,
        c.lock_period > 0,
    ensures
        exists|k: int|
            0 <= k <= c.installment_num && unlocked_reward_spec(c, s, now) == #[trigger] ((s.total_rewards * k) / (
            c.installment_num as int)),
{
    let e = elapsed_spec(now, s.start_time);
    let n = c.installment_num as int;
    let l = c.lock_period as int;
    let t = s.total_rewards as int;
    if e >= l {
        lemma_div_multiples_vanish(t, n);
        lemma_mul_is_commutative(t, n);
        assert(unlocked_reward_spec(c, s, now) == (t * n) / n);
    } else {
        let k = (e * n) / l;
        assert(0 <= e * n < l * n) by (nonlinear_arith)
            requires 0 <= e < l, 0 < n;
        lemma_div_pos_is_pos(e * n, l);
        lemma_div_is_ordered(e * n, l * n, l);
        lemma_div_multiples_vanish(n, l);
        assert(0 <= k <= n);
        assert(unlocked_reward_spec(c, s, now) == (t * k) / n);
    }
}

/// The unlocked installment reward never falls as time passes and never
/// exceeds the stake's total reward; it is nothing up to the stake's start,
/// all of the total once the lock period has passed, and one of
/// `installment_num + 1` values: `k` of the `installment_num` parts of the
/// total for some `k` from none to all.
pub proof fn lemma_unlocked_reward_law(c: Config, s: StakeInfo, t1: u64, t2: u64)
    requires
        c.lock_period > 0,
        c.installment_num > 0,
        t1 <= t2,
    ensures
        0 <= unlocked_reward_spec(c, s, t1) <= unlocked_reward_spec(c, s, t2) <= s.total_rewards,
        t1 <= s.start_time ==> unlocked_reward_spec(c, s, t1) == 0,
        t1 - s.start_time >= c.lock_period ==> unlocked_reward_spec(c, s, t1) == s.total_rewards,
        exists|k: int|
            0 <= k <= c.installment_num && unlocked_reward_spec(c, s, t1) == #[trigger] ((s.total_rewards * k) / (
            c.installment_num as int)),
{
    let e1 = elapsed_spec(t1, s.start_time);
    let e2 = elapsed_spec(t2, s.start_time);
    let n = c.installment_num as int;
    let l = c.lock_period as int;
    let t = s.total_rewards as int;
    assert(unlocked_reward_spec(c, s, t1) == installment_vested(t, e1, n, l));
    assert(unlocked_reward_spec(c, s, t2) == installment_vested(t, e2, n, l));
    lemma_installment_vested(t, e1, e2, n, l);
}

/// The security deposit owed for a stake (equally, its rewards) is
/// `floor(amount * floor(apy * lock_period / UNIPOS_YEAR) / PRECISION)`: it
/// depends on the amount, the `apy` and the lock period alone, whatever the
/// cliff, the installments or the whitelists.
pub proof fn lemma_security_deposit_formula(c1: Config, c2: Config, amount: u128)
    requires
        c1.apy == c2.apy,
        c1.lock_period == c2.lock_period,
    ensures
        security_deposit_spec(c1, amount) == (amount * ((c1.apy * c1.lock_period) / (UNIPOS_YEAR as int))) / (
        PRECISION as int),
        security_deposit_spec(c1, amount) == security_deposit_spec(c2, amount),
{
}

} // verus!
