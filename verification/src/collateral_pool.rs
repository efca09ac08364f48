//! A collateral-backed stake pool run on the [`collateral`](crate::collateral)
//! model: a provider and an admin, each handed over in two steps; stakes of a
//! CW20 token that unstake whole once their lock period is over; staker
//! rewards claimed by installments; and a beneficiary that earns alongside
//! the stakers.

use crate::assoc_map::AssocMap;
use crate::collateral::{
    beneficiary_reward_spec, installment_computable, security_deposit_computable, security_deposit_spec,
    staker_reward_spec, unlocked_reward_spec, AssetInfo, BeneficiaryInfo, Config, StakeInfo, PRECISION,
};
use crate::env::{Env, MessageInfo};
use crate::errors::StdError;
use crate::math::mul_div;
use crate::ownership::{accept_spec, Ownership};
use crate::stakecore::contract::{sum_amounts, BatchOutcome};
use crate::universal_token::TokenMsg;
use crate::vector::Vector;
use vstd::prelude::*;

verus! {

/// Why a pool operation was refused.
#[derive(Debug)]
pub enum PoolError {
    Std(StdError),
    Unauthorized,
    InsufficientFunds,
    InsufficientStakeAmount,
    LockPeriodNotEnded,
    AlreadyUnstaked,
    NoLockedFunds,
}

/// The operations a pool offers.
#[derive(Debug)]
pub enum ExecuteMsg {
    TransferProviderOwnership { new_provider: String },
    AcceptProviderOwnership,
    TransferAdminOwnership { new_admin: String },
    AcceptAdminOwnership,
    InitBeneficiary { bf: String },
    DepositSecurity { amount: u128 },
    WithdrawSecurity { amount: u128 },
    Stake { owner: String, amount: u128 },
    Unstake { index: u32 },
    ClaimReward { index: u32 },
    ClaimRewardsBatch { indexes: Vec<u32> },
    ClaimBeneficiaryReward,
    Collect,
}

/// A question put to a pool.
#[derive(Debug)]
pub enum QueryMsg {
    Config,
    BeneficiaryInfo,
    AssetInfo,
    StakeInfo { index: u32 },
    StakerIndexes { staker: String },
}

/// The indexes of one staker's stakes.
#[derive(Debug)]
pub struct StakerIndexesResponse {
    pub indexes: Vec<u32>,
}

/// The answer to a [`QueryMsg`], one variant per question.
#[derive(Debug)]
pub enum QueryResponse {
    Config(Config),
    BeneficiaryInfo(BeneficiaryInfo),
    AssetInfo(AssetInfo),
    StakeInfo(StakeInfo),
    StakerIndexes(StakerIndexesResponse),
}

/// An amount moved and the token messages that move it.
#[derive(Debug)]
pub struct PoolOutcome {
    pub amount: u128,
    pub messages: Vec<TokenMsg>,
}

/// The whole state of a pool.
pub struct CollateralPool {
    pub config: Config,
    pub beneficiary_info: BeneficiaryInfo,
    pub asset_info: AssetInfo,
    pub stake_infos: Vector<StakeInfo>,
    pub staker_indexes: AssocMap<String, Vec<u32>>,
}

/// Paying `amount` of the CW20 token `token` from the pool to `recipient`.
pub open spec fn transfer_spec(token: String, recipient: String, amount: u128) -> TokenMsg {
    TokenMsg::Cw20Transfer { contract: token, recipient, amount }
}

/// Pulling `amount` of the CW20 token `token` from `owner` into the pool at `pool`.
pub open spec fn transfer_from_spec(token: String, owner: String, pool: String, amount: u128) -> TokenMsg {
    TokenMsg::Cw20TransferFrom { contract: token, owner, recipient: pool, amount }
}

/// The indexes listed under `owner`, none if it has no entry.
pub open spec fn indexes_of(m: Map<Seq<char>, Vec<u32>>, owner: Seq<char>) -> Seq<u32> {
    if m.contains_key(owner) {
        m[owner]@
    } else {
        Seq::empty()
    }
}

/// What a staker can claim of stake `s` at `now`: its unlocked rewards less
/// those already claimed.
pub open spec fn claimable_spec(c: Config, s: StakeInfo, now: u128) -> int {
    unlocked_reward_spec(c, s, now) - s.claimed_reward
}

/// The claim computation for `s` at `now` is defined and does not underflow.
pub open spec fn claim_computable(c: Config, s: StakeInfo, now: u128) -> bool {
    installment_computable(c, s, now) && s.claimed_reward <= unlocked_reward_spec(c, s, now)
}

/// The beneficiary's reward for a staker reward of `amount` is defined and
/// can be added to its total, and the pool's claimed total can take `amount`.
pub open spec fn reward_accrual_fits(p: CollateralPool, amount: u128) -> bool {
    &&& p.asset_info.total_claimed_reward + amount <= u128::MAX
    &&& 0 < p.config.staker_reward_share <= PRECISION
    &&& beneficiary_reward_spec(p.config, amount) <= u128::MAX
    &&& p.beneficiary_info.total_reward + beneficiary_reward_spec(p.config, amount) <= u128::MAX
}

/// `o` names the account `a`.
pub open spec fn opt_is(o: Option<String>, a: Seq<char>) -> bool {
    o matches Some(x) && x@ == a
}

/// What the pool must still hold: collateral and deposit, less the
/// collateral unstaked and the rewards claimed.
pub open spec fn owed_spec(a: AssetInfo) -> int {
    a.total_collateral + a.total_security_deposit - a.unstaked_collateral - a.total_claimed_reward
}

/// The balance beyond what the pool must still hold.
pub open spec fn extra_funds_spec(a: AssetInfo, balance: u128) -> int {
    balance - owed_spec(a)
}

/// The collection's sums stay within 128 bits, and, where there is something
/// to collect, what is owed does not go below zero.
pub open spec fn collect_computable(a: AssetInfo, balance: u128) -> bool {
    &&& a.total_security_deposit + a.total_collateral <= u128::MAX
    &&& balance + a.unstaked_collateral + a.total_claimed_reward <= u128::MAX
    &&& a.total_security_deposit + a.total_collateral < balance + a.unstaked_collateral + a.total_claimed_reward
        ==> a.unstaked_collateral + a.total_claimed_reward <= a.total_collateral + a.total_security_deposit
}

/// Claiming the rewards of each listed stake in turn: the stakes after, and
/// the amount claimed from each, or the first refusal (an index beyond the
/// stakes, or a stake of someone else).
pub open spec fn claim_batch_spec(c: Config, now: u128, sender: Seq<char>, recs: Seq<StakeInfo>, idx: Seq<u32>) -> Result<
    (Seq<StakeInfo>, Seq<u128>),
    PoolError,
>
    decreases idx.len(),
{
    if idx.len() == 0 {
        Ok((recs, Seq::empty()))
    } else {
        match claim_batch_spec(c, now, sender, recs, idx.drop_last()) {
            Err(e) => Err(e),
            Ok((rs, amts)) => {
                let i = idx.last();
                if i >= rs.len() {
                    Err(PoolError::Std(StdError::OutOfBounds { key: i }))
                } else if rs[i as int].owner@ != sender {
                    Err(PoolError::Unauthorized)
                } else {
                    let rec = rs[i as int];
                    let w = claimable_spec(c, rec, now);
                    if w == 0 {
                        Ok((rs, amts.push(0)))
                    } else {
                        Ok((
                            rs.update(i as int, StakeInfo { claimed_reward: (rec.claimed_reward + w) as u128, ..rec }),
                            amts.push(w as u128),
                        ))
                    }
                }
            },
        }
    }
}

/// The first `n` listed indexes name stakes of `sender`.
pub open spec fn all_owned(sender: Seq<char>, recs: Seq<StakeInfo>, idx: Seq<u32>, n: int) -> bool {
    forall|k: int| 0 <= k < n ==> #[trigger] idx[k] < recs.len() && recs[idx[k] as int].owner@ == sender
}

/// The claim computation is defined for every stake a batch reaches: each
/// listed stake of `sender` that only stakes of `sender` precede.
pub open spec fn claim_batch_computable(c: Config, now: u128, sender: Seq<char>, recs: Seq<StakeInfo>, idx: Seq<u32>) -> bool {
    forall|i: int|
        0 <= i < idx.len() && all_owned(sender, recs, idx, i) && #[trigger] idx[i] < recs.len() && recs[idx[i] as int].owner@
            == sender ==> claim_computable(c, recs[idx[i] as int], now)
}

/// `rs` holds the stakes of `recs`, each either unchanged or with its claimed
/// reward brought up to its unlocked reward at `now`.
pub open spec fn claims_consistent(c: Config, now: u128, rs: Seq<StakeInfo>, recs: Seq<StakeInfo>) -> bool {
    &&& rs.len() == recs.len()
    &&& forall|k: int|
        0 <= k < rs.len() ==> {
            &&& #[trigger] rs[k] == StakeInfo { claimed_reward: rs[k].claimed_reward, ..recs[k] }
            &&& rs[k].claimed_reward == recs[k].claimed_reward || rs[k].claimed_reward == unlocked_reward_spec(
                c,
                recs[k],
                now,
            ) as u128
        }
}

/// While every index so far names a stake of `sender`, the batch goes on,
/// one amount per index, with stakes consistent with those it started from.
pub proof fn lemma_claim_batch_owned(c: Config, now: u128, sender: Seq<char>, recs: Seq<StakeInfo>, idx: Seq<u32>, n: int)
    requires
        0 <= n <= idx.len(),
        all_owned(sender, recs, idx, n),
    ensures
        claim_batch_spec(c, now, sender, recs, idx.take(n)) matches Ok((rs, amts)) && claims_consistent(c, now, rs, recs)
            && amts.len() == n,
    decreases n,
{
    if n > 0 {
        let p = idx.take(n - 1);
        assert(idx.take(n).drop_last() =~= p);
        assert forall|k: int| 0 <= k < n - 1 implies #[trigger] p[k] < recs.len() && recs[p[k] as int].owner@ == sender by {
            assert(p[k] == idx[k]);
        }
        lemma_claim_batch_owned(c, now, sender, recs, p, n - 1);
        let q = idx.take(n - 1);
        assert(q.take(n - 1) =~= q);
        let (rs, amts) = claim_batch_spec(c, now, sender, recs, p)->Ok_0;
        let i = idx[n - 1];
        assert(idx.take(n).last() == i);
        let _ = idx[n - 1];
        assert(i < recs.len() && recs[i as int].owner@ == sender);
        let _ = rs[i as int];
        let rec = rs[i as int];
        let w = claimable_spec(c, rec, now);
        if w != 0 {
            let rs2 = rs.update(i as int, StakeInfo { claimed_reward: (rec.claimed_reward + w) as u128, ..rec });
            assert forall|k: int| 0 <= k < rs2.len() implies {
                &&& #[trigger] rs2[k] == StakeInfo { claimed_reward: rs2[k].claimed_reward, ..recs[k] }
                &&& rs2[k].claimed_reward == recs[k].claimed_reward || rs2[k].claimed_reward == unlocked_reward_spec(
                    c,
                    recs[k],
                    now,
                ) as u128
            } by {
                let _ = rs[k];
            }
        }
    } else {
        assert(idx.take(0) =~= Seq::<u32>::empty());
    }
}

/// Once a prefix of the batch is refused, the whole batch is, with the same error.
pub proof fn lemma_claim_batch_err(c: Config, now: u128, sender: Seq<char>, recs: Seq<StakeInfo>, idx: Seq<u32>, n: int)
    requires
        0 <= n <= idx.len(),
        claim_batch_spec(c, now, sender, recs, idx.take(n)) is Err,
    ensures
        claim_batch_spec(c, now, sender, recs, idx) == claim_batch_spec(c, now, sender, recs, idx.take(n)),
    decreases idx.len(),
{
    if n == idx.len() {
        assert(idx.take(n) =~= idx);
    } else {
        let p = idx.drop_last();
        assert(idx.take(n) =~= p.take(n));
        lemma_claim_batch_err(c, now, sender, recs, p, n);
    }
}

/// The amounts claimed by a prefix of the batch add up to no more than
/// those of the whole batch.
pub proof fn lemma_claim_batch_sum_prefix(c: Config, now: u128, sender: Seq<char>, recs: Seq<StakeInfo>, idx: Seq<u32>, n: int)
    requires
        0 <= n <= idx.len(),
        claim_batch_spec(c, now, sender, recs, idx) is Ok,
    ensures
        claim_batch_spec(c, now, sender, recs, idx.take(n)) is Ok,
        sum_amounts(claim_batch_spec(c, now, sender, recs, idx.take(n))->Ok_0.1) <= sum_amounts(
            claim_batch_spec(c, now, sender, recs, idx)->Ok_0.1,
        ),
    decreases idx.len(),
{
    if n == idx.len() {
        assert(idx.take(n) =~= idx);
    } else {
        let p = idx.drop_last();
        assert(idx.take(n) =~= p.take(n));
        lemma_claim_batch_sum_prefix(c, now, sender, recs, p, n);
        let amts = claim_batch_spec(c, now, sender, recs, p)->Ok_0.1;
        let amts2 = claim_batch_spec(c, now, sender, recs, idx)->Ok_0.1;
        assert(amts2.drop_last() =~= amts);
    }
}

/// A defined installment computation gives an amount within 128 bits.
pub proof fn lemma_unlocked_in_range(c: Config, s: StakeInfo, now: u128)
    requires
        installment_computable(c, s, now),
    ensures
        0 <= unlocked_reward_spec(c, s, now) <= u128::MAX,
{
    let e = crate::collateral::elapsed_spec(now, s.start_at);
    if e < c.lock_period {
        let n = c.installment_num as int;
        let l = c.lock_period as int;
        let k = (e * n) / l;
        assert(0 <= e * n) by (nonlinear_arith)
            requires 0 <= e, 0 <= n;
        vstd::arithmetic::div_mod::lemma_div_pos_is_pos(e * n, l);
        let t = s.total_reward as int;
        assert(0 <= t * k) by (nonlinear_arith)
            requires 0 <= t, 0 <= k;
        vstd::arithmetic::div_mod::lemma_div_pos_is_pos(t * k, n);
        vstd::arithmetic::div_mod::lemma_div_is_ordered_by_denominator(t * k, 1, n);
    }
}

/// Claiming twice at the same moment pays nothing the second time: a claim
/// brings the stake's claimed reward up to its unlocked reward.
pub proof fn lemma_claim_twice_pays_nothing(c: Config, s: StakeInfo, now: u128)
    requires
        claim_computable(c, s, now),
    ensures
        claimable_spec(
            c,
            StakeInfo { claimed_reward: (s.claimed_reward + claimable_spec(c, s, now)) as u128, ..s },
            now,
        ) == 0,
{
    lemma_unlocked_in_range(c, s, now);
}

/// Whether `x` occurs among the first `n` elements of `v`.
fn occurs_before(v: &Vec<u32>, n: usize, x: u32) -> (r: bool)
    requires
        n <= v@.len(),
    ensures
        r == v@.take(n as int).contains(x),
{
    let mut l: usize = 0;
    while l < n
        invariant
            n <= v@.len(),
            l <= n,
            forall|q: int| 0 <= q < l ==> v@[q] != x,
        decreases n - l,
    {
        if v[l] == x {
            assert(v@.take(n as int)[l as int] == x);
            return true;
        }
        l += 1;
    }
    proof {
        if v@.take(n as int).contains(x) {
            let q = choose|q: int| 0 <= q < n && v@.take(n as int)[q] == x;
            assert(v@[q] == x);
        }
    }
    false
}

/// The stakes a batch leaves when every listed stake is claimed: those
/// listed before position `j` have their claimed reward brought up to their
/// unlocked reward, the others are as they were.
pub open spec fn claimed_up_to(c: Config, now: u128, recs: Seq<StakeInfo>, idx: Seq<u32>, j: int, rs: Seq<StakeInfo>) -> bool {
    &&& rs.len() == recs.len()
    &&& forall|k: int|
        0 <= k < recs.len() ==> #[trigger] rs[k] == (if idx.take(j).contains(k as u32) {
            StakeInfo { claimed_reward: unlocked_reward_spec(c, recs[k], now) as u128, ..recs[k] }
        } else {
            recs[k]
        })
}

impl CollateralPool {
    /// Whether `execute_deposit_security` may be called.
    pub fn deposit_security_fits(&self, info: &MessageInfo, amount: u128) -> (r: bool)
        ensures
            r == (self.config.provider.owner@ == info.sender@ ==> self.asset_info.total_security_deposit + amount
                <= u128::MAX),
    {
        !self.config.provider.validate(&info.sender) || self.asset_info.total_security_deposit.checked_add(
            amount,
        ).is_some()
    }

    /// Whether `execute_withdraw_security` may be called.
    pub fn withdraw_security_fits(&self, info: &MessageInfo) -> (r: bool)
        ensures
            r == (self.config.provider.owner@ == info.sender@ ==> {
                &&& security_deposit_computable(self.config, self.asset_info.total_collateral)
                &&& security_deposit_spec(self.config, self.asset_info.total_collateral)
                    <= self.asset_info.total_security_deposit
            }),
    {
        if !self.config.provider.validate(&info.sender) {
            return true;
        }
        if !self.config.security_deposit_fits(self.asset_info.total_collateral) {
            return false;
        }
        self.config.calc_security_deposit_by_collateral(self.asset_info.total_collateral)
            <= self.asset_info.total_security_deposit
    }

    /// Whether `execute_stake` may be called.
    pub fn stake_fits(&self, owner: &Result<String, StdError>, amount: u128) -> (r: bool)
        ensures
            r == (owner is Ok && amount >= self.config.min_stake_amount ==> {
                &&& self.asset_info.total_collateral + amount <= u128::MAX
                &&& security_deposit_computable(self.config, (self.asset_info.total_collateral + amount) as u128)
                &&& security_deposit_spec(self.config, (self.asset_info.total_collateral + amount) as u128)
                    <= self.asset_info.total_security_deposit ==> {
                    &&& security_deposit_computable(self.config, amount)
                    &&& staker_reward_spec(self.config, amount) <= u128::MAX
                }
            }),
    {
        if owner.is_err() || amount < self.config.min_stake_amount {
            return true;
        }
        let total = match self.asset_info.total_collateral.checked_add(amount) {
            Some(t) => t,
            None => return false,
        };
        if !self.config.security_deposit_fits(total) {
            return false;
        }
        if self.config.calc_security_deposit_by_collateral(total) > self.asset_info.total_security_deposit {
            return true;
        }
        if !self.config.security_deposit_fits(amount) {
            return false;
        }
        let deposit = self.config.calc_security_deposit_by_collateral(amount);
        mul_div(deposit, self.config.staker_reward_share, PRECISION).is_some()
    }

    /// Whether `execute_unstake` may be called.
    pub fn unstake_fits(&self, env: &Env, info: &MessageInfo, index: u32) -> (r: bool)
        requires
            self.wf(),
        ensures
            r == (index < self.stake_infos@.len() && self.stake_infos@[index as int].owner@ == info.sender@ ==> {
                let s = self.stake_infos@[index as int];
                &&& s.start_at + self.config.lock_period <= u128::MAX
                &&& s.start_at + self.config.lock_period <= env.time && !s.unstaked
                    ==> self.asset_info.unstaked_collateral + s.amount <= u128::MAX
            }),
    {
        let s = match self.owned_stake(index, &info.sender) {
            Ok(s) => s,
            Err(_) => return true,
        };
        let end = match s.start_at.checked_add(self.config.lock_period) {
            Some(e) => e,
            None => return false,
        };
        end > env.time as u128 || s.unstaked || self.asset_info.unstaked_collateral.checked_add(s.amount).is_some()
    }

    /// Whether crediting a staker claim of `amount` overflows nothing.
    pub fn accrual_fits(&self, amount: u128) -> (r: bool)
        ensures
            r == reward_accrual_fits(*self, amount),
    {
        if self.asset_info.total_claimed_reward.checked_add(amount).is_none() {
            return false;
        }
        if !self.config.beneficiary_reward_fits(amount) {
            return false;
        }
        let b = self.config.calc_beneficiary_reward_by_staker_reward(amount);
        self.beneficiary_info.total_reward.checked_add(b).is_some()
    }

    /// Whether the claim computation for stake `s` at `now` is defined.
    pub fn claim_fits(&self, now: u128, s: &StakeInfo) -> (r: bool)
        ensures
            r == claim_computable(self.config, *s, now),
    {
        if !self.config.installment_fits(now, s) {
            return false;
        }
        s.claimed_reward <= self.config.calc_unlocked_installment_reward(now, s)
    }

    /// Whether `execute_claim_reward` may be called.
    pub fn claim_reward_fits(&self, env: &Env, info: &MessageInfo, index: u32) -> (r: bool)
        requires
            self.wf(),
        ensures
            r == (index < self.stake_infos@.len() && self.stake_infos@[index as int].owner@ == info.sender@ ==> {
                let s = self.stake_infos@[index as int];
                &&& claim_computable(self.config, s, env.time as u128)
                &&& claimable_spec(self.config, s, env.time as u128) > 0 ==> reward_accrual_fits(
                    *self,
                    claimable_spec(self.config, s, env.time as u128) as u128,
                )
            }),
    {
        let s = match self.owned_stake(index, &info.sender) {
            Ok(s) => s,
            Err(_) => return true,
        };
        let now = env.time as u128;
        if !self.claim_fits(now, s) {
            return false;
        }
        let c = self.config.calc_claimable_reward(now, s);
        c == 0 || self.accrual_fits(c)
    }

    /// Whether `execute_claim_beneficiary_reward` may be called.
    pub fn claim_beneficiary_reward_fits(&self, info: &MessageInfo) -> (r: bool)
        ensures
            r == (opt_is(self.beneficiary_info.beneficiary, info.sender@) ==> {
                &&& self.beneficiary_info.claimed_reward <= self.beneficiary_info.total_reward
                &&& self.asset_info.total_claimed_reward + self.beneficiary_info.total_reward
                    - self.beneficiary_info.claimed_reward <= u128::MAX
            }),
    {
        let is_beneficiary = match &self.beneficiary_info.beneficiary {
            Some(b) => *b == info.sender,
            None => false,
        };
        if !is_beneficiary {
            return true;
        }
        if self.beneficiary_info.claimed_reward > self.beneficiary_info.total_reward {
            return false;
        }
        self.asset_info.total_claimed_reward.checked_add(
            self.beneficiary_info.total_reward - self.beneficiary_info.claimed_reward,
        ).is_some()
    }

    /// Whether `execute_collect` may be called with the queried `balance`.
    pub fn collect_fits(&self, info: &MessageInfo, balance: &Result<u128, StdError>) -> (r: bool)
        ensures
            r == (self.config.admin.owner@ == info.sender@ && balance is Ok ==> collect_computable(
                self.asset_info,
                balance->Ok_0,
            )),
    {
        let b = match balance {
            Ok(b) => *b,
            Err(_) => return true,
        };
        if !self.config.admin.validate(&info.sender) {
            return true;
        }
        let a = &self.asset_info;
        let held = match a.total_security_deposit.checked_add(a.total_collateral) {
            Some(h) => h,
            None => return false,
        };
        let due = match b.checked_add(a.unstaked_collateral) {
            None => return false,
            Some(x) => match x.checked_add(a.total_claimed_reward) {
                None => return false,
                Some(y) => y,
            },
        };
        if held >= due {
            return true;
        }
        match a.unstaked_collateral.checked_add(a.total_claimed_reward) {
            None => false,
            Some(paid) => paid <= held,
        }
    }

    /// Whether `execute_claim_rewards_batch` may be called: the claim
    /// computation is defined for every stake reached, and the total and what
    /// it accrues fit.
    #[verifier::rlimit(40)]
    pub fn claim_rewards_batch_fits(&self, env: &Env, info: &MessageInfo, indexes: &Vec<u32>) -> (r: bool)
        requires
            self.wf(),
        ensures
            r == (claim_batch_computable(self.config, env.time as u128, info.sender@, self.stake_infos@, indexes@) && (
            claim_batch_spec(self.config, env.time as u128, info.sender@, self.stake_infos@, indexes@) matches Ok(
                (_, amts),
            ) ==> {
                &&& sum_amounts(amts) <= u128::MAX
                &&& sum_amounts(amts) > 0 ==> reward_accrual_fits(*self, sum_amounts(amts) as u128)
            })),
    {
        let now = env.time as u128;
        let ghost recs = self.stake_infos@;
        let ghost c = self.config;
        let ghost sender = info.sender@;
        let mut i: usize = 0;
        while i < indexes.len()
            invariant
                self.wf(),
                recs == self.stake_infos@,
                c == self.config,
                sender == info.sender@,
                now == env.time as u128,
                i <= indexes@.len(),
                all_owned(sender, recs, indexes@, i as int),
                forall|k: int|
                    0 <= k < i ==> claim_computable(c, recs[#[trigger] indexes@[k] as int], now),
            decreases indexes@.len() - i,
        {
            let rec = match self.owned_stake(indexes[i], &info.sender) {
                Ok(rec) => rec,
                Err(_) => {
                    proof {
                        lemma_claim_batch_owned(c, now, sender, recs, indexes@, i as int);
                        assert(indexes@.take(i as int + 1).drop_last() =~= indexes@.take(i as int));
                        assert(indexes@.take(i as int + 1).last() == indexes@[i as int]);
                        lemma_claim_batch_err(c, now, sender, recs, indexes@, i as int + 1);
                        assert forall|k: int|
                            0 <= k < indexes@.len() && all_owned(sender, recs, indexes@, k) && #[trigger] indexes@[k]
                                < recs.len() && recs[indexes@[k] as int].owner@ == sender implies claim_computable(
                            c,
                            recs[indexes@[k] as int],
                            now,
                        ) by {
                            if k > i {
                                let _ = indexes@[i as int];
                            }
                        }
                    }
                    return true;
                },
            };
            if !self.claim_fits(now, rec) {
                proof {
                    let _ = indexes@[i as int];
                }
                return false;
            }
            i += 1;
        }
        proof {
            lemma_claim_batch_owned(c, now, sender, recs, indexes@, indexes@.len() as int);
            assert(indexes@.take(indexes@.len() as int) =~= indexes@);
            assert(indexes@.take(0) =~= Seq::<u32>::empty());
            assert forall|k: int|
                0 <= k < indexes@.len() && all_owned(sender, recs, indexes@, k) && #[trigger] indexes@[k] < recs.len()
                    && recs[indexes@[k] as int].owner@ == sender implies claim_computable(c, recs[indexes@[k] as int], now) by {}
        }
        let mut total: u128 = 0;
        let mut j: usize = 0;
        while j < indexes.len()
            invariant
                self.wf(),
                recs == self.stake_infos@,
                c == self.config,
                sender == info.sender@,
                now == env.time as u128,
                j <= indexes@.len(),
                all_owned(sender, recs, indexes@, indexes@.len() as int),
                forall|k: int|
                    0 <= k < indexes@.len() ==> claim_computable(c, recs[#[trigger] indexes@[k] as int], now),
                claim_batch_spec(c, now, sender, recs, indexes@) is Ok,
                claim_batch_spec(c, now, sender, recs, indexes@.take(j as int)) matches Ok((rs, amts)) && total
                    == sum_amounts(amts) && claimed_up_to(c, now, recs, indexes@, j as int, rs),
            decreases indexes@.len() - j,
        {
            let index = indexes[j];
            let seen = occurs_before(indexes, j, index);
            let ghost prev = claim_batch_spec(c, now, sender, recs, indexes@.take(j as int));
            proof {
                assert(indexes@.take(j as int + 1).drop_last() =~= indexes@.take(j as int));
                assert(indexes@.take(j as int + 1).last() == index);
                let _ = indexes@[j as int];
                lemma_unlocked_in_range(c, recs[index as int], now);
                lemma_claim_batch_sum_prefix(c, now, sender, recs, indexes@, j as int + 1);
                let (rs, amts) = prev->Ok_0;
                let _ = rs[index as int];
            }
            let rec = self.stake_infos.get(index).unwrap();
            let w: u128 = if seen {
                0
            } else {
                self.config.calc_claimable_reward(now, rec)
            };
            proof {
                let (rs, amts) = prev->Ok_0;
                assert(claimable_spec(c, rs[index as int], now) == w);
                let rs2 = if w == 0 {
                    rs
                } else {
                    rs.update(
                        index as int,
                        StakeInfo { claimed_reward: (rs[index as int].claimed_reward + w) as u128, ..rs[index as int] },
                    )
                };
                assert(claim_batch_spec(c, now, sender, recs, indexes@.take(j as int + 1)) == Ok::<
                    (Seq<StakeInfo>, Seq<u128>),
                    PoolError,
                >((rs2, amts.push(w))));
                assert(amts.push(w).drop_last() =~= amts);
                assert forall|k: int| 0 <= k < recs.len() implies #[trigger] rs2[k] == (if indexes@.take(
                    j as int + 1,
                ).contains(k as u32) {
                    StakeInfo { claimed_reward: unlocked_reward_spec(c, recs[k], now) as u128, ..recs[k] }
                } else {
                    recs[k]
                }) by {
                    let _ = rs[k];
                    if k != index {
                        if indexes@.take(j as int + 1).contains(k as u32) {
                            let q = choose|q: int| 0 <= q < j + 1 && #[trigger] indexes@.take(j as int + 1)[q] == k as u32;
                            assert(q != j);
                            assert(indexes@.take(j as int)[q] == k as u32);
                        }
                        if indexes@.take(j as int).contains(k as u32) {
                            let q = choose|q: int| 0 <= q < j && #[trigger] indexes@.take(j as int)[q] == k as u32;
                            assert(indexes@.take(j as int + 1)[q] == k as u32);
                        }
                    } else {
                        assert(indexes@.take(j as int + 1)[j as int] == index);
                    }
                }
            }
            total = match total.checked_add(w) {
                Some(t) => t,
                None => return false,
            };
            j += 1;
        }
        proof {
            assert(indexes@.take(indexes@.len() as int) =~= indexes@);
        }
        total == 0 || self.accrual_fits(total)
    }
}

impl CollateralPool {
    /// The stored vector and index map are well formed.
    pub open spec fn wf(&self) -> bool {
        self.stake_infos.wf() && self.staker_indexes.wf()
    }

    /// Sets up a pool. The addresses are the outcomes of validating the
    /// message's token, provider and admin, which are checked in that order.
    pub fn instantiate(
        token: Result<String, StdError>,
        lock_period: u128,
        staker_reward_share: u128,
        apy: u128,
        min_stake_amount: u128,
        installment_num: u128,
        provider: Result<String, StdError>,
        admin: Result<String, StdError>,
    ) -> (r: Result<Self, PoolError>)
        ensures
            token is Err ==> r == Err::<Self, PoolError>(PoolError::Std(token->Err_0)),
            token is Ok && provider is Err ==> r == Err::<Self, PoolError>(PoolError::Std(provider->Err_0)),
            token is Ok && provider is Ok && admin is Err ==> r == Err::<Self, PoolError>(
                PoolError::Std(admin->Err_0),
            ),
            r is Ok <==> (token is Ok && provider is Ok && admin is Ok),
            r matches Ok(p) ==> {
                &&& p.wf()
                &&& p.config == (Config {
                    token: token->Ok_0,
                    lock_period,
                    staker_reward_share,
                    apy,
                    min_stake_amount,
                    installment_num,
                    provider: Ownership { owner: provider->Ok_0, pending_owner: None },
                    admin: Ownership { owner: admin->Ok_0, pending_owner: None },
                })
                &&& p.beneficiary_info == (BeneficiaryInfo { beneficiary: None, total_reward: 0, claimed_reward: 0 })
                &&& p.asset_info == (AssetInfo {
                    total_collateral: 0,
                    unstaked_collateral: 0,
                    total_claimed_reward: 0,
                    total_security_deposit: 0,
                })
                &&& p.stake_infos@ == Seq::<StakeInfo>::empty()
                &&& p.staker_indexes@ == Map::<Seq<char>, Vec<u32>>::empty()
            },
    {
        let token = match token {
            Ok(t) => t,
            Err(e) => return Err(PoolError::Std(e)),
        };
        let provider = match provider {
            Ok(p) => p,
            Err(e) => return Err(PoolError::Std(e)),
        };
        let admin = match admin {
            Ok(a) => a,
            Err(e) => return Err(PoolError::Std(e)),
        };
        let config = Config {
            token,
            lock_period,
            staker_reward_share,
            apy,
            min_stake_amount,
            installment_num,
            provider: Ownership::new(provider),
            admin: Ownership::new(admin),
        };
        Ok(CollateralPool {
            config,
            beneficiary_info: BeneficiaryInfo::default(),
            asset_info: AssetInfo::default(),
            stake_infos: Vector::new(),
            staker_indexes: AssocMap::new(),
        })
    }

    /// The provider nominates `new_provider` (its validated address) to take over.
    pub fn execute_transfer_provider_ownership(&mut self, info: &MessageInfo, new_provider: Result<String, StdError>) -> (r:
        Result<(), PoolError>)
        ensures
            old(self).config.provider.owner@ != info.sender@ ==> r == Err::<(), PoolError>(PoolError::Unauthorized),
            old(self).config.provider.owner@ == info.sender@ && new_provider is Err ==> r == Err::<(), PoolError>(
                PoolError::Std(new_provider->Err_0),
            ),
            r is Ok <==> old(self).config.provider.owner@ == info.sender@ && new_provider is Ok,
            r is Ok ==> *final(self) == (CollateralPool {
                config: Config {
                    provider: Ownership { pending_owner: Some(new_provider->Ok_0), ..old(self).config.provider },
                    ..old(self).config
                },
                ..*old(self)
            }),
            r is Err ==> *final(self) == *old(self),
    {
        if !self.config.provider.validate(&info.sender) {
            return Err(PoolError::Unauthorized);
        }
        match new_provider {
            Ok(p) => {
                self.config.provider.pending_owner = Some(p);
                Ok(())
            },
            Err(e) => Err(PoolError::Std(e)),
        }
    }

    /// The nominated provider takes over.
    pub fn execute_accept_provider_ownership(&mut self, info: &MessageInfo) -> (r: Result<(), PoolError>)
        ensures
            r is Ok <==> accept_spec(old(self).config.provider, info.sender@).0,
            r is Err ==> r == Err::<(), PoolError>(PoolError::Unauthorized) && *final(self) == *old(self),
            r is Ok ==> *final(self) == (CollateralPool {
                config: Config { provider: accept_spec(old(self).config.provider, info.sender@).1, ..old(self).config },
                ..*old(self)
            }),
    {
        if !self.config.provider.accept_ownership(&info.sender) {
            return Err(PoolError::Unauthorized);
        }
        Ok(())
    }

    /// The admin nominates `new_admin` (its validated address) to take over.
    pub fn execute_transfer_admin_ownership(&mut self, info: &MessageInfo, new_admin: Result<String, StdError>) -> (r:
        Result<(), PoolError>)
        ensures
            old(self).config.admin.owner@ != info.sender@ ==> r == Err::<(), PoolError>(PoolError::Unauthorized),
            old(self).config.admin.owner@ == info.sender@ && new_admin is Err ==> r == Err::<(), PoolError>(
                PoolError::Std(new_admin->Err_0),
            ),
            r is Ok <==> old(self).config.admin.owner@ == info.sender@ && new_admin is Ok,
            r is Ok ==> *final(self) == (CollateralPool {
                config: Config {
                    admin: Ownership { pending_owner: Some(new_admin->Ok_0), ..old(self).config.admin },
                    ..old(self).config
                },
                ..*old(self)
            }),
            r is Err ==> *final(self) == *old(self),
    {
        if !self.config.admin.validate(&info.sender) {
            return Err(PoolError::Unauthorized);
        }
        match new_admin {
            Ok(a) => {
                self.config.admin.pending_owner = Some(a);
                Ok(())
            },
            Err(e) => Err(PoolError::Std(e)),
        }
    }

    /// The nominated admin takes over.
    pub fn execute_accept_admin_ownership(&mut self, info: &MessageInfo) -> (r: Result<(), PoolError>)
        ensures
            r is Ok <==> accept_spec(old(self).config.admin, info.sender@).0,
            r is Err ==> r == Err::<(), PoolError>(PoolError::Unauthorized) && *final(self) == *old(self),
            r is Ok ==> *final(self) == (CollateralPool {
                config: Config { admin: accept_spec(old(self).config.admin, info.sender@).1, ..old(self).config },
                ..*old(self)
            }),
    {
        if !self.config.admin.accept_ownership(&info.sender) {
            return Err(PoolError::Unauthorized);
        }
        Ok(())
    }

    /// The admin names the beneficiary (its validated address), once.
    pub fn execute_init_beneficiary(&mut self, info: &MessageInfo, beneficiary: Result<String, StdError>) -> (r: Result<
        (),
        PoolError,
    >)
        ensures
            old(self).config.admin.owner@ != info.sender@ || old(self).beneficiary_info.beneficiary is Some ==> r
                == Err::<(), PoolError>(PoolError::Unauthorized),
            old(self).config.admin.owner@ == info.sender@ && old(self).beneficiary_info.beneficiary is None
                && beneficiary is Err ==> r == Err::<(), PoolError>(PoolError::Std(beneficiary->Err_0)),
            r is Ok <==> old(self).config.admin.owner@ == info.sender@ && old(self).beneficiary_info.beneficiary is None
                && beneficiary is Ok,
            r is Ok ==> *final(self) == (CollateralPool {
                beneficiary_info: BeneficiaryInfo { beneficiary: Some(beneficiary->Ok_0), ..old(self).beneficiary_info },
                ..*old(self)
            }),
            r is Err ==> *final(self) == *old(self),
    {
        if !self.config.admin.validate(&info.sender) {
            return Err(PoolError::Unauthorized);
        }
        if self.beneficiary_info.beneficiary.is_some() {
            return Err(PoolError::Unauthorized);
        }
        match beneficiary {
            Ok(b) => {
                self.beneficiary_info.beneficiary = Some(b);
                Ok(())
            },
            Err(e) => Err(PoolError::Std(e)),
        }
    }

    /// The CW20 message paying `amount` from the pool to `recipient`.
    fn transfer(&self, recipient: &String, amount: u128) -> (r: Vec<TokenMsg>)
        ensures
            r@ == seq![transfer_spec(self.config.token, *recipient, amount)],
    {
        let mut v = Vec::new();
        v.push(TokenMsg::Cw20Transfer { contract: self.config.token.clone(), recipient: recipient.clone(), amount });
        v
    }

    /// Stakes `amount` for `owner` (its validated address), pulled from the
    /// sender, as long as the security deposit covers the collateral after it.
    pub fn execute_stake(&mut self, env: &Env, info: &MessageInfo, owner: Result<String, StdError>, amount: u128) -> (r:
        Result<PoolOutcome, PoolError>)
        requires
            old(self).wf(),
            owner is Ok && amount >= old(self).config.min_stake_amount ==> {
                &&& old(self).asset_info.total_collateral + amount <= u128::MAX
                &&& security_deposit_computable(
                    old(self).config,
                    (old(self).asset_info.total_collateral + amount) as u128,
                )
                &&& security_deposit_spec(old(self).config, (old(self).asset_info.total_collateral + amount) as u128)
                    <= old(self).asset_info.total_security_deposit ==> {
                    &&& security_deposit_computable(old(self).config, amount)
                    &&& staker_reward_spec(old(self).config, amount) <= u128::MAX
                }
            },
        ensures
            final(self).wf(),
            owner is Err ==> r == Err::<PoolOutcome, PoolError>(PoolError::Std(owner->Err_0)),
            owner is Ok && amount < old(self).config.min_stake_amount ==> r == Err::<PoolOutcome, PoolError>(
                PoolError::InsufficientStakeAmount,
            ),
            owner is Ok && amount >= old(self).config.min_stake_amount && security_deposit_spec(
                old(self).config,
                (old(self).asset_info.total_collateral + amount) as u128,
            ) > old(self).asset_info.total_security_deposit ==> r == Err::<PoolOutcome, PoolError>(
                PoolError::InsufficientFunds,
            ),
            r is Ok <==> {
                &&& owner is Ok
                &&& amount >= old(self).config.min_stake_amount
                &&& security_deposit_spec(old(self).config, (old(self).asset_info.total_collateral + amount) as u128)
                    <= old(self).asset_info.total_security_deposit
                &&& old(self).stake_infos@.len() < u32::MAX
            },
            r matches Err(e) ==> *final(self) == *old(self) && (e is Std || e is InsufficientStakeAmount
                || e is InsufficientFunds),
            r matches Ok(out) ==> {
                &&& final(self).config == old(self).config
                &&& final(self).beneficiary_info == old(self).beneficiary_info
                &&& final(self).asset_info == (AssetInfo {
                    total_collateral: (old(self).asset_info.total_collateral + amount) as u128,
                    ..old(self).asset_info
                })
                &&& final(self).stake_infos@ == old(self).stake_infos@.push(
                    StakeInfo {
                        owner: owner->Ok_0,
                        amount,
                        start_at: env.time as u128,
                        total_reward: staker_reward_spec(old(self).config, amount) as u128,
                        claimed_reward: 0,
                        unstaked: false,
                    },
                )
                &&& final(self).staker_indexes@ == old(self).staker_indexes@.insert(
                    owner->Ok_0@,
                    final(self).staker_indexes@[owner->Ok_0@],
                )
                &&& final(self).staker_indexes@[owner->Ok_0@]@ == indexes_of(
                    old(self).staker_indexes@,
                    owner->Ok_0@,
                ).push(old(self).stake_infos@.len() as u32)
                &&& out.amount == amount
                &&& out.messages@ == seq![
                    transfer_from_spec(old(self).config.token, info.sender, env.contract_address, amount),
                ]
            },
    {
        let owner = match owner {
            Ok(o) => o,
            Err(e) => return Err(PoolError::Std(e)),
        };
        if amount < self.config.min_stake_amount {
            return Err(PoolError::InsufficientStakeAmount);
        }
        let required_security = self.config.calc_security_deposit_by_collateral(self.asset_info.total_collateral + amount);
        if required_security > self.asset_info.total_security_deposit {
            return Err(PoolError::InsufficientFunds);
        }
        let total_reward = self.config.calc_staker_reward(amount);
        let index = self.stake_infos.len();
        if index == u32::MAX {
            return Err(PoolError::Std(StdError::GenericErr { msg: String::from_str("Vector overflow") }));
        }
        let stake_info = StakeInfo {
            owner: owner.clone(),
            amount,
            start_at: env.time as u128,
            total_reward,
            claimed_reward: 0,
            unstaked: false,
        };
        self.asset_info.total_collateral = self.asset_info.total_collateral + amount;
        let ghost old_indexes = self.staker_indexes@;
        let mut indexes = match self.staker_indexes.remove(&owner) {
            Some(v) => v,
            None => Vec::new(),
        };
        assert(indexes@ == indexes_of(old_indexes, owner@));
        indexes.push(index);
        self.staker_indexes.insert(owner.clone(), indexes);
        assert(self.staker_indexes@ =~= old_indexes.insert(owner@, self.staker_indexes@[owner@]));
        let _ = self.stake_infos.push(stake_info);
        let mut messages = Vec::new();
        messages.push(
            TokenMsg::Cw20TransferFrom {
                contract: self.config.token.clone(),
                owner: info.sender.clone(),
                recipient: env.contract_address.clone(),
                amount,
            },
        );
        Ok(PoolOutcome { amount, messages })
    }

    /// The stake at `index`, if it exists and belongs to `sender`.
    fn owned_stake(&self, index: u32, sender: &String) -> (r: Result<&StakeInfo, PoolError>)
        requires
            self.wf(),
        ensures
            index >= self.stake_infos@.len() ==> r == Err::<&StakeInfo, PoolError>(
                PoolError::Std(StdError::OutOfBounds { key: index }),
            ),
            index < self.stake_infos@.len() && self.stake_infos@[index as int].owner@ != sender@ ==> r == Err::<
                &StakeInfo,
                PoolError,
            >(PoolError::Unauthorized),
            r is Ok <==> index < self.stake_infos@.len() && self.stake_infos@[index as int].owner@ == sender@,
            r matches Ok(s) ==> *s == self.stake_infos@[index as int],
    {
        let stake_info = match self.stake_infos.get(index) {
            Ok(s) => s,
            Err(e) => return Err(PoolError::Std(e)),
        };
        if stake_info.owner != *sender {
            return Err(PoolError::Unauthorized);
        }
        Ok(stake_info)
    }

    /// The owner takes the whole stake at `index` back once its lock period is over.
    pub fn execute_unstake(&mut self, env: &Env, info: &MessageInfo, index: u32) -> (r: Result<PoolOutcome, PoolError>)
        requires
            old(self).wf(),
            index < old(self).stake_infos@.len() && old(self).stake_infos@[index as int].owner@ == info.sender@ ==> {
                let s = old(self).stake_infos@[index as int];
                &&& s.start_at + old(self).config.lock_period <= u128::MAX
                &&& s.start_at + old(self).config.lock_period <= env.time && !s.unstaked
                    ==> old(self).asset_info.unstaked_collateral + s.amount <= u128::MAX
            },
        ensures
            final(self).wf(),
            index >= old(self).stake_infos@.len() ==> r == Err::<PoolOutcome, PoolError>(
                PoolError::Std(StdError::OutOfBounds { key: index }),
            ),
            index < old(self).stake_infos@.len() ==> {
                let s = old(self).stake_infos@[index as int];
                &&& s.owner@ != info.sender@ ==> r == Err::<PoolOutcome, PoolError>(PoolError::Unauthorized)
                &&& s.owner@ == info.sender@ && s.start_at + old(self).config.lock_period > env.time ==> r == Err::<
                    PoolOutcome,
                    PoolError,
                >(PoolError::LockPeriodNotEnded)
                &&& s.owner@ == info.sender@ && s.start_at + old(self).config.lock_period <= env.time && s.unstaked
                    ==> r == Err::<PoolOutcome, PoolError>(PoolError::AlreadyUnstaked)
                &&& r is Ok <==> s.owner@ == info.sender@ && s.start_at + old(self).config.lock_period <= env.time
                    && !s.unstaked
                &&& r matches Ok(out) ==> {
                    &&& *final(self) == (CollateralPool {
                        asset_info: AssetInfo {
                            unstaked_collateral: (old(self).asset_info.unstaked_collateral + s.amount) as u128,
                            ..old(self).asset_info
                        },
                        stake_infos: final(self).stake_infos,
                        ..*old(self)
                    })
                    &&& final(self).stake_infos@ == old(self).stake_infos@.update(
                        index as int,
                        StakeInfo { unstaked: true, ..s },
                    )
                    &&& out.amount == s.amount
                    &&& out.messages@ == seq![transfer_spec(old(self).config.token, s.owner, s.amount)]
                }
            },
            r is Err ==> *final(self) == *old(self),
    {
        let mut stake_info = match self.owned_stake(index, &info.sender) {
            Ok(s) => s.clone(),
            Err(e) => return Err(e),
        };
        if stake_info.start_at + self.config.lock_period > env.time as u128 {
            return Err(PoolError::LockPeriodNotEnded);
        }
        if stake_info.unstaked {
            return Err(PoolError::AlreadyUnstaked);
        }
        stake_info.unstaked = true;
        let amount = stake_info.amount;
        let messages = self.transfer(&stake_info.owner, amount);
        let _ = self.stake_infos.set(index, stake_info);
        self.asset_info.unstaked_collateral = self.asset_info.unstaked_collateral + amount;
        Ok(PoolOutcome { amount, messages })
    }

    /// The owner of the stake at `index` claims its unlocked rewards; the
    /// beneficiary accrues its matching reward.
    pub fn execute_claim_reward(&mut self, env: &Env, info: &MessageInfo, index: u32) -> (r: Result<
        PoolOutcome,
        PoolError,
    >)
        requires
            old(self).wf(),
            index < old(self).stake_infos@.len() && old(self).stake_infos@[index as int].owner@ == info.sender@ ==> {
                let s = old(self).stake_infos@[index as int];
                &&& claim_computable(old(self).config, s, env.time as u128)
                &&& claimable_spec(old(self).config, s, env.time as u128) > 0 ==> reward_accrual_fits(
                    *old(self),
                    claimable_spec(old(self).config, s, env.time as u128) as u128,
                )
            },
        ensures
            final(self).wf(),
            index >= old(self).stake_infos@.len() ==> r == Err::<PoolOutcome, PoolError>(
                PoolError::Std(StdError::OutOfBounds { key: index }),
            ),
            index < old(self).stake_infos@.len() ==> {
                let s = old(self).stake_infos@[index as int];
                let c = claimable_spec(old(self).config, s, env.time as u128);
                &&& s.owner@ != info.sender@ ==> r == Err::<PoolOutcome, PoolError>(PoolError::Unauthorized)
                &&& r is Ok <==> s.owner@ == info.sender@
                &&& r matches Ok(out) ==> out.amount == c
                &&& r is Ok && c == 0 ==> (r matches Ok(out) && out.messages@ == Seq::<TokenMsg>::empty())
                    && *final(self) == *old(self)
                &&& r is Ok && c > 0 ==> {
                    &&& r matches Ok(out) && out.messages@ == seq![
                        transfer_spec(old(self).config.token, info.sender, c as u128),
                    ]
                    &&& final(self).config == old(self).config
                    &&& final(self).staker_indexes == old(self).staker_indexes
                    &&& final(self).stake_infos@ == old(self).stake_infos@.update(
                        index as int,
                        StakeInfo { claimed_reward: (s.claimed_reward + c) as u128, ..s },
                    )
                    &&& final(self).asset_info == (AssetInfo {
                        total_claimed_reward: (old(self).asset_info.total_claimed_reward + c) as u128,
                        ..old(self).asset_info
                    })
                    &&& final(self).beneficiary_info == (BeneficiaryInfo {
                        total_reward: (old(self).beneficiary_info.total_reward + beneficiary_reward_spec(
                            old(self).config,
                            c as u128,
                        )) as u128,
                        ..old(self).beneficiary_info
                    })
                }
            },
            r is Err ==> *final(self) == *old(self),
    {
        let mut stake_info = match self.owned_stake(index, &info.sender) {
            Ok(s) => s.clone(),
            Err(e) => return Err(e),
        };
        let claimable_reward = self.config.calc_claimable_reward(env.time as u128, &stake_info);
        if claimable_reward == 0 {
            return Ok(PoolOutcome { amount: 0, messages: Vec::new() });
        }
        stake_info.claimed_reward = stake_info.claimed_reward + claimable_reward;
        let _ = self.stake_infos.set(index, stake_info);
        self.asset_info.total_claimed_reward = self.asset_info.total_claimed_reward + claimable_reward;
        let beneficiary_reward = self.config.calc_beneficiary_reward_by_staker_reward(claimable_reward);
        self.beneficiary_info.total_reward = self.beneficiary_info.total_reward + beneficiary_reward;
        let messages = self.transfer(&info.sender, claimable_reward);
        Ok(PoolOutcome { amount: claimable_reward, messages })
    }

    /// `info.sender` claims the unlocked rewards of each listed stake in
    /// turn and receives them together; the beneficiary accrues its matching
    /// reward on the total.
    #[verifier::rlimit(40)]
    pub fn execute_claim_rewards_batch(&mut self, env: &Env, info: &MessageInfo, indexes: &Vec<u32>) -> (r: Result<
        BatchOutcome,
        PoolError,
    >)
        requires
            old(self).wf(),
            claim_batch_computable(old(self).config, env.time as u128, info.sender@, old(self).stake_infos@, indexes@),
            claim_batch_spec(old(self).config, env.time as u128, info.sender@, old(self).stake_infos@, indexes@) matches Ok(
                (_, amts),
            ) ==> {
                &&& sum_amounts(amts) <= u128::MAX
                &&& sum_amounts(amts) > 0 ==> reward_accrual_fits(*old(self), sum_amounts(amts) as u128)
            },
        ensures
            final(self).wf(),
            r is Err ==> *final(self) == *old(self),
            match claim_batch_spec(old(self).config, env.time as u128, info.sender@, old(self).stake_infos@, indexes@) {
                Err(e) => r == Err::<BatchOutcome, PoolError>(e),
                Ok((rs, amts)) => {
                    let t = sum_amounts(amts);
                    &&& r matches Ok(out) && out.amounts@ == amts && out.total == t
                    &&& final(self).stake_infos@ == rs
                    &&& final(self).config == old(self).config
                    &&& final(self).staker_indexes == old(self).staker_indexes
                    &&& t == 0 ==> {
                        &&& final(self).asset_info == old(self).asset_info
                        &&& final(self).beneficiary_info == old(self).beneficiary_info
                        &&& r matches Ok(out) && out.messages@ == Seq::<TokenMsg>::empty()
                    }
                    &&& t > 0 ==> {
                        &&& final(self).asset_info == (AssetInfo {
                            total_claimed_reward: (old(self).asset_info.total_claimed_reward + t) as u128,
                            ..old(self).asset_info
                        })
                        &&& final(self).beneficiary_info == (BeneficiaryInfo {
                            total_reward: (old(self).beneficiary_info.total_reward + beneficiary_reward_spec(
                                old(self).config,
                                t as u128,
                            )) as u128,
                            ..old(self).beneficiary_info
                        })
                        &&& r matches Ok(out) && out.messages@ == seq![
                            transfer_spec(old(self).config.token, info.sender, t as u128),
                        ]
                    }
                },
            },
    {
        let now = env.time as u128;
        let ghost recs = self.stake_infos@;
        let ghost c = self.config;
        let ghost sender = info.sender@;
        let mut i: usize = 0;
        while i < indexes.len()
            invariant
                self.wf(),
                *self == *old(self),
                recs == self.stake_infos@,
                c == self.config,
                sender == info.sender@,
                now == env.time as u128,
                i <= indexes@.len(),
                all_owned(sender, recs, indexes@, i as int),
            decreases indexes@.len() - i,
        {
            match self.owned_stake(indexes[i], &info.sender) {
                Ok(_) => {},
                Err(e) => {
                    proof {
                        lemma_claim_batch_owned(c, now, sender, recs, indexes@, i as int);
                        assert(indexes@.take(i as int + 1).drop_last() =~= indexes@.take(i as int));
                        assert(indexes@.take(i as int + 1).last() == indexes@[i as int]);
                        lemma_claim_batch_err(c, now, sender, recs, indexes@, i as int + 1);
                    }
                    return Err(e);
                },
            }
            i += 1;
        }
        proof {
            lemma_claim_batch_owned(c, now, sender, recs, indexes@, indexes@.len() as int);
            assert(indexes@.take(indexes@.len() as int) =~= indexes@);
            assert(indexes@.take(0) =~= Seq::<u32>::empty());
        }
        let mut amounts: Vec<u128> = Vec::new();
        let mut total: u128 = 0;
        let mut j: usize = 0;
        while j < indexes.len()
            invariant
                self.wf(),
                self.config == c,
                c == old(self).config,
                self.staker_indexes == old(self).staker_indexes,
                self.asset_info == old(self).asset_info,
                self.beneficiary_info == old(self).beneficiary_info,
                recs == old(self).stake_infos@,
                sender == info.sender@,
                now == env.time as u128,
                j <= indexes@.len(),
                all_owned(sender, recs, indexes@, indexes@.len() as int),
                claim_batch_computable(c, now, sender, recs, indexes@),
                claim_batch_spec(c, now, sender, recs, indexes@) is Ok,
                sum_amounts(claim_batch_spec(c, now, sender, recs, indexes@)->Ok_0.1) <= u128::MAX,
                claim_batch_spec(c, now, sender, recs, indexes@.take(j as int)) == Ok::<
                    (Seq<StakeInfo>, Seq<u128>),
                    PoolError,
                >((self.stake_infos@, amounts@)),
                claims_consistent(c, now, self.stake_infos@, recs),
                total == sum_amounts(amounts@),
            decreases indexes@.len() - j,
        {
            let index = indexes[j];
            let ghost before = self.stake_infos@;
            proof {
                assert(indexes@.take(j as int + 1).drop_last() =~= indexes@.take(j as int));
                assert(indexes@.take(j as int + 1).last() == index);
                let _ = indexes@[j as int];
                assert(all_owned(sender, recs, indexes@, j as int));
                assert(claim_computable(c, recs[index as int], now));
                lemma_unlocked_in_range(c, recs[index as int], now);
                lemma_claim_batch_sum_prefix(c, now, sender, recs, indexes@, j as int + 1);
                let _ = before[index as int];
            }
            let mut record = self.stake_infos.get(index).unwrap().clone();
            let w = self.config.calc_claimable_reward(now, &record);
            let ghost prev_amounts = amounts@;
            amounts.push(w);
            proof {
                assert(amounts@.drop_last() =~= prev_amounts);
            }
            if w != 0 {
                record.claimed_reward = record.claimed_reward + w;
                let _ = self.stake_infos.set(index, record);
                proof {
                    let rs = self.stake_infos@;
                    assert forall|k: int| 0 <= k < rs.len() implies {
                        &&& #[trigger] rs[k] == StakeInfo { claimed_reward: rs[k].claimed_reward, ..recs[k] }
                        &&& rs[k].claimed_reward == recs[k].claimed_reward || rs[k].claimed_reward
                            == unlocked_reward_spec(c, recs[k], now) as u128
                    } by {
                        let _ = before[k];
                    }
                }
                total = total + w;
            }
            j += 1;
        }
        proof {
            assert(indexes@.take(indexes@.len() as int) =~= indexes@);
        }
        if total == 0 {
            return Ok(BatchOutcome { total, amounts, messages: Vec::new() });
        }
        self.asset_info.total_claimed_reward = self.asset_info.total_claimed_reward + total;
        let beneficiary_reward = self.config.calc_beneficiary_reward_by_staker_reward(total);
        self.beneficiary_info.total_reward = self.beneficiary_info.total_reward + beneficiary_reward;
        let messages = self.transfer(&info.sender, total);
        Ok(BatchOutcome { total, amounts, messages })
    }

    /// The beneficiary claims all its accrued reward not yet claimed.
    pub fn execute_claim_beneficiary_reward(&mut self, info: &MessageInfo) -> (r: Result<PoolOutcome, PoolError>)
        requires
            opt_is(old(self).beneficiary_info.beneficiary, info.sender@) ==> {
                &&& old(self).beneficiary_info.claimed_reward <= old(self).beneficiary_info.total_reward
                &&& old(self).asset_info.total_claimed_reward + old(self).beneficiary_info.total_reward
                    - old(self).beneficiary_info.claimed_reward <= u128::MAX
            },
        ensures
            r is Err <==> !opt_is(old(self).beneficiary_info.beneficiary, info.sender@),
            r is Err ==> r == Err::<PoolOutcome, PoolError>(PoolError::Unauthorized) && *final(self) == *old(self),
            r matches Ok(out) ==> {
                let c = old(self).beneficiary_info.total_reward - old(self).beneficiary_info.claimed_reward;
                &&& out.amount == c
                &&& c == 0 ==> out.messages@ == Seq::<TokenMsg>::empty() && *final(self) == *old(self)
                &&& c > 0 ==> {
                    &&& out.messages@ == seq![transfer_spec(old(self).config.token, info.sender, c as u128)]
                    &&& *final(self) == (CollateralPool {
                        beneficiary_info: BeneficiaryInfo {
                            claimed_reward: old(self).beneficiary_info.total_reward,
                            ..old(self).beneficiary_info
                        },
                        asset_info: AssetInfo {
                            total_claimed_reward: (old(self).asset_info.total_claimed_reward + c) as u128,
                            ..old(self).asset_info
                        },
                        ..*old(self)
                    })
                }
            },
    {
        let is_beneficiary = match &self.beneficiary_info.beneficiary {
            Some(b) => *b == info.sender,
            None => false,
        };
        if !is_beneficiary {
            return Err(PoolError::Unauthorized);
        }
        let claimable_reward = self.beneficiary_info.total_reward - self.beneficiary_info.claimed_reward;
        if claimable_reward == 0 {
            return Ok(PoolOutcome { amount: 0, messages: Vec::new() });
        }
        self.beneficiary_info.claimed_reward = self.beneficiary_info.total_reward;
        self.asset_info.total_claimed_reward = self.asset_info.total_claimed_reward + claimable_reward;
        let messages = self.transfer(&info.sender, claimable_reward);
        Ok(PoolOutcome { amount: claimable_reward, messages })
    }

    /// The admin sends the provider whatever the pool's token balance holds
    /// beyond the collateral and deposit still owed. `balance` is the outcome
    /// of querying the pool's balance of its token.
    pub fn execute_collect(&self, info: &MessageInfo, balance: Result<u128, StdError>) -> (r: Result<
        PoolOutcome,
        PoolError,
    >)
        requires
            self.config.admin.owner@ == info.sender@ && balance is Ok ==> collect_computable(
                self.asset_info,
                balance->Ok_0,
            ),
        ensures
            self.config.admin.owner@ != info.sender@ ==> r == Err::<PoolOutcome, PoolError>(PoolError::Unauthorized),
            self.config.admin.owner@ == info.sender@ && balance is Err ==> r == Err::<PoolOutcome, PoolError>(
                PoolError::Std(balance->Err_0),
            ),
            self.config.admin.owner@ == info.sender@ && balance is Ok ==> {
                let b = balance->Ok_0;
                let a = self.asset_info;
                &&& a.total_security_deposit + a.total_collateral >= b + a.unstaked_collateral
                    + a.total_claimed_reward ==> r == Err::<PoolOutcome, PoolError>(PoolError::NoLockedFunds)
                &&& a.total_security_deposit + a.total_collateral < b + a.unstaked_collateral + a.total_claimed_reward
                    ==> (r matches Ok(out) && out.amount == extra_funds_spec(a, b) && out.messages@ == seq![
                    transfer_spec(self.config.token, self.config.provider.owner, extra_funds_spec(a, b) as u128),
                ])
            },
    {
        if !self.config.admin.validate(&info.sender) {
            return Err(PoolError::Unauthorized);
        }
        let balance = match balance {
            Ok(b) => b,
            Err(e) => return Err(PoolError::Std(e)),
        };
        let a = &self.asset_info;
        if a.total_security_deposit + a.total_collateral >= balance + a.unstaked_collateral + a.total_claimed_reward {
            return Err(PoolError::NoLockedFunds);
        }
        let extra_fund = balance - (a.total_collateral + a.total_security_deposit - a.unstaked_collateral
            - a.total_claimed_reward);
        let messages = self.transfer(&self.config.provider.owner, extra_fund);
        Ok(PoolOutcome { amount: extra_fund, messages })
    }

    /// Answers `msg`. `staker` is the outcome of validating the address that
    /// a `StakerIndexes` question names; other questions ignore it.
    pub fn query(&self, msg: &QueryMsg, staker: Result<String, StdError>) -> (r: Result<QueryResponse, StdError>)
        requires
            self.wf(),
        ensures
            msg is Config ==> r == Ok::<QueryResponse, StdError>(QueryResponse::Config(self.config)),
            msg is BeneficiaryInfo ==> r == Ok::<QueryResponse, StdError>(
                QueryResponse::BeneficiaryInfo(self.beneficiary_info),
            ),
            msg is AssetInfo ==> r == Ok::<QueryResponse, StdError>(QueryResponse::AssetInfo(self.asset_info)),
            msg matches QueryMsg::StakeInfo { index } ==> if index < self.stake_infos@.len() {
                r == Ok::<QueryResponse, StdError>(QueryResponse::StakeInfo(self.stake_infos@[index as int]))
            } else {
                r == Err::<QueryResponse, StdError>(StdError::OutOfBounds { key: *index })
            },
            msg is StakerIndexes ==> match staker {
                Err(e) => r == Err::<QueryResponse, StdError>(e),
                Ok(a) => if self.staker_indexes@.contains_key(a@) {
                    r matches Ok(QueryResponse::StakerIndexes(resp)) && resp.indexes@ == self.staker_indexes@[a@]@
                } else {
                    r matches Err(StdError::NotFound { kind }) && kind@ == "alloc::vec::Vec<u32>"@
                },
            },
    {
        match msg {
            QueryMsg::Config => Ok(QueryResponse::Config(self.config.clone())),
            QueryMsg::BeneficiaryInfo => Ok(QueryResponse::BeneficiaryInfo(self.beneficiary_info.clone())),
            QueryMsg::AssetInfo => Ok(QueryResponse::AssetInfo(self.asset_info)),
            QueryMsg::StakeInfo { index } => match self.stake_infos.get(*index) {
                Ok(s) => Ok(QueryResponse::StakeInfo(s.clone())),
                Err(e) => Err(e),
            },
            QueryMsg::StakerIndexes { .. } => {
                let staker = match staker {
                    Ok(s) => s,
                    Err(e) => return Err(e),
                };
                match self.staker_indexes.get(&staker) {
                    Some(v) => Ok(QueryResponse::StakerIndexes(StakerIndexesResponse { indexes: v.clone() })),
                    None => Err(StdError::NotFound { kind: String::from_str("alloc::vec::Vec<u32>") }),
                }
            },
        }
    }

    /// The provider adds `amount` to the security deposit, pulled from it.
    pub fn execute_deposit_security(&mut self, env: &Env, info: &MessageInfo, amount: u128) -> (r: Result<
        PoolOutcome,
        PoolError,
    >)
        requires
            old(self).config.provider.owner@ == info.sender@ ==> old(self).asset_info.total_security_deposit + amount
                <= u128::MAX,
        ensures
            r is Err <==> old(self).config.provider.owner@ != info.sender@,
            r is Err ==> r == Err::<PoolOutcome, PoolError>(PoolError::Unauthorized) && *final(self) == *old(self),
            r matches Ok(out) ==> {
                &&& *final(self) == (CollateralPool {
                    asset_info: AssetInfo {
                        total_security_deposit: (old(self).asset_info.total_security_deposit + amount) as u128,
                        ..old(self).asset_info
                    },
                    ..*old(self)
                })
                &&& out.amount == final(self).asset_info.total_security_deposit
                &&& out.messages@ == seq![
                    transfer_from_spec(old(self).config.token, info.sender, env.contract_address, amount),
                ]
            },
    {
        if !self.config.provider.validate(&info.sender) {
            return Err(PoolError::Unauthorized);
        }
        self.asset_info.total_security_deposit = self.asset_info.total_security_deposit + amount;
        let mut messages = Vec::new();
        messages.push(
            TokenMsg::Cw20TransferFrom {
                contract: self.config.token.clone(),
                owner: info.sender.clone(),
                recipient: env.contract_address.clone(),
                amount,
            },
        );
        Ok(PoolOutcome { amount: self.asset_info.total_security_deposit, messages })
    }

    /// The provider takes `amount` of the security deposit back, as far as
    /// the deposit exceeds what the pool's collateral requires.
    pub fn execute_withdraw_security(&mut self, info: &MessageInfo, amount: u128) -> (r: Result<
        PoolOutcome,
        PoolError,
    >)
        requires
            old(self).config.provider.owner@ == info.sender@ ==> {
                &&& security_deposit_computable(old(self).config, old(self).asset_info.total_collateral)
                &&& security_deposit_spec(old(self).config, old(self).asset_info.total_collateral)
                    <= old(self).asset_info.total_security_deposit
            },
        ensures
            old(self).config.provider.owner@ != info.sender@ ==> r == Err::<PoolOutcome, PoolError>(
                PoolError::Unauthorized,
            ),
            old(self).config.provider.owner@ == info.sender@ ==> (r is Err <==> old(
                self,
            ).asset_info.total_security_deposit - security_deposit_spec(
                old(self).config,
                old(self).asset_info.total_collateral,
            ) < amount),
            r is Err ==> r == Err::<PoolOutcome, PoolError>(PoolError::Unauthorized) || r == Err::<
                PoolOutcome,
                PoolError,
            >(PoolError::InsufficientFunds),
            r is Err ==> *final(self) == *old(self),
            r matches Ok(out) ==> {
                &&& *final(self) == (CollateralPool {
                    asset_info: AssetInfo {
                        total_security_deposit: (old(self).asset_info.total_security_deposit - amount) as u128,
                        ..old(self).asset_info
                    },
                    ..*old(self)
                })
                &&& out.amount == final(self).asset_info.total_security_deposit
                &&& out.messages@ == seq![transfer_spec(old(self).config.token, info.sender, amount)]
            },
    {
        if !self.config.provider.validate(&info.sender) {
            return Err(PoolError::Unauthorized);
        }
        let required_security = self.config.calc_security_deposit_by_collateral(self.asset_info.total_collateral);
        let remaining_security = self.asset_info.total_security_deposit - required_security;
        if remaining_security < amount {
            return Err(PoolError::InsufficientFunds);
        }
        self.asset_info.total_security_deposit = self.asset_info.total_security_deposit - amount;
        let messages = self.transfer(&info.sender, amount);
        Ok(PoolOutcome { amount: self.asset_info.total_security_deposit, messages })
    }
}

} // verus!
