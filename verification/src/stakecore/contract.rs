//! The stake core contract as state transitions: each operation takes the
//! contract's state and the message's inputs, and either refuses with an error
//! (leaving the state as it was) or returns the new state and the token
//! movements to carry out.

use crate::access_control::{role_admin_spec, AccessControl, AccessControlError, DEFAULT_ADMIN_ROLE};
use crate::assoc_map::AssocMap;
use crate::env::{Env, MessageInfo};
use crate::errors::{first_err, StdError};
use crate::stakecore::error::ContractError;
use crate::stakecore::types::{
    lemma_unlocked_reward_bounded,
    elapsed_spec, installment_computable, security_deposit_computable, security_deposit_spec,
    unlocked_principal_spec, unlocked_reward_spec, withdrawable_spec, AssetInfo, Config, StakeInfo,
};
use crate::universal_token::{receive_spec, send_msg_spec, Allowance, TokenConfig, TokenMsg, UniversalToken};
use crate::vector::Vector;
use vstd::prelude::*;

verus! {

/// Role of the accounts that provide the security deposit.
pub const PROVIDER_ROLE: &'static str = "provider";

/// Role of the accounts allowed to stake while the staker whitelist is on.
pub const STAKER_ROLE: &'static str = "staker";

/// Role of the accounts allowed to own stakes while the beneficiary whitelist is on.
pub const BENEFICIARY_ROLE: &'static str = "beneficiary";

/// Parameters a stake core is set up with.
#[derive(Debug)]
pub struct InstantiateMsg {
    pub admin: String,
    pub providers: Vec<String>,
    pub is_native_token: bool,
    pub token: String,
    pub lock_period: u64,
    pub cliff_period: u64,
    pub apy: u128,
    pub installment_num: u128,
    pub min_stake_amount: u128,
    pub enable_staker_whitelist: bool,
    pub enable_beneficiary_whitelist: bool,
}

/// The whole state of a stake core.
pub struct StakeCore {
    pub config: Config,
    pub token_config: TokenConfig,
    pub asset_info: AssetInfo,
    pub stake_records: Vector<StakeInfo>,
    pub staker_indexes: AssocMap<String, Vec<u32>>,
    pub access_control: AccessControl,
}

/// One of the four amounts of a stake record: 0 total principal, 1 withdrawn
/// principal, 2 total rewards, 3 withdrawn rewards.
pub open spec fn stake_field(r: StakeInfo, k: int) -> int {
    if k == 0 {
        r.total_principal as int
    } else if k == 1 {
        r.withdrawn_principal as int
    } else if k == 2 {
        r.total_rewards as int
    } else {
        r.withdrawn_rewards as int
    }
}

/// The sum of one amount over all stake records.
pub open spec fn sum_field(s: Seq<StakeInfo>, k: int) -> int
    decreases s.len(),
{
    if s.len() == 0 {
        0
    } else {
        sum_field(s.drop_last(), k) + stake_field(s.last(), k)
    }
}

/// Replacing one record changes a sum by the difference of that record's amounts.
pub proof fn lemma_sum_update(s: Seq<StakeInfo>, i: int, x: StakeInfo, k: int)
    requires
        0 <= i < s.len(),
    ensures
        sum_field(s.update(i, x), k) == sum_field(s, k) - stake_field(s[i], k) + stake_field(x, k),
    decreases s.len(),
{
    let t = s.update(i, x);
    if i == s.len() - 1 {
        assert(t.drop_last() =~= s.drop_last());
    } else {
        lemma_sum_update(s.drop_last(), i, x, k);
        assert(t.drop_last() =~= s.drop_last().update(i, x));
    }
}

/// Adding a record adds its amount to the sum.
pub proof fn lemma_sum_push(s: Seq<StakeInfo>, x: StakeInfo, k: int)
    ensures
        sum_field(s.push(x), k) == sum_field(s, k) + stake_field(x, k),
{
    assert(s.push(x).drop_last() =~= s);
}

/// Sums of amounts that are record by record no larger are no larger.
pub proof fn lemma_sum_le(s: Seq<StakeInfo>, k1: int, k2: int)
    requires
        forall|i: int| 0 <= i < s.len() ==> stake_field(#[trigger] s[i], k1) <= stake_field(s[i], k2),
    ensures
        sum_field(s, k1) <= sum_field(s, k2),
    decreases s.len(),
{
    if s.len() > 0 {
        assert forall|i: int| 0 <= i < s.drop_last().len() implies stake_field(#[trigger] s.drop_last()[i], k1)
            <= stake_field(s.drop_last()[i], k2) by {
            assert(s.drop_last()[i] == s[i]);
        }
        lemma_sum_le(s.drop_last(), k1, k2);
        assert(stake_field(s[s.len() - 1], k1) <= stake_field(s[s.len() - 1], k2));
    }
}

/// Sums are never negative.
pub proof fn lemma_sum_nonneg(s: Seq<StakeInfo>, k: int)
    ensures
        sum_field(s, k) >= 0,
    decreases s.len(),
{
    if s.len() > 0 {
        lemma_sum_nonneg(s.drop_last(), k);
    }
}

/// The roles granted to the providers among a sequence of validated addresses.
pub open spec fn provider_roles(s: Seq<Result<String, StdError>>) -> Set<(Seq<char>, Seq<char>)>
    decreases s.len(),
{
    if s.len() == 0 {
        Set::empty()
    } else {
        let rest = provider_roles(s.drop_last());
        match s.last() {
            Ok(a) => rest.insert((PROVIDER_ROLE@, a@)),
            Err(_) => rest,
        }
    }
}

/// The configuration an instantiate message sets up.
pub open spec fn config_of(msg: InstantiateMsg) -> Config {
    Config {
        lock_period: msg.lock_period,
        cliff_period: msg.cliff_period,
        apy: msg.apy,
        installment_num: msg.installment_num,
        min_stake_amount: msg.min_stake_amount,
        enable_staker_whitelist: msg.enable_staker_whitelist,
        enable_beneficiary_whitelist: msg.enable_beneficiary_whitelist,
    }
}

/// `e` refuses `account` for lacking `role`.
pub open spec fn is_unauthorized(e: ContractError, account: Seq<char>, role: Seq<char>) -> bool {
    e matches ContractError::AccessControl(AccessControlError::UnauthorizedAccount { account: a, needed_role: n })
        && a@ == account && n@ == role
}


/// What a successful stake reports.
#[derive(Debug)]
pub struct StakeOutcome {
    pub owner: String,
    pub principal: u128,
    pub rewards: u128,
    pub start_time: u64,
    pub index: u32,
    pub messages: Vec<TokenMsg>,
}


/// What a withdrawal reports: the amount paid out and the messages that pay it.
#[derive(Debug)]
pub struct WithdrawOutcome {
    pub amount: u128,
    pub messages: Vec<TokenMsg>,
}

/// Two record sequences with the same stakes: same length, and each record
/// has the same owner, start, and totals.
pub open spec fn same_stakes(a: Seq<StakeInfo>, b: Seq<StakeInfo>) -> bool {
    &&& a.len() == b.len()
    &&& forall|i: int|
        0 <= i < a.len() ==> {
            &&& (#[trigger] a[i]).owner == b[i].owner
            &&& a[i].start_time == b[i].start_time
            &&& a[i].total_principal == b[i].total_principal
            &&& a[i].total_rewards == b[i].total_rewards
        }
}


/// What a batch withdrawal reports: the total paid out, the amount taken from
/// each listed stake in order, and the messages that pay the total.
#[derive(Debug)]
pub struct BatchOutcome {
    pub total: u128,
    pub amounts: Vec<u128>,
    pub messages: Vec<TokenMsg>,
}

/// The sum of a sequence of amounts.
pub open spec fn sum_amounts(s: Seq<u128>) -> int
    decreases s.len(),
{
    if s.len() == 0 {
        0
    } else {
        sum_amounts(s.drop_last()) + s.last()
    }
}

/// Withdrawing the unlocked rewards of each listed stake in turn: the records
/// after, and the amount taken from each, or the first refusal (an index
/// beyond the records, or a stake of someone else).
pub open spec fn batch_spec(c: Config, now: u64, sender: Seq<char>, recs: Seq<StakeInfo>, idx: Seq<u32>) -> Result<
    (Seq<StakeInfo>, Seq<u128>),
    ContractError,
>
    decreases idx.len(),
{
    if idx.len() == 0 {
        Ok((recs, Seq::empty()))
    } else {
        match batch_spec(c, now, sender, recs, idx.drop_last()) {
            Err(e) => Err(e),
            Ok((rs, amts)) => {
                let i = idx.last();
                if i >= rs.len() {
                    Err(ContractError::Std(StdError::OutOfBounds { key: i }))
                } else if rs[i as int].owner@ != sender {
                    Err(ContractError::Unauthorized)
                } else {
                    let rec = rs[i as int];
                    let w = withdrawable_spec(unlocked_reward_spec(c, rec, now), rec.withdrawn_rewards as int);
                    if w == 0 {
                        Ok((rs, amts.push(0)))
                    } else {
                        Ok((
                            rs.update(i as int, StakeInfo { withdrawn_rewards: (rec.withdrawn_rewards + w) as u128, ..rec }),
                            amts.push(w as u128),
                        ))
                    }
                }
            },
        }
    }
}

/// A stake whose withdrawn rewards have caught up with what is unlocked at `now`.
pub open spec fn rewards_settled(c: Config, s: StakeInfo, now: u64) -> bool {
    unlocked_reward_spec(c, s, now) <= s.withdrawn_rewards
}

/// After a batch withdrawal, every listed stake is in range, the sender's,
/// and settled at that moment.
pub proof fn lemma_batch_settles(c: Config, now: u64, sender: Seq<char>, recs: Seq<StakeInfo>, idx: Seq<u32>)
    requires
        c.installment_num > 0,
        batch_spec(c, now, sender, recs, idx) is Ok,
    ensures
        ({
            let rs = batch_spec(c, now, sender, recs, idx)->Ok_0.0;
            forall|k: int|
                0 <= k < idx.len() ==> (#[trigger] idx[k]) < rs.len() && rs[idx[k] as int].owner@ == sender
                    && rewards_settled(c, rs[idx[k] as int], now)
        }),
    decreases idx.len(),
{
    if idx.len() > 0 {
        lemma_batch_settles(c, now, sender, recs, idx.drop_last());
        let (rp, ap) = batch_spec(c, now, sender, recs, idx.drop_last())->Ok_0;
        let i = idx.last();
        let rec = rp[i as int];
        lemma_unlocked_reward_bounded(c, rec, now);
        let rs = batch_spec(c, now, sender, recs, idx)->Ok_0.0;
        assert forall|k: int|
            0 <= k < idx.len() implies (#[trigger] idx[k]) < rs.len() && rs[idx[k] as int].owner@ == sender
                && rewards_settled(c, rs[idx[k] as int], now) by {
            if k < idx.len() - 1 {
                assert(idx.drop_last()[k] == idx[k]);
            }
        }
    }
}

/// A batch withdrawal over settled stakes of the sender pays nothing and
/// changes nothing.
pub proof fn lemma_batch_over_settled(c: Config, now: u64, sender: Seq<char>, recs: Seq<StakeInfo>, idx: Seq<u32>)
    requires
        forall|k: int|
            0 <= k < idx.len() ==> (#[trigger] idx[k]) < recs.len() && recs[idx[k] as int].owner@ == sender
                && rewards_settled(c, recs[idx[k] as int], now),
    ensures
        batch_spec(c, now, sender, recs, idx) == Ok::<(Seq<StakeInfo>, Seq<u128>), ContractError>(
            (recs, Seq::new(idx.len(), |k: int| 0u128)),
        ),
    decreases idx.len(),
{
    if idx.len() > 0 {
        assert forall|k: int| 0 <= k < idx.len() - 1 implies (#[trigger] idx.drop_last()[k]) < recs.len()
            && recs[idx.drop_last()[k] as int].owner@ == sender && rewards_settled(c, recs[idx.drop_last()[k] as int], now) by {
            assert(idx.drop_last()[k] == idx[k]);
        }
        lemma_batch_over_settled(c, now, sender, recs, idx.drop_last());
        let i = idx[idx.len() - 1];
        assert(i < recs.len() && rewards_settled(c, recs[i as int], now));
        assert(withdrawable_spec(unlocked_reward_spec(c, recs[i as int], now), recs[i as int].withdrawn_rewards as int) == 0);
        assert(Seq::new((idx.len() - 1) as nat, |k: int| 0u128).push(0u128) =~= Seq::new(idx.len(), |k: int| 0u128));
    } else {
        assert(Seq::new(0, |k: int| 0u128) =~= Seq::<u128>::empty());
    }
}

/// A second batch withdrawal of the same stakes at the same moment pays
/// nothing: every amount is zero and the stakes stay as the first left them.
pub proof fn lemma_batch_twice_pays_nothing(c: Config, now: u64, sender: Seq<char>, recs: Seq<StakeInfo>, idx: Seq<u32>)
    requires
        c.installment_num > 0,
        batch_spec(c, now, sender, recs, idx) is Ok,
    ensures
        ({
            let rs = batch_spec(c, now, sender, recs, idx)->Ok_0.0;
            batch_spec(c, now, sender, rs, idx) == Ok::<(Seq<StakeInfo>, Seq<u128>), ContractError>(
                (rs, Seq::new(idx.len(), |k: int| 0u128)),
            )
        }),
{
    lemma_batch_settles(c, now, sender, recs, idx);
    lemma_batch_over_settled(c, now, sender, batch_spec(c, now, sender, recs, idx)->Ok_0.0, idx);
}

/// The first listed index that a batch withdrawal by `sender` refuses, as its error.
pub open spec fn batch_check(sender: Seq<char>, recs: Seq<StakeInfo>, idx: Seq<u32>) -> Option<ContractError>
    decreases idx.len(),
{
    if idx.len() == 0 {
        None
    } else {
        match batch_check(sender, recs, idx.drop_last()) {
            Some(e) => Some(e),
            None => {
                let i = idx.last();
                if i >= recs.len() {
                    Some(ContractError::Std(StdError::OutOfBounds { key: i }))
                } else if recs[i as int].owner@ != sender {
                    Some(ContractError::Unauthorized)
                } else {
                    None
                }
            },
        }
    }
}

/// A batch refuses exactly as its check does, and otherwise keeps the stakes
/// and reports one amount per index.
pub proof fn lemma_batch_check(c: Config, now: u64, sender: Seq<char>, recs: Seq<StakeInfo>, idx: Seq<u32>)
    ensures
        batch_check(sender, recs, idx) is Some ==> batch_spec(c, now, sender, recs, idx) == Err::<
            (Seq<StakeInfo>, Seq<u128>),
            ContractError,
        >(batch_check(sender, recs, idx)->0),
        batch_check(sender, recs, idx) is None ==> batch_spec(c, now, sender, recs, idx) is Ok,
        batch_spec(c, now, sender, recs, idx) matches Ok((rs, amts)) ==> same_stakes(rs, recs) && amts.len()
            == idx.len(),
    decreases idx.len(),
{
    if idx.len() > 0 {
        lemma_batch_check(c, now, sender, recs, idx.drop_last());
        match batch_spec(c, now, sender, recs, idx.drop_last()) {
            Err(_) => {},
            Ok((rs, amts)) => {
                let i = idx.last();
                if i < rs.len() {
                    let _ = recs[i as int];
                    let _ = rs[i as int];
                    let rec = rs[i as int];
                    let w = withdrawable_spec(unlocked_reward_spec(c, rec, now), rec.withdrawn_rewards as int);
                    let rs2 = rs.update(i as int, StakeInfo { withdrawn_rewards: (rec.withdrawn_rewards + w) as u128, ..rec });
                    assert forall|j: int| 0 <= j < rs2.len() implies {
                        &&& (#[trigger] rs2[j]).owner == recs[j].owner
                        &&& rs2[j].start_time == recs[j].start_time
                        &&& rs2[j].total_principal == recs[j].total_principal
                        &&& rs2[j].total_rewards == recs[j].total_rewards
                    } by {
                        let _ = rs[j];
                    }
                }
            },
        }
    }
}

/// If a batch reaches its `i`-th index, the installment computation of that stake is well defined.
pub open spec fn batch_reached_ok(c: Config, now: u64, sender: Seq<char>, recs: Seq<StakeInfo>, idx: Seq<u32>, i: int) -> bool {
    batch_check(sender, recs, idx.take(i)) is None && idx[i] < recs.len() && recs[idx[i] as int].owner@ == sender
        ==> installment_computable(c, recs[idx[i] as int].total_rewards, elapsed_spec(now, recs[idx[i] as int].start_time))
}

/// The installment computation is well defined for every stake a batch reaches.
pub open spec fn batch_computable(c: Config, now: u64, sender: Seq<char>, recs: Seq<StakeInfo>, idx: Seq<u32>) -> bool {
    forall|i: int| 0 <= i < idx.len() ==> #[trigger] batch_reached_ok(c, now, sender, recs, idx, i)
}

/// The indexes listed under `owner`, none if it has no entry.
pub open spec fn indexes_of(m: Map<Seq<char>, Vec<u32>>, owner: Seq<char>) -> Seq<u32> {
    if m.contains_key(owner) {
        m[owner]@
    } else {
        Seq::empty()
    }
}

/// The (principal, rewards) a stake of `amount` holds: with no `apy` the whole
/// amount is a reward, otherwise it is principal earning the deposit-backed rewards.
pub open spec fn stake_split(c: Config, amount: u128) -> (int, int) {
    if c.apy == 0 {
        (0, amount as int)
    } else {
        (amount as int, security_deposit_spec(c, amount))
    }
}

impl StakeCore {
    /// The accounting invariant: the totals are the sums over the stake
    /// records, no record has paid out more than it holds, the installment
    /// schedule is well defined, and while stakes earn rewards (`apy > 0`) the
    /// security deposit covers all rewards granted.
    pub open spec fn inv(&self) -> bool {
        &&& self.stake_records.wf()
        &&& self.staker_indexes.wf()
        &&& self.access_control.wf()
        &&& self.config.lock_period > 0
        &&& self.config.installment_num > 0
        &&& forall|i: int|
            0 <= i < self.stake_records@.len() ==> {
                &&& (#[trigger] self.stake_records@[i]).withdrawn_principal <= self.stake_records@[i].total_principal
                &&& self.stake_records@[i].withdrawn_rewards <= self.stake_records@[i].total_rewards
            }
        &&& self.asset_info.total_principal == sum_field(self.stake_records@, 0)
        &&& self.asset_info.withdrawn_principal == sum_field(self.stake_records@, 1)
        &&& self.asset_info.total_rewards == sum_field(self.stake_records@, 2)
        &&& self.asset_info.withdrawn_rewards == sum_field(self.stake_records@, 3)
        &&& self.config.apy > 0 ==> self.asset_info.total_rewards <= self.asset_info.total_security_deposit
    }

    /// Each stake's index is listed under its owner, and each listed index is
    /// a stake of that owner.
    pub open spec fn indexes_consistent(&self) -> bool {
        &&& forall|i: int|
            0 <= i < self.stake_records@.len() ==> {
                &&& self.staker_indexes@.contains_key((#[trigger] self.stake_records@[i]).owner@)
                &&& self.staker_indexes@[self.stake_records@[i].owner@]@.contains(i as u32)
            }
        &&& forall|k: Seq<char>, j: int|
            #![trigger self.staker_indexes@[k]@[j]]
            self.staker_indexes@.contains_key(k) && 0 <= j < self.staker_indexes@[k]@.len() ==> {
                &&& self.staker_indexes@[k]@[j] < self.stake_records@.len()
                &&& self.stake_records@[self.staker_indexes@[k]@[j] as int].owner@ == k
            }
    }

    /// Whether `account` holds `role`.
    pub open spec fn has_role(&self, role: Seq<char>, account: Seq<char>) -> bool {
        self.access_control.has_role_spec(role, account)
    }

    /// The token handle of this contract.
    pub fn get_univeral_token(&self) -> (r: UniversalToken)
        ensures
            r.config == self.token_config,
    {
        UniversalToken::new(self.token_config.clone())
    }

    /// Succeeds when `account` holds `role`.
    fn only_role(&self, role: &'static str, account: &String) -> (r: Result<(), ContractError>)
        requires
            self.access_control.wf(),
        ensures
            r is Ok <==> self.has_role(role@, account@),
            r matches Err(e) ==> is_unauthorized(e, account@, role@),
    {
        match self.access_control.check_role(&String::from_str(role), account) {
            Ok(()) => Ok(()),
            Err(e) => Err(ContractError::AccessControl(e)),
        }
    }

    /// Succeeds when `account` is an admin.
    pub fn only_admin(&self, account: &String) -> (r: Result<(), ContractError>)
        requires
            self.access_control.wf(),
        ensures
            r is Ok <==> self.has_role(DEFAULT_ADMIN_ROLE@, account@),
            r matches Err(e) ==> is_unauthorized(e, account@, DEFAULT_ADMIN_ROLE@),
    {
        self.only_role(DEFAULT_ADMIN_ROLE, account)
    }

    /// Succeeds when `account` is a provider.
    pub fn only_provider(&self, account: &String) -> (r: Result<(), ContractError>)
        requires
            self.access_control.wf(),
        ensures
            r is Ok <==> self.has_role(PROVIDER_ROLE@, account@),
            r matches Err(e) ==> is_unauthorized(e, account@, PROVIDER_ROLE@),
    {
        self.only_role(PROVIDER_ROLE, account)
    }

    /// Succeeds when `account` is a whitelisted staker.
    pub fn only_staker(&self, account: &String) -> (r: Result<(), ContractError>)
        requires
            self.access_control.wf(),
        ensures
            r is Ok <==> self.has_role(STAKER_ROLE@, account@),
            r matches Err(e) ==> is_unauthorized(e, account@, STAKER_ROLE@),
    {
        self.only_role(STAKER_ROLE, account)
    }

    /// Succeeds when `account` is a whitelisted beneficiary.
    pub fn only_beneficiary(&self, account: &String) -> (r: Result<(), ContractError>)
        requires
            self.access_control.wf(),
        ensures
            r is Ok <==> self.has_role(BENEFICIARY_ROLE@, account@),
            r matches Err(e) ==> is_unauthorized(e, account@, BENEFICIARY_ROLE@),
    {
        self.only_role(BENEFICIARY_ROLE, account)
    }

    /// Sets up a stake core. `token_check` is the outcome of validating the
    /// token address (only a CW20 token needs it), `admin` and `providers` the
    /// validated addresses of the message's admin and providers, in order.
    pub fn instantiate(
        msg: &InstantiateMsg,
        token_check: Result<(), StdError>,
        admin: Result<String, StdError>,
        providers: Vec<Result<String, StdError>>,
    ) -> (r: Result<StakeCore, ContractError>)
        ensures
            !msg.is_native_token && token_check is Err ==> r == Err::<StakeCore, ContractError>(
                ContractError::Std(token_check->Err_0),
            ),
            (msg.is_native_token || token_check is Ok) ==> {
                if msg.lock_period == 0 || msg.installment_num == 0 {
                    r == Err::<StakeCore, ContractError>(ContractError::InvalidInput)
                } else if admin is Err {
                    r == Err::<StakeCore, ContractError>(ContractError::Std(admin->Err_0))
                } else if first_err(providers@) is Some {
                    r == Err::<StakeCore, ContractError>(ContractError::Std(first_err(providers@)->0))
                } else {
                    r is Ok
                }
            },
            r matches Ok(sc) ==> {
                &&& sc.inv()
                &&& sc.indexes_consistent()
                &&& sc.config == config_of(*msg)
                &&& sc.token_config == (TokenConfig { is_native: msg.is_native_token, token: msg.token })
                &&& sc.asset_info == AssetInfo::zero_spec()
                &&& sc.stake_records@ == Seq::<StakeInfo>::empty()
                &&& sc.staker_indexes@ == Map::<Seq<char>, Vec<u32>>::empty()
                &&& sc.access_control.admin_map() == map![PROVIDER_ROLE@ => PROVIDER_ROLE@]
                &&& sc.access_control.role_set() == set![(DEFAULT_ADMIN_ROLE@, admin->Ok_0@)].union(
                    provider_roles(providers@),
                )
            },
    {
        if !msg.is_native_token {
            match token_check {
                Ok(()) => {},
                Err(e) => return Err(ContractError::Std(e)),
            }
        }
        if msg.lock_period == 0 {
            return Err(ContractError::InvalidInput);
        }
        if msg.installment_num == 0 {
            return Err(ContractError::InvalidInput);
        }
        let config = Config {
            lock_period: msg.lock_period,
            cliff_period: msg.cliff_period,
            apy: msg.apy,
            installment_num: msg.installment_num,
            min_stake_amount: msg.min_stake_amount,
            enable_staker_whitelist: msg.enable_staker_whitelist,
            enable_beneficiary_whitelist: msg.enable_beneficiary_whitelist,
        };
        let token_config = TokenConfig { is_native: msg.is_native_token, token: msg.token.clone() };
        let mut access_control = AccessControl::new();
        let admin_addr = match admin {
            Ok(a) => a,
            Err(e) => return Err(ContractError::Std(e)),
        };
        access_control._grant_role(&String::from_str(DEFAULT_ADMIN_ROLE), &admin_addr);
        let provider_role = String::from_str(PROVIDER_ROLE);
        access_control.set_role_admin(&provider_role, &provider_role);
        let mut i: usize = 0;
        while i < providers.len()
            invariant
                i <= providers@.len(),
                !msg.is_native_token ==> token_check is Ok,
                msg.lock_period != 0,
                msg.installment_num != 0,
                admin == Ok::<String, StdError>(admin_addr),
                access_control.wf(),
                provider_role@ == PROVIDER_ROLE@,
                access_control.admin_map() == map![PROVIDER_ROLE@ => PROVIDER_ROLE@],
                first_err(providers@.take(i as int)) is None,
                access_control.role_set() == set![(DEFAULT_ADMIN_ROLE@, admin_addr@)].union(
                    provider_roles(providers@.take(i as int)),
                ),
            decreases providers@.len() - i,
        {
            assert(providers@.take(i as int + 1).drop_last() =~= providers@.take(i as int));
            match &providers[i] {
                Ok(p) => {
                    access_control._grant_role(&provider_role, p);
                    assert(access_control.role_set() =~= set![(DEFAULT_ADMIN_ROLE@, admin_addr@)].union(
                        provider_roles(providers@.take(i as int + 1)),
                    ));
                },
                Err(e) => {
                    proof {
                        lemma_first_err_prefix(providers@, i as int + 1);
                    }
                    return Err(ContractError::Std(e.clone()));
                },
            }
            i += 1;
        }
        assert(providers@.take(providers@.len() as int) =~= providers@);
        let sc = StakeCore {
            config,
            token_config,
            asset_info: AssetInfo::default(),
            stake_records: Vector::new(),
            staker_indexes: AssocMap::new(),
            access_control,
        };
        Ok(sc)
    }

    /// `info.sender` granting `role` to `account` (the validated address):
    /// allowed to holders of the admin role of `role`.
    pub fn execute_grant_role(&mut self, info: &MessageInfo, role: String, account: Result<String, StdError>) -> (r: Result<
        (),
        ContractError,
    >)
        requires
            old(self).inv(),
        ensures
            final(self).inv(),
            old(self).indexes_consistent() ==> final(self).indexes_consistent(),
            account is Err ==> r == Err::<(), ContractError>(ContractError::Std(account->Err_0)),
            account is Ok ==> (r is Ok <==> old(self).has_role(
                role_admin_spec(old(self).access_control.admin_map(), role@),
                info.sender@,
            )),
            r matches Err(e) ==> *final(self) == *old(self) && (account is Ok ==> is_unauthorized(
                e,
                info.sender@,
                role_admin_spec(old(self).access_control.admin_map(), role@),
            )),
            r is Ok ==> {
                &&& final(self).access_control.role_set() == old(self).access_control.role_set().insert(
                    (role@, account->Ok_0@),
                )
                &&& final(self).access_control.admin_map() == old(self).access_control.admin_map()
                &&& final(self).config == old(self).config
                &&& final(self).token_config == old(self).token_config
                &&& final(self).asset_info == old(self).asset_info
                &&& final(self).stake_records == old(self).stake_records
                &&& final(self).staker_indexes == old(self).staker_indexes
            },
    {
        let account = match account {
            Ok(a) => a,
            Err(e) => return Err(ContractError::Std(e)),
        };
        match self.access_control.grant_role(&info.sender, &role, &account) {
            Ok(()) => Ok(()),
            Err(e) => Err(ContractError::AccessControl(e)),
        }
    }

    /// A provider adding `amount` to the security deposit, sent along with the
    /// message. Refused while stakes earn no rewards (`apy == 0`).
    pub fn execute_deposit_security(
        &mut self,
        env: &Env,
        info: &MessageInfo,
        amount: u128,
        allowance: Option<Result<Allowance, StdError>>,
    ) -> (r: Result<Vec<TokenMsg>, ContractError>)
        requires
            old(self).inv(),
            !old(self).token_config.is_native ==> allowance is Some,
            old(self).has_role(PROVIDER_ROLE@, info.sender@) && old(self).config.apy != 0
                ==> old(self).asset_info.total_security_deposit + amount <= u128::MAX,
        ensures
            final(self).inv(),
            old(self).indexes_consistent() ==> final(self).indexes_consistent(),
            r matches Err(e) ==> *final(self) == *old(self),
            !old(self).has_role(PROVIDER_ROLE@, info.sender@) ==> (r matches Err(e) && is_unauthorized(
                e,
                info.sender@,
                PROVIDER_ROLE@,
            )),
            old(self).has_role(PROVIDER_ROLE@, info.sender@) && old(self).config.apy == 0 ==> r matches Err(
                ContractError::Forbidden,
            ),
            old(self).has_role(PROVIDER_ROLE@, info.sender@) && old(self).config.apy != 0 ==> match receive_spec(
                old(self).token_config,
                info.funds@,
                info.sender,
                env.contract_address,
                allowance,
                amount,
            ) {
                Err(e) => r == Err::<Vec<TokenMsg>, ContractError>(ContractError::UniversalTokenError(e)),
                Ok(msgs) => r matches Ok(v) && v@ == msgs && *final(self) == (StakeCore {
                    asset_info: AssetInfo {
                        total_security_deposit: (old(self).asset_info.total_security_deposit + amount) as u128,
                        ..old(self).asset_info
                    },
                    ..*old(self)
                }),
            },
    {
        self.only_provider(&info.sender)?;
        if self.config.apy == 0 {
            return Err(ContractError::Forbidden);
        }
        let new_deposit = self.asset_info.total_security_deposit + amount;
        let msgs = match self.get_univeral_token().receive_token(
            &info.funds,
            &info.sender,
            &env.contract_address,
            allowance,
            amount,
        ) {
            Ok(m) => m,
            Err(e) => return Err(ContractError::UniversalTokenError(e)),
        };
        self.asset_info.total_security_deposit = new_deposit;
        Ok(msgs)
    }

    /// A provider taking back `amount` of the security deposit, as far as it
    /// exceeds the rewards granted. Refused while stakes earn no rewards.
    pub fn execute_withdraw_security(&mut self, info: &MessageInfo, amount: u128) -> (r: Result<
        Vec<TokenMsg>,
        ContractError,
    >)
        requires
            old(self).inv(),
        ensures
            final(self).inv(),
            old(self).indexes_consistent() ==> final(self).indexes_consistent(),
            r matches Err(e) ==> *final(self) == *old(self),
            !old(self).has_role(PROVIDER_ROLE@, info.sender@) ==> (r matches Err(e) && is_unauthorized(
                e,
                info.sender@,
                PROVIDER_ROLE@,
            )),
            old(self).has_role(PROVIDER_ROLE@, info.sender@) ==> if old(self).config.apy == 0 {
                r matches Err(ContractError::Forbidden)
            } else if old(self).asset_info.total_security_deposit <= old(self).asset_info.total_rewards
                || old(self).asset_info.total_security_deposit - old(self).asset_info.total_rewards < amount {
                r matches Err(ContractError::InsufficientFunds)
            } else {
                r matches Ok(v) && v@ == seq![send_msg_spec(old(self).token_config, info.sender, amount)]
                    && *final(self) == (StakeCore {
                    asset_info: AssetInfo {
                        total_security_deposit: (old(self).asset_info.total_security_deposit - amount) as u128,
                        ..old(self).asset_info
                    },
                    ..*old(self)
                })
            },
    {
        self.only_provider(&info.sender)?;
        if self.config.apy == 0 {
            return Err(ContractError::Forbidden);
        }
        if !(self.asset_info.total_security_deposit > self.asset_info.total_rewards) {
            return Err(ContractError::InsufficientFunds);
        }
        let available = self.asset_info.total_security_deposit - self.asset_info.total_rewards;
        if !(available >= amount) {
            return Err(ContractError::InsufficientFunds);
        }
        self.asset_info.total_security_deposit = self.asset_info.total_security_deposit - amount;
        Ok(self.get_univeral_token().send_token(&info.sender, amount))
    }
    /// The checks of a stake before the deposit check pass: the owner address
    /// is valid, the amount reaches the minimum, and the whitelists admit the
    /// sender and the owner.
    pub open spec fn stake_admitted(&self, info: MessageInfo, owner: Result<String, StdError>, amount: u128) -> bool {
        &&& owner is Ok
        &&& amount >= self.config.min_stake_amount
        &&& self.config.enable_staker_whitelist ==> self.has_role(STAKER_ROLE@, info.sender@)
        &&& self.config.enable_beneficiary_whitelist ==> self.has_role(BENEFICIARY_ROLE@, owner->Ok_0@)
    }

    /// The arithmetic of a stake cannot overflow, for a stake that is admitted.
    pub open spec fn stake_computable(&self, amount: u128) -> bool {
        &&& self.config.apy != 0 ==> security_deposit_computable(self.config, amount)
            && security_deposit_spec(self.config, amount) + self.asset_info.total_rewards <= u128::MAX
        &&& self.asset_info.total_principal + stake_split(self.config, amount).0 <= u128::MAX
        &&& self.asset_info.total_rewards + stake_split(self.config, amount).1 <= u128::MAX
    }

    /// `info.sender` staking `amount` for `owner` (the validated address), sent
    /// along with the message. The stake starts now and is recorded at the end
    /// of the stake records; its index is listed under the owner.
    pub fn execute_stake(
        &mut self,
        env: &Env,
        info: &MessageInfo,
        owner: Result<String, StdError>,
        amount: u128,
        allowance: Option<Result<Allowance, StdError>>,
    ) -> (r: Result<StakeOutcome, ContractError>)
        requires
            old(self).inv(),
            !old(self).token_config.is_native ==> allowance is Some,
            old(self).stake_admitted(*info, owner, amount) ==> old(self).stake_computable(amount),
        ensures
            final(self).inv(),
            old(self).config.apy != 0 && r is Ok ==> final(self).asset_info.total_rewards
                <= final(self).asset_info.total_security_deposit,
            old(self).indexes_consistent() ==> final(self).indexes_consistent(),
            r matches Err(e) ==> *final(self) == *old(self),
            owner is Err ==> r == Err::<StakeOutcome, ContractError>(ContractError::Std(owner->Err_0)),
            owner is Ok ==> {
                let o = owner->Ok_0;
                let (principal, rewards) = stake_split(old(self).config, amount);
                if amount < old(self).config.min_stake_amount {
                    r matches Err(ContractError::InsufficientStakeAmount)
                } else if old(self).config.enable_staker_whitelist && !old(self).has_role(STAKER_ROLE@, info.sender@) {
                    r matches Err(e) && is_unauthorized(e, info.sender@, STAKER_ROLE@)
                } else if old(self).config.enable_beneficiary_whitelist && !old(self).has_role(BENEFICIARY_ROLE@, o@) {
                    r matches Err(e) && is_unauthorized(e, o@, BENEFICIARY_ROLE@)
                } else if old(self).config.apy != 0 && rewards + old(self).asset_info.total_rewards
                    > old(self).asset_info.total_security_deposit {
                    r matches Err(ContractError::InsufficientFunds)
                } else if old(self).stake_records@.len() == u32::MAX {
                    r matches Err(ContractError::Std(StdError::GenericErr { .. }))
                } else {
                    match receive_spec(
                        old(self).token_config,
                        info.funds@,
                        info.sender,
                        env.contract_address,
                        allowance,
                        amount,
                    ) {
                        Err(e) => r == Err::<StakeOutcome, ContractError>(ContractError::UniversalTokenError(e)),
                        Ok(msgs) => {
                            let index = old(self).stake_records@.len();
                            let record = StakeInfo {
                                owner: o,
                                start_time: env.time,
                                total_principal: principal as u128,
                                withdrawn_principal: 0,
                                total_rewards: rewards as u128,
                                withdrawn_rewards: 0,
                            };
                            &&& r matches Ok(out) && out.messages@ == msgs && out.owner == o && out.principal
                                == principal && out.rewards == rewards && out.start_time == env.time && out.index
                                == index
                            &&& final(self).config == old(self).config
                            &&& final(self).token_config == old(self).token_config
                            &&& final(self).access_control == old(self).access_control
                            &&& final(self).asset_info == (AssetInfo {
                                total_principal: (old(self).asset_info.total_principal + principal) as u128,
                                total_rewards: (old(self).asset_info.total_rewards + rewards) as u128,
                                ..old(self).asset_info
                            })
                            &&& final(self).stake_records@ == old(self).stake_records@.push(record)
                            &&& final(self).staker_indexes@.remove(o@) == old(self).staker_indexes@.remove(o@)
                            &&& final(self).staker_indexes@.contains_key(o@)
                            &&& final(self).staker_indexes@[o@]@ == indexes_of(old(self).staker_indexes@, o@).push(
                                index as u32,
                            )
                        },
                    }
                }
            },
    {
        let owner_addr = match owner {
            Ok(a) => a,
            Err(e) => return Err(ContractError::Std(e)),
        };
        if amount < self.config.min_stake_amount {
            return Err(ContractError::InsufficientStakeAmount);
        }
        if self.config.enable_staker_whitelist {
            self.only_staker(&info.sender)?;
        }
        if self.config.enable_beneficiary_whitelist {
            self.only_beneficiary(&owner_addr)?;
        }
        let (principal, rewards): (u128, u128) = if self.config.apy == 0 {
            (0, amount)
        } else {
            let rewards = self.config.calc_security_deposit_by_collateral(amount);
            if !(rewards + self.asset_info.total_rewards <= self.asset_info.total_security_deposit) {
                return Err(ContractError::InsufficientFunds);
            }
            (amount, rewards)
        };
        let len = self.stake_records.len();
        if len == 0xffff_ffff {
            return Err(ContractError::Std(StdError::GenericErr { msg: String::from_str("Vector overflow") }));
        }
        let messages = match self.get_univeral_token().receive_token(
            &info.funds,
            &info.sender,
            &env.contract_address,
            allowance,
            amount,
        ) {
            Ok(m) => m,
            Err(e) => return Err(ContractError::UniversalTokenError(e)),
        };
        let ghost old_records = self.stake_records@;
        let ghost old_indexes = self.staker_indexes@;
        self.asset_info.total_principal = self.asset_info.total_principal + principal;
        self.asset_info.total_rewards = self.asset_info.total_rewards + rewards;
        let record = StakeInfo {
            owner: owner_addr.clone(),
            start_time: env.time,
            total_principal: principal,
            withdrawn_principal: 0,
            total_rewards: rewards,
            withdrawn_rewards: 0,
        };
        let _ = self.stake_records.push(record);
        let mut list = match self.staker_indexes.remove(&owner_addr) {
            Some(l) => l,
            None => Vec::new(),
        };
        list.push(len);
        self.staker_indexes.insert(owner_addr.clone(), list);
        proof {
            assert(self.staker_indexes@.remove(owner_addr@) =~= old_indexes.remove(owner_addr@));
            let rec = self.stake_records@[len as int];
            assert(self.stake_records@ == old_records.push(rec));
            lemma_sum_push(old_records, rec, 0);
            lemma_sum_push(old_records, rec, 1);
            lemma_sum_push(old_records, rec, 2);
            lemma_sum_push(old_records, rec, 3);
            assert forall|i: int| 0 <= i < self.stake_records@.len() implies {
                &&& (#[trigger] self.stake_records@[i]).withdrawn_principal <= self.stake_records@[i].total_principal
                &&& self.stake_records@[i].withdrawn_rewards <= self.stake_records@[i].total_rewards
            } by {
                if i < len {
                    assert(self.stake_records@[i] == old_records[i]);
                }
            }
            if old(self).indexes_consistent() {
                self.lemma_push_keeps_indexes(old_records, old_indexes, owner_addr@);
            }
        }
        Ok(StakeOutcome { owner: owner_addr, principal, rewards, start_time: env.time, index: len, messages })
    }

    /// Records updated without changing any stake's owner keep the indexes consistent.
    proof fn lemma_same_owners_keep_indexes(&self, old_records: Seq<StakeInfo>, old_indexes: Map<Seq<char>, Vec<u32>>)
        requires
            self.staker_indexes@ == old_indexes,
            same_stakes(self.stake_records@, old_records),
            forall|i: int|
                0 <= i < old_records.len() ==> {
                    &&& old_indexes.contains_key((#[trigger] old_records[i]).owner@)
                    &&& old_indexes[old_records[i].owner@]@.contains(i as u32)
                },
            forall|k: Seq<char>, j: int|
                #![trigger old_indexes[k]@[j]]
                old_indexes.contains_key(k) && 0 <= j < old_indexes[k]@.len() ==> {
                    &&& old_indexes[k]@[j] < old_records.len()
                    &&& old_records[old_indexes[k]@[j] as int].owner@ == k
                },
        ensures
            self.indexes_consistent(),
    {
        assert forall|i: int| 0 <= i < self.stake_records@.len() implies {
            &&& self.staker_indexes@.contains_key((#[trigger] self.stake_records@[i]).owner@)
            &&& self.staker_indexes@[self.stake_records@[i].owner@]@.contains(i as u32)
        } by {
            let _ = old_records[i];
        }
        assert forall|k: Seq<char>, j: int|
            #![trigger self.staker_indexes@[k]@[j]]
            self.staker_indexes@.contains_key(k) && 0 <= j < self.staker_indexes@[k]@.len() implies {
                &&& self.staker_indexes@[k]@[j] < self.stake_records@.len()
                &&& self.stake_records@[self.staker_indexes@[k]@[j] as int].owner@ == k
            } by {
            let _ = old_indexes[k]@[j];
            let _ = self.stake_records@[self.staker_indexes@[k]@[j] as int];
        }
    }

    /// The stake at `index`, owned by `sender`, or why it cannot be withdrawn from.
    fn owned_record(&self, index: u32, sender: &String) -> (r: Result<StakeInfo, ContractError>)
        requires
            self.stake_records.wf(),
        ensures
            index >= self.stake_records@.len() ==> r == Err::<StakeInfo, ContractError>(
                ContractError::Std(StdError::OutOfBounds { key: index }),
            ),
            index < self.stake_records@.len() && self.stake_records@[index as int].owner@ != sender@ ==> r
                matches Err(ContractError::Unauthorized),
            index < self.stake_records@.len() && self.stake_records@[index as int].owner@ == sender@ ==> r
                == Ok::<StakeInfo, ContractError>(self.stake_records@[index as int]),
    {
        let record = match self.stake_records.get(index) {
            Ok(rec) => rec.clone(),
            Err(e) => return Err(ContractError::Std(e)),
        };
        if record.owner != *sender {
            return Err(ContractError::Unauthorized);
        }
        Ok(record)
    }

    /// The owner of stake `index` withdrawing its unlocked principal not yet
    /// withdrawn; nothing happens when there is none.
    pub fn execute_withdraw_principal(&mut self, env: &Env, info: &MessageInfo, index: u32) -> (r: Result<
        WithdrawOutcome,
        ContractError,
    >)
        requires
            old(self).inv(),
        ensures
            final(self).inv(),
            old(self).indexes_consistent() ==> final(self).indexes_consistent(),
            r matches Err(e) ==> *final(self) == *old(self),
            index >= old(self).stake_records@.len() ==> r == Err::<WithdrawOutcome, ContractError>(
                ContractError::Std(StdError::OutOfBounds { key: index }),
            ),
            index < old(self).stake_records@.len() ==> {
                let rec = old(self).stake_records@[index as int];
                let w = withdrawable_spec(unlocked_principal_spec(old(self).config, rec, env.time), rec.withdrawn_principal as int);
                if rec.owner@ != info.sender@ {
                    r matches Err(ContractError::Unauthorized)
                } else if w == 0 {
                    r matches Ok(out) && out.amount == 0 && out.messages@ == Seq::<TokenMsg>::empty()
                        && *final(self) == *old(self)
                } else {
                    &&& r matches Ok(out) && out.amount == w && out.messages@ == seq![
                        send_msg_spec(old(self).token_config, info.sender, w as u128),
                    ]
                    &&& final(self).stake_records@ == old(self).stake_records@.update(
                        index as int,
                        StakeInfo { withdrawn_principal: (rec.withdrawn_principal + w) as u128, ..rec },
                    )
                    &&& final(self).asset_info == (AssetInfo {
                        withdrawn_principal: (old(self).asset_info.withdrawn_principal + w) as u128,
                        ..old(self).asset_info
                    })
                    &&& final(self).config == old(self).config
                    &&& final(self).token_config == old(self).token_config
                    &&& final(self).access_control == old(self).access_control
                    &&& final(self).staker_indexes == old(self).staker_indexes
                }
            },
    {
        let mut record = self.owned_record(index, &info.sender)?;
        let withdrawable = self.config.calc_withdrawable_principal(env.time, &record);
        if withdrawable == 0 {
            return Ok(WithdrawOutcome { amount: 0, messages: Vec::new() });
        }
        let ghost old_records = self.stake_records@;
        record.withdrawn_principal = record.withdrawn_principal + withdrawable;
        let _ = self.stake_records.set(index, record);
        proof {
            let rs = self.stake_records@;
            lemma_sum_update(old_records, index as int, rs[index as int], 0);
            lemma_sum_update(old_records, index as int, rs[index as int], 1);
            lemma_sum_update(old_records, index as int, rs[index as int], 2);
            lemma_sum_update(old_records, index as int, rs[index as int], 3);
            assert forall|i: int| 0 <= i < rs.len() implies {
                &&& (#[trigger] rs[i]).withdrawn_principal <= rs[i].total_principal
                &&& rs[i].withdrawn_rewards <= rs[i].total_rewards
            } by {
                if i != index {
                    assert(rs[i] == old_records[i]);
                }
            }
            assert forall|i: int| 0 <= i < rs.len() implies stake_field(#[trigger] rs[i], 1) <= stake_field(rs[i], 0) by {}
            lemma_sum_le(rs, 1, 0);
            assert(same_stakes(rs, old_records));
            if old(self).indexes_consistent() {
                self.lemma_same_owners_keep_indexes(old_records, self.staker_indexes@);
            }
        }
        self.asset_info.withdrawn_principal = self.asset_info.withdrawn_principal + withdrawable;
        Ok(WithdrawOutcome { amount: withdrawable, messages: self.get_univeral_token().send_token(&info.sender, withdrawable) })
    }

    /// The installment computation of stake `index` is well defined now, if
    /// the stake exists and belongs to `sender`.
    pub open spec fn reward_computable(&self, now: u64, sender: Seq<char>, index: u32) -> bool {
        index < self.stake_records@.len() && self.stake_records@[index as int].owner@ == sender ==> installment_computable(
            self.config,
            self.stake_records@[index as int].total_rewards,
            elapsed_spec(now, self.stake_records@[index as int].start_time),
        )
    }

    /// The owner of stake `index` withdrawing its unlocked rewards not yet
    /// withdrawn; nothing happens when there are none.
    pub fn execute_withdraw_rewards(&mut self, env: &Env, info: &MessageInfo, index: u32) -> (r: Result<
        WithdrawOutcome,
        ContractError,
    >)
        requires
            old(self).inv(),
            old(self).reward_computable(env.time, info.sender@, index),
        ensures
            final(self).inv(),
            old(self).indexes_consistent() ==> final(self).indexes_consistent(),
            r matches Err(e) ==> *final(self) == *old(self),
            index >= old(self).stake_records@.len() ==> r == Err::<WithdrawOutcome, ContractError>(
                ContractError::Std(StdError::OutOfBounds { key: index }),
            ),
            index < old(self).stake_records@.len() ==> {
                let rec = old(self).stake_records@[index as int];
                let w = withdrawable_spec(unlocked_reward_spec(old(self).config, rec, env.time), rec.withdrawn_rewards as int);
                if rec.owner@ != info.sender@ {
                    r matches Err(ContractError::Unauthorized)
                } else if w == 0 {
                    r matches Ok(out) && out.amount == 0 && out.messages@ == Seq::<TokenMsg>::empty()
                        && *final(self) == *old(self)
                } else {
                    &&& r matches Ok(out) && out.amount == w && out.messages@ == seq![
                        send_msg_spec(old(self).token_config, info.sender, w as u128),
                    ]
                    &&& final(self).stake_records@ == old(self).stake_records@.update(
                        index as int,
                        StakeInfo { withdrawn_rewards: (rec.withdrawn_rewards + w) as u128, ..rec },
                    )
                    &&& final(self).asset_info == (AssetInfo {
                        withdrawn_rewards: (old(self).asset_info.withdrawn_rewards + w) as u128,
                        ..old(self).asset_info
                    })
                    &&& final(self).config == old(self).config
                    &&& final(self).token_config == old(self).token_config
                    &&& final(self).access_control == old(self).access_control
                    &&& final(self).staker_indexes == old(self).staker_indexes
                }
            },
    {
        let mut record = self.owned_record(index, &info.sender)?;
        let withdrawable = self.config.calc_withdrawable_reward(env.time, &record);
        if withdrawable == 0 {
            return Ok(WithdrawOutcome { amount: 0, messages: Vec::new() });
        }
        let ghost old_records = self.stake_records@;
        proof {
            lemma_unlocked_reward_bounded(self.config, record, env.time);
        }
        record.withdrawn_rewards = record.withdrawn_rewards + withdrawable;
        let _ = self.stake_records.set(index, record);
        proof {
            let rs = self.stake_records@;
            lemma_sum_update(old_records, index as int, rs[index as int], 0);
            lemma_sum_update(old_records, index as int, rs[index as int], 1);
            lemma_sum_update(old_records, index as int, rs[index as int], 2);
            lemma_sum_update(old_records, index as int, rs[index as int], 3);
            assert forall|i: int| 0 <= i < rs.len() implies {
                &&& (#[trigger] rs[i]).withdrawn_principal <= rs[i].total_principal
                &&& rs[i].withdrawn_rewards <= rs[i].total_rewards
            } by {
                if i != index {
                    assert(rs[i] == old_records[i]);
                }
            }
            assert forall|i: int| 0 <= i < rs.len() implies stake_field(#[trigger] rs[i], 3) <= stake_field(rs[i], 2) by {}
            lemma_sum_le(rs, 3, 2);
            assert(same_stakes(rs, old_records));
            if old(self).indexes_consistent() {
                self.lemma_same_owners_keep_indexes(old_records, self.staker_indexes@);
            }
        }
        self.asset_info.withdrawn_rewards = self.asset_info.withdrawn_rewards + withdrawable;
        Ok(WithdrawOutcome { amount: withdrawable, messages: self.get_univeral_token().send_token(&info.sender, withdrawable) })
    }

    /// `info.sender` withdrawing the unlocked rewards of each listed stake, and
    /// receiving them together.
    #[verifier::rlimit(60)]
    pub fn execute_claim_rewards_batch(&mut self, env: &Env, info: &MessageInfo, indexes: &Vec<u32>) -> (r: Result<
        BatchOutcome,
        ContractError,
    >)
        requires
            old(self).inv(),
            batch_computable(old(self).config, env.time, info.sender@, old(self).stake_records@, indexes@),
        ensures
            final(self).inv(),
            old(self).indexes_consistent() ==> final(self).indexes_consistent(),
            r matches Err(e) ==> *final(self) == *old(self),
            match batch_spec(old(self).config, env.time, info.sender@, old(self).stake_records@, indexes@) {
                Err(e) => r == Err::<BatchOutcome, ContractError>(e),
                Ok((rs, amts)) => {
                    &&& r matches Ok(out) && out.amounts@ == amts && out.total == sum_amounts(amts)
                    &&& final(self).stake_records@ == rs
                    &&& final(self).asset_info == (AssetInfo {
                        withdrawn_rewards: (old(self).asset_info.withdrawn_rewards + sum_amounts(amts)) as u128,
                        ..old(self).asset_info
                    })
                    &&& final(self).config == old(self).config
                    &&& final(self).token_config == old(self).token_config
                    &&& final(self).access_control == old(self).access_control
                    &&& final(self).staker_indexes == old(self).staker_indexes
                    &&& sum_amounts(amts) == 0 ==> (r matches Ok(out) && out.messages@ == Seq::<TokenMsg>::empty())
                    &&& sum_amounts(amts) != 0 ==> (r matches Ok(out) && out.messages@ == seq![
                        send_msg_spec(old(self).token_config, info.sender, sum_amounts(amts) as u128),
                    ])
                },
            },
    {
        let ghost recs = self.stake_records@;
        let ghost c = self.config;
        proof {
            lemma_batch_check(c, env.time, info.sender@, recs, indexes@);
        }
        let mut i: usize = 0;
        while i < indexes.len()
            invariant
                *self == *old(self),
                c == old(self).config,
                old(self).inv(),
                self.stake_records.wf(),
                self.stake_records@ == recs,
                i <= indexes@.len(),
                batch_check(info.sender@, recs, indexes@.take(i as int)) is None,
            decreases indexes@.len() - i,
        {
            assert(indexes@.take(i as int + 1).drop_last() =~= indexes@.take(i as int));
            match self.owned_record(indexes[i], &info.sender) {
                Ok(_) => {},
                Err(e) => {
                    proof {
                        assert(indexes@.take(i as int + 1).last() == indexes@[i as int]);
                        assert(batch_check(info.sender@, recs, indexes@.take(i as int + 1)) == Some(e));
                        lemma_batch_check_prefix(info.sender@, recs, indexes@, i as int + 1);
                        lemma_batch_check(c, env.time, info.sender@, recs, indexes@);
                        assert(batch_check(info.sender@, recs, indexes@) == Some(e));
                        assert(batch_spec(c, env.time, info.sender@, recs, indexes@) == Err::<
                            (Seq<StakeInfo>, Seq<u128>),
                            ContractError,
                        >(e));
                    }
                    return Err(e);
                },
            }
            i += 1;
        }
        assert(indexes@.take(indexes@.len() as int) =~= indexes@);
        let mut amounts: Vec<u128> = Vec::new();
        let mut total: u128 = 0;
        let mut j: usize = 0;
        while j < indexes.len()
            invariant
                old(self).inv(),
                self.stake_records.wf(),
                self.config == c,
                self.staker_indexes == old(self).staker_indexes,
                self.asset_info == old(self).asset_info,
                self.token_config == old(self).token_config,
                self.access_control == old(self).access_control,
                c.installment_num > 0,
                j <= indexes@.len(),
                batch_check(info.sender@, recs, indexes@) is None,
                batch_computable(c, env.time, info.sender@, recs, indexes@),
                batch_spec(c, env.time, info.sender@, recs, indexes@.take(j as int)) == Ok::<
                    (Seq<StakeInfo>, Seq<u128>),
                    ContractError,
                >((self.stake_records@, amounts@)),
                recs == old(self).stake_records@,
                total == sum_amounts(amounts@),
                same_stakes(self.stake_records@, recs),
                forall|k: int|
                    0 <= k < self.stake_records@.len() ==> {
                        &&& (#[trigger] self.stake_records@[k]).withdrawn_principal <= self.stake_records@[k].total_principal
                        &&& self.stake_records@[k].withdrawn_rewards <= self.stake_records@[k].total_rewards
                        &&& self.stake_records@[k].withdrawn_principal == recs[k].withdrawn_principal
                    },
                sum_field(self.stake_records@, 3) == sum_field(recs, 3) + total,
                sum_field(self.stake_records@, 2) == sum_field(recs, 2),
                sum_field(self.stake_records@, 0) == sum_field(recs, 0),
                sum_field(self.stake_records@, 1) == sum_field(recs, 1),
            decreases indexes@.len() - j,
        {
            let index = indexes[j];
            proof {
                assert(indexes@.take(j as int + 1).drop_last() =~= indexes@.take(j as int));
                lemma_batch_check_prefix_none(info.sender@, recs, indexes@, j as int + 1);
                assert(indexes@.take(j as int + 1).last() == index);
                lemma_batch_check_prefix_none(info.sender@, recs, indexes@, j as int);
                assert(batch_check(info.sender@, recs, indexes@.take(j as int)) is None);
                let _ = indexes@[j as int];
                assert(batch_reached_ok(c, env.time, info.sender@, recs, indexes@, j as int));
            }
            let mut record = self.stake_records.get(index).unwrap().clone();
            let w = self.config.calc_withdrawable_reward(env.time, &record);
            let ghost prev_amounts = amounts@;
            amounts.push(w);
            proof {
                assert(amounts@.drop_last() =~= prev_amounts);
            }
            if w != 0 {
                let ghost before = self.stake_records@;
                proof {
                    lemma_unlocked_reward_bounded(c, record, env.time);
                }
                record.withdrawn_rewards = record.withdrawn_rewards + w;
                let _ = self.stake_records.set(index, record);
                proof {
                    let rs = self.stake_records@;
                    lemma_sum_update(before, index as int, rs[index as int], 0);
                    lemma_sum_update(before, index as int, rs[index as int], 1);
                    lemma_sum_update(before, index as int, rs[index as int], 2);
                    lemma_sum_update(before, index as int, rs[index as int], 3);
                    assert forall|k: int| 0 <= k < rs.len() implies {
                        &&& (#[trigger] rs[k]).withdrawn_principal <= rs[k].total_principal
                        &&& rs[k].withdrawn_rewards <= rs[k].total_rewards
                        &&& rs[k].withdrawn_principal == recs[k].withdrawn_principal
                    } by {
                        if k != index {
                            assert(rs[k] == before[k]);
                        }
                    }
                    assert forall|k: int| 0 <= k < rs.len() implies stake_field(#[trigger] rs[k], 3) <= stake_field(rs[k], 2) by {}
                    lemma_sum_le(rs, 3, 2);
                    assert forall|k: int| 0 <= k < rs.len() implies {
                        &&& (#[trigger] rs[k]).owner == recs[k].owner
                        &&& rs[k].start_time == recs[k].start_time
                        &&& rs[k].total_principal == recs[k].total_principal
                        &&& rs[k].total_rewards == recs[k].total_rewards
                    } by {
                        let _ = before[k];
                    }
                }
                total = total + w;
            }
            j += 1;
        }
        assert(indexes@.take(indexes@.len() as int) =~= indexes@);
        proof {
            let rs = self.stake_records@;
            assert forall|k: int| 0 <= k < rs.len() implies stake_field(#[trigger] rs[k], 3) <= stake_field(rs[k], 2) by {}
            lemma_sum_le(rs, 3, 2);
            if old(self).indexes_consistent() {
                self.lemma_same_owners_keep_indexes(recs, self.staker_indexes@);
            }
        }
        if total == 0 {
            return Ok(BatchOutcome { total, amounts, messages: Vec::new() });
        }
        self.asset_info.withdrawn_rewards = self.asset_info.withdrawn_rewards + total;
        let messages = self.get_univeral_token().send_token(&info.sender, total);
        Ok(BatchOutcome { total, amounts, messages })
    }

    /// The tokens this contract must keep of `token`: for its own token, the
    /// rewards not yet withdrawn (no `apy`), or the principal and deposit not
    /// yet paid out; nothing of any other token.
    pub open spec fn held_spec(&self, token: TokenConfig) -> int {
        if token.same_as(self.token_config) {
            if self.config.apy == 0 {
                self.asset_info.total_rewards - self.asset_info.withdrawn_rewards
            } else {
                self.asset_info.total_principal + self.asset_info.total_security_deposit
                    - self.asset_info.withdrawn_rewards - self.asset_info.withdrawn_principal
            }
        } else {
            0
        }
    }

    /// What collecting keeps of the contract's own token: with an `apy`, the
    /// principal and the security deposit not yet paid out; without one, the
    /// rewards not yet paid out. Nothing is kept of any other token.
    pub proof fn lemma_collect_keeps_what_is_owed(&self, token: TokenConfig)
        ensures
            token.same_as(self.token_config) && self.config.apy != 0 ==> self.held_spec(token)
                == self.asset_info.total_principal + self.asset_info.total_security_deposit
                - self.asset_info.withdrawn_rewards - self.asset_info.withdrawn_principal,
            token.same_as(self.token_config) && self.config.apy == 0 ==> self.held_spec(token)
                == self.asset_info.total_rewards - self.asset_info.withdrawn_rewards,
            !token.same_as(self.token_config) ==> self.held_spec(token) == 0,
    {
    }

    /// An admin collecting the tokens of `token` this contract holds beyond
    /// what it must keep. `token_check` is the outcome of validating a CW20
    /// address, `balance` that of querying this contract's balance of `token`.
    pub fn execute_collect(
        &self,
        info: &MessageInfo,
        is_native_token: bool,
        token: String,
        token_check: Result<(), StdError>,
        balance: Result<u128, StdError>,
    ) -> (r: Result<WithdrawOutcome, ContractError>)
        requires
            self.inv(),
            (TokenConfig { is_native: is_native_token, token }).same_as(self.token_config) && self.config.apy != 0
                ==> self.asset_info.total_principal + self.asset_info.total_security_deposit <= u128::MAX,
        ensures
            r is Ok && self.config.apy != 0 && (TokenConfig { is_native: is_native_token, token }).same_as(
                self.token_config,
            ) ==> r->Ok_0.amount + (self.asset_info.total_principal + self.asset_info.total_security_deposit
                - self.asset_info.withdrawn_rewards - self.asset_info.withdrawn_principal) == balance->Ok_0,
            !is_native_token && token_check is Err ==> r == Err::<WithdrawOutcome, ContractError>(
                ContractError::Std(token_check->Err_0),
            ),
            (is_native_token || token_check is Ok) ==> {
                let new_token = TokenConfig { is_native: is_native_token, token };
                if !self.has_role(DEFAULT_ADMIN_ROLE@, info.sender@) {
                    r matches Err(e) && is_unauthorized(e, info.sender@, DEFAULT_ADMIN_ROLE@)
                } else if balance is Err {
                    r == Err::<WithdrawOutcome, ContractError>(
                        ContractError::UniversalTokenError(
                            crate::universal_token::UniversalTokenError::Std(balance->Err_0),
                        ),
                    )
                } else if balance->Ok_0 <= self.held_spec(new_token) {
                    r matches Err(ContractError::NoExcessTokens)
                } else {
                    r matches Ok(out) && out.amount == balance->Ok_0 - self.held_spec(new_token)
                        && out.messages@ == seq![send_msg_spec(new_token, info.sender, out.amount)]
                }
            },
    {
        if !is_native_token {
            match token_check {
                Ok(()) => {},
                Err(e) => return Err(ContractError::Std(e)),
            }
        }
        self.only_admin(&info.sender)?;
        let new_token = TokenConfig { is_native: is_native_token, token };
        proof {
            lemma_sum_le_inv(self);
        }
        let held_token: u128 = if self.token_config.equals(&new_token) {
            if self.config.apy == 0 {
                self.asset_info.total_rewards - self.asset_info.withdrawn_rewards
            } else {
                self.asset_info.total_principal + self.asset_info.total_security_deposit
                    - self.asset_info.withdrawn_rewards - self.asset_info.withdrawn_principal
            }
        } else {
            0
        };
        let universal_token = UniversalToken::new(new_token);
        let balance = match balance {
            Ok(b) => b,
            Err(e) => return Err(
                ContractError::UniversalTokenError(crate::universal_token::UniversalTokenError::Std(e)),
            ),
        };
        if !(balance > held_token) {
            return Err(ContractError::NoExcessTokens);
        }
        let extra_token = balance - held_token;
        let messages = universal_token.send_token(&info.sender, extra_token);
        Ok(WithdrawOutcome { amount: extra_token, messages })
    }

    /// The stake at `index`.
    pub fn query_stake_info(&self, index: u32) -> (r: Result<&StakeInfo, StdError>)
        requires
            self.stake_records.wf(),
        ensures
            r is Ok <==> index < self.stake_records@.len(),
            r matches Ok(v) ==> *v == self.stake_records@[index as int],
            r matches Err(e) ==> e == (StdError::OutOfBounds { key: index }),
    {
        self.stake_records.get(index)
    }

    /// The indexes of the stakes of `staker` (the validated address).
    pub fn query_staker_indexes(&self, staker: Result<String, StdError>) -> (r: Result<&Vec<u32>, StdError>)
        requires
            self.staker_indexes.wf(),
        ensures
            staker is Err ==> r == Err::<&Vec<u32>, StdError>(staker->Err_0),
            staker is Ok ==> (r is Ok <==> self.staker_indexes@.contains_key(staker->Ok_0@)),
            staker is Ok && r is Ok ==> *r->Ok_0 == self.staker_indexes@[staker->Ok_0@],
            staker is Ok && r is Err ==> (r->Err_0 matches StdError::NotFound { kind } && kind@ == "alloc::vec::Vec<u32>"@),
    {
        let staker = match staker {
            Ok(s) => s,
            Err(e) => return Err(e),
        };
        match self.staker_indexes.get(&staker) {
            Some(v) => Ok(v),
            None => Err(StdError::NotFound { kind: String::from_str("alloc::vec::Vec<u32>") }),
        }
    }

    /// Whether `account` (the validated address) holds `role`.
    pub fn query_have_role(&self, role: &String, account: Result<String, StdError>) -> (r: Result<bool, StdError>)
        requires
            self.access_control.wf(),
        ensures
            account is Err ==> r == Err::<bool, StdError>(account->Err_0),
            account is Ok ==> r == Ok::<bool, StdError>(self.has_role(role@, account->Ok_0@)),
    {
        match account {
            Ok(a) => Ok(self.access_control.has_role(role, &a)),
            Err(e) => Err(e),
        }
    }

    /// Whether the accounting invariant holds, for state read back from storage.
    pub fn check_accounting(&self) -> (r: bool)
        requires
            self.stake_records.wf(),
            self.staker_indexes.wf(),
            self.access_control.wf(),
        ensures
            r == self.inv(),
    {
        if self.config.lock_period == 0 || self.config.installment_num == 0 {
            return false;
        }
        let n = self.stake_records.len();
        let mut sums: [u128; 4] = [0, 0, 0, 0];
        let mut i: u32 = 0;
        while i < n
            invariant
                self.stake_records.wf(),
                n == self.stake_records@.len(),
                i <= n,
                forall|k: int| 0 <= k < 4 ==> sums@[k] == sum_field(self.stake_records@.take(i as int), k),
                forall|j: int|
                    0 <= j < i ==> {
                        &&& (#[trigger] self.stake_records@[j]).withdrawn_principal <= self.stake_records@[j].total_principal
                        &&& self.stake_records@[j].withdrawn_rewards <= self.stake_records@[j].total_rewards
                    },
            decreases n - i,
        {
            let rec = self.stake_records.get(i).unwrap();
            proof {
                let t = self.stake_records@.take(i as int + 1);
                assert(t.drop_last() =~= self.stake_records@.take(i as int));
                assert(t.last() == *rec);
            }
            if rec.withdrawn_principal > rec.total_principal || rec.withdrawn_rewards > rec.total_rewards {
                return false;
            }
            let s0 = sums[0].checked_add(rec.total_principal);
            let s1 = sums[1].checked_add(rec.withdrawn_principal);
            let s2 = sums[2].checked_add(rec.total_rewards);
            let s3 = sums[3].checked_add(rec.withdrawn_rewards);
            match (s0, s1, s2, s3) {
                (Some(a), Some(b), Some(c), Some(d)) => {
                    sums = [a, b, c, d];
                },
                _ => {
                    proof {
                        let k: int = if s0 is None { 0 } else if s1 is None { 1 } else if s2 is None { 2 } else { 3 };
                        assert(sum_field(self.stake_records@.take(i as int + 1), k) > u128::MAX);
                        lemma_sum_prefix_le(self.stake_records@, i as int + 1, k);
                    }
                    return false;
                },
            }
            i += 1;
        }
        assert(self.stake_records@.take(n as int) =~= self.stake_records@);
        sums[0] == self.asset_info.total_principal && sums[1] == self.asset_info.withdrawn_principal && sums[2]
            == self.asset_info.total_rewards && sums[3] == self.asset_info.withdrawn_rewards && (self.config.apy == 0
            || self.asset_info.total_rewards <= self.asset_info.total_security_deposit)
    }

    /// Whether `execute_deposit_security` may be called: its addition cannot overflow.
    pub fn deposit_security_fits(&self, info: &MessageInfo, amount: u128) -> (r: bool)
        requires
            self.access_control.wf(),
        ensures
            r == (self.has_role(PROVIDER_ROLE@, info.sender@) && self.config.apy != 0
                ==> self.asset_info.total_security_deposit + amount <= u128::MAX),
    {
        if self.access_control.has_role(&String::from_str(PROVIDER_ROLE), &info.sender) && self.config.apy != 0 {
            self.asset_info.total_security_deposit.checked_add(amount).is_some()
        } else {
            true
        }
    }

    /// Whether `execute_stake` may be called: an admitted stake's arithmetic cannot overflow.
    pub fn stake_fits(&self, info: &MessageInfo, owner: &Result<String, StdError>, amount: u128) -> (r: bool)
        requires
            self.access_control.wf(),
        ensures
            r == (self.stake_admitted(*info, *owner, amount) ==> self.stake_computable(amount)),
    {
        let owner_addr = match owner {
            Ok(a) => a,
            Err(_) => return true,
        };
        if amount < self.config.min_stake_amount {
            return true;
        }
        if self.config.enable_staker_whitelist && !self.access_control.has_role(
            &String::from_str(STAKER_ROLE),
            &info.sender,
        ) {
            return true;
        }
        if self.config.enable_beneficiary_whitelist && !self.access_control.has_role(
            &String::from_str(BENEFICIARY_ROLE),
            owner_addr,
        ) {
            return true;
        }
        if self.config.apy == 0 {
            return self.asset_info.total_rewards.checked_add(amount).is_some();
        }
        if !self.config.security_deposit_fits(amount) {
            return false;
        }
        let rewards = self.config.calc_security_deposit_by_collateral(amount);
        rewards.checked_add(self.asset_info.total_rewards).is_some() && self.asset_info.total_principal.checked_add(
            amount,
        ).is_some()
    }

    /// Whether `execute_withdraw_rewards` may be called for stake `index`.
    pub fn withdraw_rewards_fits(&self, env: &Env, info: &MessageInfo, index: u32) -> (r: bool)
        requires
            self.stake_records.wf(),
        ensures
            r == self.reward_computable(env.time, info.sender@, index),
    {
        match self.stake_records.get(index) {
            Err(_) => true,
            Ok(rec) => {
                if rec.owner != info.sender {
                    return true;
                }
                let elapsed: u64 = if env.time <= rec.start_time {
                    0
                } else {
                    env.time - rec.start_time
                };
                self.config.installment_fits(rec.total_rewards, elapsed)
            },
        }
    }

    /// Whether `execute_claim_rewards_batch` may be called for `indexes`.
    pub fn claim_rewards_batch_fits(&self, env: &Env, info: &MessageInfo, indexes: &Vec<u32>) -> (r: bool)
        requires
            self.stake_records.wf(),
        ensures
            r == batch_computable(self.config, env.time, info.sender@, self.stake_records@, indexes@),
    {
        let ghost recs = self.stake_records@;
        let ghost sender = info.sender@;
        let ghost c = self.config;
        let mut i: usize = 0;
        while i < indexes.len()
            invariant
                self.stake_records.wf(),
                recs == self.stake_records@,
                c == self.config,
                sender == info.sender@,
                i <= indexes@.len(),
                batch_check(sender, recs, indexes@.take(i as int)) is None,
                forall|k: int| 0 <= k < i ==> #[trigger] batch_reached_ok(c, env.time, sender, recs, indexes@, k),
            decreases indexes@.len() - i,
        {
            let index = indexes[i];
            proof {
                lemma_batch_check_prefix_none_if(sender, recs, indexes@, i as int);
            }
            let ok: bool = match self.stake_records.get(index) {
                Err(_) => true,
                Ok(rec) => {
                    if rec.owner != info.sender {
                        true
                    } else {
                        let elapsed: u64 = if env.time <= rec.start_time {
                            0
                        } else {
                            env.time - rec.start_time
                        };
                        if !self.config.installment_fits(rec.total_rewards, elapsed) {
                            proof {
                                assert(!batch_reached_ok(c, env.time, sender, recs, indexes@, i as int));
                            }
                            return false;
                        }
                        false
                    }
                },
            };
            if ok {
                proof {
                    assert(batch_check(sender, recs, indexes@.take(i as int + 1)) is Some);
                    lemma_batch_check_stays(sender, recs, indexes@, i as int + 1);
                    assert forall|k: int| 0 <= k < indexes@.len() implies #[trigger] batch_reached_ok(
                        c,
                        env.time,
                        sender,
                        recs,
                        indexes@,
                        k,
                    ) by {
                        if k > i {
                            assert(batch_check(sender, recs, indexes@.take(k)) is Some);
                        }
                    }
                }
                return true;
            }
            assert(batch_reached_ok(c, env.time, sender, recs, indexes@, i as int));
            i += 1;
        }
        proof {
            assert forall|k: int| 0 <= k < indexes@.len() implies #[trigger] batch_reached_ok(
                c,
                env.time,
                sender,
                recs,
                indexes@,
                k,
            ) by {}
        }
        true
    }

    /// Whether `execute_collect` may be called for the given token.
    pub fn collect_fits(&self, is_native_token: bool, token: &String) -> (r: bool)
        ensures
            r == ((TokenConfig { is_native: is_native_token, token: *token }).same_as(self.token_config)
                && self.config.apy != 0 ==> self.asset_info.total_principal + self.asset_info.total_security_deposit
                <= u128::MAX),
    {
        if self.token_config.is_native == is_native_token && self.token_config.token == *token && self.config.apy != 0 {
            self.asset_info.total_principal.checked_add(self.asset_info.total_security_deposit).is_some()
        } else {
            true
        }
    }

    proof fn lemma_push_keeps_indexes(
        &self,
        old_records: Seq<StakeInfo>,
        old_indexes: Map<Seq<char>, Vec<u32>>,
        o: Seq<char>,
    )
        requires
            old_records.len() < u32::MAX,
            self.stake_records@.len() == old_records.len() + 1,
            forall|i: int| 0 <= i < old_records.len() ==> self.stake_records@[i] == old_records[i],
            self.stake_records@[old_records.len() as int].owner@ == o,
            self.staker_indexes@.remove(o) == old_indexes.remove(o),
            self.staker_indexes@.contains_key(o),
            self.staker_indexes@[o]@ == indexes_of(old_indexes, o).push(old_records.len() as u32),
            forall|i: int|
                0 <= i < old_records.len() ==> {
                    &&& old_indexes.contains_key((#[trigger] old_records[i]).owner@)
                    &&& old_indexes[old_records[i].owner@]@.contains(i as u32)
                },
            forall|k: Seq<char>, j: int|
                #![trigger old_indexes[k]@[j]]
                old_indexes.contains_key(k) && 0 <= j < old_indexes[k]@.len() ==> {
                    &&& old_indexes[k]@[j] < old_records.len()
                    &&& old_records[old_indexes[k]@[j] as int].owner@ == k
                },
        ensures
            self.indexes_consistent(),
    {
        let n = old_records.len() as int;
        assert forall|i: int| 0 <= i < self.stake_records@.len() implies {
            &&& self.staker_indexes@.contains_key((#[trigger] self.stake_records@[i]).owner@)
            &&& self.staker_indexes@[self.stake_records@[i].owner@]@.contains(i as u32)
        } by {
            let k = self.stake_records@[i].owner@;
            if i == n {
                assert(self.staker_indexes@[o]@[self.staker_indexes@[o]@.len() - 1] == i as u32);
            } else {
                assert(self.stake_records@[i] == old_records[i]);
                let _ = old_records[i];
                if k == o {
                    let l = indexes_of(old_indexes, o);
                    let j = choose|j: int| 0 <= j < old_indexes[o]@.len() && old_indexes[o]@[j] == i as u32;
                    assert(self.staker_indexes@[o]@[j] == i as u32);
                } else {
                    assert(self.staker_indexes@.remove(o).contains_key(k));
                    assert(old_indexes.remove(o).contains_key(k));
                    assert(self.staker_indexes@.remove(o)[k] == self.staker_indexes@[k]);
                assert(old_indexes.remove(o)[k] == old_indexes[k]);
                assert(self.staker_indexes@[k] == old_indexes[k]);
                }
            }
        }
        assert forall|k: Seq<char>, j: int|
            #![trigger self.staker_indexes@[k]@[j]]
            self.staker_indexes@.contains_key(k) && 0 <= j < self.staker_indexes@[k]@.len() implies {
                &&& self.staker_indexes@[k]@[j] < self.stake_records@.len()
                &&& self.stake_records@[self.staker_indexes@[k]@[j] as int].owner@ == k
            } by {
            if k == o {
                if j < indexes_of(old_indexes, o).len() {
                    assert(self.staker_indexes@[o]@[j] == old_indexes[o]@[j]);
                    let _ = old_indexes[k]@[j];
                }
            } else {
                assert(self.staker_indexes@.remove(o).contains_key(k));
                assert(old_indexes.remove(o).contains_key(k));
                assert(self.staker_indexes@.remove(o)[k] == self.staker_indexes@[k]);
                assert(old_indexes.remove(o)[k] == old_indexes[k]);
                assert(self.staker_indexes@[k] == old_indexes[k]);
                let _ = old_indexes[k]@[j];
            }
        }
    }
}



/// The check of a prefix is `None` as long as the prefix one shorter and its last index pass.
pub proof fn lemma_batch_check_prefix_none_if(sender: Seq<char>, recs: Seq<StakeInfo>, idx: Seq<u32>, i: int)
    requires
        0 <= i < idx.len(),
    ensures
        batch_check(sender, recs, idx.take(i + 1)) == (match batch_check(sender, recs, idx.take(i)) {
            Some(e) => Some(e),
            None => if idx[i] >= recs.len() {
                Some(ContractError::Std(StdError::OutOfBounds { key: idx[i] }))
            } else if recs[idx[i] as int].owner@ != sender {
                Some(ContractError::Unauthorized)
            } else {
                None
            },
        }),
{
    assert(idx.take(i + 1).drop_last() =~= idx.take(i));
}

/// A refusal at some prefix is a refusal of every longer prefix.
pub proof fn lemma_batch_check_stays(sender: Seq<char>, recs: Seq<StakeInfo>, idx: Seq<u32>, n: int)
    requires
        0 <= n <= idx.len(),
        batch_check(sender, recs, idx.take(n)) is Some,
    ensures
        forall|k: int| n <= k <= idx.len() ==> (#[trigger] batch_check(sender, recs, idx.take(k))) is Some,
{
    assert forall|k: int| n <= k <= idx.len() implies (#[trigger] batch_check(sender, recs, idx.take(k))) is Some by {
        assert(idx.take(k).take(n) =~= idx.take(n));
        lemma_batch_check_prefix(sender, recs, idx.take(k), n);
    }
}

/// A refusal in a prefix of the list is the refusal of the whole list.
pub proof fn lemma_batch_check_prefix(sender: Seq<char>, recs: Seq<StakeInfo>, idx: Seq<u32>, n: int)
    requires
        0 <= n <= idx.len(),
        batch_check(sender, recs, idx.take(n)) is Some,
    ensures
        batch_check(sender, recs, idx) == batch_check(sender, recs, idx.take(n)),
    decreases idx.len(),
{
    if n < idx.len() {
        assert(idx.drop_last().take(n) =~= idx.take(n));
        lemma_batch_check_prefix(sender, recs, idx.drop_last(), n);
    } else {
        assert(idx.take(n) =~= idx);
    }
}

/// A list with no refusal has none in any prefix.
pub proof fn lemma_batch_check_prefix_none(sender: Seq<char>, recs: Seq<StakeInfo>, idx: Seq<u32>, n: int)
    requires
        0 <= n <= idx.len(),
        batch_check(sender, recs, idx) is None,
    ensures
        batch_check(sender, recs, idx.take(n)) is None,
{
    if batch_check(sender, recs, idx.take(n)) is Some {
        lemma_batch_check_prefix(sender, recs, idx, n);
    }
}


/// A prefix of the records sums to no more than all of them.
pub proof fn lemma_sum_prefix_le(s: Seq<StakeInfo>, n: int, k: int)
    requires
        0 <= n <= s.len(),
    ensures
        sum_field(s.take(n), k) <= sum_field(s, k),
    decreases s.len(),
{
    if n < s.len() {
        assert(s.drop_last().take(n) =~= s.take(n));
        lemma_sum_prefix_le(s.drop_last(), n, k);
        assert(stake_field(s.last(), k) >= 0);
    } else {
        assert(s.take(n) =~= s);
    }
}

/// Under the accounting invariant, withdrawals never exceed their totals.
pub proof fn lemma_sum_le_inv(sc: &StakeCore)
    requires
        sc.inv(),
    ensures
        sc.asset_info.withdrawn_principal <= sc.asset_info.total_principal,
        sc.asset_info.withdrawn_rewards <= sc.asset_info.total_rewards,
{
    let rs = sc.stake_records@;
    assert forall|i: int| 0 <= i < rs.len() implies stake_field(#[trigger] rs[i], 1) <= stake_field(rs[i], 0) by {}
    lemma_sum_le(rs, 1, 0);
    assert forall|i: int| 0 <= i < rs.len() implies stake_field(#[trigger] rs[i], 3) <= stake_field(rs[i], 2) by {}
    lemma_sum_le(rs, 3, 2);
}

/// A failure in a prefix is the first failure of the whole sequence.
pub proof fn lemma_first_err_prefix<T>(s: Seq<Result<T, StdError>>, n: int)
    requires
        0 <= n <= s.len(),
        first_err(s.take(n)) is Some,
    ensures
        first_err(s) == first_err(s.take(n)),
    decreases s.len(),
{
    if n < s.len() {
        assert(s.drop_last().take(n) =~= s.take(n));
        lemma_first_err_prefix(s.drop_last(), n);
    } else {
        assert(s.take(n) =~= s);
    }
}

} // verus!
