//! A registry of holders run on the [`holder`](crate::holder) model: it
//! holds stakes in a [`CollateralPool`](crate::collateral_pool), mirrors each
//! as a share, lets its admin grant parts of a share to holders, asks the pool
//! to pay out, and passes on to each holder its part of what came in.

use crate::assoc_map::AssocMap;
use crate::collateral::StakeInfo;
use crate::collateral_pool::{transfer_spec, ExecuteMsg};
use crate::env::MessageInfo;
use crate::errors::StdError;
use crate::math::mul_div;
use crate::holder::{Config, HolderInfo, ShareInfo};
use crate::json::{
    decimal_u128, from_json_u32, from_json_u32_list, from_json_uint128_list, json_u32_list_value, json_u32_value,
    json_uint128_list_value, uint128_from_str,
};
use crate::ownership::Ownership;
use crate::sharecore::replay::{
    event_value_spec, get_value_from_event, length_mismatch_msg, length_mismatch_text, Event, ReplyEffect,
};
use crate::universal_token::TokenMsg;
use crate::key_order::{has_holder_key, holder_keys_sorted};
use vstd::prelude::*;

verus! {

/// Reply id of a pool call paying out one stake's rewards.
pub const EXECUTE_CLAIM_STAKE_REWARD__CLAIM_REWARD: u64 = 1;

/// Reply id of a pool call paying out the rewards of all registered stakes.
pub const EXECUTE_CLAIM_STAKE_REWARDS_BATCH__CLAIM_REWARDS_BATCH: u64 = 2;

/// Reply id of a pool call unstaking one stake.
pub const EXECUTE_CLAIM_STAKE_PRINCIPAL__UNSTAKE: u64 = 3;

/// Why a registry operation was refused.
#[derive(Debug)]
pub enum RegistryError {
    Std(StdError),
    Unauthorized,
    StakecoreAlreadyInitialized,
    HolderAlreadyRegistered,
    InsufficientReward,
    InsufficientPrincipal,
    ShareInfoNotFound,
    NoReward,
    NoPrincipal,
    InnerError { msg: String },
    UnknownReplyId { id: u64 },
    SubMsgFailed { msg: String },
}

/// A question put to a registry.
#[derive(Debug)]
pub enum QueryMsg {
    Config,
    ShareInfo { share_id: u32 },
    HolderInfo { share_id: u32, addr: String },
    ShareInfos,
    Holders,
}

/// The ids of all shares, in increasing order.
#[derive(Debug)]
pub struct ShareInfosResponse {
    pub share_ids: Vec<u32>,
}

/// Every (holder, share id) pair that has a record.
#[derive(Debug)]
pub struct HoldersResponse {
    pub holders: Vec<(String, u32)>,
}

/// The answer to a [`QueryMsg`], one variant per question.
#[derive(Debug)]
pub enum QueryResponse {
    Config(Config),
    ShareInfo(ShareInfo),
    HolderInfo(HolderInfo),
    ShareInfos(ShareInfosResponse),
    Holders(HoldersResponse),
}

/// The outcome of looking up a pool: its validated address, and the token
/// its configuration names.
#[derive(Debug)]
pub struct PoolLookup {
    pub addr: Result<String, StdError>,
    pub token: Result<String, StdError>,
}

/// A call to the pool, whose reply comes back under `reply_id`.
#[derive(Debug)]
pub struct PoolCall {
    pub contract: String,
    pub msg: ExecuteMsg,
    pub reply_id: u64,
}

/// An amount paid to a holder and the token messages that pay it.
#[derive(Debug)]
pub struct Payout {
    pub amount: u128,
    pub messages: Vec<TokenMsg>,
}

/// The whole state of a registry.
pub struct HolderPool {
    pub config: Config,
    pub share_infos: AssocMap<u32, ShareInfo>,
    pub share_info_indexes: Vec<u32>,
    pub holder_infos: AssocMap<(String, u32), HolderInfo>,
    /// The JSON of what a pending pool call concerns: a share id, or the list
    /// of share ids.
    pub pending_submsg_payload: Option<Vec<u8>>,
}

/// The share mirroring a stake of the pool.
pub open spec fn share_of_stake(s: StakeInfo) -> ShareInfo {
    ShareInfo {
        total_reward: s.total_reward,
        claimed_reward: 0,
        granted_reward: 0,
        principal: s.amount,
        claimed_principal: 0,
        granted_principal: 0,
    }
}

/// The shares after mirroring `stakes` in turn.
pub open spec fn sync_spec(m: Map<u32, ShareInfo>, stakes: Seq<(u32, StakeInfo)>) -> Map<u32, ShareInfo>
    decreases stakes.len(),
{
    if stakes.len() == 0 {
        m
    } else {
        sync_spec(m, stakes.drop_last()).insert(stakes.last().0, share_of_stake(stakes.last().1))
    }
}

/// The stake indexes to mirror next: those after the `registered` ones.
pub open spec fn sync_plan_spec(registered: int, share_ids: Seq<u32>) -> Seq<u32> {
    if registered >= share_ids.len() {
        Seq::empty()
    } else {
        share_ids.subrange(registered, share_ids.len() as int)
    }
}

/// What the shares have received from the pool, rewards and principal.
pub open spec fn share_claims_sum(s: Seq<(u32, ShareInfo)>) -> int
    decreases s.len(),
{
    if s.len() == 0 {
        0
    } else {
        share_claims_sum(s.drop_last()) + s.last().1.claimed_reward + s.last().1.claimed_principal
    }
}

/// What the holders have received, rewards and principal.
pub open spec fn holder_claims_sum(s: Seq<((String, u32), HolderInfo)>) -> int
    decreases s.len(),
{
    if s.len() == 0 {
        0
    } else {
        holder_claims_sum(s.drop_last()) + s.last().1.claimed_reward + s.last().1.claimed_principal
    }
}

/// A prefix of the shares has received no more than all of them.
pub proof fn lemma_share_claims_prefix(s: Seq<(u32, ShareInfo)>, n: int)
    requires
        0 <= n <= s.len(),
    ensures
        0 <= share_claims_sum(s.take(n)) <= share_claims_sum(s),
    decreases s.len(),
{
    if n == s.len() {
        assert(s.take(n) =~= s);
        if n > 0 {
            lemma_share_claims_prefix(s.drop_last(), n - 1);
            assert(s.drop_last().take(n - 1) =~= s.drop_last());
        }
    } else {
        assert(s.drop_last().take(n) =~= s.take(n));
        lemma_share_claims_prefix(s.drop_last(), n);
    }
}

/// A prefix of the holders has received no more than all of them.
pub proof fn lemma_holder_claims_prefix(s: Seq<((String, u32), HolderInfo)>, n: int)
    requires
        0 <= n <= s.len(),
    ensures
        0 <= holder_claims_sum(s.take(n)) <= holder_claims_sum(s),
    decreases s.len(),
{
    if n == s.len() {
        assert(s.take(n) =~= s);
        if n > 0 {
            lemma_holder_claims_prefix(s.drop_last(), n - 1);
            assert(s.drop_last().take(n - 1) =~= s.drop_last());
        }
    } else {
        assert(s.drop_last().take(n) =~= s.take(n));
        lemma_holder_claims_prefix(s.drop_last(), n);
    }
}

/// `pairs` lists each key of the holder records `m` once, in the order
/// contract storage lists them.
pub open spec fn lists_holders(pairs: Seq<(String, u32)>, m: Map<(Seq<char>, u32), HolderInfo>) -> bool {
    &&& holder_keys_sorted(pairs)
    &&& forall|k: (Seq<char>, u32)| #[trigger] has_holder_key(pairs, k) <==> m.contains_key(k)
}

/// The shares after crediting `amts[i]` of claimed reward to share `ids[i]`
/// in turn; none if some share does not exist.
pub open spec fn credit_batch_spec(m: Map<u32, ShareInfo>, ids: Seq<u32>, amts: Seq<u128>) -> Option<Map<u32, ShareInfo>>
    decreases ids.len(),
{
    if ids.len() == 0 || amts.len() == 0 {
        Some(m)
    } else {
        match credit_batch_spec(m, ids.drop_last(), amts.drop_last()) {
            None => None,
            Some(m2) => {
                let id = ids.last();
                if !m2.contains_key(id) {
                    None
                } else {
                    Some(m2.insert(id, ShareInfo { claimed_reward: (m2[id].claimed_reward + amts.last()) as u128, ..m2[id] }))
                }
            },
        }
    }
}

/// Crediting a batch adds nothing that overflows.
pub open spec fn credit_batch_fits(m: Map<u32, ShareInfo>, ids: Seq<u32>, amts: Seq<u128>) -> bool {
    forall|k: int|
        0 <= k < ids.len() && k < amts.len() ==> match #[trigger] credit_batch_spec(m, ids.take(k), amts.take(k)) {
            Some(m2) => m2.contains_key(ids[k]) ==> m2[ids[k]].claimed_reward + amts[k] <= u128::MAX,
            None => true,
        }
}

/// A batch keeps the set of shares, and fails exactly when a listed share is missing.
pub proof fn lemma_credit_batch_dom(m: Map<u32, ShareInfo>, ids: Seq<u32>, amts: Seq<u128>)
    requires
        ids.len() == amts.len(),
    ensures
        credit_batch_spec(m, ids, amts) is Some <==> forall|k: int| 0 <= k < ids.len() ==> m.contains_key(#[trigger] ids[k]),
        credit_batch_spec(m, ids, amts) matches Some(m2) ==> m2.dom() == m.dom(),
    decreases ids.len(),
{
    if ids.len() > 0 {
        lemma_credit_batch_dom(m, ids.drop_last(), amts.drop_last());
        if credit_batch_spec(m, ids.drop_last(), amts.drop_last()) is Some {
            let m2 = credit_batch_spec(m, ids.drop_last(), amts.drop_last())->0;
            let id = ids.last();
            assert forall|k: int| 0 <= k < ids.len() - 1 implies m.contains_key(#[trigger] ids.drop_last()[k]) == m.contains_key(ids[k]) by {}
            if m2.contains_key(id) {
                assert(m2.insert(id, ShareInfo { claimed_reward: (m2[id].claimed_reward + amts.last()) as u128, ..m2[id] }).dom() =~= m.dom());
                assert forall|k: int| 0 <= k < ids.len() implies m.contains_key(#[trigger] ids[k]) by {
                    if k < ids.len() - 1 {
                        assert(m.contains_key(ids.drop_last()[k]));
                    }
                }
            } else {
                assert(!m.contains_key(ids[ids.len() - 1]));
            }
        } else {
            let k0 = choose|k: int| 0 <= k < ids.drop_last().len() && !m.contains_key(#[trigger] ids.drop_last()[k]);
            assert(ids.drop_last()[k0] == ids[k0]);
            assert(!m.contains_key(ids[k0]));
        }
    }
}

/// Once a prefix of a credited batch fails, every longer prefix fails.
pub proof fn lemma_credit_batch_none_stays(m: Map<u32, ShareInfo>, ids: Seq<u32>, amts: Seq<u128>, k: int, j: int)
    requires
        0 <= k <= j <= ids.len(),
        ids.len() == amts.len(),
        credit_batch_spec(m, ids.take(k), amts.take(k)) is None,
    ensures
        credit_batch_spec(m, ids.take(j), amts.take(j)) is None,
    decreases j - k,
{
    if j > k {
        lemma_credit_batch_none_stays(m, ids, amts, k, j - 1);
        assert(ids.take(j).drop_last() =~= ids.take(j - 1));
        assert(amts.take(j).drop_last() =~= amts.take(j - 1));
    }
}

impl HolderPool {
    /// Whether `execute_add_holder` may be called.
    pub fn add_holder_fits(&self, owner: &Result<String, StdError>, share_id: u32, granted_reward: u128, granted_principal: u128) -> (r: bool)
        requires
            self.wf(),
        ensures
            r == (owner is Ok && self.share_infos@.contains_key(share_id) ==> {
                &&& self.share_infos@[share_id].granted_reward + granted_reward <= u128::MAX
                &&& self.share_infos@[share_id].granted_principal + granted_principal <= u128::MAX
            }),
    {
        if owner.is_err() {
            return true;
        }
        match self.share_infos.get(&share_id) {
            None => true,
            Some(s) => s.granted_reward.checked_add(granted_reward).is_some() && s.granted_principal.checked_add(
                granted_principal,
            ).is_some(),
        }
    }

    /// Whether `execute_claim_reward` may be called.
    pub fn claim_reward_fits(&self, info: &MessageInfo, share_id: u32) -> (r: bool)
        requires
            self.wf(),
        ensures
            r == (self.holder_infos@.contains_key((info.sender@, share_id)) && self.share_infos@.contains_key(share_id)
                ==> {
                let h = self.holder_infos@[(info.sender@, share_id)];
                let s = self.share_infos@[share_id];
                &&& s.holder_reward_spec(h.granted_reward) <= u128::MAX
                &&& s.holder_reward_spec(h.granted_reward) > h.claimed_reward ==> self.config.token is Some
            }),
    {
        let (h, s) = match self.holder_and_share(&info.sender, share_id) {
            Ok(p) => p,
            Err(_) => return true,
        };
        if h.granted_reward != 0 && s.total_reward != 0 && mul_div(h.granted_reward, s.claimed_reward, s.total_reward).is_none() {
            return false;
        }
        s.calc_holder_reward(h.granted_reward) <= h.claimed_reward || self.config.token.is_some()
    }

    /// Whether `execute_claim_principal` may be called.
    pub fn claim_principal_fits(&self, info: &MessageInfo, share_id: u32) -> (r: bool)
        requires
            self.wf(),
        ensures
            r == (self.holder_infos@.contains_key((info.sender@, share_id)) && self.share_infos@.contains_key(share_id)
                ==> {
                let h = self.holder_infos@[(info.sender@, share_id)];
                let s = self.share_infos@[share_id];
                &&& s.holder_principal_spec(h.granted_principal) <= u128::MAX
                &&& s.holder_principal_spec(h.granted_principal) > h.claimed_principal ==> self.config.token is Some
            }),
    {
        let (h, s) = match self.holder_and_share(&info.sender, share_id) {
            Ok(p) => p,
            Err(_) => return true,
        };
        if h.granted_principal != 0 && s.principal != 0 && mul_div(h.granted_principal, s.claimed_principal, s.principal).is_none() {
            return false;
        }
        s.calc_holder_principal(h.granted_principal) <= h.claimed_principal || self.config.token.is_some()
    }

    /// Whether `execute_collect` may be called with the queried `balance`.
    pub fn collect_fits(&self, info: &MessageInfo, balance: &Result<u128, StdError>) -> (r: bool)
        requires
            self.wf(),
        ensures
            r == (self.config.admin.owner@ == info.sender@ && balance is Ok ==> {
                let s = share_claims_sum(self.share_infos.entry_seq());
                let h = holder_claims_sum(self.holder_infos.entry_seq());
                &&& s <= u128::MAX
                &&& h <= s
                &&& balance->Ok_0 > s - h ==> self.config.token is Some
            }),
    {
        let b = match balance {
            Ok(b) => *b,
            Err(_) => return true,
        };
        if !self.config.admin.validate(&info.sender) {
            return true;
        }
        let shares = self.share_infos.entries();
        let ghost ss = shares@;
        let mut total: u128 = 0;
        let mut i: usize = 0;
        while i < shares.len()
            invariant
                i <= ss.len(),
                ss == shares@,
                ss == self.share_infos.entry_seq(),
                self.config.admin.owner@ == info.sender@,
                *balance == Ok::<u128, StdError>(b),
                total == share_claims_sum(ss.take(i as int)),
            decreases ss.len() - i,
        {
            proof {
                assert(ss.take(i as int + 1).drop_last() =~= ss.take(i as int));
                lemma_share_claims_prefix(ss, i as int + 1);
            }
            let s = &shares[i].1;
            let part = match s.claimed_reward.checked_add(s.claimed_principal) {
                Some(p) => p,
                None => {
                    proof {
                        lemma_share_claims_prefix(ss, i as int);
                    }
                    return false;
                },
            };
            total = match total.checked_add(part) {
                Some(t) => t,
                None => return false,
            };
            i += 1;
        }
        assert(ss.take(ss.len() as int) =~= ss);
        let holders = self.holder_infos.entries();
        let ghost hs = holders@;
        let mut paid: u128 = 0;
        let mut j: usize = 0;
        while j < holders.len()
            invariant
                j <= hs.len(),
                hs == holders@,
                hs == self.holder_infos.entry_seq(),
                ss == self.share_infos.entry_seq(),
                self.config.admin.owner@ == info.sender@,
                *balance == Ok::<u128, StdError>(b),
                total == share_claims_sum(ss),
                paid == holder_claims_sum(hs.take(j as int)),
                paid <= total,
            decreases hs.len() - j,
        {
            proof {
                assert(hs.take(j as int + 1).drop_last() =~= hs.take(j as int));
                lemma_holder_claims_prefix(hs, j as int + 1);
                lemma_holder_claims_prefix(hs, j as int);
            }
            let h = &holders[j].1;
            let part = match h.claimed_reward.checked_add(h.claimed_principal) {
                Some(p) => p,
                None => return false,
            };
            paid = match paid.checked_add(part) {
                Some(p) => p,
                None => return false,
            };
            if paid > total {
                return false;
            }
            j += 1;
        }
        assert(hs.take(hs.len() as int) =~= hs);
        b <= total - paid || self.config.token.is_some()
    }

    /// Whether `apply_reply` may be called with `effect`: crediting it
    /// overflows nothing.
    pub fn reply_fits(&self, effect: &ReplyEffect) -> (r: bool)
        requires
            self.wf(),
            effect matches ReplyEffect::ClaimedRewardsBatch { share_ids, amounts } ==> share_ids@.len()
                == amounts@.len(),
        ensures
            r == self.reply_fits_spec(*effect),
    {
        match effect {
            ReplyEffect::ClaimedRewards { share_id, amount } => match self.share_infos.get(share_id) {
                None => true,
                Some(s) => s.claimed_reward.checked_add(*amount).is_some(),
            },
            ReplyEffect::ClaimedPrincipal { share_id, amount } => match self.share_infos.get(share_id) {
                None => true,
                Some(s) => s.claimed_principal.checked_add(*amount).is_some(),
            },
            ReplyEffect::ClaimedRewardsBatch { share_ids, amounts } => self.credit_fits(share_ids, amounts),
        }
    }

    fn credit_fits(&self, ids: &Vec<u32>, amts: &Vec<u128>) -> (r: bool)
        requires
            self.wf(),
            ids@.len() == amts@.len(),
        ensures
            r == credit_batch_fits(self.share_infos@, ids@, amts@),
    {
        let ghost m = self.share_infos@;
        let mut claimed: AssocMap<u32, u128> = AssocMap::new();
        let mut k: usize = 0;
        proof {
            assert(ids@.take(0) =~= Seq::<u32>::empty());
            assert(amts@.take(0) =~= Seq::<u128>::empty());
        }
        while k < ids.len()
            invariant
                self.wf(),
                m == self.share_infos@,
                ids@.len() == amts@.len(),
                k <= ids@.len(),
                claimed.wf(),
                credit_batch_spec(m, ids@.take(k as int), amts@.take(k as int)) matches Some(m2) && m2.dom() == m.dom()
                    && (forall|id: u32|
                    #![trigger m2[id]]
                    m.contains_key(id) ==> m2[id].claimed_reward == (if claimed@.contains_key(id) {
                        claimed@[id]
                    } else {
                        m[id].claimed_reward
                    })),
                forall|j: int|
                    0 <= j < k ==> match #[trigger] credit_batch_spec(m, ids@.take(j), amts@.take(j)) {
                        Some(m2) => m2.contains_key(ids@[j]) ==> m2[ids@[j]].claimed_reward + amts@[j] <= u128::MAX,
                        None => true,
                    },
            decreases ids@.len() - k,
        {
            let id = ids[k];
            let amount = amts[k];
            let ghost prev = credit_batch_spec(m, ids@.take(k as int), amts@.take(k as int));
            proof {
                assert(ids@.take(k as int + 1).drop_last() =~= ids@.take(k as int));
                assert(amts@.take(k as int + 1).drop_last() =~= amts@.take(k as int));
                assert(ids@.take(k as int + 1).last() == id);
                assert(amts@.take(k as int + 1).last() == amount);
            }
            let s = match self.share_infos.get(&id) {
                None => {
                    proof {
                        let m2 = prev->0;
                        assert(!m2.contains_key(id));
                        assert(credit_batch_spec(m, ids@.take(k as int + 1), amts@.take(k as int + 1)) is None);
                        assert forall|j: int| 0 <= j < ids@.len() && j < amts@.len() implies match #[trigger] credit_batch_spec(
                            m,
                            ids@.take(j),
                            amts@.take(j),
                        ) {
                            Some(m2) => m2.contains_key(ids@[j]) ==> m2[ids@[j]].claimed_reward + amts@[j] <= u128::MAX,
                            None => true,
                        } by {
                            if j > k {
                                lemma_credit_batch_none_stays(m, ids@, amts@, k as int + 1, j);
                            }
                        }
                    }
                    return true;
                },
                Some(s) => *s,
            };
            let current = match claimed.get(&id) {
                Some(c) => *c,
                None => s.claimed_reward,
            };
            proof {
                let m2 = prev->0;
                let _ = m2[id];
            }
            let new_claimed = match current.checked_add(amount) {
                Some(x) => x,
                None => return false,
            };
            claimed.insert(id, new_claimed);
            proof {
                let m2 = prev->0;
                let m3 = m2.insert(id, ShareInfo { claimed_reward: (m2[id].claimed_reward + amount) as u128, ..m2[id] });
                assert(credit_batch_spec(m, ids@.take(k as int + 1), amts@.take(k as int + 1)) == Some(m3));
                assert(m3.dom() =~= m.dom());
                assert forall|x: u32| m.contains_key(x) implies #[trigger] m3[x].claimed_reward == (if claimed@.contains_key(x) {
                    claimed@[x]
                } else {
                    m[x].claimed_reward
                }) by {
                    if x != id {
                        let _ = m2[x];
                    }
                }
            }
            k += 1;
        }
        true
    }
}

impl HolderPool {
    /// The maps are well formed, and no share has granted more reward or
    /// principal than it holds.
    pub open spec fn wf(&self) -> bool {
        &&& self.share_infos.wf()
        &&& self.holder_infos.wf()
        &&& forall|id: u32| #[trigger] self.share_infos@.contains_key(id) ==> self.share_infos@[id].wf()
    }

    /// Sets up a registry, optionally on a pool; `admin` is the validated
    /// admin address.
    pub fn instantiate(stake_core: Option<PoolLookup>, admin: Result<String, StdError>) -> (r: Result<
        Self,
        RegistryError,
    >)
        ensures
            stake_core is Some && stake_core->0.addr is Err ==> r == Err::<Self, RegistryError>(
                RegistryError::Std(stake_core->0.addr->Err_0),
            ),
            stake_core is Some && stake_core->0.addr is Ok && stake_core->0.token is Err ==> r == Err::<
                Self,
                RegistryError,
            >(RegistryError::Std(stake_core->0.token->Err_0)),
            (stake_core is None || (stake_core->0.addr is Ok && stake_core->0.token is Ok)) && admin is Err ==> r
                == Err::<Self, RegistryError>(RegistryError::Std(admin->Err_0)),
            r is Ok <==> (stake_core is None || (stake_core->0.addr is Ok && stake_core->0.token is Ok)) && admin is Ok,
            r matches Ok(p) ==> {
                &&& p.wf()
                &&& p.config == (Config {
                    stake_core: match stake_core {
                        Some(l) => Some(l.addr->Ok_0),
                        None => None,
                    },
                    token: match stake_core {
                        Some(l) => Some(l.token->Ok_0),
                        None => None,
                    },
                    admin: Ownership { owner: admin->Ok_0, pending_owner: None },
                })
                &&& p.share_infos@ == Map::<u32, ShareInfo>::empty()
                &&& p.share_info_indexes@ == Seq::<u32>::empty()
                &&& p.holder_infos@ == Map::<(Seq<char>, u32), HolderInfo>::empty()
                &&& p.pending_submsg_payload is None
            },
    {
        let (stake_core, token) = match stake_core {
            Some(l) => {
                let addr = match l.addr {
                    Ok(a) => a,
                    Err(e) => return Err(RegistryError::Std(e)),
                };
                let token = match l.token {
                    Ok(t) => t,
                    Err(e) => return Err(RegistryError::Std(e)),
                };
                (Some(addr), Some(token))
            },
            None => (None, None),
        };
        let admin = match admin {
            Ok(a) => a,
            Err(e) => return Err(RegistryError::Std(e)),
        };
        Ok(HolderPool {
            config: Config { stake_core, token, admin: Ownership::new(admin) },
            share_infos: AssocMap::new(),
            share_info_indexes: Vec::new(),
            holder_infos: AssocMap::new(),
            pending_submsg_payload: None,
        })
    }

    /// The admin sets the pool, once.
    pub fn execute_init_stake_core(&mut self, info: &MessageInfo, lookup: PoolLookup) -> (r: Result<(), RegistryError>)
        ensures
            old(self).config.admin.owner@ != info.sender@ ==> r == Err::<(), RegistryError>(RegistryError::Unauthorized),
            old(self).config.admin.owner@ == info.sender@ && old(self).config.stake_core is Some ==> r == Err::<
                (),
                RegistryError,
            >(RegistryError::StakecoreAlreadyInitialized),
            old(self).config.admin.owner@ == info.sender@ && old(self).config.stake_core is None ==> {
                &&& lookup.addr is Err ==> r == Err::<(), RegistryError>(RegistryError::Std(lookup.addr->Err_0))
                &&& lookup.addr is Ok && lookup.token is Err ==> r == Err::<(), RegistryError>(
                    RegistryError::Std(lookup.token->Err_0),
                )
                &&& r is Ok <==> lookup.addr is Ok && lookup.token is Ok
            },
            r is Ok ==> *final(self) == (HolderPool {
                config: Config {
                    stake_core: Some(lookup.addr->Ok_0),
                    token: Some(lookup.token->Ok_0),
                    ..old(self).config
                },
                ..*old(self)
            }),
            r is Err ==> *final(self) == *old(self),
    {
        if !self.config.admin.validate(&info.sender) {
            return Err(RegistryError::Unauthorized);
        }
        if self.config.stake_core.is_some() {
            return Err(RegistryError::StakecoreAlreadyInitialized);
        }
        let addr = match lookup.addr {
            Ok(a) => a,
            Err(e) => return Err(RegistryError::Std(e)),
        };
        let token = match lookup.token {
            Ok(t) => t,
            Err(e) => return Err(RegistryError::Std(e)),
        };
        self.config.stake_core = Some(addr);
        self.config.token = Some(token);
        Ok(())
    }

    /// The admin grants `owner` (its validated address) parts of share
    /// `share_id`, within what the share has not granted yet.
    pub fn execute_add_holder(
        &mut self,
        info: &MessageInfo,
        owner: Result<String, StdError>,
        share_id: u32,
        granted_reward: u128,
        granted_principal: u128,
    ) -> (r: Result<(), RegistryError>)
        requires
            old(self).wf(),
            owner is Ok && old(self).share_infos@.contains_key(share_id) ==> {
                &&& old(self).share_infos@[share_id].granted_reward + granted_reward <= u128::MAX
                &&& old(self).share_infos@[share_id].granted_principal + granted_principal <= u128::MAX
            },
        ensures
            final(self).wf(),
            r is Err ==> *final(self) == *old(self),
            old(self).config.admin.owner@ != info.sender@ ==> r == Err::<(), RegistryError>(RegistryError::Unauthorized),
            old(self).config.admin.owner@ == info.sender@ ==> match owner {
                Err(e) => r == Err::<(), RegistryError>(RegistryError::Std(e)),
                Ok(o) => {
                    let s = old(self).share_infos@[share_id];
                    if old(self).holder_infos@.contains_key((o@, share_id)) {
                        r == Err::<(), RegistryError>(RegistryError::HolderAlreadyRegistered)
                    } else if !old(self).share_infos@.contains_key(share_id) {
                        r matches Err(RegistryError::Std(StdError::NotFound { kind })) && kind@ == "unipos::sharecore::state::ShareInfo"@
                    } else if s.total_reward < s.granted_reward + granted_reward {
                        r == Err::<(), RegistryError>(RegistryError::InsufficientReward)
                    } else if s.principal < s.granted_principal + granted_principal {
                        r == Err::<(), RegistryError>(RegistryError::InsufficientPrincipal)
                    } else {
                        &&& r is Ok
                        &&& final(self).config == old(self).config
                        &&& final(self).share_info_indexes == old(self).share_info_indexes
                        &&& final(self).pending_submsg_payload == old(self).pending_submsg_payload
                        &&& final(self).share_infos@ == old(self).share_infos@.insert(
                            share_id,
                            ShareInfo {
                                granted_reward: (s.granted_reward + granted_reward) as u128,
                                granted_principal: (s.granted_principal + granted_principal) as u128,
                                ..s
                            },
                        )
                        &&& final(self).holder_infos@ == old(self).holder_infos@.insert(
                            (o@, share_id),
                            HolderInfo { granted_reward, claimed_reward: 0, granted_principal, claimed_principal: 0 },
                        )
                    }
                },
            },
    {
        if !self.config.admin.validate(&info.sender) {
            return Err(RegistryError::Unauthorized);
        }
        let owner = match owner {
            Ok(o) => o,
            Err(e) => return Err(RegistryError::Std(e)),
        };
        if self.holder_infos.contains_key(&(owner.clone(), share_id)) {
            return Err(RegistryError::HolderAlreadyRegistered);
        }
        let mut share_info = match self.share_infos.get(&share_id) {
            Some(s) => *s,
            None => return Err(
                RegistryError::Std(StdError::NotFound { kind: String::from_str("unipos::sharecore::state::ShareInfo") }),
            ),
        };
        if share_info.total_reward < share_info.granted_reward + granted_reward {
            return Err(RegistryError::InsufficientReward);
        }
        if share_info.principal < share_info.granted_principal + granted_principal {
            return Err(RegistryError::InsufficientPrincipal);
        }
        share_info.granted_reward = share_info.granted_reward + granted_reward;
        share_info.granted_principal = share_info.granted_principal + granted_principal;
        self.share_infos.insert(share_id, share_info);
        self.holder_infos.insert(
            (owner, share_id),
            HolderInfo { granted_reward, claimed_reward: 0, granted_principal, claimed_principal: 0 },
        );
        Ok(())
    }

    /// A holder's record and the share it is in; a missing record is not
    /// found, a missing share is reported as such.
    fn holder_and_share(&self, holder: &String, share_id: u32) -> (r: Result<(HolderInfo, ShareInfo), RegistryError>)
        requires
            self.wf(),
        ensures
            !self.holder_infos@.contains_key((holder@, share_id)) ==> (r matches Err(
                RegistryError::Std(StdError::NotFound { kind }),
            ) && kind@ == "unipos::sharecore::state::HolderInfo"@),
            self.holder_infos@.contains_key((holder@, share_id)) && !self.share_infos@.contains_key(share_id) ==> r
                == Err::<(HolderInfo, ShareInfo), RegistryError>(RegistryError::ShareInfoNotFound),
            r is Ok <==> self.holder_infos@.contains_key((holder@, share_id)) && self.share_infos@.contains_key(share_id),
            r matches Ok((h, s)) ==> h == self.holder_infos@[(holder@, share_id)] && s == self.share_infos@[share_id],
    {
        let holder_info = match self.holder_infos.get(&(holder.clone(), share_id)) {
            Some(h) => *h,
            None => return Err(
                RegistryError::Std(StdError::NotFound { kind: String::from_str("unipos::sharecore::state::HolderInfo") }),
            ),
        };
        let share_info = match self.share_infos.get(&share_id) {
            Some(s) => *s,
            None => return Err(RegistryError::ShareInfoNotFound),
        };
        Ok((holder_info, share_info))
    }

    /// The CW20 message paying `amount` of the registry's token to `recipient`.
    fn transfer(&self, recipient: &String, amount: u128) -> (r: Vec<TokenMsg>)
        requires
            self.config.token is Some,
        ensures
            r@ == seq![transfer_spec(self.config.token->0, *recipient, amount)],
    {
        let mut v = Vec::new();
        v.push(
            TokenMsg::Cw20Transfer {
                contract: self.config.token.as_ref().unwrap().clone(),
                recipient: recipient.clone(),
                amount,
            },
        );
        v
    }

    /// The sender takes its part of the rewards share `share_id` has received
    /// from the pool, less what it already took.
    pub fn execute_claim_reward(&mut self, info: &MessageInfo, share_id: u32) -> (r: Result<Payout, RegistryError>)
        requires
            old(self).wf(),
            old(self).holder_infos@.contains_key((info.sender@, share_id)) && old(self).share_infos@.contains_key(
                share_id,
            ) ==> {
                let h = old(self).holder_infos@[(info.sender@, share_id)];
                let s = old(self).share_infos@[share_id];
                &&& s.holder_reward_spec(h.granted_reward) <= u128::MAX
                &&& s.holder_reward_spec(h.granted_reward) > h.claimed_reward ==> old(self).config.token is Some
            },
        ensures
            final(self).wf(),
            r is Err ==> *final(self) == *old(self),
            !old(self).holder_infos@.contains_key((info.sender@, share_id)) ==> (r matches Err(
                RegistryError::Std(StdError::NotFound { kind }),
            ) && kind@ == "unipos::sharecore::state::HolderInfo"@),
            old(self).holder_infos@.contains_key((info.sender@, share_id)) && !old(self).share_infos@.contains_key(
                share_id,
            ) ==> r == Err::<Payout, RegistryError>(RegistryError::ShareInfoNotFound),
            old(self).holder_infos@.contains_key((info.sender@, share_id)) && old(self).share_infos@.contains_key(
                share_id,
            ) ==> {
                let h = old(self).holder_infos@[(info.sender@, share_id)];
                let t = old(self).share_infos@[share_id].holder_reward_spec(h.granted_reward);
                &&& t <= h.claimed_reward ==> r == Err::<Payout, RegistryError>(RegistryError::NoReward)
                &&& t > h.claimed_reward ==> {
                    &&& r matches Ok(p) && p.amount == t - h.claimed_reward && p.messages@ == seq![
                        transfer_spec(old(self).config.token->0, info.sender, (t - h.claimed_reward) as u128),
                    ]
                    &&& *final(self) == (HolderPool { holder_infos: final(self).holder_infos, ..*old(self) })
                    &&& final(self).holder_infos@ == old(self).holder_infos@.insert(
                        (info.sender@, share_id),
                        HolderInfo { claimed_reward: t as u128, ..h },
                    )
                }
            },
    {
        let (mut holder_info, share_info) = self.holder_and_share(&info.sender, share_id)?;
        let claimable_total_reward = share_info.calc_holder_reward(holder_info.granted_reward);
        if claimable_total_reward <= holder_info.claimed_reward {
            return Err(RegistryError::NoReward);
        }
        let claimable_reward = claimable_total_reward - holder_info.claimed_reward;
        holder_info.claimed_reward = claimable_total_reward;
        self.holder_infos.insert((info.sender.clone(), share_id), holder_info);
        let messages = self.transfer(&info.sender, claimable_reward);
        Ok(Payout { amount: claimable_reward, messages })
    }

    /// The sender takes its part of the principal share `share_id` has
    /// received from the pool, less what its record counts as claimed; the
    /// record then counts the amount of this payout.
    pub fn execute_claim_principal(&mut self, info: &MessageInfo, share_id: u32) -> (r: Result<Payout, RegistryError>)
        requires
            old(self).wf(),
            old(self).holder_infos@.contains_key((info.sender@, share_id)) && old(self).share_infos@.contains_key(
                share_id,
            ) ==> {
                let h = old(self).holder_infos@[(info.sender@, share_id)];
                let s = old(self).share_infos@[share_id];
                &&& s.holder_principal_spec(h.granted_principal) <= u128::MAX
                &&& s.holder_principal_spec(h.granted_principal) > h.claimed_principal ==> old(self).config.token is Some
            },
        ensures
            final(self).wf(),
            r is Err ==> *final(self) == *old(self),
            !old(self).holder_infos@.contains_key((info.sender@, share_id)) ==> (r matches Err(
                RegistryError::Std(StdError::NotFound { kind }),
            ) && kind@ == "unipos::sharecore::state::HolderInfo"@),
            old(self).holder_infos@.contains_key((info.sender@, share_id)) && !old(self).share_infos@.contains_key(
                share_id,
            ) ==> r == Err::<Payout, RegistryError>(RegistryError::ShareInfoNotFound),
            old(self).holder_infos@.contains_key((info.sender@, share_id)) && old(self).share_infos@.contains_key(
                share_id,
            ) ==> {
                let h = old(self).holder_infos@[(info.sender@, share_id)];
                let t = old(self).share_infos@[share_id].holder_principal_spec(h.granted_principal);
                &&& t <= h.claimed_principal ==> r == Err::<Payout, RegistryError>(RegistryError::NoPrincipal)
                &&& t > h.claimed_principal ==> {
                    &&& r matches Ok(p) && p.amount == t - h.claimed_principal && p.messages@ == seq![
                        transfer_spec(old(self).config.token->0, info.sender, (t - h.claimed_principal) as u128),
                    ]
                    &&& *final(self) == (HolderPool { holder_infos: final(self).holder_infos, ..*old(self) })
                    &&& final(self).holder_infos@ == old(self).holder_infos@.insert(
                        (info.sender@, share_id),
                        HolderInfo { claimed_principal: (t - h.claimed_principal) as u128, ..h },
                    )
                }
            },
    {
        let (mut holder_info, share_info) = self.holder_and_share(&info.sender, share_id)?;
        let claimable_total_principal = share_info.calc_holder_principal(holder_info.granted_principal);
        if claimable_total_principal <= holder_info.claimed_principal {
            return Err(RegistryError::NoPrincipal);
        }
        let claimable_principal = claimable_total_principal - holder_info.claimed_principal;
        holder_info.claimed_principal = claimable_principal;
        self.holder_infos.insert((info.sender.clone(), share_id), holder_info);
        let messages = self.transfer(&info.sender, claimable_principal);
        Ok(Payout { amount: claimable_principal, messages })
    }

    /// The admin takes whatever the registry's token balance holds beyond
    /// what the shares received and the holders have not yet taken.
    /// `balance` is the outcome of querying that balance.
    pub fn execute_collect(&self, info: &MessageInfo, balance: Result<u128, StdError>) -> (r: Result<Payout, RegistryError>)
        requires
            self.wf(),
            self.config.admin.owner@ == info.sender@ && balance is Ok ==> {
                let s = share_claims_sum(self.share_infos.entry_seq());
                let h = holder_claims_sum(self.holder_infos.entry_seq());
                &&& s <= u128::MAX
                &&& h <= s
                &&& balance->Ok_0 > s - h ==> self.config.token is Some
            },
        ensures
            self.config.admin.owner@ != info.sender@ ==> r == Err::<Payout, RegistryError>(RegistryError::Unauthorized),
            self.config.admin.owner@ == info.sender@ && balance is Err ==> r == Err::<Payout, RegistryError>(
                RegistryError::Std(balance->Err_0),
            ),
            self.config.admin.owner@ == info.sender@ && balance is Ok ==> {
                let held = share_claims_sum(self.share_infos.entry_seq()) - holder_claims_sum(
                    self.holder_infos.entry_seq(),
                );
                &&& balance->Ok_0 <= held ==> (r matches Ok(p) && p.amount == 0 && p.messages@ == Seq::<
                    TokenMsg,
                >::empty())
                &&& balance->Ok_0 > held ==> (r matches Ok(p) && p.amount == balance->Ok_0 - held && p.messages@
                    == seq![transfer_spec(self.config.token->0, info.sender, (balance->Ok_0 - held) as u128)])
            },
    {
        if !self.config.admin.validate(&info.sender) {
            return Err(RegistryError::Unauthorized);
        }
        let balance = match balance {
            Ok(b) => b,
            Err(e) => return Err(RegistryError::Std(e)),
        };
        let shares = self.share_infos.entries();
        let ghost ss = shares@;
        let mut total_balance: u128 = 0;
        let mut i: usize = 0;
        while i < shares.len()
            invariant
                i <= ss.len(),
                ss == shares@,
                share_claims_sum(ss) <= u128::MAX,
                total_balance == share_claims_sum(ss.take(i as int)),
            decreases ss.len() - i,
        {
            proof {
                assert(ss.take(i as int + 1).drop_last() =~= ss.take(i as int));
                lemma_share_claims_prefix(ss, i as int + 1);
            }
            let s = &shares[i].1;
            total_balance = total_balance + (s.claimed_reward + s.claimed_principal);
            i += 1;
        }
        assert(ss.take(ss.len() as int) =~= ss);
        let holders = self.holder_infos.entries();
        let ghost hs = holders@;
        let mut j: usize = 0;
        while j < holders.len()
            invariant
                j <= hs.len(),
                hs == holders@,
                share_claims_sum(ss) <= u128::MAX,
                holder_claims_sum(hs) <= share_claims_sum(ss),
                total_balance == share_claims_sum(ss) - holder_claims_sum(hs.take(j as int)),
            decreases hs.len() - j,
        {
            proof {
                assert(hs.take(j as int + 1).drop_last() =~= hs.take(j as int));
                lemma_holder_claims_prefix(hs, j as int + 1);
                lemma_holder_claims_prefix(hs, j as int);
            }
            let h = &holders[j].1;
            total_balance = total_balance - (h.claimed_reward + h.claimed_principal);
            j += 1;
        }
        assert(hs.take(hs.len() as int) =~= hs);
        if balance <= total_balance {
            return Ok(Payout { amount: 0, messages: Vec::new() });
        }
        let collectable = balance - total_balance;
        let messages = self.transfer(&info.sender, collectable);
        Ok(Payout { amount: collectable, messages })
    }

    /// Every (holder, share id) pair with a record, in the order contract
    /// storage lists them.
    pub fn query_holders(&self) -> (r: HoldersResponse)
        requires
            self.holder_infos.wf(),
        ensures
            lists_holders(r.holders@, self.holder_infos@),
    {
        HoldersResponse { holders: self.holder_infos.sorted_holder_keys() }
    }

    /// Answers `msg`. `addr` is the outcome of validating the address that a
    /// `HolderInfo` question names; other questions ignore it.
    pub fn query(&self, msg: &QueryMsg, addr: Result<String, StdError>) -> (r: Result<QueryResponse, StdError>)
        requires
            self.wf(),
        ensures
            msg is Config ==> r == Ok::<QueryResponse, StdError>(QueryResponse::Config(self.config)),
            msg matches QueryMsg::ShareInfo { share_id } ==> if self.share_infos@.contains_key(*share_id) {
                r == Ok::<QueryResponse, StdError>(QueryResponse::ShareInfo(self.share_infos@[*share_id]))
            } else {
                r matches Err(StdError::NotFound { kind }) && kind@ == "unipos::sharecore::state::ShareInfo"@
            },
            msg matches QueryMsg::HolderInfo { share_id, .. } ==> match addr {
                Err(e) => r == Err::<QueryResponse, StdError>(e),
                Ok(a) => if self.holder_infos@.contains_key((a@, *share_id)) {
                    r == Ok::<QueryResponse, StdError>(QueryResponse::HolderInfo(self.holder_infos@[(a@, *share_id)]))
                } else {
                    r matches Err(StdError::NotFound { kind }) && kind@ == "unipos::sharecore::state::HolderInfo"@
                },
            },
            msg is ShareInfos ==> (r matches Ok(QueryResponse::ShareInfos(resp)) && (forall|i: int, j: int|
                0 <= i < j < resp.share_ids@.len() ==> resp.share_ids@[i] < resp.share_ids@[j]) && (forall|k: u32|
                resp.share_ids@.contains(k) <==> self.share_infos@.contains_key(k))),
            msg is Holders ==> (r matches Ok(QueryResponse::Holders(resp)) && lists_holders(
                resp.holders@,
                self.holder_infos@,
            )),
    {
        match msg {
            QueryMsg::Config => Ok(QueryResponse::Config(self.config.clone())),
            QueryMsg::ShareInfo { share_id } => match self.share_infos.get(share_id) {
                Some(s) => Ok(QueryResponse::ShareInfo(*s)),
                None => Err(StdError::NotFound { kind: String::from_str("unipos::sharecore::state::ShareInfo") }),
            },
            QueryMsg::HolderInfo { share_id, .. } => {
                let a = match addr {
                    Ok(a) => a,
                    Err(e) => return Err(e),
                };
                match self.holder_infos.get(&(a, *share_id)) {
                    Some(h) => Ok(QueryResponse::HolderInfo(*h)),
                    None => Err(StdError::NotFound { kind: String::from_str("unipos::sharecore::state::HolderInfo") }),
                }
            },
            QueryMsg::ShareInfos => Ok(QueryResponse::ShareInfos(ShareInfosResponse { share_ids: self.share_infos.sorted_keys() })),
            QueryMsg::Holders => Ok(QueryResponse::Holders(self.query_holders())),
        }
    }

    /// Reads what the pool's reply `id` paid out. `result` is the reply: its
    /// events, or the failure message of the call.
    pub fn reply(&self, id: u64, result: Result<Vec<Event>, String>) -> (r: Result<ReplyEffect, RegistryError>)
        ensures
            result is Err ==> r == Err::<ReplyEffect, RegistryError>(RegistryError::SubMsgFailed { msg: result->Err_0 }),
            result is Ok && id != EXECUTE_CLAIM_STAKE_REWARD__CLAIM_REWARD && id
                != EXECUTE_CLAIM_STAKE_REWARDS_BATCH__CLAIM_REWARDS_BATCH && id != EXECUTE_CLAIM_STAKE_PRINCIPAL__UNSTAKE
                ==> r == Err::<ReplyEffect, RegistryError>(RegistryError::UnknownReplyId { id }),
            result is Ok && id == EXECUTE_CLAIM_STAKE_REWARD__CLAIM_REWARD ==> self.single_reply_spec(
                result->Ok_0@,
                "claim_reward"@,
                r,
                false,
            ),
            result is Ok && id == EXECUTE_CLAIM_STAKE_PRINCIPAL__UNSTAKE ==> self.single_reply_spec(
                result->Ok_0@,
                "unstake"@,
                r,
                true,
            ),
            result is Ok && id == EXECUTE_CLAIM_STAKE_REWARDS_BATCH__CLAIM_REWARDS_BATCH ==> self.batch_reply_spec(
                result->Ok_0@,
                r,
            ),
    {
        let events = match result {
            Err(msg) => return Err(RegistryError::SubMsgFailed { msg }),
            Ok(events) => events,
        };
        if id == EXECUTE_CLAIM_STAKE_REWARD__CLAIM_REWARD {
            self.reply_claim_stake_reward(&events)
        } else if id == EXECUTE_CLAIM_STAKE_REWARDS_BATCH__CLAIM_REWARDS_BATCH {
            self.reply_claim_stake_rewards_batch(&events)
        } else if id == EXECUTE_CLAIM_STAKE_PRINCIPAL__UNSTAKE {
            self.reply_claim_stake_principal(&events)
        } else {
            Err(RegistryError::UnknownReplyId { id })
        }
    }

    /// The reading of a reply about one share: the `amount` of the event with
    /// action `action`, and the pending share id.
    pub open spec fn single_reply_spec(
        &self,
        events: Seq<Event>,
        action: Seq<char>,
        r: Result<ReplyEffect, RegistryError>,
        principal: bool,
    ) -> bool {
        let v = event_value_spec(events, action, "amount"@);
        if v is None {
            r matches Err(RegistryError::InnerError { msg }) && msg@ == "cannot get amount from event in "@ + action
        } else if self.pending_submsg_payload is None {
            r matches Err(RegistryError::Std(StdError::NotFound { kind })) && kind@ == "alloc::vec::Vec<u8>"@
        } else if decimal_u128(v->0@) is None {
            r matches Err(RegistryError::Std(StdError::GenericErr { .. }))
        } else if json_u32_value(self.pending_submsg_payload->0@) is None {
            r matches Err(RegistryError::Std(StdError::ParseErr { .. }))
        } else if principal {
            r == Ok::<ReplyEffect, RegistryError>(
                ReplyEffect::ClaimedPrincipal {
                    share_id: json_u32_value(self.pending_submsg_payload->0@)->0,
                    amount: decimal_u128(v->0@)->0,
                },
            )
        } else {
            r == Ok::<ReplyEffect, RegistryError>(
                ReplyEffect::ClaimedRewards {
                    share_id: json_u32_value(self.pending_submsg_payload->0@)->0,
                    amount: decimal_u128(v->0@)->0,
                },
            )
        }
    }

    /// The reading of a reply about all registered shares: the `amounts` of
    /// the batch event, matched with the pending share ids.
    pub open spec fn batch_reply_spec(&self, events: Seq<Event>, r: Result<ReplyEffect, RegistryError>) -> bool {
        let v = event_value_spec(events, "claim_rewards_batch"@, "amounts"@);
        if v is None {
            r matches Err(RegistryError::InnerError { msg }) && msg@
                == "cannot get amount from event in claim_rewards_batch"@
        } else if json_uint128_list_value(v->0@) is None {
            r matches Err(RegistryError::Std(StdError::ParseErr { .. }))
        } else if self.pending_submsg_payload is None {
            r matches Err(RegistryError::Std(StdError::NotFound { kind })) && kind@ == "alloc::vec::Vec<u8>"@
        } else if json_u32_list_value(self.pending_submsg_payload->0@) is None {
            r matches Err(RegistryError::Std(StdError::ParseErr { .. }))
        } else {
            let ids = json_u32_list_value(self.pending_submsg_payload->0@)->0;
            let amts = json_uint128_list_value(v->0@)->0;
            if ids.len() != amts.len() {
                r matches Err(RegistryError::InnerError { msg }) && msg@ == length_mismatch_text(
                    ids.len() as usize,
                    amts.len() as usize,
                )
            } else {
                r matches Ok(ReplyEffect::ClaimedRewardsBatch { share_ids, amounts }) && share_ids@ == ids
                    && amounts@ == amts
            }
        }
    }

    fn pending_payload(&self) -> (r: Result<&Vec<u8>, RegistryError>)
        ensures
            self.pending_submsg_payload is None ==> (r matches Err(RegistryError::Std(StdError::NotFound { kind }))
                && kind@ == "alloc::vec::Vec<u8>"@),
            self.pending_submsg_payload is Some ==> r == Ok::<&Vec<u8>, RegistryError>(
                &self.pending_submsg_payload->0,
            ),
    {
        match &self.pending_submsg_payload {
            Some(p) => Ok(p),
            None => Err(RegistryError::Std(StdError::NotFound { kind: String::from_str("alloc::vec::Vec<u8>") })),
        }
    }

    fn read_single(&self, events: &Vec<Event>, action: &'static str, principal: bool) -> (r: Result<
        ReplyEffect,
        RegistryError,
    >)
        ensures
            self.single_reply_spec(events@, action@, r, principal),
    {
        let action_s = String::from_str(action);
        let amount = match get_value_from_event(events, &action_s, &String::from_str("amount")) {
            Some(a) => a,
            None => {
                let mut msg = String::from_str("cannot get amount from event in ");
                msg.append(action);
                return Err(RegistryError::InnerError { msg });
            },
        };
        let payload = self.pending_payload()?;
        let amount = match uint128_from_str(&amount) {
            Ok(a) => a,
            Err(e) => return Err(RegistryError::Std(e)),
        };
        let share_id = match from_json_u32(payload) {
            Ok(s) => s,
            Err(e) => return Err(RegistryError::Std(e)),
        };
        if principal {
            Ok(ReplyEffect::ClaimedPrincipal { share_id, amount })
        } else {
            Ok(ReplyEffect::ClaimedRewards { share_id, amount })
        }
    }

    /// Reads the rewards the pool paid out for the pending share.
    pub fn reply_claim_stake_reward(&self, events: &Vec<Event>) -> (r: Result<ReplyEffect, RegistryError>)
        ensures
            self.single_reply_spec(events@, "claim_reward"@, r, false),
    {
        self.read_single(events, "claim_reward", false)
    }

    /// Reads the principal the pool paid out for the pending share.
    pub fn reply_claim_stake_principal(&self, events: &Vec<Event>) -> (r: Result<ReplyEffect, RegistryError>)
        ensures
            self.single_reply_spec(events@, "unstake"@, r, true),
    {
        self.read_single(events, "unstake", true)
    }

    /// Reads the rewards the pool paid out for each pending share.
    pub fn reply_claim_stake_rewards_batch(&self, events: &Vec<Event>) -> (r: Result<ReplyEffect, RegistryError>)
        ensures
            self.batch_reply_spec(events@, r),
    {
        let amounts = match get_value_from_event(
            events,
            &String::from_str("claim_rewards_batch"),
            &String::from_str("amounts"),
        ) {
            Some(a) => a,
            None => return Err(
                RegistryError::InnerError { msg: String::from_str("cannot get amount from event in claim_rewards_batch") },
            ),
        };
        let amounts = match from_json_uint128_list(&amounts) {
            Ok(a) => a,
            Err(e) => return Err(RegistryError::Std(e)),
        };
        let payload = self.pending_payload()?;
        let share_ids = match from_json_u32_list(payload) {
            Ok(s) => s,
            Err(e) => return Err(RegistryError::Std(e)),
        };
        if amounts.len() != share_ids.len() {
            return Err(RegistryError::InnerError { msg: length_mismatch_msg(share_ids.len(), amounts.len()) });
        }
        Ok(ReplyEffect::ClaimedRewardsBatch { share_ids, amounts })
    }

    /// A reply read while the payload of a claim for share `id` is pending
    /// credits share `id`, whatever the events report.
    pub proof fn lemma_reply_credits_claimed_share(
        &self,
        events: Seq<Event>,
        action: Seq<char>,
        r: Result<ReplyEffect, RegistryError>,
        principal: bool,
        id: u32,
    )
        requires
            self.pending_submsg_payload matches Some(p) && json_u32_value(p@) == Some(id),
            self.single_reply_spec(events, action, r, principal),
            r is Ok,
        ensures
            principal ==> (r matches Ok(ReplyEffect::ClaimedPrincipal { share_id, .. }) && share_id == id),
            !principal ==> (r matches Ok(ReplyEffect::ClaimedRewards { share_id, .. }) && share_id == id),
    {
    }

    /// A batch reply read while the payload of a batch claim of `ids` is
    /// pending credits exactly the shares `ids`, in that order.
    pub proof fn lemma_batch_reply_credits_claimed_shares(
        &self,
        events: Seq<Event>,
        r: Result<ReplyEffect, RegistryError>,
        ids: Seq<u32>,
    )
        requires
            self.pending_submsg_payload matches Some(p) && json_u32_list_value(p@) == Some(ids),
            self.batch_reply_spec(events, r),
            r is Ok,
        ensures
            r matches Ok(ReplyEffect::ClaimedRewardsBatch { share_ids, .. }) && share_ids@ == ids,
    {
    }

    /// Crediting the effect adds nothing that overflows.
    pub open spec fn reply_fits_spec(&self, effect: ReplyEffect) -> bool {
        match effect {
            ReplyEffect::ClaimedRewards { share_id, amount } => self.share_infos@.contains_key(share_id)
                ==> self.share_infos@[share_id].claimed_reward + amount <= u128::MAX,
            ReplyEffect::ClaimedPrincipal { share_id, amount } => self.share_infos@.contains_key(share_id)
                ==> self.share_infos@[share_id].claimed_principal + amount <= u128::MAX,
            ReplyEffect::ClaimedRewardsBatch { share_ids, amounts } => credit_batch_fits(
                self.share_infos@,
                share_ids@,
                amounts@,
            ),
        }
    }

    /// Credits a read reply to the shares: the amount the pool paid out for
    /// a share is added to what it has claimed.
    pub fn apply_reply(&mut self, effect: &ReplyEffect) -> (r: Result<(), RegistryError>)
        requires
            old(self).wf(),
            old(self).reply_fits_spec(*effect),
            effect matches ReplyEffect::ClaimedRewardsBatch { share_ids, amounts } ==> share_ids@.len()
                == amounts@.len(),
        ensures
            final(self).wf(),
            r is Err ==> r == Err::<(), RegistryError>(RegistryError::ShareInfoNotFound) && *final(self) == *old(self),
            r is Ok ==> *final(self) == (HolderPool { share_infos: final(self).share_infos, ..*old(self) }),
            match *effect {
                ReplyEffect::ClaimedRewards { share_id, amount } => if old(self).share_infos@.contains_key(share_id) {
                    let s = old(self).share_infos@[share_id];
                    r is Ok && final(self).share_infos@ == old(self).share_infos@.insert(
                        share_id,
                        ShareInfo { claimed_reward: (s.claimed_reward + amount) as u128, ..s },
                    )
                } else {
                    r is Err
                },
                ReplyEffect::ClaimedPrincipal { share_id, amount } => if old(self).share_infos@.contains_key(share_id) {
                    let s = old(self).share_infos@[share_id];
                    r is Ok && final(self).share_infos@ == old(self).share_infos@.insert(
                        share_id,
                        ShareInfo { claimed_principal: (s.claimed_principal + amount) as u128, ..s },
                    )
                } else {
                    r is Err
                },
                ReplyEffect::ClaimedRewardsBatch { share_ids, amounts } => match credit_batch_spec(
                    old(self).share_infos@,
                    share_ids@,
                    amounts@,
                ) {
                    None => r is Err,
                    Some(m2) => r is Ok && final(self).share_infos@ == m2,
                },
            },
    {
        match effect {
            ReplyEffect::ClaimedRewards { share_id, amount } => {
                let mut share_info = match self.share_infos.get(share_id) {
                    Some(s) => *s,
                    None => return Err(RegistryError::ShareInfoNotFound),
                };
                share_info.claimed_reward = share_info.claimed_reward + *amount;
                self.share_infos.insert(*share_id, share_info);
                Ok(())
            },
            ReplyEffect::ClaimedPrincipal { share_id, amount } => {
                let mut share_info = match self.share_infos.get(share_id) {
                    Some(s) => *s,
                    None => return Err(RegistryError::ShareInfoNotFound),
                };
                share_info.claimed_principal = share_info.claimed_principal + *amount;
                self.share_infos.insert(*share_id, share_info);
                Ok(())
            },
            ReplyEffect::ClaimedRewardsBatch { share_ids, amounts } => self.credit_batch(share_ids, amounts),
        }
    }

    fn credit_batch(&mut self, share_ids: &Vec<u32>, amounts: &Vec<u128>) -> (r: Result<(), RegistryError>)
        requires
            old(self).wf(),
            share_ids@.len() == amounts@.len(),
            credit_batch_fits(old(self).share_infos@, share_ids@, amounts@),
        ensures
            final(self).wf(),
            r is Err ==> r == Err::<(), RegistryError>(RegistryError::ShareInfoNotFound) && *final(self) == *old(self),
            r is Ok ==> *final(self) == (HolderPool { share_infos: final(self).share_infos, ..*old(self) }),
            match credit_batch_spec(old(self).share_infos@, share_ids@, amounts@) {
                None => r is Err,
                Some(m2) => r is Ok && final(self).share_infos@ == m2,
            },
    {
        let ghost m0 = self.share_infos@;
        proof {
            lemma_credit_batch_dom(m0, share_ids@, amounts@);
        }
        let mut i: usize = 0;
        while i < share_ids.len()
            invariant
                *self == *old(self),
                old(self).wf(),
                share_ids@.len() == amounts@.len(),
                self.share_infos.wf(),
                self.share_infos@ == m0,
                i <= share_ids@.len(),
                forall|k: int| 0 <= k < i ==> m0.contains_key(#[trigger] share_ids@[k]),
            decreases share_ids@.len() - i,
        {
            if !self.share_infos.contains_key(&share_ids[i]) {
                proof {
                    lemma_credit_batch_dom(m0, share_ids@, amounts@);
                    assert(!m0.contains_key(share_ids@[i as int]));
                }
                return Err(RegistryError::ShareInfoNotFound);
            }
            i += 1;
        }
        let mut j: usize = 0;
        while j < share_ids.len()
            invariant
                old(self).wf(),
                self.wf(),
                share_ids@.len() == amounts@.len(),
                j <= share_ids@.len(),
                forall|k: int| 0 <= k < share_ids@.len() ==> m0.contains_key(#[trigger] share_ids@[k]),
                m0 == old(self).share_infos@,
                credit_batch_fits(m0, share_ids@, amounts@),
                credit_batch_spec(m0, share_ids@.take(j as int), amounts@.take(j as int)) == Some(self.share_infos@),
                *self == (HolderPool { share_infos: self.share_infos, ..*old(self) }),
            decreases share_ids@.len() - j,
        {
            let id = share_ids[j];
            let amount = amounts[j];
            proof {
                assert(share_ids@.take(j as int + 1).drop_last() =~= share_ids@.take(j as int));
                assert(amounts@.take(j as int + 1).drop_last() =~= amounts@.take(j as int));
                lemma_credit_batch_dom(m0, share_ids@.take(j as int), amounts@.take(j as int));
                let _ = share_ids@[j as int];
                let _ = credit_batch_spec(m0, share_ids@.take(j as int), amounts@.take(j as int));
            }
            let mut share_info = *self.share_infos.get(&id).unwrap();
            share_info.claimed_reward = share_info.claimed_reward + amount;
            self.share_infos.insert(id, share_info);
            j += 1;
        }
        assert(share_ids@.take(share_ids@.len() as int) =~= share_ids@);
        assert(amounts@.take(amounts@.len() as int) =~= amounts@);
        Ok(())
    }

    /// The pool stake indexes to mirror next, given all the indexes of this
    /// registry's stakes there.
    pub fn sync_plan(&self, share_ids: &Vec<u32>) -> (r: Vec<u32>)
        ensures
            r@ == sync_plan_spec(self.share_info_indexes@.len() as int, share_ids@),
    {
        let cur = self.share_info_indexes.len();
        let mut out: Vec<u32> = Vec::new();
        if cur >= share_ids.len() {
            return out;
        }
        let mut i: usize = cur;
        while i < share_ids.len()
            invariant
                cur <= i <= share_ids@.len(),
                out@ == share_ids@.subrange(cur as int, i as int),
            decreases share_ids@.len() - i,
        {
            out.push(share_ids[i]);
            assert(out@ =~= share_ids@.subrange(cur as int, i + 1));
            i += 1;
        }
        out
    }

    /// Mirrors each of `stakes` (a pool index with the stake found there) as
    /// a share, and lists its index.
    pub fn execute_sync_stake_info(&mut self, stakes: &Vec<(u32, StakeInfo)>)
        requires
            old(self).wf(),
        ensures
            final(self).wf(),
            final(self).share_infos@ == sync_spec(old(self).share_infos@, stakes@),
            final(self).share_info_indexes@ == old(self).share_info_indexes@ + stakes@.map_values(
                |p: (u32, StakeInfo)| p.0,
            ),
            final(self).holder_infos == old(self).holder_infos,
            final(self).config == old(self).config,
            final(self).pending_submsg_payload == old(self).pending_submsg_payload,
    {
        let ghost ids = stakes@.map_values(|p: (u32, StakeInfo)| p.0);
        let mut i: usize = 0;
        while i < stakes.len()
            invariant
                self.wf(),
                i <= stakes@.len(),
                ids == stakes@.map_values(|p: (u32, StakeInfo)| p.0),
                self.share_infos@ == sync_spec(old(self).share_infos@, stakes@.take(i as int)),
                self.share_info_indexes@ == old(self).share_info_indexes@ + ids.take(i as int),
                self.holder_infos == old(self).holder_infos,
                self.config == old(self).config,
                self.pending_submsg_payload == old(self).pending_submsg_payload,
            decreases stakes@.len() - i,
        {
            let share_id = stakes[i].0;
            let stake = &stakes[i].1;
            let share_info = ShareInfo {
                total_reward: stake.total_reward,
                claimed_reward: 0,
                granted_reward: 0,
                principal: stake.amount,
                claimed_principal: 0,
                granted_principal: 0,
            };
            self.share_infos.insert(share_id, share_info);
            self.share_info_indexes.push(share_id);
            proof {
                assert(stakes@.take(i as int + 1).drop_last() =~= stakes@.take(i as int));
                assert(ids.take(i as int + 1) =~= ids.take(i as int).push(share_id));
            }
            i += 1;
        }
        assert(stakes@.take(stakes@.len() as int) =~= stakes@);
        assert(ids.take(stakes@.len() as int) =~= ids);
    }

    /// Asks the pool to pay out the rewards of every registered stake; their
    /// ids are kept for the reply.
    pub fn execute_claim_stake_rewards_batch(&mut self) -> (r: PoolCall)
        requires
            old(self).config.stake_core is Some,
        ensures
            r.contract == old(self).config.stake_core->0,
            r.reply_id == EXECUTE_CLAIM_STAKE_REWARDS_BATCH__CLAIM_REWARDS_BATCH,
            r.msg matches ExecuteMsg::ClaimRewardsBatch { indexes } && indexes@ == old(self).share_info_indexes@,
            *final(self) == (HolderPool { pending_submsg_payload: final(self).pending_submsg_payload, ..*old(self) }),
            final(self).pending_submsg_payload matches Some(p) && p@ == crate::json::json_u32_list(
                old(self).share_info_indexes@,
            ) && crate::json::json_u32_list_value(p@) == Some(old(self).share_info_indexes@),
    {
        let indexes = self.share_info_indexes.clone();
        let contract = self.config.stake_core.as_ref().unwrap().clone();
        self.pending_submsg_payload = Some(crate::json::to_json_vec_u32_list(&indexes));
        PoolCall {
            contract,
            msg: ExecuteMsg::ClaimRewardsBatch { indexes },
            reply_id: EXECUTE_CLAIM_STAKE_REWARDS_BATCH__CLAIM_REWARDS_BATCH,
        }
    }

    /// Asks the pool to pay out the rewards of stake `share_id`; the id is
    /// kept for the reply.
    pub fn execute_claim_stake_reward(&mut self, share_id: u32) -> (r: Result<PoolCall, RegistryError>)
        requires
            old(self).wf(),
            old(self).share_infos@.contains_key(share_id) ==> old(self).config.stake_core is Some,
        ensures
            final(self).wf(),
            !old(self).share_infos@.contains_key(share_id) ==> r == Err::<PoolCall, RegistryError>(
                RegistryError::ShareInfoNotFound,
            ) && *final(self) == *old(self),
            old(self).share_infos@.contains_key(share_id) ==> {
                &&& r matches Ok(call) && call.contract == old(self).config.stake_core->0 && call.reply_id
                    == EXECUTE_CLAIM_STAKE_REWARD__CLAIM_REWARD && call.msg == (ExecuteMsg::ClaimReward {
                    index: share_id,
                })
                &&& *final(self) == (HolderPool {
                    pending_submsg_payload: final(self).pending_submsg_payload,
                    ..*old(self)
                })
                &&& final(self).pending_submsg_payload matches Some(p) && p@ == crate::json::decimal_digits(
                    share_id as nat,
                ) && crate::json::json_u32_value(p@) == Some(share_id)
            },
    {
        if !self.share_infos.contains_key(&share_id) {
            return Err(RegistryError::ShareInfoNotFound);
        }
        let contract = self.config.stake_core.as_ref().unwrap().clone();
        self.pending_submsg_payload = Some(crate::json::to_json_vec_u32(share_id));
        Ok(PoolCall {
            contract,
            msg: ExecuteMsg::ClaimReward { index: share_id },
            reply_id: EXECUTE_CLAIM_STAKE_REWARD__CLAIM_REWARD,
        })
    }

    /// Asks the pool to unstake stake `share_id`; the id is kept for the reply.
    pub fn execute_claim_stake_principal(&mut self, share_id: u32) -> (r: Result<PoolCall, RegistryError>)
        requires
            old(self).wf(),
            old(self).share_infos@.contains_key(share_id) ==> old(self).config.stake_core is Some,
        ensures
            final(self).wf(),
            !old(self).share_infos@.contains_key(share_id) ==> r == Err::<PoolCall, RegistryError>(
                RegistryError::ShareInfoNotFound,
            ) && *final(self) == *old(self),
            old(self).share_infos@.contains_key(share_id) ==> {
                &&& r matches Ok(call) && call.contract == old(self).config.stake_core->0 && call.reply_id
                    == EXECUTE_CLAIM_STAKE_PRINCIPAL__UNSTAKE && call.msg == (ExecuteMsg::Unstake { index: share_id })
                &&& *final(self) == (HolderPool {
                    pending_submsg_payload: final(self).pending_submsg_payload,
                    ..*old(self)
                })
                &&& final(self).pending_submsg_payload matches Some(p) && p@ == crate::json::decimal_digits(
                    share_id as nat,
                ) && crate::json::json_u32_value(p@) == Some(share_id)
            },
    {
        if !self.share_infos.contains_key(&share_id) {
            return Err(RegistryError::ShareInfoNotFound);
        }
        let contract = self.config.stake_core.as_ref().unwrap().clone();
        self.pending_submsg_payload = Some(crate::json::to_json_vec_u32(share_id));
        Ok(PoolCall { contract, msg: ExecuteMsg::Unstake { index: share_id }, reply_id: EXECUTE_CLAIM_STAKE_PRINCIPAL__UNSTAKE })
    }
}

} // verus!
