//! The share core contract as state transitions. Operations that call the
//! stake core return the call to make; the stake core's answer comes back
//! through the reply operations.

use crate::access_control::{role_admin_spec, AccessControl, AccessControlError, DEFAULT_ADMIN_ROLE};
use crate::assoc_map::AssocMap;
use crate::env::{Env, MessageInfo};
use crate::errors::StdError;
use crate::sharecore::error::ContractError;
use crate::sharecore::types::{
    lemma_recycling_monotonic, lemma_total_funds_insert, recyclable_rewards_spec, share_funds, total_funds, Config, ShareInfo,
    ShareholderInfo,
};
use crate::universal_token::{send_msg_spec, TokenConfig, TokenMsg, UniversalToken};
use vstd::arithmetic::div_mod::{lemma_div_is_ordered, lemma_div_multiples_vanish, lemma_div_pos_is_pos};
use vstd::arithmetic::mul::lemma_mul_is_commutative;
use vstd::prelude::*;

verus! {

/// Role of the accounts that may hold shares while the shareholder whitelist is on.
pub const SHAREHOLDER_ROLE: &'static str = "shareholder";

/// Parameters a share core is set up with.
#[derive(Debug)]
pub struct InstantiateMsg {
    pub admin: String,
    pub stakecore: Option<String>,
    pub is_native_token: bool,
    pub token: String,
    pub enable_shareholder_whitelist: bool,
}

/// The outcome of looking up a stake core: its validated address and the
/// answer to querying its token.
#[derive(Debug)]
pub struct StakecoreLookup {
    pub addr: Result<String, StdError>,
    pub token: Result<TokenConfig, StdError>,
}

/// The whole state of a share core.
pub struct ShareCore {
    pub config: Config,
    pub token_config: TokenConfig,
    pub held_funds: u128,
    pub share_infos: AssocMap<u32, ShareInfo>,
    pub share_info_indexes: Vec<u32>,
    pub shareholder_infos: AssocMap<(String, u32), ShareholderInfo>,
    /// The JSON of what a pending call to the stake core concerns: a share id,
    /// or the list of share ids.
    pub pending_submsg_payload: Option<Vec<u8>>,
    pub access_control: AccessControl,
}

/// A share's amounts are consistent: grants and recycling stay within the
/// rewards, withdrawals within what was claimed or recycled, and principal
/// grants and withdrawals within the principal.
pub open spec fn share_ok(s: ShareInfo) -> bool {
    &&& s.granted_rewards + s.total_recycled_rewards <= s.total_rewards
    &&& s.withdrawn_rewards <= s.claimed_rewards
    &&& s.withdrawn_recycled_rewards <= s.total_recycled_rewards
    &&& s.granted_principal <= s.total_principal
    &&& s.withdrawn_principal <= s.total_principal
}

/// `e` refuses `account` for lacking `role`.
pub open spec fn is_unauthorized(e: ContractError, account: Seq<char>, role: Seq<char>) -> bool {
    e matches ContractError::AccessControl(AccessControlError::UnauthorizedAccount { account: a, needed_role: n })
        && a@ == account && n@ == role
}

/// `e` refuses the parameter named `key`.
pub open spec fn is_invalid_param(e: ContractError, key: Seq<char>) -> bool {
    e matches ContractError::InvalidParamter { key: k } && k@ == key
}

/// The kind under which a missing share is reported.
pub open spec fn share_kind() -> Seq<char> {
    "sharecore::types::ShareInfo"@
}

/// The kind under which a missing shareholder record is reported.
pub open spec fn shareholder_kind() -> Seq<char> {
    "sharecore::types::ShareholderInfo"@
}

/// `e` reports a missing record of the given kind.
pub open spec fn is_not_found(e: ContractError, kind: Seq<char>) -> bool {
    e matches ContractError::Std(StdError::NotFound { kind: k }) && k@ == kind
}


/// What a payout reports: the amount and the messages that pay it.
#[derive(Debug)]
pub struct WithdrawOutcome {
    pub amount: u128,
    pub messages: Vec<TokenMsg>,
}

/// `granted * (cur - start) / (end - cur)`: the rewards that correspond, for
/// a grant starting at `cur`, to the time from `start` to `cur`.
pub open spec fn proportional_spec(cur: u64, start: u64, end: u64, granted: u128) -> int {
    (granted * (cur - start)) / ((end - cur) as int)
}

/// `granted * (cur - start) / (end - cur)`.
pub fn calc_proportional_rewards(cur_t: u64, start_t: u64, end_t: u64, granted_rewards: u128) -> (r: u128)
    requires
        start_t <= cur_t < end_t,
        granted_rewards * (cur_t - start_t) <= u128::MAX,
    ensures
        r == proportional_spec(cur_t, start_t, end_t, granted_rewards),
{
    granted_rewards * ((cur_t - start_t) as u128) / ((end_t - cur_t) as u128)
}

/// The shareholder record under `key`, if any.
pub open spec fn lookup_holder(m: Map<(Seq<char>, u32), ShareholderInfo>, key: (Seq<char>, u32)) -> Option<ShareholderInfo> {
    if m.contains_key(key) {
        Some(m[key])
    } else {
        None
    }
}

/// A shareholder record after adding grants and pre-recycled rewards to it,
/// or a fresh record with them.
pub open spec fn holder_after_grant(h: Option<ShareholderInfo>, g: u128, gp: u128, pre: int) -> ShareholderInfo {
    match h {
        Some(h) => ShareholderInfo {
            granted_rewards: (h.granted_rewards + g) as u128,
            granted_principal: (h.granted_principal + gp) as u128,
            pre_recycled_rewards: (h.pre_recycled_rewards + pre) as u128,
            ..h
        },
        None => ShareholderInfo {
            pre_recycled_rewards: pre as u128,
            granted_rewards: g,
            withdrawn_rewards: 0,
            granted_principal: gp,
            withdrawn_principal: 0,
        },
    }
}

/// The grants to a shareholder can be added without overflow.
pub open spec fn grant_fits(h: Option<ShareholderInfo>, g: u128, gp: u128, pre: int) -> bool {
    h matches Some(h) ==> {
        &&& h.granted_rewards + g <= u128::MAX
        &&& h.granted_principal + gp <= u128::MAX
        &&& h.pre_recycled_rewards + pre <= u128::MAX
    }
}

/// The (unrecycled, pre-recycled) rewards of a grant of `g` starting at `start`
/// on share `s`: the rewards that would have unlocked since the last recycling,
/// and since the share started.
pub open spec fn grant_recycling(s: ShareInfo, start: u64, g: u128) -> (int, int) {
    if g != 0 {
        (proportional_spec(start, s.recycled_time, s.end_time, g), proportional_spec(start, s.start_time, s.end_time, g))
    } else {
        (0, 0)
    }
}


/// Reply id of a pending reward withdrawal of one stake.
pub const EXECUTE_CLAIM_STAKE_REWARDS__WITHDRAW_REWARDS: u64 = 1;

/// Reply id of a pending reward withdrawal of all registered stakes.
pub const EXECUTE_CLAIM_STAKE_REWARDS_BATCH__WITHDRAW_REWARDS_BATCH: u64 = 2;

/// Reply id of a pending principal withdrawal of one stake.
pub const EXECUTE_CLAIM_STAKE_PRINCIPAL__WITHDRAW_PRINCIPAL: u64 = 3;

/// A withdrawal to ask of the stake core.
#[derive(Debug)]
pub enum StakecoreMsg {
    WithdrawRewards { index: u32 },
    WithdrawRewardsBatch { indexes: Vec<u32> },
    WithdrawPrincipal { index: u32 },
}

/// A call to the stake core, whose reply comes back under `reply_id`.
#[derive(Debug)]
pub struct StakecoreCall {
    pub contract: String,
    pub msg: StakecoreMsg,
    pub reply_id: u64,
}

/// The shares to register next: the stake core's indexes for this contract
/// after the `registered` ones, at most eight at a time.
pub open spec fn register_plan_spec(registered: int, share_ids: Seq<u32>) -> Seq<u32> {
    if registered >= share_ids.len() {
        Seq::empty()
    } else if share_ids.len() - registered > 8 {
        share_ids.subrange(registered, registered + 8)
    } else {
        share_ids.subrange(registered, share_ids.len() as int)
    }
}

/// The shares to register next are the stake indexes right after the
/// `registered` ones, in order, eight at most: the next call, having
/// registered these, takes the eight after them.
pub proof fn lemma_register_plan_takes_next(registered: int, share_ids: Seq<u32>)
    requires
        0 <= registered,
    ensures
        register_plan_spec(registered, share_ids).len() == if share_ids.len() <= registered {
            0
        } else if share_ids.len() - registered > 8 {
            8
        } else {
            share_ids.len() - registered
        },
        forall|i: int|
            0 <= i < register_plan_spec(registered, share_ids).len() ==> #[trigger] register_plan_spec(
                registered,
                share_ids,
            )[i] == share_ids[registered + i],
{
}

/// The share registered for a stake: it starts after the cliff, ends with the
/// lock period, and holds the stake's rewards and principal.
pub open spec fn new_share_spec(c: crate::stakecore::types::Config, stake: crate::stakecore::types::StakeInfo) -> ShareInfo {
    ShareInfo {
        start_time: (stake.start_time + c.cliff_period) as u64,
        recycled_time: (stake.start_time + c.cliff_period) as u64,
        end_time: (stake.start_time + c.lock_period) as u64,
        total_rewards: stake.total_rewards,
        claimed_rewards: 0,
        withdrawn_rewards: 0,
        granted_rewards: 0,
        total_recycled_rewards: 0,
        withdrawn_recycled_rewards: 0,
        total_principal: stake.total_principal,
        claimed_principal: 0,
        withdrawn_principal: 0,
        granted_principal: 0,
    }
}

/// The shares after registering `stakes` in turn.
pub open spec fn register_spec(
    m: Map<u32, ShareInfo>,
    c: crate::stakecore::types::Config,
    stakes: Seq<(u32, crate::stakecore::types::StakeInfo)>,
) -> Map<u32, ShareInfo>
    decreases stakes.len(),
{
    if stakes.len() == 0 {
        m
    } else {
        register_spec(m, c, stakes.drop_last()).insert(stakes.last().0, new_share_spec(c, stakes.last().1))
    }
}

impl ShareCore {
    /// The maps are well formed and every share's amounts are consistent.
    pub open spec fn inv(&self) -> bool {
        &&& self.share_infos.wf()
        &&& self.shareholder_infos.wf()
        &&& self.access_control.wf()
        &&& forall|id: u32| #[trigger] self.share_infos@.contains_key(id) ==> share_ok(self.share_infos@[id])
    }

    /// The held funds are what the shares hold: all that was claimed from the
    /// stake core less all that was paid out.
    pub open spec fn funds_balanced(&self) -> bool {
        self.held_funds == total_funds(self.share_infos@)
    }

    /// Setting share `id` to `s` and the held funds to `held` keeps the funds
    /// balanced when `held` moves with the share's funds.
    proof fn lemma_set_share_funds(&self, id: u32, s: ShareInfo, held: int)
        requires
            self.share_infos.wf(),
            self.funds_balanced(),
            self.share_infos@.contains_key(id),
            held == self.held_funds + crate::sharecore::types::share_funds(s)
                - crate::sharecore::types::share_funds(self.share_infos@[id]),
        ensures
            held == total_funds(self.share_infos@.insert(id, s)),
    {
        self.share_infos.lemma_finite();
        lemma_total_funds_insert(self.share_infos@, id, s);
    }

    /// Whether `account` holds `role`.
    pub open spec fn has_role(&self, role: Seq<char>, account: Seq<char>) -> bool {
        self.access_control.has_role_spec(role, account)
    }

    /// Everything but the shares, the shareholders and the held funds is as in `other`.
    pub open spec fn same_setup(&self, other: &ShareCore) -> bool {
        &&& self.config == other.config
        &&& self.token_config == other.token_config
        &&& self.share_info_indexes == other.share_info_indexes
        &&& self.pending_submsg_payload == other.pending_submsg_payload
        &&& self.access_control == other.access_control
    }

    /// The token handle of this contract.
    pub fn get_univeral_token(&self) -> (r: UniversalToken)
        ensures
            r.config == self.token_config,
    {
        UniversalToken::new(self.token_config.clone())
    }

    fn only_role(&self, role: &'static str, account: &String) -> (r: Result<(), ContractError>)
        requires
            self.access_control.wf(),
        ensures
            r is Ok <==> self.has_role(role@, account@),
            r matches Err(e) ==> is_unauthorized(e, account@, role@),
    {
        match self.access_control.check_role(&String::from_str(role), account) {
            Ok(()) => Ok(()),
            Err(e) => Err(ContractError::AccessControl(e)),
        }
    }

    /// Succeeds when `account` is an admin.
    pub fn only_admin(&self, account: &String) -> (r: Result<(), ContractError>)
        requires
            self.access_control.wf(),
        ensures
            r is Ok <==> self.has_role(DEFAULT_ADMIN_ROLE@, account@),
            r matches Err(e) ==> is_unauthorized(e, account@, DEFAULT_ADMIN_ROLE@),
    {
        self.only_role(DEFAULT_ADMIN_ROLE, account)
    }

    /// Succeeds when `account` is a whitelisted shareholder.
    pub fn only_shareholder(&self, account: &String) -> (r: Result<(), ContractError>)
        requires
            self.access_control.wf(),
        ensures
            r is Ok <==> self.has_role(SHAREHOLDER_ROLE@, account@),
            r matches Err(e) ==> is_unauthorized(e, account@, SHAREHOLDER_ROLE@),
    {
        self.only_role(SHAREHOLDER_ROLE, account)
    }

    /// Sets up a share core. `token_check` is the outcome of validating the
    /// token address (only a CW20 token needs it), `admin` the validated admin
    /// address, and `stakecore` the lookup of the message's stake core, present
    /// exactly when the message names one.
    pub fn instantiate(
        msg: &InstantiateMsg,
        token_check: Result<(), StdError>,
        admin: Result<String, StdError>,
        stakecore: Option<StakecoreLookup>,
    ) -> (r: Result<ShareCore, ContractError>)
        requires
            msg.stakecore is Some <==> stakecore is Some,
        ensures
            !msg.is_native_token && token_check is Err ==> r == Err::<ShareCore, ContractError>(
                ContractError::Std(token_check->Err_0),
            ),
            (msg.is_native_token || token_check is Ok) ==> if admin is Err {
                r == Err::<ShareCore, ContractError>(ContractError::Std(admin->Err_0))
            } else if stakecore matches Some(l) && l.addr is Err {
                r == Err::<ShareCore, ContractError>(ContractError::Std(stakecore->0.addr->Err_0))
            } else if stakecore matches Some(l) && l.token is Err {
                r == Err::<ShareCore, ContractError>(ContractError::Std(stakecore->0.token->Err_0))
            } else if stakecore matches Some(l) && !(TokenConfig { is_native: msg.is_native_token, token: msg.token }).same_as(
                l.token->Ok_0,
            ) {
                r matches Err(e) && is_invalid_param(e, "token"@)
            } else {
                r is Ok
            },
            r matches Ok(sc) ==> {
                &&& sc.inv()
                &&& sc.funds_balanced()
                &&& sc.config.stakecore == (match stakecore {
                    Some(l) => Some(l.addr->Ok_0),
                    None => None,
                })
                &&& sc.config.enable_shareholder_whitelist == msg.enable_shareholder_whitelist
                &&& sc.token_config == (TokenConfig { is_native: msg.is_native_token, token: msg.token })
                &&& sc.held_funds == 0
                &&& sc.share_infos@ == Map::<u32, ShareInfo>::empty()
                &&& sc.share_info_indexes@ == Seq::<u32>::empty()
                &&& sc.shareholder_infos@ == Map::<(Seq<char>, u32), ShareholderInfo>::empty()
                &&& sc.pending_submsg_payload is None
                &&& sc.access_control.role_set() == set![(DEFAULT_ADMIN_ROLE@, admin->Ok_0@)]
                &&& sc.access_control.admin_map() == Map::<Seq<char>, Seq<char>>::empty()
            },
    {
        if !msg.is_native_token {
            match token_check {
                Ok(()) => {},
                Err(e) => return Err(ContractError::Std(e)),
            }
        }
        let admin_addr = match admin {
            Ok(a) => a,
            Err(e) => return Err(ContractError::Std(e)),
        };
        let token_config = TokenConfig { is_native: msg.is_native_token, token: msg.token.clone() };
        let stakecore_addr = match stakecore {
            Some(lookup) => {
                let addr = match lookup.addr {
                    Ok(a) => a,
                    Err(e) => return Err(ContractError::Std(e)),
                };
                let stakecore_token = match lookup.token {
                    Ok(t) => t,
                    Err(e) => return Err(ContractError::Std(e)),
                };
                if !token_config.equals(&stakecore_token) {
                    return Err(ContractError::InvalidParamter { key: String::from_str("token") });
                }
                Some(addr)
            },
            None => None,
        };
        let mut access_control = AccessControl::new();
        access_control._grant_role(&String::from_str(DEFAULT_ADMIN_ROLE), &admin_addr);
        let sc = ShareCore {
            config: Config { stakecore: stakecore_addr, enable_shareholder_whitelist: msg.enable_shareholder_whitelist },
            token_config,
            held_funds: 0,
            share_infos: AssocMap::new(),
            share_info_indexes: Vec::new(),
            shareholder_infos: AssocMap::new(),
            pending_submsg_payload: None,
            access_control,
        };
        assert(set![(DEFAULT_ADMIN_ROLE@, admin_addr@)] =~= Set::<(Seq<char>, Seq<char>)>::empty().insert(
            (DEFAULT_ADMIN_ROLE@, admin_addr@),
        ));
        Ok(sc)
    }

    /// An admin naming the stake core, once, after checking that it uses the same token.
    pub fn execute_init_stakecore(&mut self, info: &MessageInfo, stakecore: StakecoreLookup) -> (r: Result<
        (),
        ContractError,
    >)
        requires
            old(self).inv(),
        ensures
            final(self).inv(),
            old(self).funds_balanced() ==> final(self).funds_balanced(),
            r matches Err(e) ==> *final(self) == *old(self),
            if !old(self).has_role(DEFAULT_ADMIN_ROLE@, info.sender@) {
                r matches Err(e) && is_unauthorized(e, info.sender@, DEFAULT_ADMIN_ROLE@)
            } else if old(self).config.stakecore is Some {
                r matches Err(ContractError::StakecoreAlreadyInitialized)
            } else if stakecore.addr is Err {
                r == Err::<(), ContractError>(ContractError::Std(stakecore.addr->Err_0))
            } else if stakecore.token is Err {
                r == Err::<(), ContractError>(ContractError::Std(stakecore.token->Err_0))
            } else if !old(self).token_config.same_as(stakecore.token->Ok_0) {
                r matches Err(e) && is_invalid_param(e, "stakecore"@)
            } else {
                r is Ok && *final(self) == (ShareCore {
                    config: Config { stakecore: Some(stakecore.addr->Ok_0), ..old(self).config },
                    ..*old(self)
                })
            },
    {
        self.only_admin(&info.sender)?;
        if self.config.stakecore.is_some() {
            return Err(ContractError::StakecoreAlreadyInitialized);
        }
        let addr = match stakecore.addr {
            Ok(a) => a,
            Err(e) => return Err(ContractError::Std(e)),
        };
        let stakecore_token = match stakecore.token {
            Ok(t) => t,
            Err(e) => return Err(ContractError::Std(e)),
        };
        if !self.token_config.equals(&stakecore_token) {
            return Err(ContractError::InvalidParamter { key: String::from_str("stakecore") });
        }
        self.config.stakecore = Some(addr);
        Ok(())
    }

    /// `info.sender` granting `role` to `account` (the validated address):
    /// allowed to holders of the admin role of `role`.
    pub fn execute_grant_role(&mut self, info: &MessageInfo, role: String, account: Result<String, StdError>) -> (r: Result<
        (),
        ContractError,
    >)
        requires
            old(self).inv(),
        ensures
            final(self).inv(),
            old(self).funds_balanced() ==> final(self).funds_balanced(),
            account is Err ==> r == Err::<(), ContractError>(ContractError::Std(account->Err_0)),
            account is Ok ==> (r is Ok <==> old(self).has_role(
                role_admin_spec(old(self).access_control.admin_map(), role@),
                info.sender@,
            )),
            r matches Err(e) ==> *final(self) == *old(self) && (account is Ok ==> is_unauthorized(
                e,
                info.sender@,
                role_admin_spec(old(self).access_control.admin_map(), role@),
            )),
            r is Ok ==> {
                &&& final(self).access_control.role_set() == old(self).access_control.role_set().insert(
                    (role@, account->Ok_0@),
                )
                &&& final(self).access_control.admin_map() == old(self).access_control.admin_map()
                &&& final(self).config == old(self).config
                &&& final(self).token_config == old(self).token_config
                &&& final(self).held_funds == old(self).held_funds
                &&& final(self).share_infos == old(self).share_infos
                &&& final(self).share_info_indexes == old(self).share_info_indexes
                &&& final(self).shareholder_infos == old(self).shareholder_infos
                &&& final(self).pending_submsg_payload == old(self).pending_submsg_payload
            },
    {
        let account = match account {
            Ok(a) => a,
            Err(e) => return Err(ContractError::Std(e)),
        };
        match self.access_control.grant_role(&info.sender, &role, &account) {
            Ok(()) => Ok(()),
            Err(e) => Err(ContractError::AccessControl(e)),
        }
    }

    /// An admin recycling, up to `recycled_time`, the rewards of share
    /// `share_id` that were not granted in time; returns the amount recycled.
    pub fn execute_accrue_rewards(&mut self, env: &Env, info: &MessageInfo, share_id: u32, recycled_time: u64) -> (r:
        Result<u128, ContractError>)
        requires
            old(self).inv(),
        ensures
            final(self).inv(),
            old(self).funds_balanced() ==> final(self).funds_balanced(),
            r matches Err(e) ==> *final(self) == *old(self),
            if !old(self).has_role(DEFAULT_ADMIN_ROLE@, info.sender@) {
                r matches Err(e) && is_unauthorized(e, info.sender@, DEFAULT_ADMIN_ROLE@)
            } else if !old(self).share_infos@.contains_key(share_id) {
                r matches Err(e) && is_not_found(e, share_kind())
            } else {
                let s = old(self).share_infos@[share_id];
                if recycled_time <= s.recycled_time || recycled_time > s.end_time || recycled_time > env.time {
                    r matches Err(e) && is_invalid_param(e, "recycled_time"@)
                } else {
                    let amount = recyclable_rewards_spec(s, recycled_time);
                    &&& r == Ok::<u128, ContractError>(amount as u128)
                    &&& final(self).share_infos@ == old(self).share_infos@.insert(
                        share_id,
                        ShareInfo {
                            total_recycled_rewards: (s.total_recycled_rewards + amount) as u128,
                            recycled_time,
                            ..s
                        },
                    )
                    &&& final(self).same_setup(&*old(self))
                    &&& final(self).held_funds == old(self).held_funds
                    &&& final(self).shareholder_infos == old(self).shareholder_infos
                }
            },
    {
        self.only_admin(&info.sender)?;
        let mut share_info = self.load_share(share_id)?;
        if recycled_time <= share_info.recycled_time || recycled_time > share_info.end_time || recycled_time > env.time {
            return Err(ContractError::InvalidParamter { key: String::from_str("recycled_time") });
        }
        proof {
            lemma_recycling_monotonic(share_info, recycled_time, share_info.end_time);
        }
        let recyclable_rewards = share_info.recyclable_rewards(recycled_time);
        share_info.total_recycled_rewards = share_info.total_recycled_rewards + recyclable_rewards;
        share_info.recycled_time = recycled_time;
        proof {
            if self.funds_balanced() {
                self.lemma_set_share_funds(share_id, share_info, self.held_funds as int);
            }
        }
        self.share_infos.insert(share_id, share_info);
        Ok(recyclable_rewards)
    }

    /// An admin taking `amount` of the recycled rewards of share `share_id`,
    /// out of the rewards the share holds.
    pub fn execute_recycle(&mut self, info: &MessageInfo, share_id: u32, amount: u128) -> (r: Result<
        Vec<TokenMsg>,
        ContractError,
    >)
        requires
            old(self).inv(),
            old(self).share_infos@.contains_key(share_id) && amount <= old(self).share_infos@[share_id].claimed_rewards
                - old(self).share_infos@[share_id].withdrawn_rewards ==> amount <= old(self).held_funds,
        ensures
            final(self).inv(),
            old(self).funds_balanced() ==> final(self).funds_balanced(),
            r matches Err(e) ==> *final(self) == *old(self),
            if !old(self).has_role(DEFAULT_ADMIN_ROLE@, info.sender@) {
                r matches Err(e) && is_unauthorized(e, info.sender@, DEFAULT_ADMIN_ROLE@)
            } else if !old(self).share_infos@.contains_key(share_id) {
                r matches Err(e) && is_not_found(e, share_kind())
            } else {
                let s = old(self).share_infos@[share_id];
                if amount > s.total_recycled_rewards - s.withdrawn_recycled_rewards {
                    r matches Err(ContractError::AmountExceedsWithdrawable)
                } else if amount > s.claimed_rewards - s.withdrawn_rewards {
                    r matches Err(ContractError::AmountExceedsBalance)
                } else {
                    &&& r matches Ok(v) && v@ == seq![send_msg_spec(old(self).token_config, info.sender, amount)]
                    &&& final(self).share_infos@ == old(self).share_infos@.insert(
                        share_id,
                        ShareInfo {
                            withdrawn_rewards: (s.withdrawn_rewards + amount) as u128,
                            withdrawn_recycled_rewards: (s.withdrawn_recycled_rewards + amount) as u128,
                            ..s
                        },
                    )
                    &&& final(self).held_funds == old(self).held_funds - amount
                    &&& final(self).same_setup(&*old(self))
                    &&& final(self).shareholder_infos == old(self).shareholder_infos
                }
            },
    {
        self.only_admin(&info.sender)?;
        let mut share_info = self.load_share(share_id)?;
        let available = share_info.total_recycled_rewards - share_info.withdrawn_recycled_rewards;
        if !(amount <= available) {
            return Err(ContractError::AmountExceedsWithdrawable);
        }
        let withdrawable_rewards = share_info.rewards_balance();
        if !(amount <= withdrawable_rewards) {
            return Err(ContractError::AmountExceedsBalance);
        }
        share_info.withdrawn_rewards = share_info.withdrawn_rewards + amount;
        share_info.withdrawn_recycled_rewards = share_info.withdrawn_recycled_rewards + amount;
        proof {
            if self.funds_balanced() {
                self.lemma_set_share_funds(share_id, share_info, self.held_funds - amount);
            }
        }
        self.share_infos.insert(share_id, share_info);
        self.held_funds = self.held_funds - amount;
        Ok(self.get_univeral_token().send_token(&info.sender, amount))
    }

    /// The checks of adding a shareholder before the amounts are checked pass.
    pub open spec fn add_admitted(&self, info: MessageInfo, owner: Result<String, StdError>, share_id: u32, start_time: u64) -> bool {
        &&& self.has_role(DEFAULT_ADMIN_ROLE@, info.sender@)
        &&& owner is Ok
        &&& self.config.enable_shareholder_whitelist ==> self.has_role(SHAREHOLDER_ROLE@, owner->Ok_0@)
        &&& self.share_infos@.contains_key(share_id)
        &&& self.share_infos@[share_id].recycled_time <= start_time <= self.share_infos@[share_id].end_time
    }

    /// The arithmetic of adding an admitted shareholder cannot overflow.
    pub open spec fn add_computable(&self, owner: Seq<char>, share_id: u32, start_time: u64, g: u128, gp: u128) -> bool {
        let s = self.share_infos@[share_id];
        let (unrecycled, pre) = grant_recycling(s, start_time, g);
        &&& s.granted_principal + gp <= u128::MAX
        &&& (g != 0 && start_time < s.end_time && s.granted_principal + gp <= s.total_principal) ==> {
            &&& s.start_time <= start_time
            &&& g * (start_time - s.recycled_time) <= u128::MAX
            &&& g * (start_time - s.start_time) <= u128::MAX
        }
        &&& (start_time < s.end_time || g == 0) && s.granted_principal + gp <= s.total_principal ==> {
            &&& g + unrecycled + s.granted_rewards + s.total_recycled_rewards <= u128::MAX
            &&& (g + unrecycled + s.granted_rewards + s.total_recycled_rewards <= s.total_rewards ==> grant_fits(
                lookup_holder(self.shareholder_infos@, (owner, share_id)),
                g,
                gp,
                pre,
            ))
        }
    }

    /// The outcome `r` of an admin (`info.sender`) granting `owner` (the
    /// validated address) `g` rewards and `gp` principal of share `share_id`
    /// from `start_time`, taking the state from `before` to `after`: each refusal
    /// in the order it is checked, or the grant recorded on the share and the
    /// shareholder with the pre-recycled rewards returned.
    pub open spec fn add_shareholder_outcome(
        before: ShareCore,
        after: ShareCore,
        info: MessageInfo,
        owner: Result<String, StdError>,
        share_id: u32,
        start_time: u64,
        granted_rewards: u128,
        granted_principal: u128,
        r: Result<u128, ContractError>,
    ) -> bool {
        if !before.has_role(DEFAULT_ADMIN_ROLE@, info.sender@) {
            r matches Err(e) && is_unauthorized(e, info.sender@, DEFAULT_ADMIN_ROLE@)
        } else if owner is Err {
            r == Err::<u128, ContractError>(ContractError::Std(owner->Err_0))
        } else if before.config.enable_shareholder_whitelist && !before.has_role(SHAREHOLDER_ROLE@, owner->Ok_0@) {
            r matches Err(e) && is_unauthorized(e, owner->Ok_0@, SHAREHOLDER_ROLE@)
        } else if !before.share_infos@.contains_key(share_id) {
            r matches Err(e) && is_not_found(e, share_kind())
        } else {
            let s = before.share_infos@[share_id];
            let (unrecycled, pre) = grant_recycling(s, start_time, granted_rewards);
            let key = (owner->Ok_0@, share_id);
            if start_time < s.recycled_time || start_time > s.end_time || (start_time == s.end_time
                && granted_rewards != 0) {
                r matches Err(e) && is_invalid_param(e, "start_time"@)
            } else if s.granted_principal + granted_principal > s.total_principal {
                r matches Err(e) && is_invalid_param(e, "granted_principal"@)
            } else if granted_rewards + unrecycled + s.granted_rewards + s.total_recycled_rewards > s.total_rewards {
                r matches Err(e) && is_invalid_param(e, "granted_rewards"@)
            } else {
                &&& r == Ok::<u128, ContractError>(pre as u128)
                &&& after.share_infos@ == before.share_infos@.insert(
                    share_id,
                    ShareInfo {
                        granted_rewards: (s.granted_rewards + granted_rewards) as u128,
                        granted_principal: (s.granted_principal + granted_principal) as u128,
                        total_recycled_rewards: (s.total_recycled_rewards + unrecycled) as u128,
                        ..s
                    },
                )
                &&& after.shareholder_infos@ == before.shareholder_infos@.insert(
                    key,
                    holder_after_grant(
                        lookup_holder(before.shareholder_infos@, key),
                        granted_rewards,
                        granted_principal,
                        pre,
                    ),
                )
                &&& after.same_setup(&before)
                &&& after.held_funds == before.held_funds
            }
        }
    }

    /// A grant that goes through keeps a share in order: if its times are
    /// in order and its grants and recycling stay within its totals before,
    /// its times are unchanged and its grants and recycling still stay
    /// within its totals after.
    pub proof fn lemma_add_shareholder_keeps_share(
        before: ShareCore,
        after: ShareCore,
        info: MessageInfo,
        owner: Result<String, StdError>,
        share_id: u32,
        start_time: u64,
        granted_rewards: u128,
        granted_principal: u128,
        r: Result<u128, ContractError>,
    )
        requires
            before.share_infos@.contains_key(share_id),
            ({
                let s = before.share_infos@[share_id];
                &&& s.start_time <= s.recycled_time <= s.end_time
                &&& s.granted_principal <= s.total_principal
                &&& s.granted_rewards + s.total_recycled_rewards <= s.total_rewards
            }),
            Self::add_shareholder_outcome(
                before,
                after,
                info,
                owner,
                share_id,
                start_time,
                granted_rewards,
                granted_principal,
                r,
            ),
            r is Ok,
        ensures
            after.share_infos@.contains_key(share_id),
            ({
                let s = before.share_infos@[share_id];
                let s2 = after.share_infos@[share_id];
                &&& s2.start_time == s.start_time && s2.recycled_time == s.recycled_time && s2.end_time == s.end_time
                &&& s2.start_time <= s2.recycled_time <= s2.end_time
                &&& s2.granted_principal <= s2.total_principal
                &&& s2.granted_rewards + s2.total_recycled_rewards <= s2.total_rewards
            }),
    {
        let s = before.share_infos@[share_id];
        let (unrecycled, pre) = grant_recycling(s, start_time, granted_rewards);
        if granted_rewards != 0 {
            assert(unrecycled >= 0) by {
                assert(granted_rewards * (start_time - s.recycled_time) >= 0) by (nonlinear_arith)
                    requires start_time >= s.recycled_time;
            }
        }
    }

    /// A grant of `g` starting at `t` on a share that starts at `s0`, was last
    /// recycled at `r0` and ends at `e` recycles with it `g * (t - r0) / (e - t)`
    /// of the ungranted rewards, the part that would have unlocked since the
    /// last recycling, and records and returns `g * (t - s0) / (e - t)` as the
    /// holder's pre-recycled rewards, the part since the share started. In
    /// particular a grant starting at the last recycling time recycles
    /// nothing more, and a grant of no rewards recycles nothing and records
    /// nothing.
    pub proof fn lemma_grant_recycles_pro_rata(
        before: ShareCore,
        after: ShareCore,
        info: MessageInfo,
        owner: Result<String, StdError>,
        share_id: u32,
        start_time: u64,
        granted_rewards: u128,
        granted_principal: u128,
        r: Result<u128, ContractError>,
    )
        requires
            before.add_admitted(info, owner, share_id, start_time) ==> before.add_computable(
                owner->Ok_0@,
                share_id,
                start_time,
                granted_rewards,
                granted_principal,
            ),
            Self::add_shareholder_outcome(
                before,
                after,
                info,
                owner,
                share_id,
                start_time,
                granted_rewards,
                granted_principal,
                r,
            ),
            r is Ok,
        ensures
            ({
                let s = before.share_infos@[share_id];
                let s2 = after.share_infos@[share_id];
                let key = (owner->Ok_0@, share_id);
                let h = Self::holder_or_empty(before.shareholder_infos@, key);
                let h2 = after.shareholder_infos@[key];
                let g = granted_rewards as int;
                let t = start_time as int;
                &&& before.share_infos@.contains_key(share_id)
                &&& after.shareholder_infos@.contains_key(key)
                &&& g != 0 ==> t < s.end_time
                &&& g != 0 ==> {
                    &&& s2.total_recycled_rewards == s.total_recycled_rewards + (g * (t - s.recycled_time)) / (
                    s.end_time - t)
                    &&& r->Ok_0 == (g * (t - s.start_time)) / (s.end_time - t)
                }
                &&& g == 0 ==> s2.total_recycled_rewards == s.total_recycled_rewards && r->Ok_0 == 0
                &&& t == s.recycled_time ==> s2.total_recycled_rewards == s.total_recycled_rewards
                &&& h2.pre_recycled_rewards == h.pre_recycled_rewards + r->Ok_0
                &&& s2.granted_rewards == s.granted_rewards + g
            }),
    {
        let s = before.share_infos@[share_id];
        let g = granted_rewards as int;
        let t = start_time as int;
        if g != 0 {
            assert(g * (t - s.start_time) <= u128::MAX);
            assert(0 <= g * (t - s.start_time)) by (nonlinear_arith)
                requires 0 <= g, s.start_time <= t;
            assert(0 <= g * (t - s.recycled_time)) by (nonlinear_arith)
                requires 0 <= g, s.recycled_time <= t;
            vstd::arithmetic::div_mod::lemma_div_pos_is_pos(g * (t - s.start_time), s.end_time - t);
            vstd::arithmetic::div_mod::lemma_div_is_ordered_by_denominator(g * (t - s.start_time), 1, s.end_time - t);
            if t == s.recycled_time {
                assert(g * (t - s.recycled_time) == 0) by (nonlinear_arith)
                    requires t == s.recycled_time;
                assert(0int / (s.end_time - t) == 0);
            }
        }
    }

    /// An admin granting `owner` (the validated address) `granted_rewards` and
    /// `granted_principal` of share `share_id`, starting at `start_time`. The
    /// rewards that would have unlocked since the last recycling are recycled
    /// with the grant, and those since the share started are recorded as the
    /// shareholder's pre-recycled rewards. Returns the latter.
    pub fn _add_shareholder(
        &mut self,
        info: &MessageInfo,
        owner: Result<String, StdError>,
        share_id: u32,
        start_time: u64,
        granted_rewards: u128,
        granted_principal: u128,
    ) -> (r: Result<u128, ContractError>)
        requires
            old(self).inv(),
            old(self).add_admitted(*info, owner, share_id, start_time) ==> old(self).add_computable(
                owner->Ok_0@,
                share_id,
                start_time,
                granted_rewards,
                granted_principal,
            ),
        ensures
            final(self).inv(),
            old(self).funds_balanced() ==> final(self).funds_balanced(),
            r matches Err(e) ==> *final(self) == *old(self),
            Self::add_shareholder_outcome(
                *old(self),
                *final(self),
                *info,
                owner,
                share_id,
                start_time,
                granted_rewards,
                granted_principal,
                r,
            ),
    {
        self.only_admin(&info.sender)?;
        let owner_addr = match owner {
            Ok(a) => a,
            Err(e) => return Err(ContractError::Std(e)),
        };
        if self.config.enable_shareholder_whitelist {
            self.only_shareholder(&owner_addr)?;
        }
        let mut share_info = self.load_share(share_id)?;
        if !(start_time >= share_info.recycled_time) {
            return Err(ContractError::InvalidParamter { key: String::from_str("start_time") });
        }
        if !(start_time <= share_info.end_time) {
            return Err(ContractError::InvalidParamter { key: String::from_str("start_time") });
        }
        if !(start_time != share_info.end_time || granted_rewards == 0) {
            return Err(ContractError::InvalidParamter { key: String::from_str("start_time") });
        }
        if !(share_info.granted_principal + granted_principal <= share_info.total_principal) {
            return Err(ContractError::InvalidParamter { key: String::from_str("granted_principal") });
        }
        let (unrecycled_rewards, need_to_recycle_rewards): (u128, u128) = if granted_rewards != 0 {
            (
                calc_proportional_rewards(start_time, share_info.recycled_time, share_info.end_time, granted_rewards),
                calc_proportional_rewards(start_time, share_info.start_time, share_info.end_time, granted_rewards),
            )
        } else {
            (0, 0)
        };
        if !(granted_rewards + unrecycled_rewards + share_info.granted_rewards + share_info.total_recycled_rewards
            <= share_info.total_rewards) {
            return Err(ContractError::InvalidParamter { key: String::from_str("granted_rewards") });
        }
        share_info.granted_rewards = share_info.granted_rewards + granted_rewards;
        share_info.granted_principal = share_info.granted_principal + granted_principal;
        share_info.total_recycled_rewards = share_info.total_recycled_rewards + unrecycled_rewards;
        proof {
            if self.funds_balanced() {
                self.lemma_set_share_funds(share_id, share_info, self.held_funds as int);
            }
        }
        self.share_infos.insert(share_id, share_info);
        let key = (owner_addr, share_id);
        let holder = match self.shareholder_infos.get(&key) {
            Some(h) => ShareholderInfo {
                granted_rewards: h.granted_rewards + granted_rewards,
                granted_principal: h.granted_principal + granted_principal,
                pre_recycled_rewards: h.pre_recycled_rewards + need_to_recycle_rewards,
                ..*h
            },
            None => ShareholderInfo {
                pre_recycled_rewards: need_to_recycle_rewards,
                granted_rewards,
                withdrawn_rewards: 0,
                granted_principal,
                withdrawn_principal: 0,
            },
        };
        self.shareholder_infos.insert(key, holder);
        Ok(need_to_recycle_rewards)
    }

    /// `_add_shareholder` starting at the share's last recycling time.
    pub fn execute_add_shareholder(
        &mut self,
        info: &MessageInfo,
        owner: Result<String, StdError>,
        share_id: u32,
        granted_rewards: u128,
        granted_principal: u128,
    ) -> (r: Result<u128, ContractError>)
        requires
            old(self).inv(),
            old(self).share_infos@.contains_key(share_id) && old(self).add_admitted(
                *info,
                owner,
                share_id,
                old(self).share_infos@[share_id].recycled_time,
            ) ==> old(self).add_computable(
                owner->Ok_0@,
                share_id,
                old(self).share_infos@[share_id].recycled_time,
                granted_rewards,
                granted_principal,
            ),
        ensures
            final(self).inv(),
            old(self).funds_balanced() ==> final(self).funds_balanced(),
            r matches Err(e) ==> *final(self) == *old(self),
            !old(self).share_infos@.contains_key(share_id) ==> (r matches Err(e) && is_not_found(e, share_kind())),
            old(self).share_infos@.contains_key(share_id) ==> Self::add_shareholder_outcome(
                *old(self),
                *final(self),
                *info,
                owner,
                share_id,
                old(self).share_infos@[share_id].recycled_time,
                granted_rewards,
                granted_principal,
                r,
            ),
    {
        let share_info = self.load_share(share_id)?;
        self._add_shareholder(info, owner, share_id, share_info.recycled_time, granted_rewards, granted_principal)
    }

    /// `_add_shareholder` starting at `start_time`.
    pub fn execute_add_shareholder_with_time(
        &mut self,
        info: &MessageInfo,
        owner: Result<String, StdError>,
        share_id: u32,
        start_time: u64,
        granted_rewards: u128,
        granted_principal: u128,
    ) -> (r: Result<u128, ContractError>)
        requires
            old(self).inv(),
            old(self).add_admitted(*info, owner, share_id, start_time) ==> old(self).add_computable(
                owner->Ok_0@,
                share_id,
                start_time,
                granted_rewards,
                granted_principal,
            ),
        ensures
            final(self).inv(),
            old(self).funds_balanced() ==> final(self).funds_balanced(),
            r matches Err(e) ==> *final(self) == *old(self),
            Self::add_shareholder_outcome(
                *old(self),
                *final(self),
                *info,
                owner,
                share_id,
                start_time,
                granted_rewards,
                granted_principal,
                r,
            ),
    {
        self._add_shareholder(info, owner, share_id, start_time, granted_rewards, granted_principal)
    }

    /// The pre-recycled rewards that move with `g` of a shareholder's granted rewards.
    pub open spec fn moved_pre_spec(h: ShareholderInfo, g: u128) -> int {
        if h.granted_rewards == 0 {
            0
        } else {
            (g * h.pre_recycled_rewards) / (h.granted_rewards as int)
        }
    }

    /// The record of `k` in `m`, or an empty one for a shareholder without one.
    pub open spec fn holder_or_empty(m: Map<(Seq<char>, u32), ShareholderInfo>, k: (Seq<char>, u32)) -> ShareholderInfo {
        if m.contains_key(k) {
            m[k]
        } else {
            ShareholderInfo {
                pre_recycled_rewards: 0,
                granted_rewards: 0,
                withdrawn_rewards: 0,
                granted_principal: 0,
                withdrawn_principal: 0,
            }
        }
    }

    /// Passing a share on moves grants without making or losing any: the
    /// sender's and the new owner's granted rewards, granted principal and
    /// pre-recycled rewards add up to what they did before, their withdrawals
    /// stay as they were, and no share and no other record changes. Passing
    /// a share on to oneself changes nothing.
    pub proof fn lemma_share_conserves_grants(
        before: ShareCore,
        after: ShareCore,
        info: MessageInfo,
        share_id: u32,
        new_owner: Result<String, StdError>,
        granted_rewards: u128,
        granted_principal: u128,
        r: Result<u128, ContractError>,
    )
        requires
            before.share_admitted(info, new_owner, share_id) ==> before.share_computable(
                info,
                new_owner->Ok_0@,
                share_id,
                granted_rewards,
                granted_principal,
            ),
            Self::share_outcome(before, after, info, share_id, new_owner, granted_rewards, granted_principal, r),
            r is Ok,
        ensures
            ({
                let ks = (info.sender@, share_id);
                let kn = (new_owner->Ok_0@, share_id);
                let m = before.shareholder_infos@;
                let m2 = after.shareholder_infos@;
                let hs = Self::holder_or_empty(m, ks);
                let hn = Self::holder_or_empty(m, kn);
                &&& m2.contains_key(ks) && m2.contains_key(kn)
                &&& ks != kn ==> {
                    &&& m2[ks].granted_rewards + m2[kn].granted_rewards == hs.granted_rewards + hn.granted_rewards
                    &&& m2[ks].granted_principal + m2[kn].granted_principal == hs.granted_principal
                        + hn.granted_principal
                    &&& m2[ks].pre_recycled_rewards + m2[kn].pre_recycled_rewards == hs.pre_recycled_rewards
                        + hn.pre_recycled_rewards
                    &&& m2[ks].withdrawn_rewards == hs.withdrawn_rewards
                    &&& m2[ks].withdrawn_principal == hs.withdrawn_principal
                    &&& m2[kn].withdrawn_rewards == hn.withdrawn_rewards
                    &&& m2[kn].withdrawn_principal == hn.withdrawn_principal
                }
                &&& ks == kn ==> m2 == m
                &&& forall|k: (Seq<char>, u32)|
                    k != ks && k != kn ==> (#[trigger] m2.contains_key(k) == m.contains_key(k) && (m.contains_key(k)
                        ==> m2[k] == m[k]))
                &&& after.share_infos == before.share_infos
            }),
    {
        let ks = (info.sender@, share_id);
        let h = before.shareholder_infos@[ks];
        let g = granted_rewards;
        let p = h.pre_recycled_rewards;
        if h.granted_rewards != 0 {
            assert(g * p <= h.granted_rewards * p) by (nonlinear_arith)
                requires g <= h.granted_rewards;
            lemma_div_is_ordered(g * p, h.granted_rewards * p, h.granted_rewards as int);
            lemma_div_multiples_vanish(p as int, h.granted_rewards as int);
            lemma_mul_is_commutative(p as int, h.granted_rewards as int);
            lemma_div_pos_is_pos(g * p, h.granted_rewards as int);
        }
        assert(0 <= Self::moved_pre_spec(h, g) <= p);
        if ks == (new_owner->Ok_0@, share_id) {
            assert(after.shareholder_infos@ =~= before.shareholder_infos@);
        }
    }

    /// The checks of passing a share on before the amounts are checked pass.
    pub open spec fn share_admitted(&self, info: MessageInfo, new_owner: Result<String, StdError>, share_id: u32) -> bool {
        &&& new_owner is Ok
        &&& self.has_role(DEFAULT_ADMIN_ROLE@, info.sender@)
        &&& self.config.enable_shareholder_whitelist ==> self.has_role(SHAREHOLDER_ROLE@, new_owner->Ok_0@)
        &&& self.shareholder_infos@.contains_key((info.sender@, share_id))
    }

    /// The arithmetic of passing on an admitted share cannot overflow.
    pub open spec fn share_computable(&self, info: MessageInfo, new_owner: Seq<char>, share_id: u32, g: u128, gp: u128) -> bool {
        let h = self.shareholder_infos@[(info.sender@, share_id)];
        let pre = Self::moved_pre_spec(h, g);
        let h2 = ShareholderInfo {
            granted_rewards: (h.granted_rewards - g) as u128,
            granted_principal: (h.granted_principal - gp) as u128,
            pre_recycled_rewards: (h.pre_recycled_rewards - pre) as u128,
            ..h
        };
        let m2 = self.shareholder_infos@.insert((info.sender@, share_id), h2);
        &&& g + h.withdrawn_rewards <= u128::MAX
        &&& gp + h.withdrawn_principal <= u128::MAX
        &&& (g + h.withdrawn_rewards <= h.granted_rewards && gp + h.withdrawn_principal <= h.granted_principal) ==> {
            &&& g * h.pre_recycled_rewards <= u128::MAX
            &&& grant_fits(lookup_holder(m2, (new_owner, share_id)), g, gp, pre)
        }
    }

    /// The outcome `r` of `info.sender` passing `granted_rewards` and
    /// `granted_principal` of its part in share `share_id` on to `new_owner`
    /// (the validated address), with the pre-recycled rewards that go with
    /// them, taking the state from `before` to `after`: each refusal in the
    /// order it is checked, or the moved amounts taken off the sender's record
    /// and added to the new owner's, with the moved pre-recycled rewards returned.
    pub open spec fn share_outcome(
        before: ShareCore,
        after: ShareCore,
        info: MessageInfo,
        share_id: u32,
        new_owner: Result<String, StdError>,
        granted_rewards: u128,
        granted_principal: u128,
        r: Result<u128, ContractError>,
    ) -> bool {
        if new_owner is Err {
            r == Err::<u128, ContractError>(ContractError::Std(new_owner->Err_0))
        } else if granted_rewards + granted_principal == 0 {
            r matches Err(e) && is_invalid_param(e, "granted_rewards&granted_principal"@)
        } else if !before.has_role(DEFAULT_ADMIN_ROLE@, info.sender@) {
            r matches Err(e) && is_unauthorized(e, info.sender@, DEFAULT_ADMIN_ROLE@)
        } else if before.config.enable_shareholder_whitelist && !before.has_role(
            SHAREHOLDER_ROLE@,
            new_owner->Ok_0@,
        ) {
            r matches Err(e) && is_unauthorized(e, new_owner->Ok_0@, SHAREHOLDER_ROLE@)
        } else if !before.shareholder_infos@.contains_key((info.sender@, share_id)) {
            r matches Err(e) && is_not_found(e, shareholder_kind())
        } else {
            let h = before.shareholder_infos@[(info.sender@, share_id)];
            let pre = Self::moved_pre_spec(h, granted_rewards);
            if granted_rewards + h.withdrawn_rewards > h.granted_rewards {
                r matches Err(ContractError::InsufficientReward)
            } else if granted_principal + h.withdrawn_principal > h.granted_principal {
                r matches Err(ContractError::InsufficientPrincipal)
            } else {
                let h2 = ShareholderInfo {
                    granted_rewards: (h.granted_rewards - granted_rewards) as u128,
                    granted_principal: (h.granted_principal - granted_principal) as u128,
                    pre_recycled_rewards: (h.pre_recycled_rewards - pre) as u128,
                    ..h
                };
                let m2 = before.shareholder_infos@.insert((info.sender@, share_id), h2);
                let key = (new_owner->Ok_0@, share_id);
                &&& r == Ok::<u128, ContractError>(pre as u128)
                &&& after.shareholder_infos@ == m2.insert(
                    key,
                    holder_after_grant(lookup_holder(m2, key), granted_rewards, granted_principal, pre),
                )
                &&& after.share_infos == before.share_infos
                &&& after.same_setup(&before)
                &&& after.held_funds == before.held_funds
            }
        }
    }

    /// An admin shareholder passing `granted_rewards` and `granted_principal`
    /// of its part of share `share_id` on to `new_owner` (the validated
    /// address), with the matching part of its pre-recycled rewards, which is
    /// returned.
    pub fn execute_share(
        &mut self,
        info: &MessageInfo,
        share_id: u32,
        new_owner: Result<String, StdError>,
        granted_rewards: u128,
        granted_principal: u128,
    ) -> (r: Result<u128, ContractError>)
        requires
            old(self).inv(),
            new_owner is Ok ==> granted_rewards + granted_principal <= u128::MAX,
            old(self).share_admitted(*info, new_owner, share_id) ==> old(self).share_computable(
                *info,
                new_owner->Ok_0@,
                share_id,
                granted_rewards,
                granted_principal,
            ),
        ensures
            final(self).inv(),
            old(self).funds_balanced() ==> final(self).funds_balanced(),
            r matches Err(e) ==> *final(self) == *old(self),
            Self::share_outcome(
                *old(self),
                *final(self),
                *info,
                share_id,
                new_owner,
                granted_rewards,
                granted_principal,
                r,
            ),
    {
        let new_owner_addr = match new_owner {
            Ok(a) => a,
            Err(e) => return Err(ContractError::Std(e)),
        };
        if !(granted_rewards + granted_principal > 0) {
            return Err(
                ContractError::InvalidParamter { key: String::from_str("granted_rewards&granted_principal") },
            );
        }
        self.only_admin(&info.sender)?;
        if self.config.enable_shareholder_whitelist {
            self.only_shareholder(&new_owner_addr)?;
        }
        let sender_key = (info.sender.clone(), share_id);
        let mut shareholder_info = match self.shareholder_infos.get(&sender_key) {
            Some(h) => *h,
            None => return Err(
                ContractError::Std(StdError::NotFound { kind: String::from_str("sharecore::types::ShareholderInfo") }),
            ),
        };
        if !(granted_rewards + shareholder_info.withdrawn_rewards <= shareholder_info.granted_rewards) {
            return Err(ContractError::InsufficientReward);
        }
        if !(granted_principal + shareholder_info.withdrawn_principal <= shareholder_info.granted_principal) {
            return Err(ContractError::InsufficientPrincipal);
        }
        let pre_recycled_rewards: u128 = if shareholder_info.granted_rewards == 0 {
            0
        } else {
            proof {
                let g = granted_rewards as int;
                let p = shareholder_info.pre_recycled_rewards as int;
                let d = shareholder_info.granted_rewards as int;
                assert(g * p <= d * p) by (nonlinear_arith)
                    requires g <= d, 0 <= p;
                vstd::arithmetic::div_mod::lemma_div_is_ordered(g * p, d * p, d);
                vstd::arithmetic::div_mod::lemma_div_multiples_vanish(p, d);
                vstd::arithmetic::div_mod::lemma_div_pos_is_pos(g * p, d);
            }
            granted_rewards * shareholder_info.pre_recycled_rewards / shareholder_info.granted_rewards
        };
        shareholder_info.granted_rewards = shareholder_info.granted_rewards - granted_rewards;
        shareholder_info.granted_principal = shareholder_info.granted_principal - granted_principal;
        shareholder_info.pre_recycled_rewards = shareholder_info.pre_recycled_rewards - pre_recycled_rewards;
        self.shareholder_infos.insert(sender_key, shareholder_info);
        let new_key = (new_owner_addr, share_id);
        let new_holder = match self.shareholder_infos.get(&new_key) {
            Some(h) => ShareholderInfo {
                granted_rewards: h.granted_rewards + granted_rewards,
                granted_principal: h.granted_principal + granted_principal,
                pre_recycled_rewards: h.pre_recycled_rewards + pre_recycled_rewards,
                ..*h
            },
            None => ShareholderInfo {
                pre_recycled_rewards: pre_recycled_rewards,
                granted_rewards,
                withdrawn_rewards: 0,
                granted_principal: granted_principal,
                withdrawn_principal: 0,
            },
        };
        self.shareholder_infos.insert(new_key, new_holder);
        Ok(pre_recycled_rewards)
    }

    /// The rewards a shareholder withdraws from a share: what it may withdraw,
    /// capped by what the share holds.
    pub open spec fn payout_spec(withdrawable: int, balance: int) -> int {
        if balance < withdrawable {
            balance
        } else {
            withdrawable
        }
    }

    /// `info.sender` withdrawing its unlocked rewards of share `share_id`, as
    /// far as the share holds them.
    pub fn execute_withdraw_rewards(&mut self, info: &MessageInfo, share_id: u32) -> (r: Result<
        WithdrawOutcome,
        ContractError,
    >)
        requires
            old(self).inv(),
            old(self).shareholder_infos@.contains_key((info.sender@, share_id)) && old(self).share_infos@.contains_key(
                share_id,
            ) ==> {
                let s = old(self).share_infos@[share_id];
                let h = old(self).shareholder_infos@[(info.sender@, share_id)];
                &&& crate::sharecore::types::unlocked_rewards_computable(s, h)
                &&& Self::payout_spec(
                    crate::sharecore::types::excess_spec(
                        crate::sharecore::types::unlocked_rewards_spec(s, h),
                        h.withdrawn_rewards as int,
                    ),
                    s.claimed_rewards - s.withdrawn_rewards,
                ) <= old(self).held_funds
            },
        ensures
            final(self).inv(),
            old(self).funds_balanced() ==> final(self).funds_balanced(),
            r matches Err(e) ==> *final(self) == *old(self),
            if !old(self).shareholder_infos@.contains_key((info.sender@, share_id)) {
                r matches Err(e) && is_not_found(e, shareholder_kind())
            } else if !old(self).share_infos@.contains_key(share_id) {
                r matches Err(e) && is_not_found(e, share_kind())
            } else {
                let s = old(self).share_infos@[share_id];
                let h = old(self).shareholder_infos@[(info.sender@, share_id)];
                let w = crate::sharecore::types::excess_spec(
                    crate::sharecore::types::unlocked_rewards_spec(s, h),
                    h.withdrawn_rewards as int,
                );
                let balance = s.claimed_rewards - s.withdrawn_rewards;
                let amount = Self::payout_spec(w, balance);
                if w == 0 {
                    r matches Err(ContractError::AmountExceedsWithdrawable)
                } else if balance == 0 {
                    r matches Err(ContractError::AmountExceedsBalance)
                } else {
                    &&& r matches Ok(out) && out.amount == amount && out.messages@ == seq![
                        send_msg_spec(old(self).token_config, info.sender, amount as u128),
                    ]
                    &&& final(self).share_infos@ == old(self).share_infos@.insert(
                        share_id,
                        ShareInfo { withdrawn_rewards: (s.withdrawn_rewards + amount) as u128, ..s },
                    )
                    &&& final(self).shareholder_infos@ == old(self).shareholder_infos@.insert(
                        (info.sender@, share_id),
                        ShareholderInfo { withdrawn_rewards: (h.withdrawn_rewards + amount) as u128, ..h },
                    )
                    &&& final(self).held_funds == old(self).held_funds - amount
                    &&& final(self).same_setup(&*old(self))
                }
            },
    {
        let key = (info.sender.clone(), share_id);
        let mut shareholder_info = match self.shareholder_infos.get(&key) {
            Some(h) => *h,
            None => return Err(
                ContractError::Std(StdError::NotFound { kind: String::from_str("sharecore::types::ShareholderInfo") }),
            ),
        };
        let mut share_info = self.load_share(share_id)?;
        let mut withdrawable_rewards = share_info.calc_shareholder_withdrawable_rewards(&shareholder_info);
        if !(withdrawable_rewards > 0) {
            return Err(ContractError::AmountExceedsWithdrawable);
        }
        let rewards_balance = share_info.rewards_balance();
        if !(rewards_balance > 0) {
            return Err(ContractError::AmountExceedsBalance);
        }
        if rewards_balance < withdrawable_rewards {
            withdrawable_rewards = rewards_balance;
        }
        share_info.withdrawn_rewards = share_info.withdrawn_rewards + withdrawable_rewards;
        proof {
            if self.funds_balanced() {
                self.lemma_set_share_funds(share_id, share_info, self.held_funds - withdrawable_rewards);
            }
        }
        self.share_infos.insert(share_id, share_info);
        shareholder_info.withdrawn_rewards = shareholder_info.withdrawn_rewards + withdrawable_rewards;
        self.shareholder_infos.insert(key, shareholder_info);
        self.held_funds = self.held_funds - withdrawable_rewards;
        let messages = self.get_univeral_token().send_token(&info.sender, withdrawable_rewards);
        Ok(WithdrawOutcome { amount: withdrawable_rewards, messages })
    }

    /// `info.sender` withdrawing its unlocked principal of share `share_id`,
    /// as far as the share's principal is not yet paid out.
    pub fn execute_withdraw_principal(&mut self, info: &MessageInfo, share_id: u32) -> (r: Result<
        WithdrawOutcome,
        ContractError,
    >)
        requires
            old(self).inv(),
            old(self).shareholder_infos@.contains_key((info.sender@, share_id)) && old(self).share_infos@.contains_key(
                share_id,
            ) ==> {
                let s = old(self).share_infos@[share_id];
                let h = old(self).shareholder_infos@[(info.sender@, share_id)];
                &&& crate::sharecore::types::unlocked_principal_computable(s, h)
                &&& Self::payout_spec(
                    crate::sharecore::types::excess_spec(
                        crate::sharecore::types::unlocked_principal_spec(s, h),
                        h.withdrawn_principal as int,
                    ),
                    s.total_principal - s.withdrawn_principal,
                ) <= old(self).held_funds
            },
        ensures
            final(self).inv(),
            old(self).funds_balanced() ==> final(self).funds_balanced(),
            r matches Err(e) ==> *final(self) == *old(self),
            if !old(self).shareholder_infos@.contains_key((info.sender@, share_id)) {
                r matches Err(e) && is_not_found(e, shareholder_kind())
            } else if !old(self).share_infos@.contains_key(share_id) {
                r matches Err(e) && is_not_found(e, share_kind())
            } else {
                let s = old(self).share_infos@[share_id];
                let h = old(self).shareholder_infos@[(info.sender@, share_id)];
                let w = crate::sharecore::types::excess_spec(
                    crate::sharecore::types::unlocked_principal_spec(s, h),
                    h.withdrawn_principal as int,
                );
                let balance = s.total_principal - s.withdrawn_principal;
                let amount = Self::payout_spec(w, balance);
                if w == 0 {
                    r matches Err(ContractError::AmountExceedsWithdrawable)
                } else if balance == 0 {
                    r matches Err(ContractError::AmountExceedsBalance)
                } else {
                    &&& r matches Ok(out) && out.amount == amount && out.messages@ == seq![
                        send_msg_spec(old(self).token_config, info.sender, amount as u128),
                    ]
                    &&& final(self).share_infos@ == old(self).share_infos@.insert(
                        share_id,
                        ShareInfo { withdrawn_principal: (s.withdrawn_principal + amount) as u128, ..s },
                    )
                    &&& final(self).shareholder_infos@ == old(self).shareholder_infos@.insert(
                        (info.sender@, share_id),
                        ShareholderInfo { withdrawn_principal: (h.withdrawn_principal + amount) as u128, ..h },
                    )
                    &&& final(self).held_funds == old(self).held_funds - amount
                    &&& final(self).same_setup(&*old(self))
                }
            },
    {
        let key = (info.sender.clone(), share_id);
        let mut shareholder_info = match self.shareholder_infos.get(&key) {
            Some(h) => *h,
            None => return Err(
                ContractError::Std(StdError::NotFound { kind: String::from_str("sharecore::types::ShareholderInfo") }),
            ),
        };
        let mut share_info = self.load_share(share_id)?;
        let mut withdrawable_principal = share_info.calc_shareholder_withdrawable_principal(&shareholder_info);
        if !(withdrawable_principal > 0) {
            return Err(ContractError::AmountExceedsWithdrawable);
        }
        let principal_balance = share_info.principal_balance();
        if !(principal_balance > 0) {
            return Err(ContractError::AmountExceedsBalance);
        }
        if principal_balance < withdrawable_principal {
            withdrawable_principal = principal_balance;
        }
        share_info.withdrawn_principal = share_info.withdrawn_principal + withdrawable_principal;
        proof {
            if self.funds_balanced() {
                self.lemma_set_share_funds(share_id, share_info, self.held_funds - withdrawable_principal);
            }
        }
        self.share_infos.insert(share_id, share_info);
        shareholder_info.withdrawn_principal = shareholder_info.withdrawn_principal + withdrawable_principal;
        self.shareholder_infos.insert(key, shareholder_info);
        self.held_funds = self.held_funds - withdrawable_principal;
        let messages = self.get_univeral_token().send_token(&info.sender, withdrawable_principal);
        Ok(WithdrawOutcome { amount: withdrawable_principal, messages })
    }

    /// An admin collecting the tokens of `token` this contract holds beyond
    /// the funds it keeps for shareholders. `token_check` is the outcome of
    /// validating a CW20 address, `balance` that of querying this contract's
    /// balance of `token`.
    pub fn execute_collect(
        &self,
        info: &MessageInfo,
        is_native_token: bool,
        token: String,
        token_check: Result<(), StdError>,
        balance: Result<u128, StdError>,
    ) -> (r: Result<WithdrawOutcome, ContractError>)
        requires
            self.inv(),
        ensures
            if !self.has_role(DEFAULT_ADMIN_ROLE@, info.sender@) {
                r matches Err(e) && is_unauthorized(e, info.sender@, DEFAULT_ADMIN_ROLE@)
            } else if !is_native_token && token_check is Err {
                r == Err::<WithdrawOutcome, ContractError>(ContractError::Std(token_check->Err_0))
            } else {
                let new_token = TokenConfig { is_native: is_native_token, token };
                let held = if new_token.same_as(self.token_config) {
                    self.held_funds as int
                } else {
                    0
                };
                if balance is Err {
                    r == Err::<WithdrawOutcome, ContractError>(
                        ContractError::UniversalTokenError(
                            crate::universal_token::UniversalTokenError::Std(balance->Err_0),
                        ),
                    )
                } else if balance->Ok_0 <= held {
                    r matches Err(ContractError::NoExcessTokens)
                } else {
                    r matches Ok(out) && out.amount == balance->Ok_0 - held && out.messages@ == seq![
                        send_msg_spec(new_token, info.sender, out.amount),
                    ]
                }
            },
    {
        self.only_admin(&info.sender)?;
        if !is_native_token {
            match token_check {
                Ok(()) => {},
                Err(e) => return Err(ContractError::Std(e)),
            }
        }
        let new_token = TokenConfig { is_native: is_native_token, token };
        let held_token: u128 = if self.token_config.equals(&new_token) {
            self.held_funds
        } else {
            0
        };
        let universal_token = UniversalToken::new(new_token);
        let balance = match balance {
            Ok(b) => b,
            Err(e) => return Err(
                ContractError::UniversalTokenError(crate::universal_token::UniversalTokenError::Std(e)),
            ),
        };
        if !(balance > held_token) {
            return Err(ContractError::NoExcessTokens);
        }
        let extra_token = balance - held_token;
        let messages = universal_token.send_token(&info.sender, extra_token);
        Ok(WithdrawOutcome { amount: extra_token, messages })
    }

    /// Asking the stake core to pay out the unlocked rewards of stake
    /// `share_id`; the share id is kept for the reply.
    pub fn execute_claim_stake_rewards(&mut self, share_id: u32) -> (r: Result<StakecoreCall, ContractError>)
        requires
            old(self).inv(),
            old(self).share_infos@.contains_key(share_id) ==> old(self).config.stakecore is Some,
        ensures
            final(self).inv(),
            old(self).funds_balanced() ==> final(self).funds_balanced(),
            !old(self).share_infos@.contains_key(share_id) ==> (r matches Err(ContractError::InvalidShareId)
                && *final(self) == *old(self)),
            old(self).share_infos@.contains_key(share_id) ==> {
                &&& r matches Ok(call) && call.contract == old(self).config.stakecore->0 && call.reply_id
                    == EXECUTE_CLAIM_STAKE_REWARDS__WITHDRAW_REWARDS && call.msg == (StakecoreMsg::WithdrawRewards {
                    index: share_id,
                })
                &&& final(self).pending_submsg_payload matches Some(p) && p@ == crate::json::decimal_digits(share_id as nat)
                    && crate::json::json_u32_value(p@) == Some(share_id)
                &&& final(self).share_infos == old(self).share_infos
                &&& final(self).shareholder_infos == old(self).shareholder_infos
                &&& final(self).held_funds == old(self).held_funds
                &&& final(self).config == old(self).config
                &&& final(self).token_config == old(self).token_config
                &&& final(self).share_info_indexes == old(self).share_info_indexes
                &&& final(self).access_control == old(self).access_control
            },
    {
        if !self.share_infos.contains_key(&share_id) {
            return Err(ContractError::InvalidShareId);
        }
        let contract = self.config.stakecore.as_ref().unwrap().clone();
        self.pending_submsg_payload = Some(crate::json::to_json_vec_u32(share_id));
        Ok(StakecoreCall {
            contract,
            msg: StakecoreMsg::WithdrawRewards { index: share_id },
            reply_id: EXECUTE_CLAIM_STAKE_REWARDS__WITHDRAW_REWARDS,
        })
    }

    /// Asking the stake core to pay out the unlocked rewards of every
    /// registered stake; their ids are kept for the reply.
    pub fn execute_claim_stake_rewards_batch(&mut self) -> (r: StakecoreCall)
        requires
            old(self).inv(),
            old(self).config.stakecore is Some,
        ensures
            final(self).inv(),
            old(self).funds_balanced() ==> final(self).funds_balanced(),
            r.contract == old(self).config.stakecore->0,
            r.reply_id == EXECUTE_CLAIM_STAKE_REWARDS_BATCH__WITHDRAW_REWARDS_BATCH,
            r.msg matches StakecoreMsg::WithdrawRewardsBatch { indexes } && indexes@ == old(self).share_info_indexes@,
            final(self).pending_submsg_payload matches Some(p) && p@ == crate::json::json_u32_list(
                old(self).share_info_indexes@,
            ) && crate::json::json_u32_list_value(p@) == Some(old(self).share_info_indexes@),
            final(self).share_infos == old(self).share_infos,
            final(self).shareholder_infos == old(self).shareholder_infos,
            final(self).held_funds == old(self).held_funds,
            final(self).config == old(self).config,
            final(self).token_config == old(self).token_config,
            final(self).share_info_indexes == old(self).share_info_indexes,
            final(self).access_control == old(self).access_control,
    {
        let indexes = self.share_info_indexes.clone();
        let contract = self.config.stakecore.as_ref().unwrap().clone();
        self.pending_submsg_payload = Some(crate::json::to_json_vec_u32_list(&indexes));
        StakecoreCall {
            contract,
            msg: StakecoreMsg::WithdrawRewardsBatch { indexes },
            reply_id: EXECUTE_CLAIM_STAKE_REWARDS_BATCH__WITHDRAW_REWARDS_BATCH,
        }
    }

    /// Asking the stake core to pay out the unlocked principal of stake
    /// `share_id`; the share id is kept for the reply.
    pub fn execute_claim_stake_principal(&mut self, share_id: u32) -> (r: Result<StakecoreCall, ContractError>)
        requires
            old(self).inv(),
            old(self).share_infos@.contains_key(share_id) ==> old(self).config.stakecore is Some,
        ensures
            final(self).inv(),
            old(self).funds_balanced() ==> final(self).funds_balanced(),
            !old(self).share_infos@.contains_key(share_id) ==> (r matches Err(ContractError::InvalidShareId)
                && *final(self) == *old(self)),
            old(self).share_infos@.contains_key(share_id) ==> {
                &&& r matches Ok(call) && call.contract == old(self).config.stakecore->0 && call.reply_id
                    == EXECUTE_CLAIM_STAKE_PRINCIPAL__WITHDRAW_PRINCIPAL && call.msg == (
                StakecoreMsg::WithdrawPrincipal { index: share_id })
                &&& final(self).pending_submsg_payload matches Some(p) && p@ == crate::json::decimal_digits(share_id as nat)
                    && crate::json::json_u32_value(p@) == Some(share_id)
                &&& final(self).share_infos == old(self).share_infos
                &&& final(self).shareholder_infos == old(self).shareholder_infos
                &&& final(self).held_funds == old(self).held_funds
                &&& final(self).config == old(self).config
                &&& final(self).token_config == old(self).token_config
                &&& final(self).share_info_indexes == old(self).share_info_indexes
                &&& final(self).access_control == old(self).access_control
            },
    {
        if !self.share_infos.contains_key(&share_id) {
            return Err(ContractError::InvalidShareId);
        }
        let contract = self.config.stakecore.as_ref().unwrap().clone();
        self.pending_submsg_payload = Some(crate::json::to_json_vec_u32(share_id));
        Ok(StakecoreCall {
            contract,
            msg: StakecoreMsg::WithdrawPrincipal { index: share_id },
            reply_id: EXECUTE_CLAIM_STAKE_PRINCIPAL__WITHDRAW_PRINCIPAL,
        })
    }

    /// The stake core indexes to register as shares next, given all the
    /// indexes of this contract's stakes there.
    pub fn register_plan(&self, share_ids: &Vec<u32>) -> (r: Vec<u32>)
        ensures
            r@ == register_plan_spec(self.share_info_indexes@.len() as int, share_ids@),
            r@.len() == if share_ids@.len() <= self.share_info_indexes@.len() {
                0
            } else if share_ids@.len() - self.share_info_indexes@.len() > 8 {
                8
            } else {
                share_ids@.len() - self.share_info_indexes@.len()
            },
            forall|i: int| 0 <= i < r@.len() ==> r@[i] == share_ids@[self.share_info_indexes@.len() + i],
    {
        let cur = self.share_info_indexes.len();
        let total = share_ids.len();
        let mut out: Vec<u32> = Vec::new();
        if cur >= total {
            return out;
        }
        let n = if total - cur > 8 {
            8
        } else {
            total - cur
        };
        let mut i: usize = 0;
        while i < n
            invariant
                cur < total == share_ids@.len(),
                n <= total - cur,
                i <= n,
                out@ == share_ids@.subrange(cur as int, cur + i),
            decreases n - i,
        {
            out.push(share_ids[cur + i]);
            assert(out@ =~= share_ids@.subrange(cur as int, cur + i + 1));
            i += 1;
        }
        out
    }

    /// Registering a share for each of `stakes` (a stake core index with the
    /// stake found there), under the stake core's configuration.
    pub fn execute_register_new_share(
        &mut self,
        stakecore_config: &crate::stakecore::types::Config,
        stakes: &Vec<(u32, crate::stakecore::types::StakeInfo)>,
    )
        requires
            old(self).inv(),
            forall|i: int|
                0 <= i < stakes@.len() ==> (#[trigger] stakes@[i]).1.start_time + stakecore_config.cliff_period
                    <= u64::MAX && stakes@[i].1.start_time + stakecore_config.lock_period <= u64::MAX,
        ensures
            final(self).inv(),
            old(self).funds_balanced() && (forall|i: int|
                0 <= i < stakes@.len() && old(self).share_infos@.contains_key(#[trigger] stakes@[i].0) ==> share_funds(
                    old(self).share_infos@[stakes@[i].0],
                ) == 0) ==> final(self).funds_balanced(),
            final(self).share_infos@ == register_spec(old(self).share_infos@, *stakecore_config, stakes@),
            final(self).share_info_indexes@ == old(self).share_info_indexes@ + stakes@.map_values(
                |p: (u32, crate::stakecore::types::StakeInfo)| p.0,
            ),
            final(self).shareholder_infos == old(self).shareholder_infos,
            final(self).held_funds == old(self).held_funds,
            final(self).config == old(self).config,
            final(self).token_config == old(self).token_config,
            final(self).pending_submsg_payload == old(self).pending_submsg_payload,
            final(self).access_control == old(self).access_control,
    {
        let ghost ids = stakes@.map_values(|p: (u32, crate::stakecore::types::StakeInfo)| p.0);
        let mut i: usize = 0;
        while i < stakes.len()
            invariant
                self.inv(),
                i <= stakes@.len(),
                ids == stakes@.map_values(|p: (u32, crate::stakecore::types::StakeInfo)| p.0),
                forall|j: int|
                    0 <= j < stakes@.len() ==> (#[trigger] stakes@[j]).1.start_time + stakecore_config.cliff_period
                        <= u64::MAX && stakes@[j].1.start_time + stakecore_config.lock_period <= u64::MAX,
                self.share_infos@ == register_spec(old(self).share_infos@, *stakecore_config, stakes@.take(i as int)),
                forall|j: int|
                    0 <= j < stakes@.len() && self.share_infos@.contains_key(#[trigger] stakes@[j].0) ==> share_funds(
                        self.share_infos@[stakes@[j].0],
                    ) == 0 || (old(self).share_infos@.contains_key(stakes@[j].0) && self.share_infos@[stakes@[j].0]
                        == old(self).share_infos@[stakes@[j].0]),
                old(self).funds_balanced() && (forall|j: int|
                    0 <= j < stakes@.len() && old(self).share_infos@.contains_key(#[trigger] stakes@[j].0)
                        ==> share_funds(old(self).share_infos@[stakes@[j].0]) == 0) ==> self.funds_balanced(),
                self.share_info_indexes@ == old(self).share_info_indexes@ + ids.take(i as int),
                self.shareholder_infos == old(self).shareholder_infos,
                self.held_funds == old(self).held_funds,
                self.config == old(self).config,
                self.token_config == old(self).token_config,
                self.pending_submsg_payload == old(self).pending_submsg_payload,
                self.access_control == old(self).access_control,
            decreases stakes@.len() - i,
        {
            let share_id = stakes[i].0;
            let stake = &stakes[i].1;
            let start_time = stake.start_time + stakecore_config.cliff_period;
            let share_info = ShareInfo {
                start_time,
                recycled_time: start_time,
                end_time: stake.start_time + stakecore_config.lock_period,
                total_rewards: stake.total_rewards,
                claimed_rewards: 0,
                withdrawn_rewards: 0,
                granted_rewards: 0,
                total_recycled_rewards: 0,
                withdrawn_recycled_rewards: 0,
                total_principal: stake.total_principal,
                claimed_principal: 0,
                withdrawn_principal: 0,
                granted_principal: 0,
            };
            proof {
                self.share_infos.lemma_finite();
                lemma_total_funds_insert(self.share_infos@, share_id, share_info);
                assert(self.share_infos@.contains_key(stakes@[i as int].0) ==> share_funds(
                    self.share_infos@[stakes@[i as int].0],
                ) == 0 || (old(self).share_infos@.contains_key(stakes@[i as int].0) && self.share_infos@[stakes@[i as int].0]
                    == old(self).share_infos@[stakes@[i as int].0]));
            }
            self.share_infos.insert(share_id, share_info);
            self.share_info_indexes.push(share_id);
            proof {
                assert(stakes@.take(i as int + 1).drop_last() =~= stakes@.take(i as int));
                assert(ids.take(i as int + 1) =~= ids.take(i as int).push(share_id));
            }
            i += 1;
        }
        assert(stakes@.take(stakes@.len() as int) =~= stakes@);
        assert(ids.take(stakes@.len() as int) =~= ids);
    }

    /// The share `id`, or a not-found error.
    fn load_share(&self, id: u32) -> (r: Result<ShareInfo, ContractError>)
        requires
            self.share_infos.wf(),
        ensures
            r is Ok <==> self.share_infos@.contains_key(id),
            r matches Ok(s) ==> s == self.share_infos@[id],
            r matches Err(e) ==> is_not_found(e, share_kind()),
    {
        match self.share_infos.get(&id) {
            Some(s) => Ok(*s),
            None => Err(ContractError::Std(StdError::NotFound { kind: String::from_str("sharecore::types::ShareInfo") })),
        }
    }
}

} // verus!
