//! The holder model of a share: holders are granted parts of a stake's reward
//! and principal, and receive them in proportion to what has been claimed.

use crate::math::{mul_div, mul_div_spec};
use crate::ownership::Ownership;
use vstd::prelude::*;

verus! {

/// Parameters of a holder registry.
#[derive(Debug)]
pub struct Config {
    pub stake_core: Option<String>,
    pub token: Option<String>,
    pub admin: Ownership,
}

impl Clone for Config {
    fn clone(&self) -> (r: Self)
        ensures
            r == *self,
    {
        Config {
            stake_core: match &self.stake_core {
                Some(s) => Some(s.clone()),
                None => None,
            },
            token: match &self.token {
                Some(t) => Some(t.clone()),
                None => None,
            },
            admin: self.admin.clone(),
        }
    }
}

/// One share. Invariants: `granted_reward <= total_reward`,
/// `granted_principal <= principal`.
#[derive(Clone, Copy, Debug, PartialEq, Eq, Structural)]
pub struct ShareInfo {
    pub total_reward: u128,
    pub claimed_reward: u128,
    pub granted_reward: u128,
    pub principal: u128,
    pub claimed_principal: u128,
    pub granted_principal: u128,
}

/// A holder's part in one share.
#[derive(Clone, Copy, Debug, PartialEq, Eq, Structural)]
pub struct HolderInfo {
    pub granted_reward: u128,
    pub claimed_reward: u128,
    pub granted_principal: u128,
    pub claimed_principal: u128,
}

impl ShareInfo {
    /// The well-formedness that the comment on the type states.
    pub open spec fn wf(self) -> bool {
        self.granted_reward <= self.total_reward && self.granted_principal <= self.principal
    }

    /// Whether the share has granted no more than it holds, for a share read
    /// back from storage.
    pub fn check_grants(&self) -> (r: bool)
        ensures
            r == self.wf(),
    {
        self.granted_reward <= self.total_reward && self.granted_principal <= self.principal
    }

    /// A holder's part of the claimed reward, for `granted_reward` granted.
    pub open spec fn holder_reward_spec(self, granted_reward: u128) -> int {
        if granted_reward == 0 || self.total_reward == 0 {
            0
        } else {
            mul_div_spec(granted_reward as int, self.claimed_reward as int, self.total_reward as int)
        }
    }

    /// A holder's part of the claimed principal, for `granted_principal` granted.
    pub open spec fn holder_principal_spec(self, granted_principal: u128) -> int {
        if granted_principal == 0 || self.principal == 0 {
            0
        } else {
            mul_div_spec(granted_principal as int, self.claimed_principal as int, self.principal as int)
        }
    }

    /// A holder's part of the claimed reward.
    pub fn calc_holder_reward(&self, granted_reward: u128) -> (r: u128)
        requires
            self.holder_reward_spec(granted_reward) <= u128::MAX,
        ensures
            r == self.holder_reward_spec(granted_reward),
    {
        if granted_reward == 0 || self.total_reward == 0 {
            return 0;
        }
        mul_div(granted_reward, self.claimed_reward, self.total_reward).unwrap()
    }

    /// A holder's part of the claimed principal.
    pub fn calc_holder_principal(&self, granted_principal: u128) -> (r: u128)
        requires
            self.holder_principal_spec(granted_principal) <= u128::MAX,
        ensures
            r == self.holder_principal_spec(granted_principal),
    {
        if granted_principal == 0 || self.principal == 0 {
            return 0;
        }
        mul_div(granted_principal, self.claimed_principal, self.principal).unwrap()
    }
}

/// A holder's part never exceeds its grant while the share has claimed no
/// more than its total.
pub proof fn lemma_holder_part_within_grant(s: ShareInfo, granted_reward: u128, granted_principal: u128)
    requires
        s.claimed_reward <= s.total_reward,
        s.claimed_principal <= s.principal,
    ensures
        0 <= s.holder_reward_spec(granted_reward) <= granted_reward,
        0 <= s.holder_principal_spec(granted_principal) <= granted_principal,
{
    if granted_reward != 0 && s.total_reward != 0 {
        crate::sharecore::types::lemma_proportion_bounded(
            granted_reward as int,
            s.claimed_reward as int,
            s.total_reward as int,
        );
    }
    if granted_principal != 0 && s.principal != 0 {
        crate::sharecore::types::lemma_proportion_bounded(
            granted_principal as int,
            s.claimed_principal as int,
            s.principal as int,
        );
    }
}

} // verus!
