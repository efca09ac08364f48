//! Errors of the share core.

use crate::access_control::AccessControlError;
use crate::errors::StdError;
use crate::universal_token::UniversalTokenError;
use vstd::prelude::*;

verus! {

/// Why a share core operation was refused.
#[derive(Debug)]
pub enum ContractError {
    Std(StdError),
    UniversalTokenError(UniversalTokenError),
    InvalidParamter { key: String },
    Unauthorized,
    AmountExceedsWithdrawable,
    AmountExceedsBalance,
    InsufficientReward,
    InsufficientPrincipal,
    HolderAlreadyRegistered,
    StakecoreAlreadyInitialized,
    InvalidShareId,
    InnerError { msg: String },
    UnknownReplyId { id: u64 },
    SubMsgFailed { msg: String },
    NoExcessTokens,
    AccessControl(AccessControlError),
}

} // verus!
