//! Errors of the stake core.

use crate::access_control::AccessControlError;
use crate::errors::StdError;
use crate::universal_token::UniversalTokenError;
use vstd::prelude::*;

verus! {

/// Why a stake core operation was refused.
#[derive(Debug)]
pub enum ContractError {
    Std(StdError),
    Forbidden,
    Unauthorized,
    InsufficientFunds,
    InsufficientStakeAmount,
    LockPeriodNotEnded,
    AlreadyUnstaked,
    InvalidInput,
    UniversalTokenError(UniversalTokenError),
    NoExcessTokens,
    AccessControl(AccessControlError),
}

} // verus!
