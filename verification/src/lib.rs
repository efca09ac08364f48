//! Verified core of the UniPoS staking protocol: the arithmetic of security
//! deposits, installment vesting and share accounting, the role registry,
//! the storage vector, the token-movement rules, and the state transitions
//! of the stake core and share core contracts.

pub mod access_control;
pub mod assoc_map;
pub mod collateral;
pub mod collateral_pool;
pub mod env;
pub mod errors;
pub mod holder;
pub mod holder_pool;
pub mod json;
pub mod key_order;
pub mod math;
pub mod ownership;
pub mod sharecore;
pub mod stakecore;
pub mod universal_token;
pub mod vector;
pub mod vesting;
