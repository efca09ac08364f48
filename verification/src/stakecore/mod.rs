//! The stake core: stakes against a provider's security deposit, and the
//! installment schedule by which principal and rewards unlock.

pub mod contract;
pub mod error;
pub mod msg;
pub mod types;
