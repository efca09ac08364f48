//! The share core: divides the principal and rewards of stakes among
//! shareholders, recycling rewards that were not granted in time.

pub mod checks;
pub mod contract;
pub mod error;
pub mod msg;
pub mod replay;
pub mod types;
