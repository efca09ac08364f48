//! The context a contract operation runs in.

use crate::universal_token::Coin;
use vstd::prelude::*;

verus! {

/// The block time and this contract's address.
#[derive(Debug)]
pub struct Env {
    /// Block time, in seconds.
    pub time: u64,
    pub contract_address: String,
}

/// Who sent the message, and the coins sent along.
#[derive(Debug)]
pub struct MessageInfo {
    pub sender: String,
    pub funds: Vec<Coin>,
}

} // verus!
