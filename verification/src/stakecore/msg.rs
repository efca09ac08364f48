//! The queries a stake core answers, and the answers.

use crate::errors::StdError;
use crate::stakecore::contract::StakeCore;
use crate::stakecore::types::{AssetInfo, Config, StakeInfo};
use crate::universal_token::TokenConfig;
use vstd::prelude::*;

verus! {

/// A question put to a stake core.
#[derive(Debug)]
pub enum QueryMsg {
    Config,
    AssetInfo,
    StakeInfo { index: u32 },
    StakerIndexes { account: String },
    Token,
    HaveRole { role: String, account: String },
}

/// The indexes of one account's stakes.
#[derive(Debug)]
pub struct StakerIndexesResponse {
    pub indexes: Vec<u32>,
}

/// The answer to a [`QueryMsg`], one variant per question.
#[derive(Debug)]
pub enum QueryResponse {
    Config(Config),
    AssetInfo(AssetInfo),
    StakeInfo(StakeInfo),
    StakerIndexes(StakerIndexesResponse),
    Token(TokenConfig),
    HaveRole(bool),
}

/// What answering `msg` gives on state `sc`, where `account` is the outcome
/// of validating the address that the message names (ignored by questions
/// that name none).
pub open spec fn query_spec(sc: StakeCore, msg: QueryMsg, account: Result<String, StdError>) -> Result<
    QueryResponse,
    StdError,
> {
    match msg {
        QueryMsg::Config => Ok(QueryResponse::Config(sc.config)),
        QueryMsg::AssetInfo => Ok(QueryResponse::AssetInfo(sc.asset_info)),
        QueryMsg::StakeInfo { index } => if index < sc.stake_records@.len() {
            Ok(QueryResponse::StakeInfo(sc.stake_records@[index as int]))
        } else {
            Err(StdError::OutOfBounds { key: index })
        },
        QueryMsg::StakerIndexes { .. } => match account {
            Err(e) => Err(e),
            Ok(a) => if sc.staker_indexes@.contains_key(a@) {
                Ok(QueryResponse::StakerIndexes(StakerIndexesResponse { indexes: sc.staker_indexes@[a@] }))
            } else {
                Err(StdError::NotFound { kind: choose|k: String| #[trigger] k@ == "alloc::vec::Vec<u32>"@ })
            },
        },
        QueryMsg::Token => Ok(QueryResponse::Token(sc.token_config)),
        QueryMsg::HaveRole { role, .. } => match account {
            Err(e) => Err(e),
            Ok(a) => Ok(QueryResponse::HaveRole(sc.has_role(role@, a@))),
        },
    }
}

/// The answer `a` is the expected answer `b`: strings and lists are
/// compared by their contents.
pub open spec fn same_answer(a: Result<QueryResponse, StdError>, b: Result<QueryResponse, StdError>) -> bool {
    match (a, b) {
        (Err(StdError::NotFound { kind: k1 }), Err(StdError::NotFound { kind: k2 })) => k1@ == k2@,
        (Ok(QueryResponse::StakerIndexes(x)), Ok(QueryResponse::StakerIndexes(y))) => x.indexes@ == y.indexes@,
        _ => a == b,
    }
}

impl StakeCore {
    /// Answers `msg`. `account` is the outcome of validating the address
    /// that the message names; questions that name none ignore it.
    pub fn query(&self, msg: &QueryMsg, account: Result<String, StdError>) -> (r: Result<QueryResponse, StdError>)
        requires
            self.stake_records.wf(),
            self.staker_indexes.wf(),
            self.access_control.wf(),
        ensures
            same_answer(r, query_spec(*self, *msg, account)),
    {
        match msg {
            QueryMsg::Config => Ok(QueryResponse::Config(self.config)),
            QueryMsg::AssetInfo => Ok(QueryResponse::AssetInfo(self.asset_info)),
            QueryMsg::StakeInfo { index } => match self.query_stake_info(*index) {
                Ok(s) => Ok(QueryResponse::StakeInfo(s.clone())),
                Err(e) => Err(e),
            },
            QueryMsg::StakerIndexes { .. } => match self.query_staker_indexes(account) {
                Ok(v) => Ok(QueryResponse::StakerIndexes(StakerIndexesResponse { indexes: v.clone() })),
                Err(e) => Err(e),
            },
            QueryMsg::Token => Ok(QueryResponse::Token(self.token_config.clone())),
            QueryMsg::HaveRole { role, .. } => match self.query_have_role(role, account) {
                Ok(b) => Ok(QueryResponse::HaveRole(b)),
                Err(e) => Err(e),
            },
        }
    }
}

} // verus!
