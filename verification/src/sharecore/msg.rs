//! The queries a share core answers, and the answers.

use crate::errors::StdError;
use crate::sharecore::contract::{share_kind, shareholder_kind, ShareCore};
use crate::sharecore::types::{Config, ShareInfo, ShareholderInfo};
use crate::universal_token::TokenConfig;
use crate::key_order::{has_holder_key, holder_keys_sorted};
use vstd::prelude::*;

verus! {

/// A question put to a share core.
#[derive(Debug)]
pub enum QueryMsg {
    Config,
    ShareInfo { share_id: u32 },
    Shareholder { share_id: u32, addr: String },
    ShareInfos,
    Shareholders,
    Token,
    HaveRole { role: String, account: String },
    HeldFunds,
}

/// The ids of all shares, in increasing order.
#[derive(Debug)]
pub struct ShareInfosResponse {
    pub share_ids: Vec<u32>,
}

/// Every (shareholder, share id) pair that has a record.
#[derive(Debug)]
pub struct HoldersResponse {
    pub shareholders: Vec<(String, u32)>,
}

/// The answer to a [`QueryMsg`], one variant per question.
#[derive(Debug)]
pub enum QueryResponse {
    Config(Config),
    ShareInfo(ShareInfo),
    Shareholder(ShareholderInfo),
    ShareInfos(ShareInfosResponse),
    Shareholders(HoldersResponse),
    Token(TokenConfig),
    HaveRole(bool),
    HeldFunds(u128),
}

/// `ids` lists the keys of `m` in increasing order.
pub open spec fn lists_keys_in_order(ids: Seq<u32>, m: Map<u32, ShareInfo>) -> bool {
    &&& forall|i: int, j: int| 0 <= i < j < ids.len() ==> ids[i] < ids[j]
    &&& forall|k: u32| ids.contains(k) <==> m.contains_key(k)
}

/// `pairs` lists each key of the shareholder records `m` once, in the order
/// contract storage lists them.
pub open spec fn lists_holders(pairs: Seq<(String, u32)>, m: Map<(Seq<char>, u32), ShareholderInfo>) -> bool {
    &&& holder_keys_sorted(pairs)
    &&& forall|k: (Seq<char>, u32)| #[trigger] has_holder_key(pairs, k) <==> m.contains_key(k)
}

/// `r` is what answering `msg` gives on state `sc`, where `account` is the
/// outcome of validating the address that the message names (ignored by
/// questions that name none).
pub open spec fn query_answers(sc: ShareCore, msg: QueryMsg, account: Result<String, StdError>, r: Result<
    QueryResponse,
    StdError,
>) -> bool {
    match msg {
        QueryMsg::Config => r == Ok::<QueryResponse, StdError>(QueryResponse::Config(sc.config)),
        QueryMsg::ShareInfo { share_id } => if sc.share_infos@.contains_key(share_id) {
            r == Ok::<QueryResponse, StdError>(QueryResponse::ShareInfo(sc.share_infos@[share_id]))
        } else {
            r matches Err(StdError::NotFound { kind }) && kind@ == share_kind()
        },
        QueryMsg::Shareholder { share_id, .. } => match account {
            Err(e) => r == Err::<QueryResponse, StdError>(e),
            Ok(a) => if sc.shareholder_infos@.contains_key((a@, share_id)) {
                r == Ok::<QueryResponse, StdError>(QueryResponse::Shareholder(sc.shareholder_infos@[(a@, share_id)]))
            } else {
                r matches Err(StdError::NotFound { kind }) && kind@ == shareholder_kind()
            },
        },
        QueryMsg::ShareInfos => r matches Ok(QueryResponse::ShareInfos(resp)) && lists_keys_in_order(
            resp.share_ids@,
            sc.share_infos@,
        ),
        QueryMsg::Shareholders => r matches Ok(QueryResponse::Shareholders(resp)) && lists_holders(
            resp.shareholders@,
            sc.shareholder_infos@,
        ),
        QueryMsg::Token => r == Ok::<QueryResponse, StdError>(QueryResponse::Token(sc.token_config)),
        QueryMsg::HaveRole { role, .. } => match account {
            Err(e) => r == Err::<QueryResponse, StdError>(e),
            Ok(a) => r == Ok::<QueryResponse, StdError>(QueryResponse::HaveRole(sc.has_role(role@, a@))),
        },
        QueryMsg::HeldFunds => r == Ok::<QueryResponse, StdError>(QueryResponse::HeldFunds(sc.held_funds)),
    }
}

impl ShareCore {
    /// The ids of all shares, in increasing order.
    pub fn query_share_infos(&self) -> (r: ShareInfosResponse)
        requires
            self.share_infos.wf(),
        ensures
            lists_keys_in_order(r.share_ids@, self.share_infos@),
    {
        ShareInfosResponse { share_ids: self.share_infos.sorted_keys() }
    }

    /// Every (shareholder, share id) pair with a record, in the order
    /// contract storage lists them.
    pub fn query_shareholders(&self) -> (r: HoldersResponse)
        requires
            self.shareholder_infos.wf(),
        ensures
            lists_holders(r.shareholders@, self.shareholder_infos@),
    {
        HoldersResponse { shareholders: self.shareholder_infos.sorted_holder_keys() }
    }

    /// The record of `addr` (the validated address) in share `share_id`.
    pub fn query_shareholder(&self, share_id: u32, addr: Result<String, StdError>) -> (r: Result<
        ShareholderInfo,
        StdError,
    >)
        requires
            self.shareholder_infos.wf(),
        ensures
            addr is Err ==> r == Err::<ShareholderInfo, StdError>(addr->Err_0),
            addr is Ok ==> (r is Ok <==> self.shareholder_infos@.contains_key((addr->Ok_0@, share_id))),
            addr is Ok && r is Ok ==> r->Ok_0 == self.shareholder_infos@[(addr->Ok_0@, share_id)],
            addr is Ok && r is Err ==> (r->Err_0 matches StdError::NotFound { kind } && kind@ == shareholder_kind()),
    {
        let addr = match addr {
            Ok(a) => a,
            Err(e) => return Err(e),
        };
        match self.shareholder_infos.get(&(addr, share_id)) {
            Some(h) => Ok(*h),
            None => Err(StdError::NotFound { kind: String::from_str("sharecore::types::ShareholderInfo") }),
        }
    }

    /// Answers `msg`. `account` is the outcome of validating the address
    /// that the message names; questions that name none ignore it.
    pub fn query(&self, msg: &QueryMsg, account: Result<String, StdError>) -> (r: Result<QueryResponse, StdError>)
        requires
            self.share_infos.wf(),
            self.shareholder_infos.wf(),
            self.access_control.wf(),
        ensures
            query_answers(*self, *msg, account, r),
    {
        match msg {
            QueryMsg::Config => Ok(QueryResponse::Config(self.config.clone())),
            QueryMsg::ShareInfo { share_id } => match self.share_infos.get(share_id) {
                Some(s) => Ok(QueryResponse::ShareInfo(*s)),
                None => Err(StdError::NotFound { kind: String::from_str("sharecore::types::ShareInfo") }),
            },
            QueryMsg::Shareholder { share_id, .. } => match self.query_shareholder(*share_id, account) {
                Ok(h) => Ok(QueryResponse::Shareholder(h)),
                Err(e) => Err(e),
            },
            QueryMsg::ShareInfos => Ok(QueryResponse::ShareInfos(self.query_share_infos())),
            QueryMsg::Shareholders => Ok(QueryResponse::Shareholders(self.query_shareholders())),
            QueryMsg::Token => Ok(QueryResponse::Token(self.token_config.clone())),
            QueryMsg::HaveRole { role, .. } => match account {
                Ok(a) => Ok(QueryResponse::HaveRole(self.access_control.has_role(role, &a))),
                Err(e) => Err(e),
            },
            QueryMsg::HeldFunds => Ok(QueryResponse::HeldFunds(self.held_funds)),
        }
    }
}

} // verus!
