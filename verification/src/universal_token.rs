//! A token that is either a native denomination or a CW20 contract, and the
//! rules for paying it out and taking it in.

use crate::errors::StdError;
use vstd::prelude::*;

verus! {

/// Which token: a native denomination (`is_native`) or a CW20 contract address.
#[derive(Debug)]
pub struct TokenConfig {
    pub is_native: bool,
    pub token: String,
}

impl Clone for TokenConfig {
    fn clone(&self) -> (r: Self)
        ensures
            r == *self,
    {
        TokenConfig { is_native: self.is_native, token: self.token.clone() }
    }
}

impl TokenConfig {
    /// The two configurations name the same token.
    pub open spec fn same_as(self, other: TokenConfig) -> bool {
        self.is_native == other.is_native && self.token@ == other.token@
    }

    /// Whether `other` names the same token.
    pub fn equals(&self, other: &TokenConfig) -> (r: bool)
        ensures
            r == self.same_as(*other),
    {
        self.is_native == other.is_native && self.token == other.token
    }
}

/// A token handle built from its configuration.
#[derive(Debug)]
pub struct UniversalToken {
    pub config: TokenConfig,
}

/// An amount of a native denomination sent along with a message.
#[derive(Debug)]
pub struct Coin {
    pub denom: String,
    pub amount: u128,
}

/// What the CW20 contract answered about the allowance from the sender to this contract.
#[derive(Debug, Clone, Copy)]
pub struct Allowance {
    pub allowance: u128,
    pub expired: bool,
}

/// A token movement for the chain to carry out.
#[derive(Debug)]
pub enum TokenMsg {
    /// Send native coins.
    BankSend { to_address: String, denom: String, amount: u128 },
    /// Transfer CW20 tokens held by this contract.
    Cw20Transfer { contract: String, recipient: String, amount: u128 },
    /// Pull CW20 tokens from `owner` under its allowance.
    Cw20TransferFrom { contract: String, owner: String, recipient: String, amount: u128 },
}

/// When an allowance lapses: at a block height, at a block time (in
/// nanoseconds), or never.
#[derive(Debug, Clone, Copy, PartialEq, Eq, Structural)]
pub enum Expiration {
    AtHeight(u64),
    AtTime(u64),
    Never,
}

/// Whether `e` has lapsed in the block at `height` and `time`: once the block
/// reaches the height or the time, and never for `Never`.
pub open spec fn is_expired_spec(e: Expiration, height: u64, time: u64) -> bool {
    match e {
        Expiration::AtHeight(h) => height >= h,
        Expiration::AtTime(t) => time >= t,
        Expiration::Never => false,
    }
}

impl Expiration {
    /// Whether this has lapsed in the block at `height` and `time` (nanoseconds).
    pub fn is_expired(&self, height: u64, time: u64) -> (r: bool)
        ensures
            r == is_expired_spec(*self, height, time),
    {
        match self {
            Expiration::AtHeight(h) => height >= *h,
            Expiration::AtTime(t) => time >= *t,
            Expiration::Never => false,
        }
    }
}

/// Why a token movement was refused.
#[derive(Debug)]
pub enum UniversalTokenError {
    Std(StdError),
    IllegalMsgFunds,
    WrongDenom { expect: String, got: String },
    WrongAmount { expect: u128, got: u128 },
}

/// The message that pays `amount` of the token to `account`.
pub open spec fn send_msg_spec(c: TokenConfig, account: String, amount: u128) -> TokenMsg {
    if c.is_native {
        TokenMsg::BankSend { to_address: account, denom: c.token, amount }
    } else {
        TokenMsg::Cw20Transfer { contract: c.token, recipient: account, amount }
    }
}

/// Taking in `amount` from `owner`: native coins must come as exactly one coin
/// of the right denomination and amount; CW20 tokens must come with no coins,
/// under an unexpired allowance of at least `amount`, and are then pulled in.
pub open spec fn receive_spec(
    c: TokenConfig,
    funds: Seq<Coin>,
    owner: String,
    spender: String,
    allowance: Option<Result<Allowance, StdError>>,
    amount: u128,
) -> Result<Seq<TokenMsg>, UniversalTokenError> {
    if c.is_native {
        if funds.len() != 1 {
            Err(UniversalTokenError::IllegalMsgFunds)
        } else if funds[0].denom@ != c.token@ {
            Err(UniversalTokenError::WrongDenom { expect: c.token, got: funds[0].denom })
        } else if funds[0].amount != amount {
            Err(UniversalTokenError::WrongAmount { expect: amount, got: funds[0].amount })
        } else {
            Ok(Seq::empty())
        }
    } else if funds.len() != 0 {
        Err(UniversalTokenError::IllegalMsgFunds)
    } else {
        match allowance->0 {
            Err(e) => Err(UniversalTokenError::Std(e)),
            Ok(a) => if a.expired {
                Err(UniversalTokenError::WrongAmount { expect: amount, got: 0 })
            } else if a.allowance < amount {
                Err(UniversalTokenError::WrongAmount { expect: amount, got: a.allowance })
            } else {
                Ok(seq![TokenMsg::Cw20TransferFrom { contract: c.token, owner, recipient: spender, amount }])
            },
        }
    }
}

impl UniversalToken {
    /// The handle of the token `config` names.
    pub fn new(config: TokenConfig) -> (r: Self)
        ensures
            r.config == config,
    {
        UniversalToken { config }
    }

    /// Whether the token is a native denomination.
    pub fn is_native(&self) -> (r: bool)
        ensures
            r == self.config.is_native,
    {
        self.config.is_native
    }

    /// The messages that pay `amount` to `account`.
    pub fn send_token(&self, account: &String, amount: u128) -> (r: Vec<TokenMsg>)
        ensures
            r@ == seq![send_msg_spec(self.config, *account, amount)],
    {
        let msg = if self.is_native() {
            TokenMsg::BankSend { to_address: account.clone(), denom: self.config.token.clone(), amount }
        } else {
            TokenMsg::Cw20Transfer { contract: self.config.token.clone(), recipient: account.clone(), amount }
        };
        let mut v = Vec::new();
        v.push(msg);
        v
    }

    /// Checks that `amount` comes in with the message, and returns the messages
    /// that pull it in. `funds` are the coins sent along; `owner` is the sender
    /// and `spender` this contract; `allowance` is the CW20 allowance query's
    /// outcome, which only a CW20 token needs.
    pub fn receive_token(
        &self,
        funds: &Vec<Coin>,
        owner: &String,
        spender: &String,
        allowance: Option<Result<Allowance, StdError>>,
        amount: u128,
    ) -> (r: Result<Vec<TokenMsg>, UniversalTokenError>)
        requires
            !self.config.is_native ==> allowance is Some,
        ensures
            r matches Ok(v) ==> receive_spec(self.config, funds@, *owner, *spender, allowance, amount) == Ok::<
                Seq<TokenMsg>,
                UniversalTokenError,
            >(v@),
            r matches Err(e) ==> receive_spec(self.config, funds@, *owner, *spender, allowance, amount) == Err::<
                Seq<TokenMsg>,
                UniversalTokenError,
            >(e),
    {
        if self.is_native() {
            if funds.len() != 1 {
                return Err(UniversalTokenError::IllegalMsgFunds);
            }
            let coin = &funds[0];
            if coin.denom != self.config.token {
                return Err(
                    UniversalTokenError::WrongDenom { expect: self.config.token.clone(), got: coin.denom.clone() },
                );
            }
            if coin.amount != amount {
                return Err(UniversalTokenError::WrongAmount { expect: amount, got: coin.amount });
            }
            let v: Vec<TokenMsg> = Vec::new();
            assert(v@ =~= Seq::<TokenMsg>::empty());
            Ok(v)
        } else {
            if funds.len() != 0 {
                return Err(UniversalTokenError::IllegalMsgFunds);
            }
            let a = match allowance {
                Some(Ok(a)) => a,
                Some(Err(e)) => return Err(UniversalTokenError::Std(e)),
                None => return Err(UniversalTokenError::IllegalMsgFunds),
            };
            if a.expired {
                return Err(UniversalTokenError::WrongAmount { expect: amount, got: 0 });
            }
            if a.allowance < amount {
                return Err(UniversalTokenError::WrongAmount { expect: amount, got: a.allowance });
            }
            let mut v = Vec::new();
            v.push(
                TokenMsg::Cw20TransferFrom {
                    contract: self.config.token.clone(),
                    owner: owner.clone(),
                    recipient: spender.clone(),
                    amount,
                },
            );
            Ok(v)
        }
    }
}

} // verus!
