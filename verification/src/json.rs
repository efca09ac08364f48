//! The JSON forms of the numbers and lists the contracts pass to each other,
//! through `cosmwasm_std`'s JSON codec.

use crate::errors::StdError;
use cosmwasm_std::Uint128;
use std::str::FromStr;
use vstd::prelude::*;

verus! {

/// The ASCII decimal digits of `n`, without leading zeros.
pub open spec fn decimal_digits(n: nat) -> Seq<u8>
    decreases n,
{
    if n < 10 {
        seq![(48 + n) as u8]
    } else {
        decimal_digits(n / 10).push((48 + n % 10) as u8)
    }
}

/// The elements of a list of numbers in decimal, separated by commas.
pub open spec fn decimal_list_body(s: Seq<u32>) -> Seq<u8>
    decreases s.len(),
{
    if s.len() == 0 {
        Seq::empty()
    } else if s.len() == 1 {
        decimal_digits(s[0] as nat)
    } else {
        decimal_list_body(s.drop_last()) + seq![44u8] + decimal_digits(s.last() as nat)
    }
}

/// A JSON array of numbers: `[` the decimal elements separated by commas `]`.
pub open spec fn json_u32_list(s: Seq<u32>) -> Seq<u8> {
    seq![91u8] + decimal_list_body(s) + seq![93u8]
}

/// The value of a string of ASCII decimal digits.
pub open spec fn digits_value(s: Seq<char>) -> nat
    decreases s.len(),
{
    if s.len() == 0 {
        0
    } else {
        digits_value(s.drop_last()) * 10 + ((s.last() as nat) - 48) as nat
    }
}

/// A non-empty string of ASCII decimal digits.
pub open spec fn all_digits(s: Seq<char>) -> bool {
    s.len() > 0 && forall|i: int| 0 <= i < s.len() ==> '0' <= #[trigger] s[i] <= '9'
}

/// The number a decimal string stands for, as `u128::from_str` reads it: an
/// optional `+`, then one or more digits, the value fitting in 128 bits.
pub open spec fn decimal_u128(s: Seq<char>) -> Option<u128> {
    let d = if s.len() > 0 && s[0] == '+' {
        s.drop_first()
    } else {
        s
    };
    if all_digits(d) && digits_value(d) <= u128::MAX {
        Some(digits_value(d) as u128)
    } else {
        None
    }
}

/// What `from_json` reads from `b` as a `u32`, if it reads one.
pub uninterp spec fn json_u32_value(b: Seq<u8>) -> Option<u32>;

/// What `from_json` reads from `b` as a list of `u32`, if it reads one.
pub uninterp spec fn json_u32_list_value(b: Seq<u8>) -> Option<Seq<u32>>;

/// What `from_json` reads from `s` as a list of `Uint128`, if it reads one.
pub uninterp spec fn json_uint128_list_value(s: Seq<char>) -> Option<Seq<u128>>;

/// Calls `cosmwasm_std::to_json_vec` on a `u32`: its decimal digits, which
/// `from_json` reads back as `x`.
#[verifier::external_body]
pub(crate) fn to_json_vec_u32(x: u32) -> (r: Vec<u8>)
    ensures
        r@ == decimal_digits(x as nat),
        json_u32_value(r@) == Some(x),
{
    cosmwasm_std::to_json_vec(&x).unwrap()
}

/// Calls `cosmwasm_std::to_json_vec` on a list of `u32`: a JSON array of
/// their decimal digits, with no spaces, which `from_json` reads back as the
/// same list.
#[verifier::external_body]
pub(crate) fn to_json_vec_u32_list(s: &Vec<u32>) -> (r: Vec<u8>)
    ensures
        r@ == json_u32_list(s@),
        json_u32_list_value(r@) == Some(s@),
{
    cosmwasm_std::to_json_vec(s).unwrap()
}

/// Calls `cosmwasm_std::from_json` for a `u32`; fails, with a parse error,
/// exactly when it reads none.
#[verifier::external_body]
pub(crate) fn from_json_u32(b: &Vec<u8>) -> (r: Result<u32, StdError>)
    ensures
        r is Ok <==> json_u32_value(b@) is Some,
        r matches Ok(v) ==> v == json_u32_value(b@)->0,
        r is Err ==> r->Err_0 is ParseErr,
{
    match cosmwasm_std::from_json::<u32>(b) {
        Ok(v) => Ok(v),
        Err(cosmwasm_std::StdError::ParseErr { target_type, msg, .. }) => Err(StdError::ParseErr { target_type, msg }),
        Err(e) => Err(StdError::GenericErr { msg: e.to_string() }),
    }
}

/// Calls `cosmwasm_std::from_json` for a list of `u32`; fails, with a parse
/// error, exactly when it reads none.
#[verifier::external_body]
pub(crate) fn from_json_u32_list(b: &Vec<u8>) -> (r: Result<Vec<u32>, StdError>)
    ensures
        r is Ok <==> json_u32_list_value(b@) is Some,
        r matches Ok(v) ==> v@ == json_u32_list_value(b@)->0,
        r is Err ==> r->Err_0 is ParseErr,
{
    match cosmwasm_std::from_json::<Vec<u32>>(b) {
        Ok(v) => Ok(v),
        Err(cosmwasm_std::StdError::ParseErr { target_type, msg, .. }) => Err(StdError::ParseErr { target_type, msg }),
        Err(e) => Err(StdError::GenericErr { msg: e.to_string() }),
    }
}

/// Calls `cosmwasm_std::from_json` for a list of `Uint128` (JSON strings of
/// digits); fails, with a parse error, exactly when it reads none.
#[verifier::external_body]
pub(crate) fn from_json_uint128_list(s: &String) -> (r: Result<Vec<u128>, StdError>)
    ensures
        r is Ok <==> json_uint128_list_value(s@) is Some,
        r matches Ok(v) ==> v@ == json_uint128_list_value(s@)->0,
        r is Err ==> r->Err_0 is ParseErr,
{
    match cosmwasm_std::from_json::<Vec<Uint128>>(s.as_bytes()) {
        Ok(v) => Ok(v.into_iter().map(|u| u.u128()).collect()),
        Err(cosmwasm_std::StdError::ParseErr { target_type, msg, .. }) => Err(StdError::ParseErr { target_type, msg }),
        Err(e) => Err(StdError::GenericErr { msg: e.to_string() }),
    }
}

/// Calls `Uint128::from_str`, which reads the string as `u128::from_str` does
/// and reports a failure as a generic error.
#[verifier::external_body]
pub(crate) fn uint128_from_str(s: &String) -> (r: Result<u128, StdError>)
    ensures
        r is Ok <==> decimal_u128(s@) is Some,
        r matches Ok(v) ==> v == decimal_u128(s@)->0,
        r matches Err(e) ==> e is GenericErr,
{
    match Uint128::from_str(s) {
        Ok(u) => Ok(u.u128()),
        Err(cosmwasm_std::StdError::GenericErr { msg, .. }) => Err(StdError::GenericErr { msg }),
        Err(e) => Err(StdError::GenericErr { msg: e.to_string() }),
    }
}

} // verus!
