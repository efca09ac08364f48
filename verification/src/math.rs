//! Wide (256-bit) intermediate arithmetic, used wherever a product of two
//! 128-bit amounts must not overflow before it is divided.

use cosmwasm_std::Uint256;
use vstd::prelude::*;

verus! {

/// 2^128.
pub open spec fn pow128() -> nat {
    0x1_0000_0000_0000_0000_0000_0000_0000_0000nat
}

/// 2^256.
pub open spec fn pow256() -> nat {
    pow128() * pow128()
}

/// A 256-bit unsigned integer, held as its high and low 128-bit halves.
#[derive(Clone, Copy, Debug)]
pub struct Wide {
    pub hi: u128,
    pub lo: u128,
}

impl Wide {
    /// The number this value stands for.
    pub open spec fn value(self) -> nat {
        (self.hi * pow128() + self.lo) as nat
    }
}

/// Calls `cosmwasm_std::Uint256::checked_mul`: the product when it is below
/// 2^256, an error (here `None`) otherwise.
#[verifier::external_body]
fn uint256_checked_mul(a: Wide, b: Wide) -> (r: Option<Wide>)
    ensures
        r is None <==> a.value() * b.value() >= pow256(),
        r matches Some(w) ==> w.value() == a.value() * b.value(),
{
    let x = Uint256::new([a.hi.to_be_bytes(), a.lo.to_be_bytes()].concat().try_into().unwrap());
    let y = Uint256::new([b.hi.to_be_bytes(), b.lo.to_be_bytes()].concat().try_into().unwrap());
    let r = x.checked_mul(y).ok()?.to_be_bytes();
    Some(Wide {
        hi: u128::from_be_bytes(r[..16].try_into().unwrap()),
        lo: u128::from_be_bytes(r[16..].try_into().unwrap()),
    })
}

/// Calls `cosmwasm_std::Uint256::checked_div`: the floored quotient, or an
/// error (here `None`) when the divisor is zero.
#[verifier::external_body]
fn uint256_checked_div(a: Wide, b: Wide) -> (r: Option<Wide>)
    ensures
        r is None <==> b.value() == 0,
        r matches Some(w) ==> w.value() == a.value() / b.value(),
{
    let x = Uint256::new([a.hi.to_be_bytes(), a.lo.to_be_bytes()].concat().try_into().unwrap());
    let y = Uint256::new([b.hi.to_be_bytes(), b.lo.to_be_bytes()].concat().try_into().unwrap());
    let r = x.checked_div(y).ok()?.to_be_bytes();
    Some(Wide {
        hi: u128::from_be_bytes(r[..16].try_into().unwrap()),
        lo: u128::from_be_bytes(r[16..].try_into().unwrap()),
    })
}

proof fn lemma_value_bounds(w: Wide)
    ensures
        w.value() < pow256(),
        w.hi == 0 <==> w.value() <= u128::MAX,
{
    let h = w.hi as int;
    let l = w.lo as int;
    let p = pow128() as int;
    assert(p == u128::MAX + 1);
    assert(h * p + l < p * p) by (nonlinear_arith)
        requires 0 <= h < p, 0 <= l < p;
    assert(h >= 1 ==> h * p >= p) by (nonlinear_arith)
        requires p > 0;
    assert(h == 0 ==> h * p == 0) by (nonlinear_arith);
}

/// Widens a 128-bit amount.
pub fn wide_from_u128(x: u128) -> (r: Wide)
    ensures
        r.value() == x,
{
    Wide { hi: 0, lo: x }
}

/// Narrows to 128 bits; `None` when the value does not fit.
pub fn wide_to_u128(w: Wide) -> (r: Option<u128>)
    ensures
        r is Some <==> w.value() <= u128::MAX,
        r matches Some(v) ==> v == w.value(),
{
    proof {
        lemma_value_bounds(w);
    }
    if w.hi == 0 {
        Some(w.lo)
    } else {
        None
    }
}

/// Product of two wide values; `None` when it reaches 2^256.
pub fn wide_mul(a: Wide, b: Wide) -> (r: Option<Wide>)
    ensures
        r is None <==> a.value() * b.value() >= pow256(),
        r matches Some(w) ==> w.value() == a.value() * b.value(),
{
    uint256_checked_mul(a, b)
}

/// Floored quotient of two wide values; `None` when the divisor is zero.
pub fn wide_div(a: Wide, b: Wide) -> (r: Option<Wide>)
    ensures
        r is None <==> b.value() == 0,
        r matches Some(w) ==> w.value() == a.value() / b.value(),
{
    uint256_checked_div(a, b)
}

/// `floor(a * b / c)` computed through a 256-bit product, as the value it
/// would be; defined only for `c != 0`.
pub open spec fn mul_div_spec(a: int, b: int, c: int) -> int {
    (a * b) / c
}

/// `floor(a * b / c)` with a 256-bit intermediate product. `None` exactly
/// when `c` is zero or the quotient does not fit in 128 bits.
pub fn mul_div(a: u128, b: u128, c: u128) -> (r: Option<u128>)
    ensures
        r is Some <==> (c != 0 && mul_div_spec(a as int, b as int, c as int) <= u128::MAX),
        r matches Some(v) ==> v == mul_div_spec(a as int, b as int, c as int),
{
    let wa = wide_from_u128(a);
    let wb = wide_from_u128(b);
    proof {
        let p = pow128() as int;
        assert((a as int) * (b as int) < p * p) by (nonlinear_arith)
            requires 0 <= a < p, 0 <= b < p;
    }
    let prod = wide_mul(wa, wb).unwrap();
    match wide_div(prod, wide_from_u128(c)) {
        None => None,
        Some(q) => wide_to_u128(q),
    }
}

} // verus!
