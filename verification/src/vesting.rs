//! Installment vesting: a total released in `n` equal parts over a lock
//! period of `l` seconds, all of it once the period has passed.

use vstd::arithmetic::div_mod::{
    lemma_div_is_ordered, lemma_div_multiples_vanish, lemma_div_pos_is_pos, lemma_multiply_divide_le,
};
use vstd::arithmetic::mul::lemma_mul_is_commutative;
use vstd::prelude::*;

verus! {

/// What is vested of `t`, `e` seconds into a lock period of `l` seconds in
/// `n` installments: the whole installments passed, `t * floor(e * n / l) / n`,
/// and all of `t` from the end of the period on.
pub open spec fn installment_vested(t: int, e: int, n: int, l: int) -> int {
    if e >= l {
        t
    } else {
        (t * ((e * n) / l)) / n
    }
}

/// Installment vesting never falls as time passes, never exceeds the total,
/// is nothing at the start and everything once the period has passed, and
/// takes one of `n + 1` values: `k` of the `n` parts for some `k` from none
/// to all.
pub proof fn lemma_installment_vested(t: int, e1: int, e2: int, n: int, l: int)
    requires
        0 <= t,
        0 <= e1 <= e2,
        0 < n,
        0 < l,
    ensures
        0 <= installment_vested(t, e1, n, l) <= installment_vested(t, e2, n, l) <= t,
        installment_vested(t, 0, n, l) == 0,
        e1 >= l ==> installment_vested(t, e1, n, l) == t,
        exists|k: int| 0 <= k <= n && installment_vested(t, e1, n, l) == #[trigger] ((t * k) / n),
{
    lemma_div_multiples_vanish(t, n);
    lemma_mul_is_commutative(t, n);
    assert((t * n) / n == t);
    assert(0int * n == 0 && 0int / l == 0 && t * 0 == 0 && 0int / n == 0);
    lemma_part_bounds(t, e1, n, l);
    lemma_part_bounds(t, e2, n, l);
    if e2 < l {
        assert(e1 * n <= e2 * n) by (nonlinear_arith)
            requires e1 <= e2, 0 < n;
        lemma_div_is_ordered(e1 * n, e2 * n, l);
        let k1 = (e1 * n) / l;
        let k2 = (e2 * n) / l;
        assert(t * k1 <= t * k2) by (nonlinear_arith)
            requires k1 <= k2, 0 <= t;
        lemma_div_is_ordered(t * k1, t * k2, n);
    }
    if e1 >= l {
        assert(installment_vested(t, e1, n, l) == (t * n) / n);
    } else {
        let k = (e1 * n) / l;
        assert(installment_vested(t, e1, n, l) == (t * k) / n);
    }
}

/// Below the end of the period, the number of whole installments passed is
/// between none and all, and what they release between nothing and the total.
proof fn lemma_part_bounds(t: int, e: int, n: int, l: int)
    requires
        0 <= t,
        0 <= e,
        0 < n,
        0 < l,
    ensures
        e < l ==> 0 <= (e * n) / l <= n,
        0 <= installment_vested(t, e, n, l) <= t,
{
    if e < l {
        let k = (e * n) / l;
        assert(0 <= e * n <= l * n) by (nonlinear_arith)
            requires 0 <= e < l, 0 < n;
        assert(l * n == n * l) by (nonlinear_arith);
        lemma_multiply_divide_le(e * n, l, n);
        lemma_div_pos_is_pos(e * n, l);
        assert(0 <= t * k <= t * n) by (nonlinear_arith)
            requires 0 <= k <= n, 0 <= t;
        lemma_div_is_ordered(t * k, t * n, n);
        lemma_div_multiples_vanish(t, n);
        lemma_mul_is_commutative(t, n);
        lemma_div_pos_is_pos(t * k, n);
    }
}

} // verus!
