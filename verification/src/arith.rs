//! Truncating fixed-point division and an integer square root, with the
//! bounds the solver's overflow proofs rest on.

use vstd::prelude::*;
use vstd::arithmetic::div_mod::{
    lemma_div_is_ordered, lemma_div_nonincreasing, lemma_div_pos_is_pos,
    lemma_fundamental_div_mod, lemma_fundamental_div_mod_converse, lemma_mod_pos_bound,
};

verus! {

/// Division truncating toward zero — the rounding used throughout the
/// solver's fixed-point arithmetic. Defined as 0 for a non-positive
/// divisor, which never arises in this crate.
pub open spec fn tdiv(a: int, b: int) -> int {
    if b <= 0 {
        0
    } else if a >= 0 {
        a / b
    } else {
        -((-a) / b)
    }
}

/// A bound on the dividend gives the matching bound on the truncated
/// quotient.
pub proof fn lemma_tdiv_bound(a: int, b: int, m: int)
    requires
        b >= 1,
        0 <= m,
        -m <= a <= m,
    ensures
        -(m / b) <= tdiv(a, b) <= m / b,
{
    lemma_div_pos_is_pos(m, b);
    if a >= 0 {
        lemma_div_is_ordered(a, m, b);
        lemma_div_pos_is_pos(a, b);
    } else {
        lemma_div_is_ordered(-a, m, b);
        lemma_div_pos_is_pos(-a, b);
    }
}

/// Dividing by one returns the dividend unchanged.
pub proof fn lemma_tdiv_one(a: int)
    ensures
        tdiv(a, 1) == a,
{
    if a >= 0 {
        lemma_fundamental_div_mod_converse(a, 1, a, 0);
    } else {
        lemma_fundamental_div_mod_converse(-a, 1, -a, 0);
    }
}

/// Zero divided by anything is zero.
pub proof fn lemma_tdiv_zero(b: int)
    ensures
        tdiv(0, b) == 0,
{
    if b >= 1 {
        vstd::arithmetic::div_mod::lemma_div_of0(b);
    }
}

/// The remainder left by truncating division is smaller than the
/// divisor and carries the dividend's sign.
pub proof fn lemma_tdiv_remainder(a: int, b: int)
    requires
        b >= 1,
    ensures
        -b < a - b * tdiv(a, b) < b,
        a >= 0 ==> 0 <= a - b * tdiv(a, b),
        a <= 0 ==> a - b * tdiv(a, b) <= 0,
{
    if a >= 0 {
        lemma_fundamental_div_mod(a, b);
        lemma_mod_pos_bound(a, b);
    } else {
        lemma_fundamental_div_mod(-a, b);
        lemma_mod_pos_bound(-a, b);
        assert(b * (-((-a) / b)) == -(b * ((-a) / b))) by (nonlinear_arith);
    }
}

/// Interval bounds on a product from interval bounds on its factors.
pub proof fn lemma_mul_bounds(a: int, b: int, aa: int, bb: int)
    requires
        0 <= aa,
        0 <= bb,
        -aa <= a <= aa,
        -bb <= b <= bb,
    ensures
        -(aa * bb) <= a * b <= aa * bb,
{
    assert(-(aa * bb) <= a * b <= aa * bb) by (nonlinear_arith)
        requires
            0 <= aa,
            0 <= bb,
            -aa <= a <= aa,
            -bb <= b <= bb,
    ;
}

/// Truncating division on `i128`, matching [`tdiv`] exactly.
pub fn tdiv_i128(a: i128, b: i128) -> (r: i128)
    requires
        b >= 1,
        a != i128::MIN,
    ensures
        r as int == tdiv(a as int, b as int),
{
    if a >= 0 {
        let n: u128 = a as u128;
        let d: u128 = b as u128;
        let q: u128 = n / d;
        proof {
            lemma_div_nonincreasing(a as int, b as int);
            lemma_div_pos_is_pos(a as int, b as int);
        }
        q as i128
    } else {
        let n: u128 = (-a) as u128;
        let d: u128 = b as u128;
        let q: u128 = n / d;
        proof {
            lemma_div_nonincreasing(n as int, b as int);
            lemma_div_pos_is_pos(n as int, b as int);
        }
        -(q as i128)
    }
}

/// Integer square root: the greatest `r` with `r * r <= v`.
pub fn isqrt_u64(v: u64) -> (r: u64)
    ensures
        (r as int) * (r as int) <= v as int,
        (v as int) < (r as int + 1) * (r as int + 1),
        r <= 4_294_967_296,
{
    let mut lo: u128 = 0;
    let mut hi: u128 = 4_294_967_296;
    while lo < hi
        invariant
            lo <= hi <= 4_294_967_296,
            (lo as int) * (lo as int) <= v as int,
            (v as int) < (hi as int + 1) * (hi as int + 1),
        decreases hi - lo,
    {
        let mid: u128 = (lo + hi + 1) / 2;
        proof {
            lemma_fundamental_div_mod((lo + hi + 1) as int, 2);
            lemma_mod_pos_bound((lo + hi + 1) as int, 2);
            assert(lo < mid <= hi);
            assert((mid as int) * (mid as int) <= 0x1_0000_0000_0000_0000) by (nonlinear_arith)
                requires
                    mid <= 0x1_0000_0000u128,
            ;
        }
        if mid * mid <= v as u128 {
            lo = mid;
        } else {
            hi = mid - 1;
        }
    }
    lo as u64
}

} // verus!
