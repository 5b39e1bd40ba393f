//! Fixed-point arithmetic: division of integers with rounding to the
//! nearest integer.

use vstd::arithmetic::div_mod::lemma_fundamental_div_mod;
use vstd::prelude::*;

verus! {

/// The absolute value of `x`.
pub open spec fn magnitude(x: int) -> int {
    if x < 0 {
        -x
    } else {
        x
    }
}

/// The integer nearest to `num / den`; a quotient that lies exactly between
/// two integers goes to the one farther from zero.
pub open spec fn div_round(num: int, den: int) -> int
    recommends
        den != 0,
{
    let q = (2 * magnitude(num) + magnitude(den)) / (2 * magnitude(den));
    if (num < 0) != (den < 0) {
        -q
    } else {
        q
    }
}

/// `div_round` is off from the exact quotient by at most one half: twice
/// the distance between `div_round(num, den) * den` and `num` is at most the
/// magnitude of `den`.
pub proof fn lemma_div_round_nearest(num: int, den: int)
    requires
        den != 0,
    ensures
        2 * magnitude(div_round(num, den) * den - num) <= magnitude(den),
        magnitude(div_round(num, den)) <= magnitude(num) + 1,
{
    let a = magnitude(num);
    let b = magnitude(den);
    let q = (2 * a + b) / (2 * b);
    lemma_fundamental_div_mod(2 * a + b, 2 * b);
    let r = (2 * a + b) % (2 * b);
    assert(2 * a + b == (2 * b) * q + r);
    assert(0 <= r < 2 * b);
    assert((2 * b) * q == 2 * (q * b)) by (nonlinear_arith);
    assert(q >= 0) by (nonlinear_arith)
        requires
            (2 * b) * q + r == 2 * a + b,
            r < 2 * b,
            b > 0,
            a >= 0,
    ;
    assert(q <= a + 1) by (nonlinear_arith)
        requires
            (2 * b) * q + r == 2 * a + b,
            0 <= r,
            b >= 1,
            a >= 0,
            q >= 0,
    ;
    // 2 * (q * b - a) == b - r, which lies in (-b, b].
    let d = div_round(num, den);
    if num < 0 && den < 0 {
        assert(d * den == -(q * b)) by (nonlinear_arith)
            requires
                d == q,
                den == -b,
        ;
    } else if num < 0 {
        assert(d * den == -(q * b)) by (nonlinear_arith)
            requires
                d == -q,
                den == b,
        ;
    } else if den < 0 {
        assert(d * den == q * b) by (nonlinear_arith)
            requires
                d == -q,
                den == -b,
        ;
    } else {
        assert(d * den == q * b) by (nonlinear_arith)
            requires
                d == q,
                den == b,
        ;
    }
}

/// No integer is nearer to `num / den` than `div_round(num, den)`: for every
/// integer `k`, `k * den` is at least as far from `num` as
/// `div_round(num, den) * den` is.
pub proof fn lemma_div_round_closest(num: int, den: int, k: int)
    requires
        den != 0,
    ensures
        magnitude(div_round(num, den) * den - num) <= magnitude(k * den - num),
{
    lemma_div_round_nearest(num, den);
    let q = div_round(num, den);
    let e = q * den - num;
    if k != q {
        let d = k - q;
        assert(k * den - num == d * den + e) by (nonlinear_arith)
            requires
                d == k - q,
                e == q * den - num,
        ;
        assert(magnitude(d * den) >= magnitude(den)) by (nonlinear_arith)
            requires
                d != 0,
        ;
    }
}

/// The integer nearest to `num / den`, halves away from zero.
pub(crate) fn rounded_quotient(num: i128, den: i128) -> (q: i128)
    requires
        den != 0,
        magnitude(num as int) <= 0x1_0000_0000_0000_0000_0000_0000_0000,
        magnitude(den as int) <= 0x1_0000_0000_0000_0000,
    ensures
        q == div_round(num as int, den as int),
        magnitude(q as int) <= magnitude(num as int) + 1,
{
    let a: u128 = if num < 0 {
        (-num) as u128
    } else {
        num as u128
    };
    let b: u128 = if den < 0 {
        (-den) as u128
    } else {
        den as u128
    };
    let q: u128 = (2 * a + b) / (2 * b);
    proof {
        lemma_div_round_nearest(num as int, den as int);
    }
    if (num < 0) != (den < 0) {
        -(q as i128)
    } else {
        q as i128
    }
}

} // verus!
