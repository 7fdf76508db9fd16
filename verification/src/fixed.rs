//! Signed fixed-point scalars.
//!
//! A scalar is an `i64` holding `SCALE` units to one. Products and
//! quotients are computed in `i128` and rounded toward zero, exactly as
//! Rust's `/` does; `tdiv` is that rounding as a spec-level function, and
//! every arithmetic helper here pins its result to a `tdiv` expression.

use vstd::arithmetic::div_mod::*;
use vstd::prelude::*;

verus! {

/// Fixed-point scale: this many integer units stand for one.
pub const SCALE: i64 = 65536;

/// Truncating division (round toward zero): the behaviour of Rust's `/` on
/// signed integers when the divisor is positive.
pub open spec fn tdiv(n: int, d: int) -> int {
    if n >= 0 {
        n / d
    } else {
        -((-n) / d)
    }
}

/// Truncating division never grows a bound: if `n` lies within `b * d`,
/// the quotient lies within `b`.
pub proof fn lemma_tdiv_bound(n: int, d: int, b: int)
    requires
        d > 0,
        b >= 0,
        -(b * d) <= n <= b * d,
    ensures
        -b <= tdiv(n, d) <= b,
{
    lemma_div_multiples_vanish(b, d);
    assert(b * d == d * b) by (nonlinear_arith);
    if n >= 0 {
        lemma_div_is_ordered(n, b * d, d);
        lemma_div_pos_is_pos(n, d);
    } else {
        lemma_div_is_ordered(-n, b * d, d);
        lemma_div_pos_is_pos(-n, d);
    }
}

/// Zero divided by anything positive is zero.
pub proof fn lemma_tdiv_zero(d: int)
    requires
        d > 0,
    ensures
        tdiv(0, d) == 0,
{
    lemma_div_basics_1(d);
}

/// A quotient of a large enough dividend stays above a bound.
pub proof fn lemma_tdiv_lower(n: int, d: int, b: int)
    requires
        d > 0,
        b >= 0,
        n >= b * d,
    ensures
        tdiv(n, d) >= b,
{
    lemma_div_multiples_vanish(b, d);
    assert(b * d == d * b && b * d >= 0) by (nonlinear_arith)
        requires
            b >= 0,
            d > 0,
    ;
    lemma_div_is_ordered(b * d, n, d);
}

/// What truncating division leaves behind: a remainder smaller than the
/// divisor, with the dividend's sign.
pub proof fn lemma_tdiv_remainder(n: int, d: int)
    requires
        d > 0,
    ensures
        n >= 0 ==> 0 <= n - d * tdiv(n, d) < d,
        n < 0 ==> -d < n - d * tdiv(n, d) <= 0,
        n == d * tdiv(n, d) + (n - d * tdiv(n, d)),
{
    if n >= 0 {
        lemma_fundamental_div_mod(n, d);
        lemma_mod_bound(n, d);
    } else {
        lemma_fundamental_div_mod(-n, d);
        lemma_mod_bound(-n, d);
        assert(d * -((-n) / d) == -(d * ((-n) / d))) by (nonlinear_arith);
    }
}

/// Truncating division by a positive divisor is monotone in the
/// dividend.
pub proof fn lemma_tdiv_mono(a: int, b: int, d: int)
    requires
        a <= b,
        d > 0,
    ensures
        tdiv(a, d) <= tdiv(b, d),
{
    if a >= 0 {
        lemma_div_is_ordered(a, b, d);
    } else if b < 0 {
        lemma_div_is_ordered(-b, -a, d);
    } else {
        lemma_div_pos_is_pos(-a, d);
        lemma_div_pos_is_pos(b, d);
    }
}

/// Division by a positive divisor undoes an exact multiplication.
pub proof fn lemma_tdiv_exact(a: int, d: int)
    requires
        d > 0,
    ensures
        tdiv(a * d, d) == a,
{
    if a >= 0 {
        lemma_div_multiples_vanish(a, d);
        assert(a * d == d * a) by (nonlinear_arith);
    } else {
        lemma_div_multiples_vanish(-a, d);
        assert((-a) * d == d * -a && (-a) * d == -(a * d)) by (nonlinear_arith);
    }
}

proof fn lemma_mul_fits_i128(a: int, b: int)
    by (nonlinear_arith)
    requires
        -0x8000_0000_0000_0000 <= a <= 0x8000_0000_0000_0000,
        -0x8000_0000_0000_0000 <= b <= 0x8000_0000_0000_0000,
    ensures
        -0x4000_0000_0000_0000_0000_0000_0000_0000 <= a * b
            <= 0x4000_0000_0000_0000_0000_0000_0000_0000,
{
}

/// Fixed-point product: `a * b` rescaled back down, rounded toward zero.
pub fn fx_mul(a: i64, b: i64) -> (r: i64)
    requires
        -(i64::MAX as int) * (SCALE as int) <= a * b <= (i64::MAX as int) * (SCALE as int),
    ensures
        r == tdiv(a * b, SCALE as int),
{
    proof {
        lemma_mul_fits_i128(a as int, b as int);
        lemma_tdiv_bound(a as int * b as int, SCALE as int, i64::MAX as int);
    }
    let p: i128 = (a as i128) * (b as i128);
    let q: i128 = p / (SCALE as i128);
    q as i64
}

/// Fixed-point quotient: `a` scaled up before dividing by `b`, rounded
/// toward zero. `b` must be positive.
pub fn fx_div(a: i64, b: i64) -> (r: i64)
    requires
        b > 0,
        -(i64::MAX as int) * (b as int) <= a * (SCALE as int) <= (i64::MAX as int) * (b as int),
    ensures
        r == tdiv(a * SCALE as int, b as int),
{
    proof {
        lemma_mul_fits_i128(a as int, SCALE as int);
        lemma_tdiv_bound(a as int * SCALE as int, b as int, i64::MAX as int);
    }
    let p: i128 = (a as i128) * (SCALE as i128);
    let q: i128 = p / (b as i128);
    q as i64
}

/// Floor of the square root of `x`.
///
/// Binary search over the result; every candidate square stays inside
/// `u128`, so the bound on `x` keeps the arithmetic exact.
pub fn sqrt_floor(x: u128) -> (r: u64)
    requires
        x < 0x4000_0000_0000_0000_0000_0000_0000_0000,
    ensures
        (r as int) * (r as int) <= x < (r as int + 1) * (r as int + 1),
{
    let mut lo: u128 = 0;
    let mut hi: u128 = 0x8000_0000_0000_0000;
    proof {
        assert((hi as int) * (hi as int) > x) by (nonlinear_arith)
            requires
                hi == 0x8000_0000_0000_0000u128,
                x < 0x4000_0000_0000_0000_0000_0000_0000_0000,
        ;
    }
    while lo + 1 < hi
        invariant
            0 <= lo < hi <= 0x8000_0000_0000_0000,
            (lo as int) * (lo as int) <= x,
            x < (hi as int) * (hi as int),
        decreases hi - lo,
    {
        let mid: u128 = lo + (hi - lo) / 2;
        proof {
            assert((mid as int) * (mid as int) <= 0x4000_0000_0000_0000_0000_0000_0000_0000int)
                by (nonlinear_arith)
                requires
                    0 < mid <= 0x8000_0000_0000_0000u128,
            ;
        }
        if mid * mid <= x {
            lo = mid;
        } else {
            hi = mid;
        }
    }
    lo as u64
}

} // verus!
