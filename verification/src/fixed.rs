//! Fixed-point representation shared by the whole pipeline.
//!
//! Pixel coordinates, confidence scores, regression outputs and embedding
//! components are all carried as signed integers counting thousandths of a
//! unit: the value `1500` stands for `1.5` pixels (or a score of `1.5`).
//! This keeps every arithmetic step of the pipeline exact and lets each
//! function state precisely what it computes.

use vstd::prelude::*;

verus! {

/// Number of fixed-point steps in one unit: values are in thousandths.
pub const FP_ONE: i64 = 1000;

/// Half a unit, used when rounding to the nearest integer.
pub const FP_HALF: i64 = 500;

/// Bound on the numerators accepted by [`round_div`]; generous enough for
/// every product the pipeline forms.
pub const ROUND_DIV_LIMIT: i64 = 0x2000_0000_0000_0000;

/// Division rounded to the nearest integer, ties away from zero: the
/// convention of `round` on the hardware floats this library models.
pub open spec fn round_div_spec(n: int, d: int) -> int
    recommends
        d > 0,
{
    if n >= 0 {
        (2 * n + d) / (2 * d)
    } else {
        -((2 * -n + d) / (2 * d))
    }
}

/// Rounded division of `n` by `d`: nearest integer, ties away from zero.
/// The result never exceeds the numerator in magnitude.
pub fn round_div(n: i64, d: i64) -> (r: i64)
    requires
        0 < d < ROUND_DIV_LIMIT,
        -ROUND_DIV_LIMIT < n < ROUND_DIV_LIMIT,
    ensures
        r == round_div_spec(n as int, d as int),
        n >= 0 ==> 0 <= r <= n,
        n < 0 ==> n <= r <= 0,
{
    if n >= 0 {
        let q = (2 * n + d) / (2 * d);
        proof {
            assert(0 <= q <= n) by (nonlinear_arith)
                requires
                    n >= 0,
                    d >= 1,
                    q == (2 * n + d) as int / (2 * d) as int,
            ;
        }
        q
    } else {
        let q = (2 * -n + d) / (2 * d);
        proof {
            assert(0 <= q <= -n) by (nonlinear_arith)
                requires
                    n < 0,
                    d >= 1,
                    q == (2 * -n + d) as int / (2 * d) as int,
            ;
        }
        -q
    }
}

/// Rounded division is odd: negating the numerator negates the result.
pub proof fn lemma_round_div_neg(n: int, d: int)
    requires
        d > 0,
    ensures
        round_div_spec(-n, d) == -round_div_spec(n, d),
{
    if n == 0 {
        vstd::arithmetic::div_mod::lemma_basic_div(d, 2 * d);
    }
}

/// Rounded division never overshoots a bound the numerator respects:
/// if `n <= b * d` then the rounded quotient is at most `b`.
pub proof fn lemma_round_div_le(n: int, d: int, b: int)
    requires
        d > 0,
        b >= 0,
        n <= b * d,
    ensures
        round_div_spec(n, d) <= b,
{
    if n >= 0 {
        assert((2 * n + d) / (2 * d) <= b) by (nonlinear_arith)
            requires
                d > 0,
                b >= 0,
                0 <= n <= b * d,
        ;
    } else {
        assert((2 * -n + d) / (2 * d)
            >= 0) by {
            vstd::arithmetic::div_mod::lemma_div_pos_is_pos(2 * -n + d, 2 * d);
        }
    }
}

/// The result of rounded division is within half a divisor of the exact
/// quotient: `|r * d - n| <= d / 2` (rounded up for odd divisors).
pub proof fn lemma_round_div_error(n: int, d: int)
    requires
        d > 0,
    ensures
        2 * (round_div_spec(n, d) * d - n) <= d,
        2 * (n - round_div_spec(n, d) * d) <= d,
{
    if n >= 0 {
        let q = (2 * n + d) / (2 * d);
        let m0 = (2 * n + d) % (2 * d);
        vstd::arithmetic::div_mod::lemma_fundamental_div_mod(2 * n + d, 2 * d);
        vstd::arithmetic::div_mod::lemma_mod_bound(2 * n + d, 2 * d);
        assert(2 * n + d == 2 * d * q + m0);
        assert(2 * d * q == 2 * (q * d)) by (nonlinear_arith);
        assert(2 * (q * d) - 2 * n == d - m0);
    } else {
        let m = -n;
        let q = (2 * m + d) / (2 * d);
        let m0 = (2 * m + d) % (2 * d);
        vstd::arithmetic::div_mod::lemma_fundamental_div_mod(2 * m + d, 2 * d);
        vstd::arithmetic::div_mod::lemma_mod_bound(2 * m + d, 2 * d);
        assert(2 * m + d == 2 * d * q + m0);
        assert(2 * d * q == 2 * (q * d)) by (nonlinear_arith);
        assert((-q) * d == -(q * d)) by (nonlinear_arith);
        assert(2 * ((-q) * d) - 2 * n == m0 - d);
    }
}

} // verus!
