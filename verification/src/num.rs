//! Exact rounded division on integers.
//!
//! Quantization and curve flattening both need `round(a / b)` on exact
//! rationals. `round_div` rounds half away from zero, matching the usual
//! rounding of a positive or negative quotient.

use vstd::prelude::*;

verus! {

/// `round(num / den)` for `den > 0`, rounding half away from zero.
pub open spec fn spec_round_div(num: int, den: int) -> int
    recommends
        den > 0,
{
    if num >= 0 {
        (2 * num + den) / (2 * den)
    } else {
        -((2 * (-num) + den) / (2 * den))
    }
}

/// The rounded quotient is within half a unit of the exact quotient:
/// `|num - round_div(num, den) * den| <= den / 2`, stated scaled by two.
pub proof fn lemma_round_div_close(num: int, den: int)
    requires
        den > 0,
    ensures
        -den <= 2 * (num - spec_round_div(num, den) * den) <= den,
{
    if num >= 0 {
        lemma_round_div_close_nonneg(num, den);
    } else {
        lemma_round_div_close_nonneg(-num, den);
        let q = spec_round_div(-num, den);
        assert(2 * (num - (-q) * den) == -(2 * ((-num) - q * den))) by (nonlinear_arith);
    }
}

proof fn lemma_round_div_close_nonneg(num: int, den: int)
    requires
        num >= 0,
        den > 0,
    ensures
        -den <= 2 * (num - spec_round_div(num, den) * den) <= den,
{
    let n2 = 2 * num + den;
    let d2 = 2 * den;
    let q = n2 / d2;
    let r = n2 % d2;
    vstd::arithmetic::div_mod::lemma_fundamental_div_mod(n2, d2);
    vstd::arithmetic::div_mod::lemma_mod_bound(n2, d2);
    assert(2 * (num - q * den) == r - den) by (nonlinear_arith)
        requires
            n2 == d2 * q + r,
            n2 == 2 * num + den,
            d2 == 2 * den;
}

/// Rounding a value of magnitude at most `bound * den` stays within `bound`.
pub proof fn lemma_round_div_bound(num: int, den: int, bound: int)
    requires
        den > 0,
        bound >= 0,
        -(bound * den) <= num <= bound * den,
    ensures
        -bound <= spec_round_div(num, den) <= bound,
{
    lemma_round_div_close(num, den);
    let q = spec_round_div(num, den);
    assert(-bound <= q <= bound) by (nonlinear_arith)
        requires
            den > 0,
            bound >= 0,
            -(bound * den) <= num <= bound * den,
            -den <= 2 * (num - q * den) <= den;
}

/// Rounding an exact multiple of the divisor recovers the multiplier.
pub proof fn lemma_round_div_exact(k: int, den: int)
    requires
        den > 0,
    ensures
        spec_round_div(k * den, den) == k,
{
    lemma_round_div_close(k * den, den);
    let q = spec_round_div(k * den, den);
    assert(q == k) by (nonlinear_arith)
        requires
            den > 0,
            -den <= 2 * (k * den - q * den) <= den;
}

/// A product of a non-negative factor and a bounded factor is bounded by
/// the product of the bounds.
pub proof fn lemma_mul_le(a: int, amax: int, b: int, bmax: int) by (nonlinear_arith)
    requires
        0 <= a <= amax,
        -bmax <= b <= bmax,
        0 <= bmax,
    ensures
        -(amax * bmax) <= a * b <= amax * bmax,
{
}

/// Computes `spec_round_div(num, den)`.
pub fn round_div(num: i64, den: i64) -> (r: i64)
    requires
        0 < den <= 0x1000_0000_0000_0000,
        -0x1000_0000_0000_0000 <= num <= 0x1000_0000_0000_0000,
    ensures
        r == spec_round_div(num as int, den as int),
        -den <= 2 * (num - r * den) <= den,
{
    proof {
        lemma_round_div_close(num as int, den as int);
        lemma_round_div_bound(num as int, den as int, 0x1000_0000_0000_0000);
        assert(0x1000_0000_0000_0000 * (den as int) >= num) by (nonlinear_arith)
            requires
                den >= 1,
                num <= 0x1000_0000_0000_0000;
        assert(-(0x1000_0000_0000_0000 * (den as int)) <= num) by (nonlinear_arith)
            requires
                den >= 1,
                num >= -0x1000_0000_0000_0000;
    }
    if num >= 0 {
        (2 * num + den) / (2 * den)
    } else {
        -((2 * (-num) + den) / (2 * den))
    }
}

} // verus!
