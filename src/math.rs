use vstd::prelude::*;
use crate::error::AmmError;

verus! {

/// `r` is the integer square root of `x`: the largest integer whose square is at most `x`.
pub open spec fn is_isqrt(x: int, r: int) -> bool {
    0 <= r && r * r <= x && x < (r + 1) * (r + 1)
}

/// The integer square root of `x`, for `x >= 0`.
pub open spec fn isqrt_spec(x: int) -> int {
    choose|r: int| is_isqrt(x, r)
}

/// A number has at most one integer square root.
pub proof fn lemma_isqrt_unique(x: int, r1: int, r2: int)
    requires
        is_isqrt(x, r1),
        is_isqrt(x, r2),
    ensures
        r1 == r2,
{
    if r1 < r2 {
        assert((r1 + 1) * (r1 + 1) <= r2 * r2) by (nonlinear_arith)
            requires 0 <= r1, r1 + 1 <= r2;
    } else if r2 < r1 {
        assert((r2 + 1) * (r2 + 1) <= r1 * r1) by (nonlinear_arith)
            requires 0 <= r2, r2 + 1 <= r1;
    }
}

/// Every natural number has an integer square root.
pub proof fn lemma_isqrt_exists(x: int)
    requires
        x >= 0,
    ensures
        is_isqrt(x, isqrt_spec(x)),
    decreases x,
{
    if x == 0 {
        assert(is_isqrt(0, 0));
    } else {
        lemma_isqrt_exists(x - 1);
        let r = isqrt_spec(x - 1);
        if x < (r + 1) * (r + 1) {
            assert(is_isqrt(x, r));
        } else {
            assert(is_isqrt(x, r + 1)) by (nonlinear_arith)
                requires x == (r + 1) * (r + 1), r >= 0;
        }
    }
}

/// The integer square root of a positive number is positive.
pub proof fn lemma_isqrt_positive(x: int, r: int)
    requires
        is_isqrt(x, r),
        x >= 1,
    ensures
        r >= 1,
{
}

/// Floor division by a positive divisor brackets its dividend.
pub proof fn lemma_floor_div(x: int, d: int)
    requires
        0 <= x,
        0 < d,
    ensures
        0 <= x / d,
        d * (x / d) <= x < d * (x / d) + d,
{
    vstd::arithmetic::div_mod::lemma_fundamental_div_mod(x, d);
    vstd::arithmetic::div_mod::lemma_mod_pos_bound(x, d);
    vstd::arithmetic::div_mod::lemma_div_pos_is_pos(x, d);
}

/// The share `r * part / whole` of an amount `r` is at most `r`, below `r`
/// when the part is smaller than the whole and `r` is positive, and all of
/// `r` when the part is the whole.
pub proof fn lemma_share_bounds(r: int, part: int, whole: int)
    requires
        0 <= r,
        0 <= part <= whole,
        0 < whole,
    ensures
        0 <= r * part / whole <= r,
        part < whole && r > 0 ==> r * part / whole < r,
        part == whole ==> r * part / whole == r,
{
    let x = r * part;
    let q = x / whole;
    assert(0 <= x <= r * whole) by (nonlinear_arith)
        requires 0 <= r, 0 <= part <= whole, x == r * part;
    lemma_floor_div(x, whole);
    assert(q <= r) by (nonlinear_arith)
        requires whole * q <= x, x <= r * whole, 0 < whole;
    if part < whole && r > 0 {
        assert(x < r * whole) by (nonlinear_arith)
            requires 0 < r, 0 <= part < whole, x == r * part;
        assert(q < r) by (nonlinear_arith)
            requires whole * q <= x, x < r * whole, 0 < whole;
    }
    if part == whole {
        assert(whole * r == x) by (nonlinear_arith)
            requires x == r * part, part == whole;
        vstd::arithmetic::div_mod::lemma_div_multiples_vanish(r, whole);
    }
}

/// Outcome of `a * b / c` with floor division, checked against zero and the `u64` range.
pub open spec fn mul_div_spec(a: u64, b: u64, c: u64) -> Result<u64, AmmError> {
    if c == 0 {
        Err(AmmError::DivisionByZero)
    } else if (a * b) / (c as int) > u64::MAX {
        Err(AmmError::ArithmeticOverflow)
    } else {
        Ok(((a * b) / (c as int)) as u64)
    }
}

/// `a * b / c`, floor division, computed in 128 bits so the product cannot wrap.
pub fn mul_div(a: u64, b: u64, c: u64) -> (r: Result<u64, AmmError>)
    ensures
        r == mul_div_spec(a, b, c),
{
    if c == 0 {
        return Err(AmmError::DivisionByZero);
    }
    proof {
        assert(0 <= a * b <= u64::MAX * u64::MAX) by (nonlinear_arith);
    }
    let p: u128 = (a as u128) * (b as u128);
    let q: u128 = p / (c as u128);
    if q > u64::MAX as u128 {
        Err(AmmError::ArithmeticOverflow)
    } else {
        Ok(q as u64)
    }
}

/// Integer square root by bisection over `[0, 2^64)`.
pub fn isqrt(x: u128) -> (r: u64)
    ensures
        is_isqrt(x as int, r as int),
        r == isqrt_spec(x as int),
{
    let mut lo: u128 = 0;
    let mut hi: u128 = 0x1_0000_0000_0000_0000;
    proof {
        assert(x < hi * hi) by (nonlinear_arith)
            requires hi == 0x1_0000_0000_0000_0000u128, x <= u128::MAX;
    }
    while hi - lo > 1
        invariant
            lo < hi <= 0x1_0000_0000_0000_0000u128,
            lo * lo <= x,
            x < hi * hi,
        decreases hi - lo,
    {
        let mid: u128 = lo + (hi - lo) / 2;
        assert(lo < mid < hi);
        proof {
            assert(mid * mid < 0x1_0000_0000_0000_0000u128 * 0x1_0000_0000_0000_0000u128)
                by (nonlinear_arith)
                requires mid < 0x1_0000_0000_0000_0000u128;
        }
        if mid * mid <= x {
            lo = mid;
        } else {
            hi = mid;
        }
    }
    assert(hi == lo + 1);
    proof {
        lemma_isqrt_unique(x as int, lo as int, isqrt_spec(x as int));
    }
    lo as u64
}

} // verus!
