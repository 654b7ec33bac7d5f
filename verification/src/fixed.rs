//! Saturating fixed-point arithmetic.
//!
//! A value `v: i64` stands for the real number `v / ONE`. Results that do not
//! fit are clamped to `[-LIMIT, LIMIT]`; quotients are rounded toward zero, so
//! every operation is odd: negating the inputs negates the result.

use vstd::prelude::*;
use vstd::arithmetic::div_mod::lemma_fundamental_div_mod;
use vstd::arithmetic::div_mod::lemma_mod_bound;

verus! {

/// The fixed-point representation of `1.0`.
pub const ONE: i64 = 1_000_000;

/// The largest magnitude a fixed-point value can take.
pub const LIMIT: i64 = 0x7fff_ffff_ffff_ffff;

/// Clamps `x` into `[-LIMIT, LIMIT]`.
pub open spec fn sat(x: int) -> int {
    if x > LIMIT {
        LIMIT as int
    } else if x < -LIMIT {
        -(LIMIT as int)
    } else {
        x
    }
}

/// The quotient `a / b` rounded toward zero, for a positive divisor.
pub open spec fn trunc_div(a: int, b: int) -> int {
    if a >= 0 {
        a / b
    } else {
        -((-a) / b)
    }
}

/// `a * b / c`, rounded toward zero and saturated.
pub open spec fn mul_div_spec(a: int, b: int, c: int) -> int {
    sat(trunc_div(a * b, c))
}

/// The fixed-point product of `a` and `b`.
pub open spec fn mul_spec(a: int, b: int) -> int {
    mul_div_spec(a, b, ONE as int)
}

/// The fixed-point quotient of `a` and `b`.
pub open spec fn div_spec(a: int, b: int) -> int {
    mul_div_spec(a, ONE as int, b)
}

/// `r` is the integer square root of `n`.
pub open spec fn is_sqrt(n: int, r: int) -> bool {
    0 <= r && r * r <= n && n < (r + 1) * (r + 1)
}

/// The integer square root of `n`: the largest `r` with `r * r <= n`.
pub open spec fn isqrt(n: int) -> int {
    choose|r: int| is_sqrt(n, r)
}

/// The length of the vector `(x, y)`, rounded down and saturated.
pub open spec fn hypot_spec(x: int, y: int) -> int {
    sat(isqrt(x * x + y * y))
}

/// At most one number is the integer square root of `n`.
pub proof fn lemma_sqrt_unique(n: int, r1: int, r2: int)
    requires
        is_sqrt(n, r1),
        is_sqrt(n, r2),
    ensures
        r1 == r2,
{
    if r1 < r2 {
        assert((r1 + 1) * (r1 + 1) <= r2 * r2) by (nonlinear_arith)
            requires
                0 <= r1,
                r1 + 1 <= r2,
        ;
    } else if r2 < r1 {
        assert((r2 + 1) * (r2 + 1) <= r1 * r1) by (nonlinear_arith)
            requires
                0 <= r2,
                r2 + 1 <= r1,
        ;
    }
}

/// Every natural number has an integer square root.
pub proof fn lemma_sqrt_exists(n: int)
    requires
        0 <= n,
    ensures
        is_sqrt(n, isqrt(n)),
    decreases n,
{
    if n == 0 {
        assert(is_sqrt(0, 0));
    } else {
        lemma_sqrt_exists(n - 1);
        let r = isqrt(n - 1);
        assert((r + 1) * (r + 1) < (r + 2) * (r + 2)) by (nonlinear_arith)
            requires
                0 <= r,
        ;
        if (r + 1) * (r + 1) <= n {
            assert(is_sqrt(n, r + 1));
        } else {
            assert(is_sqrt(n, r));
        }
    }
}

/// Whatever satisfies the defining inequalities is the integer square root.
pub proof fn lemma_sqrt_is(n: int, r: int)
    requires
        is_sqrt(n, r),
    ensures
        isqrt(n) == r,
{
    lemma_sqrt_unique(n, r, isqrt(n));
}

/// Rounding toward zero commutes with negation.
pub proof fn lemma_trunc_div_odd(a: int, b: int)
    requires
        b > 0,
    ensures
        trunc_div(-a, b) == -trunc_div(a, b),
{
    if a == 0 {
        assert(0int / b == 0) by (nonlinear_arith)
            requires
                b > 0,
        ;
    }
}

/// Saturation commutes with negation.
pub proof fn lemma_sat_odd(x: int)
    ensures
        sat(-x) == -sat(x),
{
}

/// `mul_div_spec` is odd in its first argument.
pub proof fn lemma_mul_div_odd(a: int, b: int, c: int)
    requires
        c > 0,
    ensures
        mul_div_spec(-a, b, c) == -mul_div_spec(a, b, c),
{
    assert((-a) * b == -(a * b)) by (nonlinear_arith);
    lemma_trunc_div_odd(a * b, c);
}

/// Rounding toward zero misses the exact quotient by less than one, and the
/// rounded quotient lies between zero and the dividend.
pub proof fn lemma_trunc_div_error(x: int, c: int)
    requires
        c > 0,
    ensures
        -c < x - c * trunc_div(x, c) < c,
        x >= 0 ==> 0 <= trunc_div(x, c) <= x && c * trunc_div(x, c) <= x,
        x <= 0 ==> x <= trunc_div(x, c) <= 0 && x <= c * trunc_div(x, c),
{
    let m = if x >= 0 {
        x
    } else {
        -x
    };
    let d = m / c;
    lemma_fundamental_div_mod(m, c);
    lemma_mod_bound(m, c);
    assert(0 <= d <= m) by (nonlinear_arith)
        requires
            c >= 1,
            m >= 0,
            m == c * d + m % c,
            0 <= m % c < c,
    ;
    assert(c * (-d) == -(c * d)) by (nonlinear_arith);
}

/// The product of zero and anything is zero.
pub proof fn lemma_mul_zero(k: int, c: int)
    requires
        c > 0,
    ensures
        mul_div_spec(0, k, c) == 0,
{
    assert(0 * k == 0) by (nonlinear_arith);
    lemma_trunc_div_error(0, c);
}

/// The square root of zero is zero.
pub proof fn lemma_sqrt_zero()
    ensures
        isqrt(0) == 0,
        hypot_spec(0, 0) == 0,
{
    assert(is_sqrt(0, 0));
    lemma_sqrt_is(0, 0);
}

/// Clamps a wide intermediate result back into the fixed-point range.
pub fn saturate(x: i128) -> (r: i64)
    ensures
        r as int == sat(x as int),
{
    if x > LIMIT as i128 {
        LIMIT
    } else if x < -(LIMIT as i128) {
        -LIMIT
    } else {
        x as i64
    }
}

/// Saturating sum.
pub fn fx_add(a: i64, b: i64) -> (r: i64)
    ensures
        r as int == sat(a + b),
{
    saturate(a as i128 + b as i128)
}

/// Saturating difference.
pub fn fx_sub(a: i64, b: i64) -> (r: i64)
    ensures
        r as int == sat(a - b),
{
    saturate(a as i128 - b as i128)
}

/// Saturating negation.
pub fn fx_neg(a: i64) -> (r: i64)
    ensures
        r as int == sat(-a),
{
    saturate(-(a as i128))
}

/// Computes `a * b / c`, rounded toward zero and saturated.
pub fn mul_div(a: i64, b: i64, c: i64) -> (r: i64)
    requires
        c > 0,
    ensures
        r as int == mul_div_spec(a as int, b as int, c as int),
{
    assert(-0x4000_0000_0000_0000_0000_0000_0000_0000 <= a * b
        <= 0x4000_0000_0000_0000_0000_0000_0000_0000) by (nonlinear_arith)
        requires
            -0x8000_0000_0000_0000 <= a <= 0x8000_0000_0000_0000,
            -0x8000_0000_0000_0000 <= b <= 0x8000_0000_0000_0000,
    ;
    let p: i128 = (a as i128) * (b as i128);
    let d: i128 = c as i128;
    if p >= 0 {
        saturate(p / d)
    } else {
        let q: i128 = (-p) / d;
        saturate(-q)
    }
}

/// Computes `a * b / c`, rounded toward zero and saturated, for a divisor
/// that may be wider than a fixed-point number.
pub fn mul_div_wide(a: i64, b: i64, c: u64) -> (r: i64)
    requires
        c > 0,
    ensures
        r as int == mul_div_spec(a as int, b as int, c as int),
{
    assert(-0x4000_0000_0000_0000_0000_0000_0000_0000 <= a * b
        <= 0x4000_0000_0000_0000_0000_0000_0000_0000) by (nonlinear_arith)
        requires
            -0x8000_0000_0000_0000 <= a <= 0x8000_0000_0000_0000,
            -0x8000_0000_0000_0000 <= b <= 0x8000_0000_0000_0000,
    ;
    let p: i128 = (a as i128) * (b as i128);
    let d: i128 = c as i128;
    if p >= 0 {
        saturate(p / d)
    } else {
        let q: i128 = (-p) / d;
        saturate(-q)
    }
}

/// Fixed-point product.
pub fn fx_mul(a: i64, b: i64) -> (r: i64)
    ensures
        r as int == mul_spec(a as int, b as int),
{
    mul_div(a, b, ONE)
}

/// Fixed-point quotient, for a positive divisor.
pub fn fx_div(a: i64, b: i64) -> (r: i64)
    requires
        b > 0,
    ensures
        r as int == div_spec(a as int, b as int),
{
    mul_div(a, ONE, b)
}

/// Integer square root by bisection.
pub fn int_sqrt(n: u128) -> (r: u64)
    ensures
        r as int == isqrt(n as int),
{
    let mut lo: u128 = 0;
    let mut hi: u128 = 0x1_0000_0000_0000_0000;
    while hi - lo > 1
        invariant
            lo < hi <= 0x1_0000_0000_0000_0000,
            lo * lo <= n,
            n < hi * hi,
        decreases hi - lo,
    {
        let mid: u128 = lo + (hi - lo) / 2;
        assert(mid * mid <= 0xffff_ffff_ffff_ffff * 0xffff_ffff_ffff_ffff) by (nonlinear_arith)
            requires
                0 <= mid <= 0xffff_ffff_ffff_ffff,
        ;
        if mid * mid <= n {
            lo = mid;
        } else {
            hi = mid;
        }
    }
    proof {
        lemma_sqrt_is(n as int, lo as int);
    }
    lo as u64
}

/// The length of the vector `(x, y)`, rounded down.
pub fn hypot_exact(x: i64, y: i64) -> (r: u64)
    ensures
        r as int == isqrt(x * x + y * y),
{
    assert(0 <= x * x <= 0x4000_0000_0000_0000_0000_0000_0000_0000) by (nonlinear_arith)
        requires
            -0x8000_0000_0000_0000 <= x <= 0x8000_0000_0000_0000,
    ;
    assert(0 <= y * y <= 0x4000_0000_0000_0000_0000_0000_0000_0000) by (nonlinear_arith)
        requires
            -0x8000_0000_0000_0000 <= y <= 0x8000_0000_0000_0000,
    ;
    let xx: i128 = (x as i128) * (x as i128);
    let yy: i128 = (y as i128) * (y as i128);
    let n: u128 = xx as u128 + yy as u128;
    int_sqrt(n)
}

/// The length of the vector `(x, y)`, rounded down and saturated.
pub fn hypot(x: i64, y: i64) -> (r: i64)
    ensures
        r as int == hypot_spec(x as int, y as int),
        r >= 0,
{
    let root: u64 = hypot_exact(x, y);
    proof {
        assert(0 <= x * x + y * y) by (nonlinear_arith);
        lemma_sqrt_exists(x * x + y * y);
    }
    saturate(root as i128)
}

} // verus!
