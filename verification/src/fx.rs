//! Fixed-point scalars.
//!
//! A scalar holds `SCALE` raw ticks per real unit, in an `i64`. Every
//! operation is total: sums saturate at `FX_MAX` / `-FX_MAX`, products and
//! quotients are truncated toward zero, and the square root is the integer
//! square root of the scaled radicand. Each executable operation is proved
//! equal to its specification-level twin, so everything built on these
//! scalars composes into exact contracts.

use vstd::arithmetic::div_mod::{lemma_div_is_ordered, lemma_div_multiples_vanish, lemma_div_pos_is_pos};
use vstd::prelude::*;

verus! {

/// Raw ticks per real unit.
pub const SCALE: i64 = 100000;

/// Half a unit, in raw ticks.
pub const HALF_SCALE: i64 = 50000;

/// Largest scalar magnitude; the saturation bound (symmetric, so negation
/// never overflows).
pub const FX_MAX: i64 = 9_223_372_036_854_775_807;

/// Absolute value over the mathematical integers.
pub open spec fn iabs(v: int) -> int {
    if v >= 0 {
        v
    } else {
        -v
    }
}

/// Clamp to the symmetric scalar range `[-FX_MAX, FX_MAX]`.
pub open spec fn sat(v: int) -> int {
    if v > FX_MAX as int {
        FX_MAX as int
    } else if v < -(FX_MAX as int) {
        -(FX_MAX as int)
    } else {
        v
    }
}

/// Division truncated toward zero, as the hardware computes it.
pub open spec fn tdiv(p: int, d: int) -> int
    recommends
        d != 0,
{
    if (p >= 0) == (d >= 0) {
        iabs(p) / iabs(d)
    } else {
        -(iabs(p) / iabs(d))
    }
}

/// Saturating sum of two scalars.
pub open spec fn fx_add_spec(a: int, b: int) -> int {
    sat(a + b)
}

/// Saturating difference of two scalars.
pub open spec fn fx_sub_spec(a: int, b: int) -> int {
    sat(a - b)
}

/// Saturating negation of a scalar.
pub open spec fn fx_neg_spec(a: int) -> int {
    sat(-a)
}

/// Product of two scalars: the exact product, rescaled by a truncating
/// division and saturated.
pub open spec fn fx_mul_spec(a: int, b: int) -> int {
    sat(tdiv(a * b, SCALE as int))
}

/// Quotient of two scalars: the dividend is pre-scaled so the result is
/// again a scalar, then divided with truncation and saturated.
pub open spec fn fx_div_spec(a: int, b: int) -> int
    recommends
        b != 0,
{
    sat(tdiv(a * (SCALE as int), b))
}

/// `r` is the integer square root of `n`.
pub open spec fn is_isqrt(n: int, r: int) -> bool {
    0 <= r && r * r <= n && n < (r + 1) * (r + 1)
}

/// The integer square root (the unique `r` with `r² <= n < (r+1)²`).
pub open spec fn isqrt_spec(n: int) -> int {
    choose|r: int| #[trigger] is_isqrt(n, r)
}

/// Square root of a scalar: `sqrt(x / SCALE)` in real terms is
/// `isqrt(x * SCALE)` in raw ticks. Nonpositive radicands give zero.
pub open spec fn fx_sqrt_spec(x: int) -> int {
    if x <= 0 {
        0
    } else {
        isqrt_spec(x * (SCALE as int))
    }
}

/// An integer square root exists for every nonnegative radicand.
pub proof fn lemma_isqrt_exists(n: int)
    requires
        n >= 0,
    ensures
        exists|r: int| #[trigger] is_isqrt(n, r),
    decreases n,
{
    if n == 0 {
        assert(is_isqrt(0, 0));
    } else {
        lemma_isqrt_exists(n - 1);
        let r = choose|r: int| #[trigger] is_isqrt(n - 1, r);
        if (r + 1) * (r + 1) <= n {
            assert(n < (r + 2) * (r + 2)) by (nonlinear_arith)
                requires
                    n - 1 < (r + 1) * (r + 1),
                    (r + 1) * (r + 1) <= n,
                    r >= 0,
        ;
            assert(is_isqrt(n, r + 1));
        } else {
            assert(is_isqrt(n, r));
        }
    }
}

/// The integer square root is unique, so `isqrt_spec` is it.
pub proof fn lemma_isqrt_is(n: int, r: int)
    requires
        is_isqrt(n, r),
    ensures
        isqrt_spec(n) == r,
{
    assert(n >= 0) by (nonlinear_arith)
        requires
            0 <= r && r * r <= n,
        ;
    lemma_isqrt_exists(n);
    let s = isqrt_spec(n);
    assert(is_isqrt(n, s));
    assert(r == s) by (nonlinear_arith)
        requires
            0 <= r && r * r <= n && n < (r + 1) * (r + 1),
            0 <= s && s * s <= n && n < (s + 1) * (s + 1),
        ;
}

/// `isqrt_spec(n)` satisfies its defining inequalities.
pub proof fn lemma_isqrt_props(n: int)
    requires
        n >= 0,
    ensures
        is_isqrt(n, isqrt_spec(n)),
{
    lemma_isqrt_exists(n);
}

/// Saturating sum.
pub fn fx_add(a: i64, b: i64) -> (r: i64)
    ensures
        r as int == fx_add_spec(a as int, b as int),
{
    let s: i128 = a as i128 + b as i128;
    if s > FX_MAX as i128 {
        FX_MAX
    } else if s < -(FX_MAX as i128) {
        -FX_MAX
    } else {
        s as i64
    }
}

/// Saturating difference.
pub fn fx_sub(a: i64, b: i64) -> (r: i64)
    ensures
        r as int == fx_sub_spec(a as int, b as int),
{
    let s: i128 = a as i128 - b as i128;
    if s > FX_MAX as i128 {
        FX_MAX
    } else if s < -(FX_MAX as i128) {
        -FX_MAX
    } else {
        s as i64
    }
}

/// Saturating negation.
pub fn fx_neg(a: i64) -> (r: i64)
    ensures
        r as int == fx_neg_spec(a as int),
{
    if a == i64::MIN {
        FX_MAX
    } else {
        -a
    }
}

/// Scaled product, truncated toward zero and saturated.
pub fn fx_mul(a: i64, b: i64) -> (r: i64)
    ensures
        r as int == fx_mul_spec(a as int, b as int),
{
    proof {
        assert((a as int) * (b as int) <= 0x4000_0000_0000_0000_0000_0000_0000_0000
            && (a as int) * (b as int) >= -0x4000_0000_0000_0000_0000_0000_0000_0000) by (nonlinear_arith)
            requires
                -0x8000_0000_0000_0000 <= a as int <= 0x7fff_ffff_ffff_ffff,
                -0x8000_0000_0000_0000 <= b as int <= 0x7fff_ffff_ffff_ffff,
        ;
    }
    let p: i128 = (a as i128) * (b as i128);
    let m: u128 = if p < 0 {
        (-p) as u128
    } else {
        p as u128
    };
    let q: u128 = m / (SCALE as u128);
    if p < 0 {
        if q > FX_MAX as u128 {
            -FX_MAX
        } else {
            -(q as i64)
        }
    } else {
        if q > FX_MAX as u128 {
            FX_MAX
        } else {
            q as i64
        }
    }
}

/// Scaled quotient, truncated toward zero and saturated.
pub fn fx_div(a: i64, b: i64) -> (r: i64)
    requires
        b != 0,
    ensures
        r as int == fx_div_spec(a as int, b as int),
{
    proof {
        assert((a as int) * 100000 <= 0x7fff_ffff_ffff_ffff * 100000
            && (a as int) * 100000 >= -0x8000_0000_0000_0000 * 100000) by (nonlinear_arith)
            requires
                -0x8000_0000_0000_0000 <= a as int <= 0x7fff_ffff_ffff_ffff,
        ;
    }
    let p: i128 = (a as i128) * (SCALE as i128);
    let bn: bool = b < 0;
    let mb: u128 = if bn {
        (-(b as i128)) as u128
    } else {
        b as u128
    };
    let m: u128 = if p < 0 {
        (-p) as u128
    } else {
        p as u128
    };
    let q: u128 = m / mb;
    let neg: bool = (p < 0) != bn;
    if neg {
        if q > FX_MAX as u128 {
            -FX_MAX
        } else {
            -(q as i64)
        }
    } else {
        if q > FX_MAX as u128 {
            FX_MAX
        } else {
            q as i64
        }
    }
}

/// Integer square root by bisection.
fn isqrt_u128(n: u128) -> (r: u128)
    ensures
        is_isqrt(n as int, r as int),
{
    let mut lo: u128 = 0;
    let mut hi: u128 = 0x1_0000_0000_0000_0000;
    proof {
        assert((hi as int) * (hi as int) > n as int) by (nonlinear_arith)
            requires
                hi as int == 0x1_0000_0000_0000_0000,
                (n as int) < 0x1_0000_0000_0000_0000_0000_0000_0000_0000,
        ;
    }
    while lo + 1 < hi
        invariant
            lo < hi,
            hi <= 0x1_0000_0000_0000_0000,
            (lo as int) * (lo as int) <= n as int,
            (n as int) < (hi as int) * (hi as int),
        decreases hi - lo,
    {
        let mid: u128 = lo + (hi - lo) / 2;
        proof {
            assert((mid as int) * (mid as int) < 0x1_0000_0000_0000_0000_0000_0000_0000_0000
                && (mid as int) * (mid as int) >= 0) by (nonlinear_arith)
                requires
                    0 <= mid as int <= 0xffff_ffff_ffff_ffff,
        ;
        }
        if mid * mid <= n {
            lo = mid;
        } else {
            hi = mid;
        }
    }
    lo
}

/// Scalar square root.
pub fn fx_sqrt(x: i64) -> (r: i64)
    ensures
        r as int == fx_sqrt_spec(x as int),
        r >= 0,
{
    if x <= 0 {
        0
    } else {
        proof {
            assert((x as int) * 100000 <= 0x7fff_ffff_ffff_ffff * 100000) by (nonlinear_arith)
                requires
                    0 <= x as int <= 0x7fff_ffff_ffff_ffff,
            ;
        }
        let n: u128 = (x as u128) * (SCALE as u128);
        let r: u128 = isqrt_u128(n);
        proof {
            lemma_isqrt_is(n as int, r as int);
            assert(r as int <= 0x7fff_ffff_ffff_ffff) by (nonlinear_arith)
                requires
                    is_isqrt(n as int, r as int),
                    n as int <= 0x7fff_ffff_ffff_ffff * 100000,
        ;
        }
        r as i64
    }
}

/// The magnitude of a truncated quotient is the quotient of magnitudes.
pub proof fn lemma_tdiv_mag(p: int, d: int)
    requires
        d > 0,
    ensures
        iabs(tdiv(p, d)) == iabs(p) / d,
{
    lemma_div_pos_is_pos(iabs(p), d);
}

/// `|a·b| == |a|·b` for nonnegative `b`.
pub proof fn lemma_iabs_mul(a: int, b: int)
    requires
        b >= 0,
    ensures
        iabs(a * b) == iabs(a) * b,
{
    if a >= 0 {
        assert(a * b >= 0) by (nonlinear_arith)
            requires
                a >= 0,
                b >= 0,
        ;
    } else {
        assert(a * b <= 0 && -(a * b) == (-a) * b) by (nonlinear_arith)
            requires
                a < 0,
                b >= 0,
        ;
    }
}

/// A product of nonnegative scalars is nonnegative.
pub proof fn lemma_fx_mul_nonneg(a: int, b: int)
    requires
        a >= 0,
        b >= 0,
    ensures
        0 <= fx_mul_spec(a, b),
{
    assert(a * b >= 0) by (nonlinear_arith)
        requires
            a >= 0,
            b >= 0,
    ;
    lemma_div_pos_is_pos(a * b, SCALE as int);
}

/// Multiplying by at most one unit cannot grow a nonnegative scalar.
pub proof fn lemma_fx_mul_le(a: int, b: int)
    requires
        0 <= a <= FX_MAX as int,
        0 <= b <= SCALE as int,
    ensures
        0 <= fx_mul_spec(a, b) <= a,
{
    lemma_fx_mul_nonneg(a, b);
    assert(a * b <= a * (SCALE as int)) by (nonlinear_arith)
        requires
            0 <= a,
            b <= SCALE as int,
    ;
    lemma_div_is_ordered(a * b, a * (SCALE as int), SCALE as int);
    lemma_div_multiples_vanish(a, SCALE as int);
    assert(a * (SCALE as int) == (SCALE as int) * a);
}

/// Scaled multiplication is monotone on nonnegative scalars.
pub proof fn lemma_fx_mul_mono(a1: int, b1: int, a2: int, b2: int)
    requires
        0 <= a1 <= a2,
        0 <= b1 <= b2,
    ensures
        fx_mul_spec(a1, b1) <= fx_mul_spec(a2, b2),
{
    assert(a1 * b1 <= a2 * b2) by (nonlinear_arith)
        requires
            0 <= a1 <= a2,
            0 <= b1 <= b2,
    ;
    lemma_fx_mul_nonneg(a1, b1);
    lemma_div_is_ordered(a1 * b1, a2 * b2, SCALE as int);
}

/// Multiplying by one full unit is exact.
pub proof fn lemma_fx_mul_unit(a: int)
    requires
        -(FX_MAX as int) <= a <= FX_MAX as int,
    ensures
        fx_mul_spec(a, SCALE as int) == a,
        fx_mul_spec(SCALE as int, a) == a,
{
    if a >= 0 {
        lemma_div_multiples_vanish(a, SCALE as int);
        assert(a * (SCALE as int) == (SCALE as int) * a);
    } else {
        lemma_div_multiples_vanish(-a, SCALE as int);
        assert(iabs(a * (SCALE as int)) == (SCALE as int) * (-a)) by (nonlinear_arith)
            requires
                a < 0,
        ;
        assert(iabs((SCALE as int) * a) == (SCALE as int) * (-a)) by (nonlinear_arith)
            requires
                a < 0,
        ;
    }
}

} // verus!
