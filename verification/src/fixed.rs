//! Fixed-point numbers.
//!
//! Every length, coordinate and factor of the camera geometry is a signed
//! fixed-point number with 32 fractional bits, kept in an `i64`: the integer
//! `n` stands for the real number `n / 2^32`. Products and quotients are formed
//! exactly in 128 bits and rounded toward zero, so that negating an operand
//! negates the result.

use vstd::prelude::*;

verus! {

/// The number 1.
pub const ONE: i64 = 0x1_0000_0000;

/// The number 1/2.
pub const HALF: i64 = 0x8000_0000;

/// Largest magnitude that a quantity of the camera geometry may have: 2^28.
/// Sums of a few such quantities still fit in an `i64`.
pub const LIMIT: i64 = 0x1000_0000_0000_0000;

/// The quotient `n / d` rounded toward zero, for a positive divisor.
pub open spec fn div_trunc(n: int, d: int) -> int {
    if n >= 0 {
        n / d
    } else {
        -((-n) / d)
    }
}

/// The fixed-point product of two fixed-point numbers.
pub open spec fn fx_mul(a: int, b: int) -> int {
    div_trunc(a * b, ONE as int)
}

/// The fixed-point quotient of two fixed-point numbers, for a positive divisor.
pub open spec fn fx_div(a: int, b: int) -> int {
    div_trunc(a * ONE, b)
}

/// Whether a quantity is small enough to take part in the geometry.
pub open spec fn in_limit(a: int) -> bool {
    -LIMIT <= a <= LIMIT
}

/// The magnitude of a number.
pub open spec fn magnitude(a: int) -> int {
    if a >= 0 {
        a
    } else {
        -a
    }
}

/// Whether `r` is the square root of `n` rounded down.
pub open spec fn is_floor_sqrt(n: int, r: int) -> bool {
    0 <= r && r * r <= n < (r + 1) * (r + 1)
}

/// The square root of `n` rounded down.
pub open spec fn floor_sqrt(n: int) -> int {
    choose|r: int| is_floor_sqrt(n, r)
}

/// A number has at most one rounded-down square root.
pub proof fn lemma_floor_sqrt_unique(n: int, r: int)
    requires
        is_floor_sqrt(n, r),
    ensures
        floor_sqrt(n) == r,
{
    let s = floor_sqrt(n);
    if s < r {
        assert((s + 1) * (s + 1) <= r * r) by (nonlinear_arith)
            requires
                0 <= s,
                s + 1 <= r,
        ;
    } else if r < s {
        assert((r + 1) * (r + 1) <= s * s) by (nonlinear_arith)
            requires
                0 <= r,
                r + 1 <= s,
        ;
    }
}

/// Every number that is not negative has a rounded-down square root.
pub proof fn lemma_floor_sqrt_exists(n: int)
    requires
        n >= 0,
    ensures
        is_floor_sqrt(n, floor_sqrt(n)),
    decreases n,
{
    if n == 0 {
        assert(is_floor_sqrt(0, 0));
    } else {
        lemma_floor_sqrt_exists(n - 1);
        let r = floor_sqrt(n - 1);
        if (r + 1) * (r + 1) <= n {
            assert(n < (r + 2) * (r + 2)) by (nonlinear_arith)
                requires
                    (r + 1) * (r + 1) == n,
                    r >= 0,
            ;
            assert(is_floor_sqrt(n, r + 1));
        } else {
            assert(is_floor_sqrt(n, r));
        }
    }
}

/// Rounding toward zero is odd, never grows the magnitude, and stays within
/// one divisor of the exact quotient.
pub proof fn lemma_div_trunc(n: int, d: int)
    requires
        d > 0,
    ensures
        div_trunc(-n, d) == -div_trunc(n, d),
        magnitude(div_trunc(n, d)) == magnitude(n) / d,
        magnitude(div_trunc(n, d)) * d <= magnitude(n) < (magnitude(div_trunc(n, d)) + 1) * d,
        n >= 0 ==> div_trunc(n, d) >= 0,
        n <= 0 ==> div_trunc(n, d) <= 0,
{
    let m = magnitude(n);
    let q = m / d;
    assert(0 <= q && q * d <= m < (q + 1) * d) by (nonlinear_arith)
        requires
            d > 0,
            m >= 0,
            q == m / d,
    ;
}

/// A quotient times its divisor misses the dividend by less than the divisor.
pub proof fn lemma_rounding_rest(n: int, d: int)
    requires
        d >= 1,
    ensures
        magnitude(n - div_trunc(n, d) * d) <= d - 1,
{
    lemma_div_trunc(n, d);
    let q = div_trunc(n, d);
    let m = magnitude(q);
    assert((m + 1) * d == m * d + d) by (nonlinear_arith);
    if n < 0 {
        assert(q * d == -(m * d)) by (nonlinear_arith)
            requires
                q == -m,
        ;
    }
}

/// A whole multiple of the divisor is divided without rounding.
pub proof fn lemma_whole_quotient(c: int, n: int)
    requires
        n >= 1,
    ensures
        div_trunc(c * n, n) == c,
{
    lemma_div_trunc(c * n, n);
    if c >= 0 {
        assert(c * n >= 0 && (c * n) / n == c) by (nonlinear_arith)
            requires
                c >= 0,
                n >= 1,
        ;
    } else {
        assert(c * n < 0 && (-(c * n)) / n == -c) by (nonlinear_arith)
            requires
                c < 0,
                n >= 1,
        ;
    }
}

/// A quotient rounded toward zero is no larger in magnitude than a bound on
/// the dividend.
pub proof fn lemma_div_trunc_bound(n: int, d: int, bound: int)
    requires
        d >= 1,
        magnitude(n) <= bound,
    ensures
        magnitude(div_trunc(n, d)) <= bound,
        magnitude(div_trunc(n, d)) * d <= bound,
{
    lemma_div_trunc(n, d);
    let q = magnitude(div_trunc(n, d));
    assert(q <= q * d) by (nonlinear_arith)
        requires
            q >= 0,
            d >= 1,
    ;
}

/// The magnitude of a product is the product of the magnitudes.
pub proof fn lemma_magnitude_mul(a: int, b: int)
    ensures
        magnitude(a * b) == magnitude(a) * magnitude(b),
{
    assert(magnitude(a * b) == magnitude(a) * magnitude(b)) by (nonlinear_arith);
}

/// A fixed-point product is bounded by the product of bounds on its factors.
pub proof fn lemma_fx_mul_bound(a: int, b: int, bound_a: int, bound_b: int)
    requires
        magnitude(a) <= bound_a,
        magnitude(b) <= bound_b,
    ensures
        magnitude(a * b) <= bound_a * bound_b,
        magnitude(fx_mul(a, b)) <= (bound_a * bound_b) / (ONE as int),
        magnitude(fx_mul(a, b)) * ONE <= bound_a * bound_b,
{
    lemma_magnitude_mul(a, b);
    let ma = magnitude(a);
    let mb = magnitude(b);
    assert(ma * mb <= bound_a * bound_b) by (nonlinear_arith)
        requires
            0 <= ma <= bound_a,
            0 <= mb <= bound_b,
    ;
    lemma_div_trunc(a * b, ONE as int);
    let m = magnitude(a * b);
    let top = bound_a * bound_b;
    assert(m / (ONE as int) <= top / (ONE as int)) by (nonlinear_arith)
        requires
            0 <= m <= top,
    ;
}

/// Scaling by a factor of magnitude at most 1 does not grow a number.
pub proof fn lemma_fx_mul_shrinks(a: int, b: int)
    requires
        magnitude(b) <= ONE,
    ensures
        magnitude(fx_mul(a, b)) <= magnitude(a),
        magnitude(fx_mul(b, a)) <= magnitude(a),
{
    lemma_fx_mul_bound(a, b, magnitude(a), ONE as int);
    lemma_fx_mul_bound(b, a, ONE as int, magnitude(a));
    let m = magnitude(a);
    assert((m * ONE) / (ONE as int) == m) by (nonlinear_arith)
        requires
            m >= 0,
    ;
    assert((ONE * m) / (ONE as int) == m) by (nonlinear_arith)
        requires
            m >= 0,
    ;
}

/// The quotient of two 128-bit numbers, rounded toward zero.
pub fn div_wide(n: i128, d: i128) -> (q: i128)
    requires
        d > 0,
    ensures
        q == div_trunc(n as int, d as int),
{
    n / d
}

/// The exact product of two 64-bit numbers.
pub fn mul_wide(a: i64, b: i64) -> (p: i128)
    ensures
        p == a * b,
        -0x3fff_ffff_ffff_ffff_8000_0000_0000_0000 <= p
            <= 0x4000_0000_0000_0000_0000_0000_0000_0000,
{
    proof {
        lemma_fx_mul_bound(a as int, b as int, 0x8000_0000_0000_0000, 0x8000_0000_0000_0000);
        assert(a * b >= -0x8000_0000_0000_0000 * 0x7fff_ffff_ffff_ffff) by (nonlinear_arith)
            requires
                -0x8000_0000_0000_0000 <= a <= 0x7fff_ffff_ffff_ffff,
                -0x8000_0000_0000_0000 <= b <= 0x7fff_ffff_ffff_ffff,
        ;
    }
    (a as i128) * (b as i128)
}

/// The fixed-point product, exact but for the rounding toward zero.
pub fn fixed_mul(a: i64, b: i64) -> (r: i128)
    ensures
        r == fx_mul(a as int, b as int),
        magnitude(r as int) <= 0x4000_0000_0000_0000_0000_0000,
{
    let p = mul_wide(a, b);
    proof {
        lemma_fx_mul_bound(a as int, b as int, 0x8000_0000_0000_0000, 0x8000_0000_0000_0000);
    }
    div_wide(p, ONE as i128)
}

/// Brings a wide result back to 64 bits. The result is `None` exactly when
/// the value is larger in magnitude than `LIMIT`.
pub fn narrow(v: i128) -> (r: Option<i64>)
    ensures
        r is Some <==> in_limit(v as int),
        r matches Some(n) ==> n == v,
{
    if -(LIMIT as i128) <= v && v <= LIMIT as i128 {
        Some(v as i64)
    } else {
        None
    }
}

/// The square root of `n` rounded down.
pub fn sqrt_floor(n: u128) -> (r: u64)
    ensures
        r == floor_sqrt(n as int),
        is_floor_sqrt(n as int, r as int),
{
    let mut lo: u128 = 0;
    let mut hi: u128 = 0x1_0000_0000_0000_0000;
    while hi - lo > 1
        invariant
            lo < hi <= 0x1_0000_0000_0000_0000,
            lo * lo <= n < hi * hi,
        decreases hi - lo,
    {
        let mid: u128 = lo + (hi - lo) / 2;
        assert(mid * mid <= 0xffff_ffff_ffff_ffff * 0xffff_ffff_ffff_ffff) by (nonlinear_arith)
            requires
                0 <= mid <= 0xffff_ffff_ffff_ffffu128,
        ;
        if mid * mid <= n {
            lo = mid;
        } else {
            hi = mid;
        }
    }
    proof {
        lemma_floor_sqrt_unique(n as int, lo as int);
    }
    lo as u64
}

} // verus!
