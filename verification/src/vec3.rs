//! Points and vectors of three fixed-point components.

use crate::fixed::{
    div_trunc, div_wide, floor_sqrt, fx_div, fx_mul, is_floor_sqrt, lemma_div_trunc,
    lemma_floor_sqrt_exists, lemma_fx_mul_bound, lemma_magnitude_mul, magnitude, mul_wide,
    sqrt_floor, LIMIT, ONE,
};
use vstd::prelude::*;

verus! {

/// A vector of three integers: what a `Vec3` stands for in contracts.
pub struct V3 {
    pub x: int,
    pub y: int,
    pub z: int,
}

impl V3 {
    /// The vector without length.
    pub open spec fn zero() -> V3 {
        V3 { x: 0, y: 0, z: 0 }
    }

    /// Whether every component is in the range of an `i64`.
    pub open spec fn fits(self) -> bool {
        &&& i64::MIN <= self.x <= i64::MAX
        &&& i64::MIN <= self.y <= i64::MAX
        &&& i64::MIN <= self.z <= i64::MAX
    }

    /// Whether no component is larger in magnitude than `bound`.
    pub open spec fn within(self, bound: int) -> bool {
        magnitude(self.x) <= bound && magnitude(self.y) <= bound && magnitude(self.z) <= bound
    }

    /// The sum of two vectors.
    pub open spec fn plus(self, other: V3) -> V3 {
        V3 { x: self.x + other.x, y: self.y + other.y, z: self.z + other.z }
    }

    /// The difference of two vectors.
    pub open spec fn minus(self, other: V3) -> V3 {
        V3 { x: self.x - other.x, y: self.y - other.y, z: self.z - other.z }
    }

    /// The vector that points the other way.
    pub open spec fn reverse(self) -> V3 {
        V3 { x: -self.x, y: -self.y, z: -self.z }
    }

    /// The vector scaled by the fixed-point factor `s`.
    pub open spec fn scale(self, s: int) -> V3 {
        V3 { x: fx_mul(s, self.x), y: fx_mul(s, self.y), z: fx_mul(s, self.z) }
    }

    /// The vector divided by the positive whole number `d`.
    pub open spec fn shrink(self, d: int) -> V3 {
        V3 { x: div_trunc(self.x, d), y: div_trunc(self.y, d), z: div_trunc(self.z, d) }
    }

    /// The cross product before it is scaled back to a fixed-point vector.
    pub open spec fn outer(self, other: V3) -> V3 {
        V3 {
            x: self.y * other.z - self.z * other.y,
            y: self.z * other.x - self.x * other.z,
            z: self.x * other.y - self.y * other.x,
        }
    }

    /// The fixed-point cross product.
    pub open spec fn cross(self, other: V3) -> V3 {
        self.outer(other).shrink(ONE as int)
    }

    /// The dot product, not scaled back.
    pub open spec fn dot(self, other: V3) -> int {
        self.x * other.x + self.y * other.y + self.z * other.z
    }

    /// The sum of the squares of the components.
    pub open spec fn norm_squared(self) -> int {
        self.x * self.x + self.y * self.y + self.z * self.z
    }

    /// The length, rounded down.
    pub open spec fn length(self) -> int {
        floor_sqrt(self.norm_squared())
    }

    /// The largest magnitude of a component.
    pub open spec fn peak(self) -> int {
        let xy = if magnitude(self.x) >= magnitude(self.y) {
            magnitude(self.x)
        } else {
            magnitude(self.y)
        };
        if xy >= magnitude(self.z) {
            xy
        } else {
            magnitude(self.z)
        }
    }

    /// The vector times the whole number `f`.
    pub open spec fn times(self, f: int) -> V3 {
        V3 { x: self.x * f, y: self.y * f, z: self.z * f }
    }

    /// The vector, made longer by a power of two until its largest component
    /// is at least `LIMIT`. The direction stays the same, and the length is
    /// then known to many more digits than the components of a short vector
    /// would give.
    pub open spec fn stretched(self) -> V3 {
        self.times(stretch(self.peak()))
    }

    /// The vector of length 1 in the same direction, for a vector that is
    /// not zero: the stretched vector divided by its length.
    pub open spec fn unit(self) -> V3 {
        let s = self.stretched();
        V3 { x: fx_div(s.x, s.length()), y: fx_div(s.y, s.length()), z: fx_div(s.z, s.length()) }
    }
}

/// The power of two that brings the magnitude `m` up to `LIMIT` or beyond:
/// the smallest one, and 1 for a magnitude that is already there or is zero.
pub open spec fn stretch(m: int) -> int
    decreases
            (if m < LIMIT {
                LIMIT - m
            } else {
                0
            }),
{
    if 0 < m < LIMIT {
        2 * stretch(2 * m)
    } else {
        1
    }
}

/// A vector in space, or a point given by its position vector.
#[derive(Clone, Copy, Debug, PartialEq, Eq, Structural)]
pub struct Vec3 {
    pub x: i64,
    pub y: i64,
    pub z: i64,
}

impl View for Vec3 {
    type V = V3;

    open spec fn view(&self) -> V3 {
        V3 { x: self.x as int, y: self.y as int, z: self.z as int }
    }
}

/// Stretching never shrinks.
pub proof fn lemma_stretch_positive(m: int)
    ensures
        stretch(m) >= 1,
    decreases
            (if m < LIMIT {
                LIMIT - m
            } else {
                0
            }),
{
    if 0 < m < LIMIT {
        lemma_stretch_positive(2 * m);
    }
}

/// A vector that is not zero has a stretched length that is not zero, so
/// its unit vector is defined, with components of at most 1.
pub proof fn lemma_unit_defined(v: V3)
    requires
        v != V3::zero(),
    ensures
        v.stretched() != V3::zero(),
        v.stretched().length() > 0,
        v.unit().within(ONE as int),
{
    let f = stretch(v.peak());
    lemma_stretch_positive(v.peak());
    let s = v.stretched();
    assert(s != V3::zero()) by (nonlinear_arith)
        requires
            f >= 1,
            s.x == v.x * f,
            s.y == v.y * f,
            s.z == v.z * f,
            v.x != 0 || v.y != 0 || v.z != 0,
    ;
    let n = s.norm_squared();
    assert(n >= 0) by (nonlinear_arith)
        requires
            n == s.x * s.x + s.y * s.y + s.z * s.z,
    ;
    lemma_floor_sqrt_exists(n);
    lemma_length_bounds(s, s.length());
    lemma_unit_component(s.x, s.length());
    lemma_unit_component(s.y, s.length());
    lemma_unit_component(s.z, s.length());
}

/// A stretched magnitude is at least `LIMIT`.
pub proof fn lemma_stretch_reaches(m: int)
    requires
        m > 0,
    ensures
        m * stretch(m) >= LIMIT,
    decreases
            (if m < LIMIT {
                LIMIT - m
            } else {
                0
            }),
{
    if m < LIMIT {
        lemma_stretch_reaches(2 * m);
        assert(m * (2 * stretch(2 * m)) == (2 * m) * stretch(2 * m)) by (nonlinear_arith);
    }
}

/// A unit vector has length 1, but for the rounding of its components: the
/// sum of their squares differs from 1 by less than 2^-29.
pub proof fn lemma_unit_length(v: V3)
    requires
        v != V3::zero(),
    ensures
        ONE * ONE - 6 * ONE - 3 <= v.unit().norm_squared() <= ONE * ONE + 48,
{
    let s = v.stretched();
    let len = s.length();
    let u = v.unit();
    lemma_unit_defined(v);
    let n = s.norm_squared();
    assert(n >= 0) by (nonlinear_arith)
        requires
            n == s.x * s.x + s.y * s.y + s.z * s.z,
    ;
    lemma_floor_sqrt_exists(n);
    lemma_length_bounds(s, len);
    // the longest component of the stretched vector reaches `LIMIT`, and so does the length
    let f = stretch(v.peak());
    lemma_stretch_positive(v.peak());
    lemma_stretch_reaches(v.peak());
    lemma_magnitude_mul(v.x, f);
    lemma_magnitude_mul(v.y, f);
    lemma_magnitude_mul(v.z, f);
    // each component of the unit vector brackets its exact value
    lemma_unit_square(s.x, len);
    lemma_unit_square(s.y, len);
    lemma_unit_square(s.z, len);
    let q = u.norm_squared();
    let below = q * (len * len);
    let exact = (ONE * ONE) * n;
    let above = (q + 6 * ONE + 3) * (len * len);
    assert(below <= exact && exact < above) by (nonlinear_arith)
        requires
            below == q * (len * len),
            exact == (ONE * ONE) * n,
            above == (q + 6 * ONE + 3) * (len * len),
            q == u.x * u.x + u.y * u.y + u.z * u.z,
            n == s.x * s.x + s.y * s.y + s.z * s.z,
            (u.x * u.x) * (len * len) <= (ONE * ONE) * (s.x * s.x),
            (u.y * u.y) * (len * len) <= (ONE * ONE) * (s.y * s.y),
            (u.z * u.z) * (len * len) <= (ONE * ONE) * (s.z * s.z),
            (ONE * ONE) * (s.x * s.x) < (u.x * u.x + 2 * ONE + 1) * (len * len),
            (ONE * ONE) * (s.y * s.y) < (u.y * u.y + 2 * ONE + 1) * (len * len),
            (ONE * ONE) * (s.z * s.z) < (u.z * u.z + 2 * ONE + 1) * (len * len),
    ;
    lemma_root_brackets(q, n, len);
}

/// One component `c` of a vector of rounded length `len`, and the component
/// `u` of its unit vector: `u * len` is `c`, but for the rounding of `u`.
proof fn lemma_unit_square(c: int, len: int)
    requires
        len > 0,
        magnitude(c) <= len,
    ensures
        ({
            let u = fx_div(c, len);
            &&& (u * u) * (len * len) <= (ONE * ONE) * (c * c)
            &&& (ONE * ONE) * (c * c) < (u * u + 2 * ONE + 1) * (len * len)
        }),
{
    let u = fx_div(c, len);
    let a = magnitude(c);
    let q = magnitude(u);
    lemma_unit_component(c, len);
    lemma_magnitude_mul(c, ONE as int);
    lemma_div_trunc(c * ONE, len);
    assert(q * q == u * u) by (nonlinear_arith)
        requires
            q == u || q == -u,
    ;
    assert(a * a == c * c) by (nonlinear_arith)
        requires
            a == c || a == -c,
    ;
    let lo = q * len;
    let mid = a * ONE;
    let hi = (q + 1) * len;
    assert(lo * lo <= mid * mid && mid * mid < hi * hi) by (nonlinear_arith)
        requires
            0 <= lo <= mid,
            mid < hi,
    ;
    assert(lo * lo == (q * q) * (len * len)) by (nonlinear_arith)
        requires
            lo == q * len,
    ;
    assert(mid * mid == (ONE * ONE) * (a * a)) by (nonlinear_arith)
        requires
            mid == a * ONE,
    ;
    assert(hi * hi == (q * q + 2 * q + 1) * (len * len)) by (nonlinear_arith)
        requires
            hi == (q + 1) * len,
    ;
    assert((q * q + 2 * q + 1) * (len * len) <= (q * q + 2 * ONE + 1) * (len * len))
        by (nonlinear_arith)
        requires
            0 <= q <= ONE,
    ;
}

/// From the brackets of the squares to the bounds on the squared length.
proof fn lemma_root_brackets(q: int, n: int, len: int)
    requires
        len >= LIMIT,
        len * len <= n < (len + 1) * (len + 1),
        q * (len * len) <= (ONE * ONE) * n,
        (ONE * ONE) * n < (q + 6 * ONE + 3) * (len * len),
    ensures
        ONE * ONE - 6 * ONE - 3 <= q <= ONE * ONE + 48,
{
    let sq = len * len;
    let one = ONE * ONE;
    assert(sq >= LIMIT * len && sq > 0) by (nonlinear_arith)
        requires
            sq == len * len,
            len >= LIMIT,
    ;
    // below: one * sq <= one * n < (q + 6 * ONE + 3) * sq
    assert(one * sq <= one * n) by (nonlinear_arith)
        requires
            sq <= n,
            one >= 0,
    ;
    assert(one < q + 6 * ONE + 3) by (nonlinear_arith)
        requires
            one * sq < (q + 6 * ONE + 3) * sq,
            sq > 0,
    ;
    // above: q * sq <= one * n < one * (sq + 2 * len + 1)
    assert((len + 1) * (len + 1) == sq + 2 * len + 1) by (nonlinear_arith)
        requires
            sq == len * len,
    ;
    assert(one * n <= one * (sq + 2 * len)) by (nonlinear_arith)
        requires
            n < sq + 2 * len + 1,
            one >= 0,
    ;
    if q >= one + 49 {
        assert((one + 49) * sq <= q * sq) by (nonlinear_arith)
            requires
                one + 49 <= q,
                sq >= 0,
        ;
        assert(49 * sq <= one * (2 * len)) by (nonlinear_arith)
            requires
                (one + 49) * sq <= one * (sq + 2 * len),
        ;
        assert((49 * LIMIT) * len > (2 * one) * len) by (nonlinear_arith)
            requires
                49 * LIMIT > 2 * one,
                len > 0,
        ;
    }
}

/// The sum of squares is not negative, and no component is longer than the
/// vector, also after the length has been rounded down.
pub proof fn lemma_length_bounds(v: V3, len: int)
    requires
        is_floor_sqrt(v.norm_squared(), len),
    ensures
        v.within(len),
        len == 0 <==> v == V3::zero(),
{
    let n = v.norm_squared();
    assert(v.x * v.x >= 0 && v.y * v.y >= 0 && v.z * v.z >= 0) by (nonlinear_arith);
    lemma_component_below_root(v.x, n, len);
    lemma_component_below_root(v.y, n, len);
    lemma_component_below_root(v.z, n, len);
    if v == V3::zero() {
        assert(len == 0) by (nonlinear_arith)
            requires
                0 <= len,
                len * len <= 0,
        ;
    }
}

proof fn lemma_component_below_root(c: int, n: int, len: int)
    requires
        c * c <= n,
        is_floor_sqrt(n, len),
    ensures
        magnitude(c) <= len,
{
    let m = magnitude(c);
    assert(m * m == c * c) by (nonlinear_arith)
        requires
            m == c || m == -c,
    ;
    if m > len {
        assert((len + 1) * (len + 1) <= m * m) by (nonlinear_arith)
            requires
                0 <= len,
                len + 1 <= m,
        ;
    }
}

proof fn lemma_unit_component(c: int, len: int)
    requires
        len > 0,
        magnitude(c) <= len,
    ensures
        magnitude(fx_div(c, len)) <= ONE,
{
    lemma_magnitude_mul(c, ONE as int);
    lemma_div_trunc(c * ONE, len);
    let m = magnitude(c);
    assert((m * ONE) / len <= ONE) by (nonlinear_arith)
        requires
            0 <= m <= len,
            len > 0,
    ;
}

impl Vec3 {
    /// The vector with the given components.
    pub fn new(x: i64, y: i64, z: i64) -> (v: Vec3)
        ensures
            v.x == x,
            v.y == y,
            v.z == z,
    {
        Vec3 { x, y, z }
    }

    /// Whether every component is at most `LIMIT` in magnitude.
    pub fn in_limit(&self) -> (ok: bool)
        ensures
            ok == self@.within(LIMIT as int),
    {
        -LIMIT <= self.x && self.x <= LIMIT && -LIMIT <= self.y && self.y <= LIMIT && -LIMIT
            <= self.z && self.z <= LIMIT
    }

    /// The difference `self - other`.
    pub fn minus(&self, other: &Vec3) -> (d: Vec3)
        requires
            self@.minus(other@).fits(),
        ensures
            d@ == self@.minus(other@),
    {
        Vec3 { x: self.x - other.x, y: self.y - other.y, z: self.z - other.z }
    }

    /// The fixed-point cross product `self x other`.
    pub fn cross(&self, other: &Vec3) -> (c: Vec3)
        requires
            self@.cross(other@).fits(),
        ensures
            c@ == self@.cross(other@),
    {
        let x = div_wide(mul_wide(self.y, other.z) - mul_wide(self.z, other.y), ONE as i128);
        let y = div_wide(mul_wide(self.z, other.x) - mul_wide(self.x, other.z), ONE as i128);
        let z = div_wide(mul_wide(self.x, other.y) - mul_wide(self.y, other.x), ONE as i128);
        Vec3 { x: x as i64, y: y as i64, z: z as i64 }
    }

    /// The length, rounded down.
    pub fn length(&self) -> (len: u64)
        ensures
            len == self@.length(),
            is_floor_sqrt(self@.norm_squared(), len as int),
            self@.within(len as int),
            len == 0 <==> self@ == V3::zero(),
    {
        proof {
            assert(self.x * self.x >= 0 && self.y * self.y >= 0 && self.z * self.z >= 0)
                by (nonlinear_arith);
        }
        let xx: u128 = mul_wide(self.x, self.x) as u128;
        let yy: u128 = mul_wide(self.y, self.y) as u128;
        let zz: u128 = mul_wide(self.z, self.z) as u128;
        let len = sqrt_floor(xx + yy + zz);
        proof {
            lemma_length_bounds(self@, len as int);
        }
        len
    }

    /// The largest magnitude of a component.
    pub fn peak(&self) -> (m: u64)
        ensures
            m == self@.peak(),
            m == 0 <==> self@ == V3::zero(),
    {
        let ax: u64 = size_of_number(self.x);
        let ay: u64 = size_of_number(self.y);
        let az: u64 = size_of_number(self.z);
        let xy: u64 = if ax >= ay {
            ax
        } else {
            ay
        };
        if xy >= az {
            xy
        } else {
            az
        }
    }

    /// The vector of length 1 in the same direction. The result is `None`
    /// exactly for the zero vector, which has no direction.
    pub fn unit(&self) -> (u: Option<Vec3>)
        ensures
            u is None <==> self@ == V3::zero(),
            u matches Some(v) ==> v@ == self@.unit() && v@.within(ONE as int),
    {
        let peak = self.peak();
        if peak == 0 {
            return None;
        }
        let mut factor: i64 = 1;
        let mut reach: u64 = peak;
        while reach < LIMIT as u64
            invariant
                0 < peak <= reach,
                1 <= factor,
                reach == peak * factor,
                factor == 1 || reach < 2 * LIMIT,
                stretch(peak as int) == factor * stretch(reach as int),
            decreases
                    (if reach < LIMIT {
                        LIMIT - reach
                    } else {
                        0
                    }),
        {
            proof {
                let f = factor as int;
                let r = reach as int;
                assert(peak * (f * 2) == (peak * f) * 2) by (nonlinear_arith);
                assert(f * (2 * stretch(2 * r)) == (f * 2) * stretch(2 * r)) by (nonlinear_arith);
                assert(f <= peak * f) by (nonlinear_arith)
                    requires
                        peak >= 1,
                        f >= 1,
                ;
            }
            reach = reach * 2;
            factor = factor * 2;
        }
        proof {
            lemma_stretched_component(self.x as int, peak as int, factor as int);
            lemma_stretched_component(self.y as int, peak as int, factor as int);
            lemma_stretched_component(self.z as int, peak as int, factor as int);
        }
        let long = Vec3 {
            x: mul_wide(self.x, factor) as i64,
            y: mul_wide(self.y, factor) as i64,
            z: mul_wide(self.z, factor) as i64,
        };
        proof {
            lemma_unit_defined(self@);
        }
        let len = long.length();
        proof {
            lemma_unit_component(long.x as int, len as int);
            lemma_unit_component(long.y as int, len as int);
            lemma_unit_component(long.z as int, len as int);
        }
        let x = div_wide(mul_wide(long.x, ONE), len as i128);
        let y = div_wide(mul_wide(long.y, ONE), len as i128);
        let z = div_wide(mul_wide(long.z, ONE), len as i128);
        Some(Vec3 { x: x as i64, y: y as i64, z: z as i64 })
    }
}

/// The magnitude of a number.
fn size_of_number(a: i64) -> (m: u64)
    ensures
        m == magnitude(a as int),
{
    if a >= 0 {
        a as u64
    } else {
        (-(a as i128)) as u64
    }
}

proof fn lemma_stretched_component(c: int, peak: int, factor: int)
    requires
        magnitude(c) <= peak,
        factor >= 1,
    ensures
        magnitude(c * factor) <= peak * factor,
{
    lemma_magnitude_mul(c, factor);
    let m = magnitude(c);
    assert(m * factor <= peak * factor) by (nonlinear_arith)
        requires
            0 <= m <= peak,
            factor >= 1,
    ;
}

/// The cross product of two vectors with components of at most `2` has
/// components of at most `8`.
pub proof fn lemma_cross_bound(p: V3, q: V3)
    requires
        p.within(2 * ONE),
        q.within(2 * ONE),
    ensures
        p.cross(q).within(8 * ONE),
{
    lemma_cross_component(p.y, q.z, p.z, q.y);
    lemma_cross_component(p.z, q.x, p.x, q.z);
    lemma_cross_component(p.x, q.y, p.y, q.x);
}

proof fn lemma_cross_component(a: int, b: int, c: int, d: int)
    requires
        magnitude(a) <= 2 * ONE,
        magnitude(b) <= 2 * ONE,
        magnitude(c) <= 2 * ONE,
        magnitude(d) <= 2 * ONE,
    ensures
        magnitude(div_trunc(a * b - c * d, ONE as int)) <= 8 * ONE,
{
    lemma_fx_mul_bound(a, b, 0x2_0000_0000, 0x2_0000_0000);
    lemma_fx_mul_bound(c, d, 0x2_0000_0000, 0x2_0000_0000);
    lemma_div_trunc(a * b - c * d, ONE as int);
}

} // verus!
