//! How exact the frame of a view is.
//!
//! The three unit vectors of a view, `w` back along the line of sight, `u` to
//! the right and `v` up, are rounded to fixed-point numbers. They are
//! therefore not exactly of length 1 and not exactly at right angles to one
//! another. The laws of this module bound how far off they can be: by a few
//! units of 2^-32, whatever the view is.

use crate::fixed::{
    div_trunc, lemma_magnitude_mul, lemma_rounding_rest, lemma_whole_quotient, magnitude, ONE,
};
use crate::geometry::{degenerate, target_point, view_geometry, world_up, Optics};
use crate::vec3::{lemma_unit_defined, lemma_unit_length, stretch, V3};
use vstd::prelude::*;

verus! {

/// Whether a squared length is 1 but for the rounding of a unit vector.
pub open spec fn near_one(squared: int) -> bool {
    ONE * ONE - 6 * ONE - 3 <= squared <= ONE * ONE + 48
}

/// The cross product of two vectors stands at right angles to both, and its
/// squared length is the product of their squared lengths less the square of
/// their dot product.
pub proof fn lemma_outer(a: V3, b: V3)
    ensures
        a.outer(b).dot(a) == 0,
        a.outer(b).dot(b) == 0,
        a.outer(b).norm_squared() == a.norm_squared() * b.norm_squared() - a.dot(b) * a.dot(b),
{
    let c = a.outer(b);
    assert(c.x * a.x + c.y * a.y + c.z * a.z == 0) by (nonlinear_arith)
        requires
            c.x == a.y * b.z - a.z * b.y,
            c.y == a.z * b.x - a.x * b.z,
            c.z == a.x * b.y - a.y * b.x,
    ;
    assert(c.x * b.x + c.y * b.y + c.z * b.z == 0) by (nonlinear_arith)
        requires
            c.x == a.y * b.z - a.z * b.y,
            c.y == a.z * b.x - a.x * b.z,
            c.z == a.x * b.y - a.y * b.x,
    ;
    lemma_lagrange(a.x, a.y, a.z, b.x, b.y, b.z);
}

/// The square of a product is the product of the squares.
proof fn lemma_square_of_product(p: int, q: int)
    ensures
        (p * q) * (p * q) == (p * p) * (q * q),
{
    assert((p * q) * (p * q) == (p * p) * (q * q)) by (nonlinear_arith);
}

/// The square of a difference.
proof fn lemma_square_of_difference(p: int, q: int)
    ensures
        (p - q) * (p - q) == p * p - 2 * (p * q) + q * q,
{
    assert((p - q) * (p - q) == p * p - 2 * (p * q) + q * q) by (nonlinear_arith);
}

/// The square of a sum of three.
proof fn lemma_square_of_sum(p: int, q: int, r: int)
    ensures
        (p + q + r) * (p + q + r) == p * p + q * q + r * r + 2 * (p * q) + 2 * (r * p) + 2 * (q
            * r),
{
    assert((p + q + r) * (p + q + r) == p * p + q * q + r * r + 2 * (p * q) + 2 * (r * p) + 2 * (q
        * r)) by (nonlinear_arith);
}

/// Four factors can be paired either way.
proof fn lemma_swap_pairs(p: int, q: int, r: int, s: int)
    ensures
        (p * q) * (r * s) == (p * s) * (r * q),
{
    assert((p * q) * (r * s) == (p * s) * (r * q)) by (nonlinear_arith);
}

proof fn lemma_lagrange(a: int, b: int, c: int, x: int, y: int, z: int)
    ensures
        (b * z - c * y) * (b * z - c * y) + (c * x - a * z) * (c * x - a * z) + (a * y - b * x) * (a
            * y - b * x) == (a * a + b * b + c * c) * (x * x + y * y + z * z) - (a * x + b * y + c
            * z) * (a * x + b * y + c * z),
{
    let ax = a * x;
    let ay = a * y;
    let az = a * z;
    let bx = b * x;
    let by = b * y;
    let bz = b * z;
    let cx = c * x;
    let cy = c * y;
    let cz = c * z;
    lemma_swap_pairs(b, z, c, y);
    lemma_swap_pairs(c, x, a, z);
    lemma_swap_pairs(a, y, b, x);
    assert(bz * cy == by * cz);
    assert(cx * az == cz * ax);
    assert(ay * bx == ax * by);
    lemma_square_of_difference(bz, cy);
    lemma_square_of_difference(cx, az);
    lemma_square_of_difference(ay, bx);
    lemma_square_of_sum(ax, by, cz);
    lemma_square_of_product(a, x);
    lemma_square_of_product(a, y);
    lemma_square_of_product(a, z);
    lemma_square_of_product(b, x);
    lemma_square_of_product(b, y);
    lemma_square_of_product(b, z);
    lemma_square_of_product(c, x);
    lemma_square_of_product(c, y);
    lemma_square_of_product(c, z);
    let aa = a * a;
    let bb = b * b;
    let cc = c * c;
    let xx = x * x;
    let yy = y * y;
    let zz = z * z;
    assert((aa + bb + cc) * (xx + yy + zz) == aa * xx + aa * yy + aa * zz + bb * xx + bb * yy + bb
        * zz + cc * xx + cc * yy + cc * zz) by (nonlinear_arith);
}

/// A product is bounded by the product of bounds on its factors.
proof fn lemma_product_bound(p: int, q: int, bound_p: int, bound_q: int)
    requires
        magnitude(p) <= bound_p,
        magnitude(q) <= bound_q,
    ensures
        magnitude(p * q) <= bound_p * bound_q,
{
    lemma_magnitude_mul(p, q);
    let mp = magnitude(p);
    let mq = magnitude(q);
    assert(mp * mq <= bound_p * bound_q) by (nonlinear_arith)
        requires
            0 <= mp <= bound_p,
            0 <= mq <= bound_q,
    ;
}

/// A vector that stands at right angles to `w` still does so, but for
/// rounding, when it is brought to length 1.
pub proof fn lemma_unit_keeps_right_angle(side: V3, w: V3)
    requires
        side != V3::zero(),
        side.dot(w) == 0,
        w.within(ONE as int),
    ensures
        magnitude(side.unit().dot(w)) <= 3 * ONE,
{
    let s = side.stretched();
    let f = stretch(side.peak());
    let len = s.length();
    let u = side.unit();
    lemma_unit_defined(side);
    lemma_rounding_rest(s.x * ONE, len);
    lemma_rounding_rest(s.y * ONE, len);
    lemma_rounding_rest(s.z * ONE, len);
    let rx = s.x * ONE - u.x * len;
    let ry = s.y * ONE - u.y * len;
    let rz = s.z * ONE - u.z * len;
    assert(s.x * ONE == side.x * (ONE * f)) by (nonlinear_arith)
        requires
            s.x == side.x * f,
    ;
    assert(s.y * ONE == side.y * (ONE * f)) by (nonlinear_arith)
        requires
            s.y == side.y * f,
    ;
    assert(s.z * ONE == side.z * (ONE * f)) by (nonlinear_arith)
        requires
            s.z == side.z * f,
    ;
    lemma_product_bound(rx, w.x, len - 1, ONE as int);
    lemma_product_bound(ry, w.y, len - 1, ONE as int);
    lemma_product_bound(rz, w.z, len - 1, ONE as int);
    let d = u.dot(w);
    let exact = side.dot(w);
    lemma_scaled_part(u.x, w.x, len, side.x, ONE * f, rx);
    lemma_scaled_part(u.y, w.y, len, side.y, ONE * f, ry);
    lemma_scaled_part(u.z, w.z, len, side.z, ONE * f, rz);
    lemma_spread(u.x * w.x, u.y * w.y, u.z * w.z, len);
    lemma_spread(side.x * w.x, side.y * w.y, side.z * w.z, ONE * f);
    assert(d * len == (ONE * f) * exact - (rx * w.x + ry * w.y + rz * w.z));
    assert((ONE * f) * exact == 0) by (nonlinear_arith)
        requires
            exact == 0,
    ;
    lemma_magnitude_mul(d, len);
    let m = magnitude(d);
    assert(m <= 3 * ONE) by (nonlinear_arith)
        requires
            m >= 0,
            len > 0,
            m * len <= 3 * ((len - 1) * ONE),
    ;
}

/// The fixed-point cross product of two vectors of length 1 or less stands
/// at right angles to both, but for rounding.
pub proof fn lemma_cross_keeps_right_angles(a: V3, b: V3)
    requires
        a.within(ONE as int),
        b.within(ONE as int),
    ensures
        magnitude(a.cross(b).dot(a)) <= 3 * ONE,
        magnitude(a.cross(b).dot(b)) <= 3 * ONE,
{
    lemma_outer(a, b);
    lemma_shrunk_dot(a.outer(b), a);
    lemma_shrunk_dot(a.outer(b), b);
}

proof fn lemma_shrunk_dot(o: V3, w: V3)
    requires
        o.dot(w) == 0,
        w.within(ONE as int),
    ensures
        magnitude(o.shrink(ONE as int).dot(w)) <= 3 * ONE,
{
    let c = o.shrink(ONE as int);
    lemma_rounding_rest(o.x, ONE as int);
    lemma_rounding_rest(o.y, ONE as int);
    lemma_rounding_rest(o.z, ONE as int);
    let rx = o.x - c.x * ONE;
    let ry = o.y - c.y * ONE;
    let rz = o.z - c.z * ONE;
    assert(o.x * 1 == o.x && o.y * 1 == o.y && o.z * 1 == o.z);
    lemma_product_bound(rx, w.x, ONE - 1, ONE as int);
    lemma_product_bound(ry, w.y, ONE - 1, ONE as int);
    lemma_product_bound(rz, w.z, ONE - 1, ONE as int);
    let d = c.dot(w);
    let exact = o.dot(w);
    lemma_scaled_part(c.x, w.x, ONE as int, o.x, 1, rx);
    lemma_scaled_part(c.y, w.y, ONE as int, o.y, 1, ry);
    lemma_scaled_part(c.z, w.z, ONE as int, o.z, 1, rz);
    lemma_spread(c.x * w.x, c.y * w.y, c.z * w.z, ONE as int);
    assert(d * ONE == exact - (rx * w.x + ry * w.y + rz * w.z));
    lemma_magnitude_mul(d, ONE as int);
}

/// One coordinate of a rounded vector: where `u * len` misses `side * k` by
/// `r`, the product `u * w * len` misses `side * w * k` by `r * w`.
proof fn lemma_scaled_part(u: int, w: int, len: int, side: int, k: int, r: int)
    requires
        r == side * k - u * len,
    ensures
        (u * w) * len == (side * w) * k - r * w,
{
    assert((u * w) * len == (side * w) * k - r * w) by (nonlinear_arith)
        requires
            r == side * k - u * len,
    ;
}

/// A factor spreads over a sum of three.
proof fn lemma_spread(p: int, q: int, r: int, k: int)
    ensures
        (p + q + r) * k == p * k + q * k + r * k,
        k * (p + q + r) == p * k + q * k + r * k,
{
    assert((p + q + r) * k == p * k + q * k + r * k) by (nonlinear_arith);
    assert(k * (p + q + r) == p * k + q * k + r * k) by (nonlinear_arith);
}

/// Whether a squared length is 1 but for the rounding of a cross product of
/// unit vectors.
pub open spec fn nearly_one(squared: int) -> bool {
    ONE * ONE - 24 * ONE <= squared <= ONE * ONE + 13 * ONE
}

/// The fixed-point cross product of two unit vectors that stand at right
/// angles to one another is a unit vector again, but for rounding.
pub proof fn lemma_cross_length(a: V3, b: V3)
    requires
        a.within(ONE as int),
        b.within(ONE as int),
        near_one(a.norm_squared()),
        near_one(b.norm_squared()),
        magnitude(a.dot(b)) <= 3 * ONE,
    ensures
        nearly_one(a.cross(b).norm_squared()),
{
    let o = a.outer(b);
    let c = a.cross(b);
    lemma_outer(a, b);
    // the exact cross product
    let aa = a.norm_squared();
    let bb = b.norm_squared();
    let d = a.dot(b);
    let low: int = 18446744047939747837;
    let high: int = 18446744073709551664;
    assert(low == ONE * ONE - 6 * ONE - 3 && high == ONE * ONE + 48);
    assert(340282365970200513845604878675146178569 <= aa * bb <= 340282366920938465234262038507885168896) by (nonlinear_arith)
        requires
            18446744047939747837 <= aa <= 18446744073709551664,
            18446744047939747837 <= bb <= 18446744073709551664,
    ;
    lemma_product_bound(d, d, 12884901888, 12884901888);
    assert(d * d >= 0) by (nonlinear_arith);
    // its components and what is lost of them
    lemma_outer_component(a.y, b.z, a.z, b.y);
    lemma_outer_component(a.z, b.x, a.x, b.z);
    lemma_outer_component(a.x, b.y, a.y, b.x);
    lemma_lost_square(o.x, c.x);
    lemma_lost_square(o.y, c.y);
    lemma_lost_square(o.z, c.z);
    lemma_spread(c.x * c.x, c.y * c.y, c.z * c.z, ONE * ONE);
    let unit: int = 18446744073709551616;
    assert(ONE * ONE == unit);
    assert(d * d <= 9 * unit);
    assert(o.norm_squared() == aa * bb - d * d);
    let scaled = c.norm_squared() * unit;
    assert(scaled == (c.x * c.x) * unit + (c.y * c.y) * unit + (c.z * c.z) * unit);
    assert(scaled <= 340282367871676415239413392941256804611);
    assert(scaled >= 340282365019462563729773059773747429385);
    assert((unit + 13 * ONE) * unit == 340282367950904576148810996147839565824);
    assert((unit - 24 * ONE) * unit == 340282365019462563121030505186713403392);
}

proof fn lemma_outer_component(p: int, q: int, r: int, s: int)
    requires
        magnitude(p) <= ONE,
        magnitude(q) <= ONE,
        magnitude(r) <= ONE,
        magnitude(s) <= ONE,
    ensures
        magnitude(p * q - r * s) <= 2 * (ONE * ONE),
{
    lemma_product_bound(p, q, ONE as int, ONE as int);
    lemma_product_bound(r, s, ONE as int, ONE as int);
}

/// One coordinate `o` of the exact cross product and what is left of it
/// after scaling, `c`: the squares differ by little.
proof fn lemma_lost_square(o: int, c: int)
    requires
        c == div_trunc(o, ONE as int),
        magnitude(o) <= 2 * (ONE * ONE),
    ensures
        o * o - 4 * (ONE * ONE) * (ONE - 1) <= (c * c) * (ONE * ONE) <= o * o + 4 * (ONE * ONE) * (
        ONE - 1) + (ONE - 1) * (ONE - 1),
{
    lemma_rounding_rest(o, ONE as int);
    let r = o - c * ONE;
    lemma_product_bound(o, r, 2 * (ONE * ONE), ONE - 1);
    lemma_product_bound(r, r, ONE - 1, ONE - 1);
    assert(r * r >= 0) by (nonlinear_arith);
    lemma_square_of_difference(o, r);
    lemma_square_of_product(c, ONE as int);
    assert(c * ONE == o - r);
}

/// The three unit vectors of a view have length 1 and stand at right angles
/// to one another, but for rounding: the squares of their lengths differ from
/// 1, and their dot products from 0, by less than 2^-27.
pub proof fn lemma_frame(eye: V3, look_at: V3, o: Optics)
    requires
        !degenerate(eye, look_at),
    ensures
        ({
            let g = view_geometry(eye, look_at, o);
            &&& near_one(g.w.norm_squared())
            &&& near_one(g.u.norm_squared())
            &&& nearly_one(g.v.norm_squared())
            &&& magnitude(g.u.dot(g.w)) <= 3 * ONE
            &&& magnitude(g.v.dot(g.w)) <= 3 * ONE
            &&& magnitude(g.v.dot(g.u)) <= 3 * ONE
        }),
{
    let g = view_geometry(eye, look_at, o);
    let sight = eye.minus(look_at);
    assert(sight != V3::zero());
    lemma_unit_defined(sight);
    lemma_unit_length(sight);
    let w = g.w;
    let side = world_up().cross(w);
    lemma_whole_quotient(w.z, ONE as int);
    lemma_whole_quotient(-w.x, ONE as int);
    assert(world_up().outer(w) == (V3 { x: w.z * ONE, y: 0, z: (-w.x) * ONE })) by (nonlinear_arith)
        requires
            world_up() == (V3 { x: 0, y: ONE as int, z: 0 }),
            world_up().outer(w) == (V3 {
                x: world_up().y * w.z - world_up().z * w.y,
                y: world_up().z * w.x - world_up().x * w.z,
                z: world_up().x * w.y - world_up().y * w.x,
            }),
    ;
    assert(side == (V3 { x: w.z, y: 0, z: -w.x }));
    assert(side.dot(w) == 0) by (nonlinear_arith)
        requires
            side.dot(w) == side.x * w.x + side.y * w.y + side.z * w.z,
            side.x == w.z,
            side.y == 0,
            side.z == -w.x,
    ;
    lemma_unit_defined(side);
    lemma_unit_length(side);
    lemma_unit_keeps_right_angle(side, w);
    lemma_cross_keeps_right_angles(w, g.u);
    assert(w.dot(g.u) == g.u.dot(w)) by (nonlinear_arith)
        requires
            w.dot(g.u) == w.x * g.u.x + w.y * g.u.y + w.z * g.u.z,
            g.u.dot(w) == g.u.x * w.x + g.u.y * w.y + g.u.z * w.z,
    ;
    lemma_cross_length(w, g.u);
}

/// The dot product of a vector of rounded quotients: where every component
/// of `m` is divided by `k`, the dot product with `w`, taken `k` times, misses
/// the dot product of `m` itself by less than `k` for each unit of `w`.
pub proof fn lemma_rounded_dot(m: V3, k: int, w: V3, bound: int)
    requires
        k >= 1,
        w.within(bound),
    ensures
        magnitude(m.shrink(k).dot(w) * k - m.dot(w)) <= 3 * ((k - 1) * bound),
{
    let y = m.shrink(k);
    lemma_rounding_rest(m.x, k);
    lemma_rounding_rest(m.y, k);
    lemma_rounding_rest(m.z, k);
    let rx = m.x - y.x * k;
    let ry = m.y - y.y * k;
    let rz = m.z - y.z * k;
    assert(m.x * 1 == m.x && m.y * 1 == m.y && m.z * 1 == m.z);
    lemma_product_bound(rx, w.x, k - 1, bound);
    lemma_product_bound(ry, w.y, k - 1, bound);
    lemma_product_bound(rz, w.z, k - 1, bound);
    lemma_scaled_part(y.x, w.x, k, m.x, 1, rx);
    lemma_scaled_part(y.y, w.y, k, m.y, 1, ry);
    lemma_scaled_part(y.z, w.z, k, m.z, 1, rz);
    lemma_spread(y.x * w.x, y.y * w.y, y.z * w.z, k);
    assert((m.x * w.x) * 1 == m.x * w.x && (m.y * w.y) * 1 == m.y * w.y && (m.z * w.z) * 1 == m.z
        * w.z);
    assert(y.dot(w) * k == m.dot(w) - (rx * w.x + ry * w.y + rz * w.z));
}

/// The dot product of a scaled vector: the dot product of `a` scaled by `s`
/// with `w` is `s` times the dot product of `a` with `w`, but for rounding.
pub proof fn lemma_scaled_dot(a: V3, s: int, w: V3, bound: int)
    requires
        w.within(bound),
    ensures
        magnitude(a.scale(s).dot(w) * ONE - s * a.dot(w)) <= 3 * ((ONE - 1) * bound),
{
    let m = V3 { x: s * a.x, y: s * a.y, z: s * a.z };
    assert(a.scale(s) == m.shrink(ONE as int));
    lemma_rounded_dot(m, ONE as int, w, bound);
    lemma_triple(s, a.x, w.x);
    lemma_triple(s, a.y, w.y);
    lemma_triple(s, a.z, w.z);
    lemma_spread(a.x * w.x, a.y * w.y, a.z * w.z, s);
}

/// Three factors can be grouped either way.
proof fn lemma_triple(s: int, a: int, w: int)
    ensures
        (s * a) * w == (a * w) * s,
{
    assert((s * a) * w == (a * w) * s) by (nonlinear_arith);
}

/// A factor spreads over the parts of one coordinate of a ray.
proof fn lemma_ray_part(
    e: int,
    d: int,
    f: int,
    vu: int,
    vv: int,
    du: int,
    dv: int,
    kc: int,
    kr: int,
    w: int,
)
    requires
        e == d * 2 + f * 2 + vu + vv - du * kc - dv * kr,
    ensures
        e * w == 2 * (d * w) + 2 * (f * w) + vu * w + vv * w - (du * w) * kc - (dv * w) * kr,
{
    let tc = du * kc;
    let tr = dv * kr;
    let twice = d + f;
    let edges = vu + vv;
    let steps = tc + tr;
    assert(e == twice * 2 + edges - steps);
    assert(e * w == 2 * (twice * w) + edges * w - steps * w) by (nonlinear_arith)
        requires
            e == twice * 2 + edges - steps,
    ;
    assert(twice * w == d * w + f * w) by (nonlinear_arith)
        requires
            twice == d + f,
    ;
    assert(edges * w == vu * w + vv * w) by (nonlinear_arith)
        requires
            edges == vu + vv,
    ;
    assert(steps * w == tc * w + tr * w) by (nonlinear_arith)
        requires
            steps == tc + tr,
    ;
    assert(tc * w == (du * w) * kc) by (nonlinear_arith)
        requires
            tc == du * kc,
    ;
    assert(tr * w == (dv * w) * kr) by (nonlinear_arith)
        requires
            tr == dv * kr,
    ;
}

/// A number whose multiple is small is small.
proof fn lemma_cancel(x: int, k: int, bound: int)
    requires
        k >= 1,
        magnitude(x * k) <= bound * k,
    ensures
        magnitude(x) <= bound,
{
    lemma_magnitude_mul(x, k);
    let m = magnitude(x);
    assert(m <= bound) by (nonlinear_arith)
        requires
            k >= 1,
            m * k <= bound * k,
    ;
}

/// A unit vector scaled by a length reaches that length along itself, but
/// for rounding.
proof fn lemma_reach_along(w: V3, focus: int)
    requires
        w.within(ONE as int),
        near_one(w.norm_squared()),
        focus >= 0,
    ensures
        magnitude(w.scale(focus).dot(w) - focus * ONE) <= 7 * focus + 3 * ONE,
{
    let f = w.scale(focus);
    lemma_scaled_dot(w, focus, w, ONE as int);
    let a = w.dot(w);
    assert(a == w.norm_squared());
    assert(focus * 18446744047939747837 <= focus * a <= focus * 18446744073709551664)
        by (nonlinear_arith)
        requires
            focus >= 0,
            18446744047939747837 <= a <= 18446744073709551664,
    ;
    let x = f.dot(w) - focus * ONE;
    let fw = f.dot(w);
    assert(x * ONE == fw * ONE - focus * 18446744073709551616) by (nonlinear_arith)
        requires
            x == fw - focus * 4294967296,
            ONE == 4294967296,
    ;
    assert((7 * focus + 3 * ONE) * ONE == 7 * focus * 4294967296 + 3 * 18446744073709551616)
        by (nonlinear_arith)
        requires
            ONE == 4294967296,
    ;
    lemma_cancel(x, ONE as int, 7 * focus + 3 * ONE);
}

/// A vector that stands at right angles to `w`, scaled by `s`, is short
/// along `w`.
proof fn lemma_short_along(a: V3, s: int, w: V3)
    requires
        w.within(ONE as int),
        magnitude(a.dot(w)) <= 3 * ONE,
    ensures
        magnitude(a.scale(s).dot(w)) <= 3 * magnitude(s) + 3 * ONE,
{
    lemma_scaled_dot(a, s, w, ONE as int);
    lemma_product_bound(s, a.dot(w), magnitude(s), 12884901888);
    let y = a.scale(s).dot(w);
    let bound = 3 * magnitude(s) + 3 * ONE;
    assert(bound * ONE == 3 * magnitude(s) * 4294967296 + 3 * 18446744073709551616)
        by (nonlinear_arith)
        requires
            bound == 3 * magnitude(s) + 3 * ONE,
            ONE == 4294967296,
    ;
    lemma_cancel(y, ONE as int, bound);
}

/// The dot product with `w` of the ray through a pixel, from its parts.
proof fn lemma_ray_dot(e: V3, d: V3, f: V3, vu: V3, vv: V3, du: V3, dv: V3, kc: int, kr: int, w: V3)
    requires
        e == d.times(2).minus(f.reverse().times(2)).plus(vu).plus(vv).minus(du.times(kc)).minus(
            dv.times(kr),
        ),
    ensures
        e.dot(w) == 2 * d.dot(w) + 2 * f.dot(w) + vu.dot(w) + vv.dot(w) - du.dot(w) * kc - dv.dot(
            w,
        ) * kr,
{
    lemma_ray_part(e.x, d.x, f.x, vu.x, vv.x, du.x, dv.x, kc, kr, w.x);
    lemma_ray_part(e.y, d.y, f.y, vu.y, vv.y, du.y, dv.y, kc, kr, w.y);
    lemma_ray_part(e.z, d.z, f.z, vu.z, vv.z, du.z, dv.z, kc, kr, w.z);
    lemma_spread(du.x * w.x, du.y * w.y, du.z * w.z, kc);
    lemma_spread(dv.x * w.x, dv.y * w.y, dv.z * w.z, kr);
}

/// Every pixel lies in the plane that is in focus. The ray from the eye to
/// the centre of a pixel reaches as far along the line of sight as the focus
/// distance, but for rounding: its dot product with `w` is the focus distance
/// with the opposite sign, and twice the two differ by no more than 14 times
/// the focus distance, 9 times either side of the viewport, and 6 for every
/// row and column and 33 more, all in units of 2^-32 of a length.
pub proof fn lemma_ray_reaches_focus_plane(eye: V3, look_at: V3, o: Optics, row: int, col: int)
    requires
        !degenerate(eye, look_at),
        o.width >= 1,
        o.aspect_num >= 1,
        o.aspect_den >= 1,
        o.focus_dist >= 0,
        0 <= col < o.width,
        0 <= row < view_geometry(eye, look_at, o).height,
    ensures
        ({
            let g = view_geometry(eye, look_at, o);
            let ray = target_point(g.pixel_start, g.delta_u, g.delta_v, row, col, 0, 0).minus(
                eye,
            );
            magnitude(2 * ray.dot(g.w) + 2 * (o.focus_dist * ONE)) <= 14 * o.focus_dist + 9
                * magnitude(g.view_width) + 9 * magnitude(g.view_height) + (33 + 6 * (o.width
                + g.height)) * ONE
        }),
{
    let g = view_geometry(eye, look_at, o);
    let d = target_point(g.pixel_start, g.delta_u, g.delta_v, row, col, 0, 0).minus(eye);
    let w = g.w;
    let f = w.scale(o.focus_dist);
    lemma_frame(eye, look_at, o);
    lemma_unit_defined(eye.minus(look_at));
    lemma_reach_along(w, o.focus_dist);
    lemma_short_along(g.u, g.view_width, w);
    assert(g.v.reverse().dot(w) == -g.v.dot(w)) by (nonlinear_arith)
        requires
            g.v.reverse().dot(w) == (-g.v.x) * w.x + (-g.v.y) * w.y + (-g.v.z) * w.z,
            g.v.dot(w) == g.v.x * w.x + g.v.y * w.y + g.v.z * w.z,
    ;
    lemma_short_along(g.v.reverse(), g.view_height, w);
    let vu = g.viewport_u.dot(w);
    let vv = g.viewport_v.dot(w);
    crate::geometry::lemma_image_height(o.width, o.aspect_num, o.aspect_den);
    lemma_rounded_dot(g.viewport_u, o.width, w, ONE as int);
    lemma_rounded_dot(g.viewport_v, g.height, w, ONE as int);
    let du = g.delta_u.dot(w);
    let dv = g.delta_v.dot(w);
    lemma_steps_along(du, o.width, col, vu, 3 * magnitude(g.view_width) + 3 * ONE);
    lemma_steps_along(dv, g.height, row, vv, 3 * magnitude(g.view_height) + 3 * ONE);
    crate::geometry::lemma_pixel_ray(eye, look_at, o, row, col);
    let e = d.times(2).minus(f.reverse().times(2)).plus(g.viewport_u).plus(g.viewport_v).minus(
        g.delta_u.times(2 * col + 1),
    ).minus(g.delta_v.times(2 * row + 1));
    lemma_product_bound(e.x, w.x, 3, ONE as int);
    lemma_product_bound(e.y, w.y, 3, ONE as int);
    lemma_product_bound(e.z, w.z, 3, ONE as int);
    lemma_ray_dot(e, d, f, g.viewport_u, g.viewport_v, g.delta_u, g.delta_v, 2 * col + 1, 2 * row
        + 1, w);
    lemma_final_sum(
        d.dot(w),
        f.dot(w),
        vu,
        vv,
        du * (2 * col + 1),
        dv * (2 * row + 1),
        e.dot(w),
        o.focus_dist,
        magnitude(g.view_width),
        magnitude(g.view_height),
        o.width,
        g.height,
    );
}

/// The parts of the ray, added up along `w`.
proof fn lemma_final_sum(
    dw: int,
    fw: int,
    vu: int,
    vv: int,
    su: int,
    sv: int,
    ew: int,
    focus: int,
    vw: int,
    vh: int,
    width: int,
    height: int,
)
    requires
        ew == 2 * dw + 2 * fw + vu + vv - su - sv,
        magnitude(ew) <= 9 * ONE,
        magnitude(fw - focus * ONE) <= 7 * focus + 3 * ONE,
        magnitude(vu) <= 3 * vw + 3 * ONE,
        magnitude(vv) <= 3 * vh + 3 * ONE,
        magnitude(su) <= 2 * (3 * vw + 3 * ONE) + 6 * (width * ONE),
        magnitude(sv) <= 2 * (3 * vh + 3 * ONE) + 6 * (height * ONE),
    ensures
        magnitude(2 * dw + 2 * (focus * ONE)) <= 14 * focus + 9 * vw + 9 * vh + (33 + 6 * (width
            + height)) * ONE,
{
}

/// The steps to a pixel, seen along `w`: where `count` steps add up to an
/// edge that is small along `w`, the steps to column `index` are small too.
proof fn lemma_steps_along(step: int, count: int, index: int, edge: int, bound: int)
    requires
        count >= 1,
        0 <= index < count,
        magnitude(edge) <= bound,
        magnitude(step * count - edge) <= 3 * ((count - 1) * ONE),
    ensures
        magnitude(step * (2 * index + 1)) <= 2 * bound + 6 * (count * ONE),
{
    let m = magnitude(step);
    lemma_magnitude_mul(step, count);
    lemma_magnitude_mul(step, 2 * index + 1);
    assert(m * (2 * index + 1) <= 2 * (m * count)) by (nonlinear_arith)
        requires
            m >= 0,
            0 <= index < count,
    ;
    assert((count - 1) * ONE <= count * ONE) by (nonlinear_arith);
}

/// Every pixel lies where its column says. Along `u` the ray from the eye
/// to the centre of a pixel in column `col` reaches `(2 * col + 1 - width)
/// / (2 * width)` of the width of the viewport, but for rounding: so the rays
/// to the first and to the last column reach half the width of the viewport,
/// less half a pixel, to the left and to the right. Taken `2 * width` times,
/// the dot product differs from its exact value by no more than `width` times
/// 6 times the focus distance, 7 times the width and 9 times the height of
/// the viewport, and 6 for every row and column and 27 more.
pub proof fn lemma_ray_reaches_column(eye: V3, look_at: V3, o: Optics, row: int, col: int)
    requires
        !degenerate(eye, look_at),
        o.width >= 1,
        o.aspect_num >= 1,
        o.aspect_den >= 1,
        o.focus_dist >= 0,
        o.view_slope >= 0,
        0 <= col < o.width,
        0 <= row < view_geometry(eye, look_at, o).height,
    ensures
        ({
            let g = view_geometry(eye, look_at, o);
            let ray = target_point(g.pixel_start, g.delta_u, g.delta_v, row, col, 0, 0).minus(
                eye,
            );
            magnitude(
                (2 * o.width) * ray.dot(g.u) - (g.view_width * ONE) * (2 * col + 1 - o.width),
            ) <= o.width * (6 * o.focus_dist + 7 * g.view_width + 9 * magnitude(g.view_height)
                + (27 + 6 * (o.width + g.height)) * ONE)
        }),
{
    let g = view_geometry(eye, look_at, o);
    let d = target_point(g.pixel_start, g.delta_u, g.delta_v, row, col, 0, 0).minus(eye);
    let u = g.u;
    let f = g.w.scale(o.focus_dist);
    lemma_viewport_sides(o.view_slope, o.focus_dist, o.aspect_num, o.aspect_den);
    lemma_frame(eye, look_at, o);
    lemma_unit_defined(eye.minus(look_at));
    lemma_unit_defined(world_up().cross(g.w));
    assert(g.w.dot(u) == u.dot(g.w)) by (nonlinear_arith)
        requires
            g.w.dot(u) == g.w.x * u.x + g.w.y * u.y + g.w.z * u.z,
            u.dot(g.w) == u.x * g.w.x + u.y * g.w.y + u.z * g.w.z,
    ;
    lemma_short_along(g.w, o.focus_dist, u);
    lemma_reach_along(u, g.view_width);
    assert(g.v.reverse().dot(u) == -g.v.dot(u)) by (nonlinear_arith)
        requires
            g.v.reverse().dot(u) == (-g.v.x) * u.x + (-g.v.y) * u.y + (-g.v.z) * u.z,
            g.v.dot(u) == g.v.x * u.x + g.v.y * u.y + g.v.z * u.z,
    ;
    lemma_short_along(g.v.reverse(), g.view_height, u);
    crate::geometry::lemma_image_height(o.width, o.aspect_num, o.aspect_den);
    lemma_rounded_dot(g.viewport_u, o.width, u, ONE as int);
    lemma_rounded_dot(g.viewport_v, g.height, u, ONE as int);
    lemma_steps_along(
        g.delta_v.dot(u),
        g.height,
        row,
        g.viewport_v.dot(u),
        3 * magnitude(g.view_height) + 3 * ONE,
    );
    crate::geometry::lemma_pixel_ray(eye, look_at, o, row, col);
    let e = d.times(2).minus(f.reverse().times(2)).plus(g.viewport_u).plus(g.viewport_v).minus(
        g.delta_u.times(2 * col + 1),
    ).minus(g.delta_v.times(2 * row + 1));
    lemma_product_bound(e.x, u.x, 3, ONE as int);
    lemma_product_bound(e.y, u.y, 3, ONE as int);
    lemma_product_bound(e.z, u.z, 3, ONE as int);
    lemma_ray_dot(e, d, f, g.viewport_u, g.viewport_v, g.delta_u, g.delta_v, 2 * col + 1, 2 * row
        + 1, u);
    lemma_column_sum(
        d.dot(u),
        f.dot(u),
        g.viewport_u.dot(u),
        g.viewport_v.dot(u),
        g.delta_u.dot(u),
        g.delta_v.dot(u) * (2 * row + 1),
        e.dot(u),
        2 * col + 1,
        o.focus_dist,
        g.view_width,
        magnitude(g.view_height),
        o.width,
        g.height,
    );
}

/// The parts of the ray, added up along `u`.
proof fn lemma_column_sum(
    dd: int,
    fu: int,
    vu: int,
    vv: int,
    du: int,
    sv: int,
    eu: int,
    kc: int,
    focus: int,
    vw: int,
    vh: int,
    width: int,
    height: int,
)
    requires
        width >= 1,
        1 <= kc <= 2 * width - 1,
        vw >= 0,
        eu == 2 * dd + 2 * fu + vu + vv - du * kc - sv,
        magnitude(eu) <= 9 * ONE,
        magnitude(fu) <= 3 * focus + 3 * ONE,
        magnitude(vu - vw * ONE) <= 7 * vw + 3 * ONE,
        magnitude(vv) <= 3 * vh + 3 * ONE,
        magnitude(du * width - vu) <= 3 * ((width - 1) * ONE),
        magnitude(sv) <= 2 * (3 * vh + 3 * ONE) + 6 * (height * ONE),
    ensures
        magnitude((2 * width) * dd - (vw * ONE) * (kc - width)) <= width * (6 * focus + 7 * vw + 9
            * vh + (27 + 6 * (width + height)) * ONE),
{
    let small = eu - 2 * fu - vv + sv;
    let rest = du * width - vu;
    let off = vu - vw * ONE;
    let small_bound = 6 * focus + 9 * vh + 24 * ONE + 6 * (height * ONE);
    assert(magnitude(small) <= small_bound);
    // twice the dot product, taken `width` times, in its parts
    assert((2 * width) * dd == width * small + (kc - width) * (vw * ONE) + (kc - width) * off + kc
        * rest) by (nonlinear_arith)
        requires
            eu == 2 * dd + 2 * fu + vu + vv - du * kc - sv,
            small == eu - 2 * fu - vv + sv,
            rest == du * width - vu,
            off == vu - vw * ONE,
    ;
    lemma_product_bound(width, small, width, small_bound);
    lemma_product_bound(kc - width, off, width, 7 * vw + 3 * ONE);
    lemma_product_bound(kc, rest, 2 * width, 3 * ((width - 1) * ONE));
    assert((2 * width) * (3 * ((width - 1) * ONE)) <= width * (6 * (width * ONE)))
        by (nonlinear_arith)
        requires
            width >= 1,
    ;
    assert((kc - width) * (vw * ONE) == (vw * ONE) * (kc - width)) by (nonlinear_arith);
    assert(width * small_bound + width * (7 * vw + 3 * ONE) + width * (6 * (width * ONE)) == width
        * (6 * focus + 7 * vw + 9 * vh + (27 + 6 * (width + height)) * ONE)) by (nonlinear_arith)
        requires
            small_bound == 6 * focus + 9 * vh + 24 * ONE + 6 * (height * ONE),
    ;
}

/// The sides of the viewport are not negative.
proof fn lemma_viewport_sides(slope: int, focus: int, num: int, den: int)
    requires
        slope >= 0,
        focus >= 0,
        num >= 1,
        den >= 1,
    ensures
        2 * crate::fixed::fx_mul(slope, focus) >= 0,
        div_trunc(2 * crate::fixed::fx_mul(slope, focus) * num, den) >= 0,
{
    let area = slope * focus;
    assert(area >= 0) by (nonlinear_arith)
        requires
            area == slope * focus,
            slope >= 0,
            focus >= 0,
    ;
    crate::fixed::lemma_div_trunc(area, ONE as int);
    let height = 2 * crate::fixed::fx_mul(slope, focus);
    assert(height * num >= 0) by (nonlinear_arith)
        requires
            height >= 0,
            num >= 1,
    ;
    crate::fixed::lemma_div_trunc(height * num, den);
}

/// The third unit vector of a view has components of at most 2.
proof fn lemma_up_within(w: V3, u: V3)
    requires
        w.within(ONE as int),
        u.within(ONE as int),
    ensures
        w.cross(u).within(2 * ONE),
{
    lemma_outer_component(w.y, u.z, w.z, u.y);
    lemma_outer_component(w.z, u.x, w.x, u.z);
    lemma_outer_component(w.x, u.y, w.y, u.x);
    let o = w.outer(u);
    crate::fixed::lemma_div_trunc(o.x, ONE as int);
    crate::fixed::lemma_div_trunc(o.y, ONE as int);
    crate::fixed::lemma_div_trunc(o.z, ONE as int);
}

/// A vector that stands at right angles to `v`, scaled by `s`, is short
/// along `v`, where `v` has components of at most 2.
proof fn lemma_short_along_up(a: V3, s: int, v: V3)
    requires
        v.within(2 * ONE),
        magnitude(a.dot(v)) <= 3 * ONE,
    ensures
        magnitude(a.scale(s).dot(v)) <= 3 * magnitude(s) + 6 * ONE,
{
    lemma_scaled_dot(a, s, v, 2 * ONE);
    lemma_product_bound(s, a.dot(v), magnitude(s), 12884901888);
    let y = a.scale(s).dot(v);
    let bound = 3 * magnitude(s) + 6 * ONE;
    assert(bound * ONE == 3 * magnitude(s) * 4294967296 + 6 * 18446744073709551616)
        by (nonlinear_arith)
        requires
            bound == 3 * magnitude(s) + 6 * ONE,
            ONE == 4294967296,
    ;
    assert((ONE - 1) * (2 * ONE) <= 2 * 18446744073709551616);
    lemma_cancel(y, ONE as int, bound);
}

/// The left edge of the viewport runs down: `v` turned round and scaled by
/// the height of the viewport reaches that height along `v`, downward, but
/// for rounding.
proof fn lemma_reach_down(v: V3, height: int)
    requires
        v.within(2 * ONE),
        nearly_one(v.norm_squared()),
        height >= 0,
    ensures
        magnitude(v.reverse().scale(height).dot(v) + height * ONE) <= 24 * height + 6 * ONE,
{
    let edge = v.reverse().scale(height);
    lemma_scaled_dot(v.reverse(), height, v, 2 * ONE);
    let a = v.dot(v);
    assert(a == v.norm_squared());
    assert(v.reverse().dot(v) == -a) by (nonlinear_arith)
        requires
            v.reverse().dot(v) == (-v.x) * v.x + (-v.y) * v.y + (-v.z) * v.z,
            a == v.x * v.x + v.y * v.y + v.z * v.z,
    ;
    assert(height * 18446743970630336512 <= height * a <= height * 18446744129544126464)
        by (nonlinear_arith)
        requires
            height >= 0,
            18446743970630336512 <= a <= 18446744129544126464,
    ;
    assert(height * (-a) == -(height * a)) by (nonlinear_arith);
    let ev = edge.dot(v);
    let x = ev + height * ONE;
    assert(x * ONE == ev * ONE + height * 18446744073709551616) by (nonlinear_arith)
        requires
            x == ev + height * 4294967296,
            ONE == 4294967296,
    ;
    assert((24 * height + 6 * ONE) * ONE == 24 * height * 4294967296 + 6 * 18446744073709551616)
        by (nonlinear_arith)
        requires
            ONE == 4294967296,
    ;
    assert((ONE - 1) * (2 * ONE) <= 2 * 18446744073709551616);
    lemma_cancel(x, ONE as int, 24 * height + 6 * ONE);
}

/// The steps to a pixel, seen along `v`.
proof fn lemma_steps_along_up(step: int, count: int, index: int, edge: int, bound: int)
    requires
        count >= 1,
        0 <= index < count,
        magnitude(edge) <= bound,
        magnitude(step * count - edge) <= 3 * ((count - 1) * (2 * ONE)),
    ensures
        magnitude(step * (2 * index + 1)) <= 2 * bound + 12 * (count * ONE),
{
    let m = magnitude(step);
    lemma_magnitude_mul(step, count);
    lemma_magnitude_mul(step, 2 * index + 1);
    assert(m * (2 * index + 1) <= 2 * (m * count)) by (nonlinear_arith)
        requires
            m >= 0,
            0 <= index < count,
    ;
    assert((count - 1) * (2 * ONE) <= 2 * (count * ONE)) by (nonlinear_arith);
}

/// Every pixel lies where its row says, so the image spans the vertical
/// field of view. Along `v` the ray from the eye to the centre of a pixel in
/// row `row` reaches `(height - 2 * row - 1) / (2 * height)` of the height
/// of the viewport, which is twice the focus distance times the tangent of
/// half the field of view; so the rays to the first and to the last row reach
/// half that height, less half a pixel, up and down. Taken `2 * height`
/// times, the dot product differs from its exact value by no more than
/// `height` times 6 times the focus distance, 9 times the width and 24 times
/// the height of the viewport, and 12 for every row and column and 60 more.
pub proof fn lemma_ray_reaches_row(eye: V3, look_at: V3, o: Optics, row: int, col: int)
    requires
        !degenerate(eye, look_at),
        o.width >= 1,
        o.aspect_num >= 1,
        o.aspect_den >= 1,
        o.focus_dist >= 0,
        o.view_slope >= 0,
        0 <= col < o.width,
        0 <= row < view_geometry(eye, look_at, o).height,
    ensures
        ({
            let g = view_geometry(eye, look_at, o);
            let ray = target_point(g.pixel_start, g.delta_u, g.delta_v, row, col, 0, 0).minus(
                eye,
            );
            magnitude(
                (2 * g.height) * ray.dot(g.v) + (g.view_height * ONE) * (2 * row + 1 - g.height),
            ) <= g.height * (6 * o.focus_dist + 9 * g.view_width + 24 * g.view_height + (60 + 12
                * (o.width + g.height)) * ONE)
        }),
{
    let g = view_geometry(eye, look_at, o);
    let d = target_point(g.pixel_start, g.delta_u, g.delta_v, row, col, 0, 0).minus(eye);
    let v = g.v;
    let f = g.w.scale(o.focus_dist);
    lemma_viewport_sides(o.view_slope, o.focus_dist, o.aspect_num, o.aspect_den);
    lemma_frame(eye, look_at, o);
    lemma_unit_defined(eye.minus(look_at));
    lemma_unit_defined(world_up().cross(g.w));
    lemma_up_within(g.w, g.u);
    assert(g.w.dot(v) == v.dot(g.w)) by (nonlinear_arith)
        requires
            g.w.dot(v) == g.w.x * v.x + g.w.y * v.y + g.w.z * v.z,
            v.dot(g.w) == v.x * g.w.x + v.y * g.w.y + v.z * g.w.z,
    ;
    assert(g.u.dot(v) == v.dot(g.u)) by (nonlinear_arith)
        requires
            g.u.dot(v) == g.u.x * v.x + g.u.y * v.y + g.u.z * v.z,
            v.dot(g.u) == v.x * g.u.x + v.y * g.u.y + v.z * g.u.z,
    ;
    lemma_short_along_up(g.w, o.focus_dist, v);
    lemma_short_along_up(g.u, g.view_width, v);
    lemma_reach_down(v, g.view_height);
    crate::geometry::lemma_image_height(o.width, o.aspect_num, o.aspect_den);
    lemma_rounded_dot(g.viewport_u, o.width, v, 2 * ONE);
    lemma_rounded_dot(g.viewport_v, g.height, v, 2 * ONE);
    lemma_steps_along_up(
        g.delta_u.dot(v),
        o.width,
        col,
        g.viewport_u.dot(v),
        3 * g.view_width + 6 * ONE,
    );
    crate::geometry::lemma_pixel_ray(eye, look_at, o, row, col);
    let e = d.times(2).minus(f.reverse().times(2)).plus(g.viewport_u).plus(g.viewport_v).minus(
        g.delta_u.times(2 * col + 1),
    ).minus(g.delta_v.times(2 * row + 1));
    lemma_product_bound(e.x, v.x, 3, 2 * ONE);
    lemma_product_bound(e.y, v.y, 3, 2 * ONE);
    lemma_product_bound(e.z, v.z, 3, 2 * ONE);
    lemma_ray_dot(e, d, f, g.viewport_u, g.viewport_v, g.delta_u, g.delta_v, 2 * col + 1, 2 * row
        + 1, v);
    lemma_row_sum(
        d.dot(v),
        f.dot(v),
        g.viewport_u.dot(v),
        g.viewport_v.dot(v),
        g.delta_u.dot(v) * (2 * col + 1),
        g.delta_v.dot(v),
        e.dot(v),
        2 * row + 1,
        o.focus_dist,
        g.view_width,
        g.view_height,
        o.width,
        g.height,
    );
}

/// The parts of the ray, added up along `v`.
proof fn lemma_row_sum(
    dd: int,
    fv: int,
    vu: int,
    vv: int,
    su: int,
    dv: int,
    ev: int,
    kr: int,
    focus: int,
    vw: int,
    vh: int,
    width: int,
    height: int,
)
    requires
        height >= 1,
        1 <= kr <= 2 * height - 1,
        vh >= 0,
        ev == 2 * dd + 2 * fv + vu + vv - su - dv * kr,
        magnitude(ev) <= 18 * ONE,
        magnitude(fv) <= 3 * focus + 6 * ONE,
        magnitude(vu) <= 3 * vw + 6 * ONE,
        magnitude(vv + vh * ONE) <= 24 * vh + 6 * ONE,
        magnitude(dv * height - vv) <= 3 * ((height - 1) * (2 * ONE)),
        magnitude(su) <= 2 * (3 * vw + 6 * ONE) + 12 * (width * ONE),
    ensures
        magnitude((2 * height) * dd + (vh * ONE) * (kr - height)) <= height * (6 * focus + 9 * vw
            + 24 * vh + (60 + 12 * (width + height)) * ONE),
{
    let small = ev - 2 * fv - vu + su;
    let rest = dv * height - vv;
    let off = vv + vh * ONE;
    let small_bound = 6 * focus + 9 * vw + 48 * ONE + 12 * (width * ONE);
    assert(magnitude(small) <= small_bound);
    assert((2 * height) * dd == height * small - (kr - height) * (vh * ONE) + (kr - height) * off
        + kr * rest) by (nonlinear_arith)
        requires
            ev == 2 * dd + 2 * fv + vu + vv - su - dv * kr,
            small == ev - 2 * fv - vu + su,
            rest == dv * height - vv,
            off == vv + vh * ONE,
    ;
    lemma_product_bound(height, small, height, small_bound);
    lemma_product_bound(kr - height, off, height, 24 * vh + 6 * ONE);
    lemma_product_bound(kr, rest, 2 * height, 3 * ((height - 1) * (2 * ONE)));
    assert((2 * height) * (3 * ((height - 1) * (2 * ONE))) <= height * (12 * (height * ONE)))
        by (nonlinear_arith)
        requires
            height >= 1,
    ;
    assert((kr - height) * (vh * ONE) == (vh * ONE) * (kr - height)) by (nonlinear_arith);
    assert(height * small_bound + height * (24 * vh + 6 * ONE) + height * (12 * (height * ONE))
        <= height * (6 * focus + 9 * vw + 24 * vh + (60 + 12 * (width + height)) * ONE))
        by (nonlinear_arith)
        requires
            small_bound == 6 * focus + 9 * vw + 48 * ONE + 12 * (width * ONE),
            height >= 1,
    ;
}

} // verus!
