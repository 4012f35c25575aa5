//! The geometry of the viewport, as a mathematical model.
//!
//! The camera sits at the eye and looks at a target. A rectangular viewport
//! stands at the focus distance in front of it, at right angles to the line of
//! sight; its size follows from the field of view and the aspect ratio. The
//! image is a grid of pixels laid over the viewport, and rays leave from the eye
//! (or from a small disk around it) through the pixels.
//!
//! Angles enter as tangents of half angles: `view_slope` is the tangent of
//! half the vertical field of view, `lens_slope` that of half the defocus
//! angle.

use crate::fixed::{
    div_trunc, fx_mul, in_limit, lemma_div_trunc, lemma_rounding_rest, magnitude, LIMIT, ONE,
};
use crate::vec3::{lemma_unit_defined, stretch, V3};
use vstd::prelude::*;

verus! {

/// Largest number of pixels in a row or in a column.
pub const MAX_DIM: usize = 65535;

/// Number of rows of an image `width` pixels wide with an aspect ratio of
/// `aspect_num : aspect_den`: the width divided by the ratio and rounded
/// down, but at least one row.
pub open spec fn image_height(width: int, aspect_num: int, aspect_den: int) -> int {
    let rows = (width * aspect_den) / aspect_num;
    if rows < 1 {
        1
    } else {
        rows
    }
}

/// The direction that is up in the world.
pub open spec fn world_up() -> V3 {
    V3 { x: 0, y: ONE as int, z: 0 }
}

/// Whether the view has no orientation: the eye sits on the target, or the
/// line of sight runs straight up or down.
pub open spec fn degenerate(eye: V3, look_at: V3) -> bool {
    eye == look_at || world_up().cross(eye.minus(look_at).unit()) == V3::zero()
}

/// What the derivation reads from a configuration.
pub struct Optics {
    pub width: int,
    pub aspect_num: int,
    pub aspect_den: int,
    pub view_slope: int,
    pub focus_dist: int,
    pub lens_slope: int,
}

/// Everything that is derived for a view.
pub struct Geometry {
    /// Number of pixel rows.
    pub height: int,
    /// Height and width of the viewport.
    pub view_height: int,
    pub view_width: int,
    /// Unit vectors of the view: `w` points from the target back to the eye,
    /// `u` to the right, `v` up.
    pub w: V3,
    pub u: V3,
    pub v: V3,
    /// The edges of the viewport: along the top from left to right, and down
    /// the left side.
    pub viewport_u: V3,
    pub viewport_v: V3,
    /// The steps from one pixel to the next, to the right and downward.
    pub delta_u: V3,
    pub delta_v: V3,
    /// The upper left corner of the viewport.
    pub upper_left: V3,
    /// The centre of the pixel in the upper left corner.
    pub pixel_start: V3,
    /// Radius of the defocus disk and the vectors that span it.
    pub disk_radius: int,
    pub disk_u: V3,
    pub disk_v: V3,
}

/// The geometry of the view from `eye` toward `look_at`.
pub open spec fn view_geometry(eye: V3, look_at: V3, o: Optics) -> Geometry {
    let height = image_height(o.width, o.aspect_num, o.aspect_den);
    let view_height = 2 * fx_mul(o.view_slope, o.focus_dist);
    let view_width = div_trunc(view_height * o.aspect_num, o.aspect_den);
    let w = eye.minus(look_at).unit();
    let u = world_up().cross(w).unit();
    let v = w.cross(u);
    let viewport_u = u.scale(view_width);
    let viewport_v = v.reverse().scale(view_height);
    let delta_u = viewport_u.shrink(o.width);
    let delta_v = viewport_v.shrink(height);
    let upper_left = eye.minus(w.scale(o.focus_dist)).minus(viewport_u.shrink(2)).minus(
        viewport_v.shrink(2),
    );
    let pixel_start = upper_left.plus(delta_u.plus(delta_v).shrink(2));
    let disk_radius = fx_mul(o.focus_dist, o.lens_slope);
    Geometry {
        height,
        view_height,
        view_width,
        w,
        u,
        v,
        viewport_u,
        viewport_v,
        delta_u,
        delta_v,
        upper_left,
        pixel_start,
        disk_radius,
        disk_u: u.scale(disk_radius),
        disk_v: v.scale(disk_radius),
    }
}

impl Geometry {
    /// Whether every length of the geometry is at most `LIMIT`.
    pub open spec fn fits(self) -> bool {
        &&& in_limit(self.view_height)
        &&& in_limit(self.view_width)
        &&& in_limit(self.disk_radius)
        &&& self.viewport_u.within(LIMIT as int)
        &&& self.viewport_v.within(LIMIT as int)
        &&& self.upper_left.within(LIMIT as int)
        &&& self.pixel_start.within(LIMIT as int)
        &&& self.disk_u.within(LIMIT as int)
        &&& self.disk_v.within(LIMIT as int)
    }
}

/// The point on the defocus disk that the offset (`px`, `py`) in the unit
/// disk stands for.
pub open spec fn lens_point(eye: V3, disk_u: V3, disk_v: V3, px: int, py: int) -> V3 {
    eye.plus(disk_u.scale(px)).plus(disk_v.scale(py))
}

/// The point of the viewport that a sample of pixel (`row`, `col`) aims at:
/// the centre of the pixel, moved by the jitter (`jx`, `jy`), which is
/// measured in pixels.
pub open spec fn target_point(
    pixel_start: V3,
    delta_u: V3,
    delta_v: V3,
    row: int,
    col: int,
    jx: int,
    jy: int,
) -> V3 {
    pixel_start.plus(delta_v.scale(row * ONE + jy)).plus(delta_u.scale(col * ONE + jx))
}

/// An image has at least one row, and as many as the width divided by the
/// aspect ratio gives whenever that is at least one.
pub proof fn lemma_image_height(width: int, aspect_num: int, aspect_den: int)
    requires
        width >= 0,
        aspect_num >= 1,
        aspect_den >= 1,
    ensures
        image_height(width, aspect_num, aspect_den) >= 1,
        width * aspect_den >= aspect_num ==> image_height(width, aspect_num, aspect_den) == (width
            * aspect_den) / aspect_num,
        image_height(width, aspect_num, aspect_den) * aspect_num <= width * aspect_den
            || image_height(width, aspect_num, aspect_den) == 1,
{
    let n = width * aspect_den;
    assert(n >= 0) by (nonlinear_arith)
        requires
            n == width * aspect_den,
            width >= 0,
            aspect_den >= 1,
    ;
    assert((n / aspect_num) * aspect_num <= n && (n >= aspect_num ==> n / aspect_num >= 1))
        by (nonlinear_arith)
        requires
            n >= 0,
            aspect_num >= 1,
    ;
}

/// The pixel grid spans the viewport. The steps are rounded, so `width`
/// steps to the right do not add up to the upper edge of the viewport
/// exactly, nor `height` steps down to its left edge; but in every coordinate
/// they fall short by less than one unit of 2^-32 for each step.
pub proof fn lemma_grid_spans_viewport(eye: V3, look_at: V3, o: Optics)
    requires
        o.width >= 1,
        o.aspect_num >= 1,
        o.aspect_den >= 1,
    ensures
        ({
            let g = view_geometry(eye, look_at, o);
            &&& g.height >= 1
            &&& g.viewport_u.minus(g.delta_u.times(o.width)).within(o.width - 1)
            &&& g.viewport_v.minus(g.delta_v.times(g.height)).within(g.height - 1)
        }),
{
    let g = view_geometry(eye, look_at, o);
    lemma_image_height(o.width, o.aspect_num, o.aspect_den);
    lemma_rounding_rest(g.viewport_u.x, o.width);
    lemma_rounding_rest(g.viewport_u.y, o.width);
    lemma_rounding_rest(g.viewport_u.z, o.width);
    lemma_rounding_rest(g.viewport_v.x, g.height);
    lemma_rounding_rest(g.viewport_v.y, g.height);
    lemma_rounding_rest(g.viewport_v.z, g.height);
}

/// The rows of the image are level: the unit vector to the right, the upper
/// edge of the viewport, the step from a pixel to its right neighbour and the
/// first vector of the defocus disk have no vertical part.
pub proof fn lemma_rows_are_level(eye: V3, look_at: V3, o: Optics)
    requires
        !degenerate(eye, look_at),
        o.width >= 1,
    ensures
        ({
            let g = view_geometry(eye, look_at, o);
            &&& g.u.y == 0
            &&& g.viewport_u.y == 0
            &&& g.delta_u.y == 0
            &&& g.disk_u.y == 0
        }),
{
    let g = view_geometry(eye, look_at, o);
    let side = world_up().cross(g.w);
    assert(side.y == 0);
    lemma_unit_defined(side);
    let f = stretch(side.peak());
    assert(side.stretched().y == 0) by (nonlinear_arith)
        requires
            side.stretched().y == side.y * f,
            side.y == 0,
    ;
    assert(g.u.y == 0) by {
        lemma_div_trunc(0, side.stretched().length());
    }
    assert(g.view_width * 0 == 0 && g.disk_radius * 0 == 0);
    lemma_div_trunc(0, o.width);
}

/// A whole number of steps is taken exactly: without jitter, a sample aims at
/// the centre of its pixel, which lies `row` steps below and `col` steps to
/// the right of the first centre.
pub proof fn lemma_pixel_centre(pixel_start: V3, delta_u: V3, delta_v: V3, row: int, col: int)
    ensures
        target_point(pixel_start, delta_u, delta_v, row, col, 0, 0) == (V3 {
            x: pixel_start.x + row * delta_v.x + col * delta_u.x,
            y: pixel_start.y + row * delta_v.y + col * delta_u.y,
            z: pixel_start.z + row * delta_v.z + col * delta_u.z,
        }),
{
    lemma_whole_steps(row, delta_v.x);
    lemma_whole_steps(row, delta_v.y);
    lemma_whole_steps(row, delta_v.z);
    lemma_whole_steps(col, delta_u.x);
    lemma_whole_steps(col, delta_u.y);
    lemma_whole_steps(col, delta_u.z);
}

proof fn lemma_whole_steps(count: int, step: int)
    ensures
        fx_mul(count * ONE, step) == count * step,
{
    let n = count * step;
    assert((count * ONE) * step == n * ONE) by (nonlinear_arith)
        requires
            n == count * step,
    ;
    lemma_div_trunc(n * ONE, ONE as int);
}

/// The ray through the centre of a pixel. It leads from the eye along the
/// line of sight to the centre of the viewport, from there back by half of
/// either edge of the viewport to its upper left corner, and then `col` and a
/// half steps to the right and `row` and a half steps down. Taken twice, the
/// ray is the sum of twice these parts, but for the rounding of the three
/// halves: it is off by at most 3 units of 2^-32 in every coordinate.
pub proof fn lemma_pixel_ray(eye: V3, look_at: V3, o: Optics, row: int, col: int)
    ensures
        ({
            let g = view_geometry(eye, look_at, o);
            let ray = target_point(g.pixel_start, g.delta_u, g.delta_v, row, col, 0, 0).minus(
                eye,
            );
            let axis = g.w.scale(o.focus_dist).reverse();
            ray.times(2).minus(axis.times(2)).plus(g.viewport_u).plus(g.viewport_v).minus(
                g.delta_u.times(2 * col + 1),
            ).minus(g.delta_v.times(2 * row + 1)).within(3)
        }),
{
    let g = view_geometry(eye, look_at, o);
    lemma_pixel_centre(g.pixel_start, g.delta_u, g.delta_v, row, col);
    lemma_half_steps(g.viewport_u.x, g.viewport_v.x, g.delta_u.x, g.delta_v.x, row, col);
    lemma_half_steps(g.viewport_u.y, g.viewport_v.y, g.delta_u.y, g.delta_v.y, row, col);
    lemma_half_steps(g.viewport_u.z, g.viewport_v.z, g.delta_u.z, g.delta_v.z, row, col);
}

proof fn lemma_half_steps(edge_u: int, edge_v: int, du: int, dv: int, row: int, col: int)
    ensures
        magnitude(
            2 * (div_trunc(du + dv, 2) + row * dv + col * du - div_trunc(edge_u, 2) - div_trunc(
                edge_v,
                2,
            )) + edge_u + edge_v - du * (2 * col + 1) - dv * (2 * row + 1),
        ) <= 3,
{
    lemma_rounding_rest(edge_u, 2);
    lemma_rounding_rest(edge_v, 2);
    lemma_rounding_rest(du + dv, 2);
    assert(du * (2 * col + 1) == 2 * (col * du) + du) by (nonlinear_arith);
    assert(dv * (2 * row + 1) == 2 * (row * dv) + dv) by (nonlinear_arith);
}

/// Opposite corners of the image lie symmetric about the line of sight. The
/// ray through the centre of the first pixel and the ray through the centre of
/// the last pixel add up to twice the way from the eye to the centre of the
/// viewport, but for the rounding of the steps: in every coordinate the sum
/// is off by at most one unit of 2^-32 for each row and column, and one more.
pub proof fn lemma_corner_rays_balance(eye: V3, look_at: V3, o: Optics)
    requires
        o.width >= 1,
        o.aspect_num >= 1,
        o.aspect_den >= 1,
    ensures
        ({
            let g = view_geometry(eye, look_at, o);
            let first = target_point(g.pixel_start, g.delta_u, g.delta_v, 0, 0, 0, 0).minus(eye);
            let last = target_point(
                g.pixel_start,
                g.delta_u,
                g.delta_v,
                g.height - 1,
                o.width - 1,
                0,
                0,
            ).minus(eye);
            let axis = g.w.scale(o.focus_dist).reverse();
            first.plus(last).minus(axis.times(2)).within(o.width + g.height + 1)
        }),
{
    let g = view_geometry(eye, look_at, o);
    lemma_image_height(o.width, o.aspect_num, o.aspect_den);
    lemma_pixel_centre(g.pixel_start, g.delta_u, g.delta_v, 0, 0);
    lemma_pixel_centre(g.pixel_start, g.delta_u, g.delta_v, g.height - 1, o.width - 1);
    lemma_balance(g.viewport_u.x, g.viewport_v.x, o.width, g.height);
    lemma_balance(g.viewport_u.y, g.viewport_v.y, o.width, g.height);
    lemma_balance(g.viewport_u.z, g.viewport_v.z, o.width, g.height);
}

proof fn lemma_balance(edge_u: int, edge_v: int, width: int, height: int)
    requires
        width >= 1,
        height >= 1,
    ensures
        ({
            let du = div_trunc(edge_u, width);
            let dv = div_trunc(edge_v, height);
            magnitude(
                2 * div_trunc(du + dv, 2) + (height - 1) * dv + (width - 1) * du - 2 * div_trunc(
                    edge_u,
                    2,
                ) - 2 * div_trunc(edge_v, 2),
            ) <= width + height + 1
        }),
{
    let du = div_trunc(edge_u, width);
    let dv = div_trunc(edge_v, height);
    lemma_rounding_rest(edge_u, width);
    lemma_rounding_rest(edge_v, height);
    lemma_rounding_rest(edge_u, 2);
    lemma_rounding_rest(edge_v, 2);
    lemma_rounding_rest(du + dv, 2);
    assert((height - 1) * dv == dv * height - dv) by (nonlinear_arith);
    assert((width - 1) * du == du * width - du) by (nonlinear_arith);
}

/// The four corners of the image are centred on the line of sight: the rays
/// from the eye to the centres of the four corner pixels add up to four times
/// the way from the eye to the centre of the viewport, but for rounding. In
/// every coordinate the sum is off by at most two units of 2^-32 for each row
/// and column, and two more.
pub proof fn lemma_four_corners(eye: V3, look_at: V3, o: Optics)
    requires
        o.width >= 1,
        o.aspect_num >= 1,
        o.aspect_den >= 1,
    ensures
        ({
            let g = view_geometry(eye, look_at, o);
            let right = o.width - 1;
            let low = g.height - 1;
            let upper_left = target_point(g.pixel_start, g.delta_u, g.delta_v, 0, 0, 0, 0).minus(
                eye,
            );
            let upper_right = target_point(g.pixel_start, g.delta_u, g.delta_v, 0, right, 0, 0)
                .minus(eye);
            let lower_left = target_point(g.pixel_start, g.delta_u, g.delta_v, low, 0, 0, 0).minus(
                eye,
            );
            let lower_right = target_point(g.pixel_start, g.delta_u, g.delta_v, low, right, 0, 0)
                .minus(eye);
            let axis = g.w.scale(o.focus_dist).reverse();
            upper_left.plus(upper_right).plus(lower_left).plus(lower_right).minus(
                axis.times(4),
            ).within(2 * (o.width + g.height) + 2)
        }),
{
    let g = view_geometry(eye, look_at, o);
    lemma_image_height(o.width, o.aspect_num, o.aspect_den);
    lemma_pixel_centre(g.pixel_start, g.delta_u, g.delta_v, 0, 0);
    lemma_pixel_centre(g.pixel_start, g.delta_u, g.delta_v, 0, o.width - 1);
    lemma_pixel_centre(g.pixel_start, g.delta_u, g.delta_v, g.height - 1, 0);
    lemma_pixel_centre(g.pixel_start, g.delta_u, g.delta_v, g.height - 1, o.width - 1);
    lemma_balance(g.viewport_u.x, g.viewport_v.x, o.width, g.height);
    lemma_balance(g.viewport_u.y, g.viewport_v.y, o.width, g.height);
    lemma_balance(g.viewport_u.z, g.viewport_v.z, o.width, g.height);
}

} // verus!
