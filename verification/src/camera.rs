//! The camera: built once from a view and a configuration, then read by
//! every worker to aim its rays.

use crate::fixed::{
    div_trunc, div_wide, fixed_mul, fx_mul, in_limit, lemma_div_trunc_bound, lemma_fx_mul_bound,
    lemma_fx_mul_shrinks, magnitude, mul_wide, narrow, HALF, LIMIT, ONE,
};
use crate::geometry::{
    degenerate, image_height, lens_point, target_point, view_geometry, Optics, MAX_DIM,
};
use crate::vec3::{lemma_cross_bound, Vec3, V3};
use vstd::prelude::*;

verus! {

/// A position in space.
pub type Point = Vec3;

/// The settings of a render.
#[derive(Clone, Copy, Debug, PartialEq, Eq, Structural)]
pub struct Config {
    /// Pixels per row.
    pub width: usize,
    /// The aspect ratio of the image, width to height, as a fraction.
    pub aspect_num: u16,
    pub aspect_den: u16,
    /// Tangent of half the vertical field of view.
    pub view_slope: i64,
    /// Distance from the eye to the plane that is in focus.
    pub focus_dist: i64,
    /// Tangent of half the defocus angle. The camera is a pinhole when it is
    /// not positive.
    pub lens_slope: i64,
    /// Samples per pixel.
    pub sample_num: u16,
    /// Largest number of bounces of a path.
    pub reflect_depth: u8,
    /// Number of workers that share the rows of the image.
    pub workers: usize,
}

impl Config {
    /// What the geometry reads from the configuration.
    pub open spec fn optics(&self) -> Optics {
        Optics {
            width: self.width as int,
            aspect_num: self.aspect_num as int,
            aspect_den: self.aspect_den as int,
            view_slope: self.view_slope as int,
            focus_dist: self.focus_dist as int,
            lens_slope: self.lens_slope as int,
        }
    }

    /// Number of pixel rows.
    pub open spec fn spec_height(&self) -> int {
        image_height(self.width as int, self.aspect_num as int, self.aspect_den as int)
    }

    /// Whether a camera can be built from the configuration: the image has
    /// between 1 and `MAX_DIM` pixels either way, the aspect ratio, the field
    /// of view and the focus distance are positive, no number is larger than
    /// `LIMIT`, and there is at least one sample per pixel and one worker.
    pub open spec fn valid(&self) -> bool {
        &&& 1 <= self.width <= MAX_DIM
        &&& self.aspect_num >= 1
        &&& self.aspect_den >= 1
        &&& self.spec_height() <= MAX_DIM
        &&& 0 < self.view_slope <= LIMIT
        &&& 0 < self.focus_dist <= LIMIT
        &&& -LIMIT <= self.lens_slope <= LIMIT
        &&& self.sample_num >= 1
        &&& self.workers >= 1
    }

    /// Number of pixel rows: the width divided by the aspect ratio, rounded
    /// down, and at least 1.
    pub fn height(&self) -> (rows: usize)
        requires
            self.aspect_num >= 1,
            self.spec_height() <= usize::MAX,
        ensures
            rows == self.spec_height(),
            rows >= 1,
    {
        assert(self.width * self.aspect_den <= 0xffff_ffff_ffff_ffff * 0xffff) by (nonlinear_arith)
            requires
                self.width <= 0xffff_ffff_ffff_ffff,
                self.aspect_den <= 0xffff,
        ;
        let scaled: u128 = self.width as u128 * self.aspect_den as u128;
        let rows: u128 = scaled / self.aspect_num as u128;
        if rows < 1 {
            1
        } else {
            rows as usize
        }
    }

    /// Whether a camera can be built from the configuration.
    pub fn is_valid(&self) -> (ok: bool)
        ensures
            ok == self.valid(),
    {
        if !(1 <= self.width && self.width <= MAX_DIM && self.aspect_num >= 1 && self.aspect_den
            >= 1) {
            return false;
        }
        proof {
            let scaled = self.width * self.aspect_den;
            assert(0 <= scaled <= 65535 * 65535) by (nonlinear_arith)
                requires
                    scaled == self.width * self.aspect_den,
                    0 <= self.width <= 65535,
                    0 <= self.aspect_den <= 65535,
            ;
            assert(scaled / (self.aspect_num as int) <= scaled) by (nonlinear_arith)
                requires
                    scaled >= 0,
                    self.aspect_num >= 1,
            ;
        }
        self.height() <= MAX_DIM && 0 < self.view_slope && self.view_slope <= LIMIT && 0
            < self.focus_dist && self.focus_dist <= LIMIT && -LIMIT <= self.lens_slope
            && self.lens_slope <= LIMIT && self.sample_num >= 1 && self.workers >= 1
    }
}

/// Why no camera could be built.
#[derive(Clone, Copy, Debug, PartialEq, Eq, Structural)]
pub enum CameraError {
    /// The configuration is not valid, or the eye or the target lies farther
    /// than `LIMIT` from the origin.
    InvalidConfig,
    /// The eye sits on the target, or the line of sight runs straight up or
    /// down, so the view has no orientation.
    Degenerate,
    /// A length of the viewport is larger than `LIMIT`.
    OutOfRange,
}

impl CameraError {
    /// What went wrong, in words.
    pub open spec fn text(self) -> Seq<char> {
        match self {
            CameraError::InvalidConfig => "the settings or the points are out of range"@,
            CameraError::Degenerate => "the eye sits on the target or looks straight up or down"@,
            CameraError::OutOfRange => "the viewport is too large"@,
        }
    }

    /// What went wrong, in words.
    pub fn describe(&self) -> (words: &'static str)
        ensures
            words@ == self.text(),
    {
        match self {
            CameraError::InvalidConfig => "the settings or the points are out of range",
            CameraError::Degenerate => "the eye sits on the target or looks straight up or down",
            CameraError::OutOfRange => "the viewport is too large",
        }
    }
}

/// The camera. Nothing in it changes once it is built.
#[derive(Clone, Copy, Debug, PartialEq, Eq, Structural)]
pub struct Camera {
    /// Where the rays start.
    pub eye: Point,
    /// Pixels per row, and number of rows.
    pub width: usize,
    pub height: usize,
    /// Centre of the pixel in row 0, column 0.
    pub pixel_start: Point,
    /// Step from a pixel to its right neighbour.
    pub delta_u: Vec3,
    /// Step from a pixel to the one below it.
    pub delta_v: Vec3,
    /// Samples per pixel.
    pub sample_num: u16,
    /// Largest number of bounces of a path.
    pub reflect_depth: u8,
    /// Tangent of half the defocus angle.
    pub lens_slope: i64,
    /// The vectors that span the defocus disk.
    pub disk_u: Vec3,
    pub disk_v: Vec3,
    /// Number of workers that share the rows of the image.
    pub workers: usize,
}

/// The geometry along one coordinate axis.
struct Axis {
    delta_u: i64,
    delta_v: i64,
    start: i64,
    disk_u: i64,
    disk_v: i64,
}

/// The same, as a model.
struct AxisModel {
    edge_u: int,
    edge_v: int,
    delta_u: int,
    delta_v: int,
    corner: int,
    start: int,
    disk_u: int,
    disk_v: int,
}

impl AxisModel {
    spec fn fits(self) -> bool {
        &&& in_limit(self.edge_u)
        &&& in_limit(self.edge_v)
        &&& in_limit(self.corner)
        &&& in_limit(self.start)
        &&& in_limit(self.disk_u)
        &&& in_limit(self.disk_v)
    }
}

spec fn axis_model(
    eye: int,
    w: int,
    u: int,
    v: int,
    view_width: int,
    view_height: int,
    focus_dist: int,
    disk_radius: int,
    width: int,
    height: int,
) -> AxisModel {
    let edge_u = fx_mul(view_width, u);
    let edge_v = fx_mul(view_height, -v);
    let delta_u = div_trunc(edge_u, width);
    let delta_v = div_trunc(edge_v, height);
    let corner = eye - fx_mul(focus_dist, w) - div_trunc(edge_u, 2) - div_trunc(edge_v, 2);
    let start = corner + div_trunc(delta_u + delta_v, 2);
    AxisModel {
        edge_u,
        edge_v,
        delta_u,
        delta_v,
        corner,
        start,
        disk_u: fx_mul(disk_radius, u),
        disk_v: fx_mul(disk_radius, v),
    }
}

fn axis_geometry(
    eye: i64,
    w: i64,
    u: i64,
    v: i64,
    view_width: i64,
    view_height: i64,
    focus_dist: i64,
    disk_radius: i64,
    width: usize,
    height: usize,
) -> (out: Option<Axis>)
    requires
        in_limit(eye as int),
        magnitude(v as int) <= 8 * ONE,
        1 <= width <= MAX_DIM,
        1 <= height <= MAX_DIM,
    ensures
        out is Some <==> axis_model(
            eye as int,
            w as int,
            u as int,
            v as int,
            view_width as int,
            view_height as int,
            focus_dist as int,
            disk_radius as int,
            width as int,
            height as int,
        ).fits(),
        out matches Some(a) ==> {
            let m = axis_model(
                eye as int,
                w as int,
                u as int,
                v as int,
                view_width as int,
                view_height as int,
                focus_dist as int,
                disk_radius as int,
                width as int,
                height as int,
            );
            &&& a.delta_u == m.delta_u
            &&& a.delta_v == m.delta_v
            &&& a.start == m.start
            &&& a.disk_u == m.disk_u
            &&& a.disk_v == m.disk_v
            &&& magnitude(a.delta_u as int) * width <= LIMIT
            &&& magnitude(a.delta_v as int) * height <= LIMIT
        },
{
    let edge_u: i64 = match narrow(fixed_mul(view_width, u)) {
        Some(e) => e,
        None => {
            return None;
        },
    };
    let edge_v: i64 = match narrow(fixed_mul(view_height, -v)) {
        Some(e) => e,
        None => {
            return None;
        },
    };
    proof {
        lemma_div_trunc_bound(edge_u as int, width as int, LIMIT as int);
        lemma_div_trunc_bound(edge_v as int, height as int, LIMIT as int);
        lemma_div_trunc_bound(edge_u as int, 2, LIMIT as int);
        lemma_div_trunc_bound(edge_v as int, 2, LIMIT as int);
    }
    let delta_u: i64 = div_wide(edge_u as i128, width as i128) as i64;
    let delta_v: i64 = div_wide(edge_v as i128, height as i128) as i64;
    let back: i128 = fixed_mul(focus_dist, w);
    let corner_wide: i128 = eye as i128 - back - div_wide(edge_u as i128, 2) - div_wide(
        edge_v as i128,
        2,
    );
    let corner: i64 = match narrow(corner_wide) {
        Some(c) => c,
        None => {
            return None;
        },
    };
    let start_wide: i128 = corner as i128 + div_wide(delta_u as i128 + delta_v as i128, 2);
    let start: i64 = match narrow(start_wide) {
        Some(s) => s,
        None => {
            return None;
        },
    };
    let disk_u: i64 = match narrow(fixed_mul(disk_radius, u)) {
        Some(d) => d,
        None => {
            return None;
        },
    };
    let disk_v: i64 = match narrow(fixed_mul(disk_radius, v)) {
        Some(d) => d,
        None => {
            return None;
        },
    };
    Some(Axis { delta_u, delta_v, start, disk_u, disk_v })
}

impl Camera {
    /// What the sampling functions rely on: the image has between 1 and
    /// `MAX_DIM` pixels either way, there is at least one sample per pixel and
    /// one worker, and the pixel grid and the defocus disk lie within `LIMIT`.
    pub open spec fn wf(&self) -> bool {
        &&& 1 <= self.width <= MAX_DIM
        &&& 1 <= self.height <= MAX_DIM
        &&& self.sample_num >= 1
        &&& self.workers >= 1
        &&& self.eye@.within(LIMIT as int)
        &&& self.pixel_start@.within(LIMIT as int)
        &&& self.disk_u@.within(LIMIT as int)
        &&& self.disk_v@.within(LIMIT as int)
        &&& self.delta_u@.within((LIMIT as int) / (self.width as int))
        &&& self.delta_v@.within((LIMIT as int) / (self.height as int))
    }

    /// Whether a camera can be built for the view from `look_from` toward
    /// `look_at`: the inputs are valid, the view has an orientation, and the
    /// viewport is not too large.
    pub open spec fn buildable(look_from: Point, look_at: Point, config: Config) -> bool {
        &&& config.valid()
        &&& look_from@.within(LIMIT as int)
        &&& look_at@.within(LIMIT as int)
        &&& !degenerate(look_from@, look_at@)
        &&& view_geometry(look_from@, look_at@, config.optics()).fits()
    }

    /// Whether the camera is the one that the geometry prescribes for the
    /// view from `look_from` toward `look_at`.
    pub open spec fn matches_view(&self, look_from: Point, look_at: Point, config: Config) -> bool {
        let g = view_geometry(look_from@, look_at@, config.optics());
        &&& self.eye == look_from
        &&& self.width == config.width
        &&& self.height == g.height
        &&& self.pixel_start@ == g.pixel_start
        &&& self.delta_u@ == g.delta_u
        &&& self.delta_v@ == g.delta_v
        &&& self.sample_num == config.sample_num
        &&& self.reflect_depth == config.reflect_depth
        &&& self.lens_slope == config.lens_slope
        &&& self.disk_u@ == g.disk_u
        &&& self.disk_v@ == g.disk_v
        &&& self.workers == config.workers
    }

    /// Builds the camera for the view from `look_from` toward `look_at`.
    ///
    /// Fails with `InvalidConfig` when the configuration is not valid or a
    /// point lies beyond `LIMIT`, with `Degenerate` when the view has no
    /// orientation, and with `OutOfRange` when a length of the viewport
    /// exceeds `LIMIT`; in every other case the camera is built, and it is
    /// the one that the geometry prescribes.
    pub fn new(look_from: Point, look_at: Point, config: &Config) -> (result: Result<
        Camera,
        CameraError,
    >)
        ensures
            result is Ok <==> Camera::buildable(look_from, look_at, *config),
            result matches Ok(camera) ==> camera.wf() && camera.matches_view(
                look_from,
                look_at,
                *config,
            ),
            result matches Err(e) ==> e == (if !config.valid() || !look_from@.within(LIMIT as int)
                || !look_at@.within(LIMIT as int) {
                CameraError::InvalidConfig
            } else if degenerate(look_from@, look_at@) {
                CameraError::Degenerate
            } else {
                CameraError::OutOfRange
            }),
    {
        if !config.is_valid() || !look_from.in_limit() || !look_at.in_limit() {
            return Err(CameraError::InvalidConfig);
        }
        let width: usize = config.width;
        let height: usize = config.height();
        let sight = look_from.minus(&look_at);
        let w = match sight.unit() {
            Some(w) => w,
            None => {
                return Err(CameraError::Degenerate);
            },
        };
        let up = Vec3 { x: 0, y: ONE, z: 0 };
        proof {
            lemma_cross_bound(up@, w@);
        }
        let side = up.cross(&w);
        let u = match side.unit() {
            Some(u) => u,
            None => {
                return Err(CameraError::Degenerate);
            },
        };
        proof {
            lemma_cross_bound(w@, u@);
        }
        let v = w.cross(&u);
        let view_height: i64 = match narrow(2 * fixed_mul(config.view_slope, config.focus_dist)) {
            Some(h) => h,
            None => {
                return Err(CameraError::OutOfRange);
            },
        };
        let view_width: i64 = match narrow(
            div_wide(mul_wide(view_height, config.aspect_num as i64), config.aspect_den as i128),
        ) {
            Some(w) => w,
            None => {
                return Err(CameraError::OutOfRange);
            },
        };
        let disk_radius: i64 = match narrow(fixed_mul(config.focus_dist, config.lens_slope)) {
            Some(r) => r,
            None => {
                return Err(CameraError::OutOfRange);
            },
        };
        let focus_dist: i64 = config.focus_dist;
        let x = match axis_geometry(
            look_from.x,
            w.x,
            u.x,
            v.x,
            view_width,
            view_height,
            focus_dist,
            disk_radius,
            width,
            height,
        ) {
            Some(a) => a,
            None => {
                return Err(CameraError::OutOfRange);
            },
        };
        let y = match axis_geometry(
            look_from.y,
            w.y,
            u.y,
            v.y,
            view_width,
            view_height,
            focus_dist,
            disk_radius,
            width,
            height,
        ) {
            Some(a) => a,
            None => {
                return Err(CameraError::OutOfRange);
            },
        };
        let z = match axis_geometry(
            look_from.z,
            w.z,
            u.z,
            v.z,
            view_width,
            view_height,
            focus_dist,
            disk_radius,
            width,
            height,
        ) {
            Some(a) => a,
            None => {
                return Err(CameraError::OutOfRange);
            },
        };
        proof {
            lemma_step_within(x.delta_u as int, width as int);
            lemma_step_within(y.delta_u as int, width as int);
            lemma_step_within(z.delta_u as int, width as int);
            lemma_step_within(x.delta_v as int, height as int);
            lemma_step_within(y.delta_v as int, height as int);
            lemma_step_within(z.delta_v as int, height as int);
        }
        Ok(
            Camera {
                eye: look_from,
                width,
                height,
                pixel_start: Vec3 { x: x.start, y: y.start, z: z.start },
                delta_u: Vec3 { x: x.delta_u, y: y.delta_u, z: z.delta_u },
                delta_v: Vec3 { x: x.delta_v, y: y.delta_v, z: z.delta_v },
                sample_num: config.sample_num,
                reflect_depth: config.reflect_depth,
                lens_slope: config.lens_slope,
                disk_u: Vec3 { x: x.disk_u, y: y.disk_u, z: z.disk_u },
                disk_v: Vec3 { x: x.disk_v, y: y.disk_v, z: z.disk_v },
                workers: config.workers,
            },
        )
    }
}

proof fn lemma_step_within(step: int, count: int)
    requires
        count >= 1,
        magnitude(step) * count <= LIMIT,
    ensures
        magnitude(step) <= (LIMIT as int) / count,
{
    let m = magnitude(step);
    assert(m <= (LIMIT as int) / count) by (nonlinear_arith)
        requires
            count >= 1,
            m * count <= LIMIT,
            m >= 0,
    ;
}

/// An offset in the plane: the jitter of a sample within its pixel, measured
/// in pixels, or a point of the unit disk that stands for a point of the lens.
#[derive(Clone, Copy, Debug, PartialEq, Eq, Structural)]
pub struct Offset {
    pub x: i64,
    pub y: i64,
}

impl Offset {
    /// Whether neither coordinate is larger in magnitude than `bound`.
    pub open spec fn within(self, bound: int) -> bool {
        magnitude(self.x as int) <= bound && magnitude(self.y as int) <= bound
    }
}

/// A half-line: where it starts, and the direction it runs in.
#[derive(Clone, Copy, Debug, PartialEq, Eq, Structural)]
pub struct Ray {
    pub origin: Point,
    pub direction: Vec3,
}

proof fn lemma_step_reach(s: int, step: int, count: int)
    requires
        count >= 1,
        magnitude(s) <= count * ONE,
        magnitude(step) <= (LIMIT as int) / count,
    ensures
        magnitude(fx_mul(s, step)) <= LIMIT,
{
    let m = magnitude(step);
    assert(m * count <= LIMIT) by (nonlinear_arith)
        requires
            count >= 1,
            0 <= m <= (LIMIT as int) / count,
    ;
    lemma_fx_mul_bound(s, step, count * ONE, m);
    let r = magnitude(fx_mul(s, step));
    assert(r <= LIMIT) by (nonlinear_arith)
        requires
            r * ONE <= (count * ONE) * m,
            m * count <= LIMIT,
            ONE > 0,
    ;
}

/// `base + sa * a + sb * b`, where that is in the range of an `i64`.
fn combine(base: i64, sa: i64, a: i64, sb: i64, b: i64) -> (r: i64)
    requires
        i64::MIN <= base + fx_mul(sa as int, a as int) + fx_mul(sb as int, b as int) <= i64::MAX,
    ensures
        r == base + fx_mul(sa as int, a as int) + fx_mul(sb as int, b as int),
{
    let sum: i128 = base as i128 + fixed_mul(sa, a) + fixed_mul(sb, b);
    sum as i64
}

/// A point of the defocus disk lies within `3 * LIMIT` when the eye and the
/// vectors that span the disk lie within `LIMIT` and the offset is a point of
/// the unit disk.
pub proof fn lemma_lens_point_bound(eye: V3, disk_u: V3, disk_v: V3, px: int, py: int)
    requires
        eye.within(LIMIT as int),
        disk_u.within(LIMIT as int),
        disk_v.within(LIMIT as int),
        magnitude(px) <= ONE,
        magnitude(py) <= ONE,
    ensures
        lens_point(eye, disk_u, disk_v, px, py).within(3 * LIMIT),
        lens_point(eye, disk_u, disk_v, px, py).fits(),
{
    lemma_fx_mul_shrinks(disk_u.x, px);
    lemma_fx_mul_shrinks(disk_u.y, px);
    lemma_fx_mul_shrinks(disk_u.z, px);
    lemma_fx_mul_shrinks(disk_v.x, py);
    lemma_fx_mul_shrinks(disk_v.y, py);
    lemma_fx_mul_shrinks(disk_v.z, py);
}

/// The point of the defocus disk around `eye` that the point `p` of the unit
/// disk stands for: `eye + p.x * disk_u + p.y * disk_v`.
pub fn defocus_sample(eye: Point, disk_u: Vec3, disk_v: Vec3, p: Offset) -> (origin: Point)
    requires
        lens_point(eye@, disk_u@, disk_v@, p.x as int, p.y as int).fits(),
    ensures
        origin@ == lens_point(eye@, disk_u@, disk_v@, p.x as int, p.y as int),
{
    Vec3 {
        x: combine(eye.x, p.x, disk_u.x, p.y, disk_v.x),
        y: combine(eye.y, p.x, disk_u.y, p.y, disk_v.y),
        z: combine(eye.z, p.x, disk_u.z, p.y, disk_v.z),
    }
}

impl Camera {
    /// Where a sample's ray starts: at the eye when the camera is a pinhole,
    /// else at the point of the defocus disk that `lens` stands for.
    pub open spec fn spec_ray_origin(&self, lens: Offset) -> V3 {
        if self.lens_slope <= 0 {
            self.eye@
        } else {
            lens_point(self.eye@, self.disk_u@, self.disk_v@, lens.x as int, lens.y as int)
        }
    }

    /// The point that a sample of pixel (`row`, `col`) aims at.
    pub open spec fn spec_target(&self, row: int, col: int, jitter: Offset) -> V3 {
        target_point(
            self.pixel_start@,
            self.delta_u@,
            self.delta_v@,
            row,
            col,
            jitter.x as int,
            jitter.y as int,
        )
    }

    /// Where a sample's ray starts. With a defocus angle that is not
    /// positive this is the eye itself, whatever `lens` is.
    pub fn ray_origin(&self, lens: Offset) -> (origin: Point)
        requires
            self.wf(),
            lens.within(ONE as int),
        ensures
            origin@ == self.spec_ray_origin(lens),
            self.lens_slope <= 0 ==> origin == self.eye,
            origin@.within(3 * LIMIT),
    {
        if self.lens_slope <= 0 {
            self.eye
        } else {
            proof {
                lemma_lens_point_bound(
                    self.eye@,
                    self.disk_u@,
                    self.disk_v@,
                    lens.x as int,
                    lens.y as int,
                );
            }
            defocus_sample(self.eye, self.disk_u, self.disk_v, lens)
        }
    }

    /// The point of the viewport that a sample of pixel (`row`, `col`) aims
    /// at: the centre of the pixel, moved by the jitter.
    pub fn sample_target(&self, row: usize, col: usize, jitter: Offset) -> (target: Point)
        requires
            self.wf(),
            row < self.height,
            col < self.width,
            jitter.within(HALF as int),
        ensures
            target@ == self.spec_target(row as int, col as int, jitter),
            target@.within(3 * LIMIT),
    {
        let down: i64 = row as i64 * ONE + jitter.y;
        let right: i64 = col as i64 * ONE + jitter.x;
        proof {
            let h = self.height as int;
            let w = self.width as int;
            lemma_step_reach(down as int, self.delta_v.x as int, h);
            lemma_step_reach(down as int, self.delta_v.y as int, h);
            lemma_step_reach(down as int, self.delta_v.z as int, h);
            lemma_step_reach(right as int, self.delta_u.x as int, w);
            lemma_step_reach(right as int, self.delta_u.y as int, w);
            lemma_step_reach(right as int, self.delta_u.z as int, w);
        }
        Vec3 {
            x: combine(self.pixel_start.x, down, self.delta_v.x, right, self.delta_u.x),
            y: combine(self.pixel_start.y, down, self.delta_v.y, right, self.delta_u.y),
            z: combine(self.pixel_start.z, down, self.delta_v.z, right, self.delta_u.z),
        }
    }

    /// The ray of one sample of pixel (`row`, `col`): from the ray origin
    /// toward the jittered target.
    pub fn sample_ray(&self, row: usize, col: usize, jitter: Offset, lens: Offset) -> (ray: Ray)
        requires
            self.wf(),
            row < self.height,
            col < self.width,
            jitter.within(HALF as int),
            lens.within(ONE as int),
        ensures
            ray.origin@ == self.spec_ray_origin(lens),
            ray.direction@ == self.spec_target(row as int, col as int, jitter).minus(
                self.spec_ray_origin(lens),
            ),
            self.lens_slope <= 0 ==> ray.origin == self.eye,
    {
        let origin = self.ray_origin(lens);
        let target = self.sample_target(row, col, jitter);
        Ray {
            origin,
            direction: Vec3 {
                x: target.x - origin.x,
                y: target.y - origin.y,
                z: target.z - origin.z,
            },
        }
    }
}

} // verus!
