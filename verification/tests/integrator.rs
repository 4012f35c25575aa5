use raycam::camera::Ray;
use raycam::color::{black, Color};
use raycam::fixed::ONE;
use raycam::integrator::{
    after_probe, after_scatter, ray_color, shade_path, trace_path, HitRecord, Hittable, Material,
    Path, PathEnd, Probed, Scattered, T_MAX, T_MIN,
};
use raycam::vec3::Vec3;
use std::cell::Cell;

fn white() -> raycam::vec3::Vec3 {
    raycam::vec3::Vec3::new(1 << 32, 1 << 32, 1 << 32)
}

fn fx(x: f64) -> i64 {
    (x * ONE as f64).round() as i64
}

fn times(a: i64, b: i64) -> i64 {
    ((a as i128 * b as i128) / ONE as i128) as i64
}

/// A surface with one tint that either absorbs every ray or scatters it
/// along the normal.
struct Plain {
    tint: Color,
    absorbs: bool,
}

impl Material for Plain {
    fn scatter(&self, _ray_in: &Ray, hit: &HitRecord<Self>) -> Option<(Color, Ray)> {
        if self.absorbs {
            None
        } else {
            Some((self.tint, Ray { origin: hit.point, direction: hit.normal }))
        }
    }
}

/// A scene without surfaces.
struct Nothing;

impl Hittable for Nothing {
    type Surface = Plain;

    fn hit(&self, _ray: &Ray, _t_min: i64, _t_max: i64) -> Option<HitRecord<'_, Plain>> {
        None
    }
}

/// A scene in which the first `surfaces` rays hit something and all later
/// rays hit nothing. It counts the rays and keeps the range of the last one.
struct Fog {
    material: Plain,
    surfaces: u32,
    asked: Cell<u32>,
    range: Cell<(i64, i64)>,
}

impl Fog {
    fn new(surfaces: u32, tint: Color, absorbs: bool) -> Fog {
        Fog { material: Plain { tint, absorbs }, surfaces, asked: Cell::new(0), range: Cell::new((0, 0)) }
    }
}

impl Hittable for Fog {
    type Surface = Plain;

    fn hit(&self, ray: &Ray, t_min: i64, t_max: i64) -> Option<HitRecord<'_, Plain>> {
        let n = self.asked.get();
        self.asked.set(n + 1);
        self.range.set((t_min, t_max));
        if n < self.surfaces {
            let point = Vec3::new(ray.origin.x + ONE, ray.origin.y, ray.origin.z);
            Some(HitRecord { point, normal: Vec3::new(0, ONE, 0), t: ONE, material: &self.material })
        } else {
            None
        }
    }
}

fn some_ray() -> Ray {
    Ray { origin: Vec3::new(ONE, 2 * ONE, 3 * ONE), direction: Vec3::new(0, 0, -ONE) }
}

fn grey() -> Color {
    Vec3::new(ONE / 2, ONE / 2, ONE / 2)
}

#[test]
fn range_of_a_hit() {
    assert_eq!(T_MIN, (0.001 * ONE as f64) as i64);
    assert_eq!(T_MAX, i64::MAX);
}

fn found(material: &Plain) -> Option<HitRecord<'_, Plain>> {
    Some(HitRecord { point: Vec3::new(0, 0, 0), normal: Vec3::new(0, ONE, 0), t: ONE, material })
}

#[test]
fn a_miss_sees_the_background() {
    for depth in [0u8, 1, 20, 255] {
        assert_eq!(after_probe(&None::<HitRecord<Plain>>, depth), Probed::Background);
    }
}

#[test]
fn a_hit_without_budget_sees_black() {
    let material = Plain { tint: grey(), absorbs: false };
    assert_eq!(after_probe(&found(&material), 0), Probed::Black);
}

#[test]
fn a_hit_with_budget_is_scattered() {
    let material = Plain { tint: grey(), absorbs: true };
    for depth in [1u8, 2, 20, 255] {
        assert_eq!(after_probe(&found(&material), depth), Probed::Scatter);
    }
}

#[test]
fn an_absorbed_ray_sees_black() {
    for depth in [1u8, 20, 255] {
        assert_eq!(after_scatter(None, depth), Scattered::Black);
    }
}

#[test]
fn a_scattered_ray_is_followed_with_one_bounce_less() {
    let tint = Vec3::new(fx(0.8), fx(0.2), fx(0.1));
    let ray = Ray { origin: Vec3::new(7, 8, 9), direction: Vec3::new(0, ONE, 0) };
    assert_eq!(after_scatter(Some((tint, ray)), 1), Scattered::Follow { tint, ray, depth: 0 });
    assert_eq!(after_scatter(Some((tint, ray)), 20), Scattered::Follow { tint, ray, depth: 19 });
    assert_eq!(
        after_scatter(Some((grey(), some_ray())), 255),
        Scattered::Follow { tint: grey(), ray: some_ray(), depth: 254 }
    );
}

#[test]
fn path_in_an_empty_scene_escapes_at_once() {
    for depth in [0u8, 1, 20] {
        let path = trace_path(&some_ray(), &Nothing, depth);
        assert_eq!(path.end, PathEnd::Escaped);
        assert!(path.tints.is_empty());
        assert_eq!(path.last, some_ray());
        assert_eq!(path.rays, vec![some_ray()]);
    }
}

#[test]
fn path_runs_out_of_bounces() {
    for depth in [0u8, 1, 3, 20, 255] {
        let scene = Fog::new(u32::MAX, grey(), false);
        let path = trace_path(&some_ray(), &scene, depth);
        assert_eq!(path.end, PathEnd::Exhausted);
        assert_eq!(path.tints.len(), depth as usize);
        assert!(path.tints.iter().all(|t| *t == grey()));
        assert_eq!(scene.asked.get(), depth as u32 + 1);
    }
}

#[test]
fn path_is_absorbed() {
    let scene = Fog::new(u32::MAX, grey(), true);
    let path = trace_path(&some_ray(), &scene, 20);
    assert_eq!(path.end, PathEnd::Absorbed);
    assert!(path.tints.is_empty());
    assert_eq!(path.last, some_ray());
    assert_eq!(scene.asked.get(), 1);
}

#[test]
fn absorbing_surface_without_budget_is_not_asked() {
    let scene = Fog::new(u32::MAX, grey(), true);
    let path = trace_path(&some_ray(), &scene, 0);
    assert_eq!(path.end, PathEnd::Exhausted);
}

#[test]
fn path_escapes_after_two_bounces() {
    let scene = Fog::new(2, grey(), false);
    let path = trace_path(&some_ray(), &scene, 5);
    assert_eq!(path.end, PathEnd::Escaped);
    assert_eq!(path.tints, vec![grey(), grey()]);
    assert_eq!(scene.asked.get(), 3);
    // each bounce leaves from a point one unit further along x, along the normal
    let start = some_ray().origin;
    assert_eq!(path.last.origin, Vec3::new(start.x + 2 * ONE, start.y, start.z));
    assert_eq!(path.last.direction, Vec3::new(0, ONE, 0));
}

#[test]
fn path_escapes_with_the_last_bounce() {
    let scene = Fog::new(2, grey(), false);
    let path = trace_path(&some_ray(), &scene, 2);
    assert_eq!(path.end, PathEnd::Escaped);
    assert_eq!(path.tints.len(), 2);
    let short = Fog::new(2, grey(), false);
    let cut = trace_path(&some_ray(), &short, 1);
    assert_eq!(cut.end, PathEnd::Exhausted);
    assert_eq!(cut.tints.len(), 1);
}

#[test]
fn scene_is_asked_beyond_the_surface() {
    let scene = Fog::new(1, grey(), false);
    trace_path(&some_ray(), &scene, 3);
    assert_eq!(scene.range.get(), (T_MIN, T_MAX));
}

#[test]
fn colour_of_an_escaped_path() {
    let background = Vec3::new(fx(0.8), fx(0.8), fx(0.8));
    let first = grey();
    let second = Vec3::new(ONE, ONE / 2, ONE / 4);
    let path = Path { rays: vec![some_ray()], tints: vec![first, second], last: some_ray(), end: PathEnd::Escaped };
    let seen = shade_path(&path, background);
    let expected = Vec3::new(
        times(first.x, times(second.x, background.x)),
        times(first.y, times(second.y, background.y)),
        times(first.z, times(second.z, background.z)),
    );
    assert_eq!(seen, expected);
    assert_eq!(seen, Vec3::new(1717986918, 858993459, 429496729));
}

#[test]
fn colour_of_a_path_without_bounces_is_the_background() {
    let background = Vec3::new(fx(0.5), fx(0.7), ONE);
    let path = Path { rays: vec![some_ray()], tints: vec![], last: some_ray(), end: PathEnd::Escaped };
    assert_eq!(shade_path(&path, background), background);
}

#[test]
fn tints_apply_from_the_last_surface_back() {
    // rounding makes the order visible: 3 * 0.5 = 1, then 1 * 0.5 = 0
    let half = Vec3::new(ONE / 2, ONE / 2, ONE / 2);
    let path = Path { rays: vec![some_ray()], tints: vec![half, half], last: some_ray(), end: PathEnd::Escaped };
    assert_eq!(shade_path(&path, Vec3::new(3, 5, 7)), Vec3::new(0, 1, 1));
}

#[test]
fn colour_of_a_path_that_ends_on_a_surface_is_black() {
    let background = white();
    for end in [PathEnd::Absorbed, PathEnd::Exhausted] {
        for tints in [vec![], vec![grey()], vec![white(), Vec3::new(5 * ONE, -ONE, 0)]] {
            let path = Path { rays: vec![some_ray()], tints, last: some_ray(), end };
            assert_eq!(shade_path(&path, background), black());
        }
    }
}

#[test]
fn ray_in_an_empty_scene_sees_the_background() {
    // the background depends on the direction of the ray
    let sky = |ray: Ray| Vec3::new(ray.direction.x.abs(), ray.direction.y.abs(), ray.direction.z.abs());
    for depth in [0u8, 1, 20] {
        for direction in [Vec3::new(ONE, 0, 0), Vec3::new(ONE / 3, -ONE / 2, ONE), Vec3::new(0, 0, 7)] {
            let ray = Ray { origin: Vec3::new(0, 0, 0), direction };
            assert_eq!(ray_color(&ray, &Nothing, depth, &sky), sky(ray));
        }
    }
}

#[test]
fn ray_that_bounces_is_tinted() {
    let sky = |_ray: Ray| white();
    let tint = Vec3::new(fx(0.8), fx(0.2), fx(0.1));
    let once = Fog::new(1, tint, false);
    assert_eq!(ray_color(&some_ray(), &once, 20, &sky), tint);
    let twice = Fog::new(2, tint, false);
    assert_eq!(
        ray_color(&some_ray(), &twice, 20, &sky),
        Vec3::new(times(tint.x, tint.x), times(tint.y, tint.y), times(tint.z, tint.z))
    );
}

#[test]
fn ray_without_budget_sees_black_on_a_surface() {
    let sky = |_ray: Ray| white();
    let scene = Fog::new(u32::MAX, grey(), false);
    assert_eq!(ray_color(&some_ray(), &scene, 0, &sky), black());
    let deep = Fog::new(u32::MAX, grey(), false);
    assert_eq!(ray_color(&some_ray(), &deep, 20, &sky), black());
    let absorbing = Fog::new(u32::MAX, grey(), true);
    assert_eq!(ray_color(&some_ray(), &absorbing, 20, &sky), black());
}

#[test]
fn background_is_asked_about_the_last_ray() {
    let sky = |ray: Ray| ray.direction;
    let scene = Fog::new(1, white(), false);
    // the only surface scatters along its normal
    assert_eq!(ray_color(&some_ray(), &scene, 20, &sky), Vec3::new(0, ONE, 0));
}

/// A scene with two surfaces of different tints: the first ray hits the
/// first, the ray scattered there hits the second, and the next ray leaves.
struct Stairs {
    first: Plain,
    second: Plain,
}

impl Hittable for Stairs {
    type Surface = Plain;

    fn hit(&self, ray: &Ray, _t_min: i64, _t_max: i64) -> Option<HitRecord<'_, Plain>> {
        let step = |material| {
            let point = Vec3::new(ray.origin.x, ray.origin.y + ONE, ray.origin.z);
            Some(HitRecord { point, normal: Vec3::new(ONE, 0, 0), t: ONE, material })
        };
        if ray.origin.y == 0 {
            step(&self.first)
        } else if ray.origin.y == ONE {
            step(&self.second)
        } else {
            None
        }
    }
}

#[test]
fn path_keeps_each_tint_and_follows_each_scattered_ray() {
    let red = Vec3::new(ONE, 0, 0);
    let blue = Vec3::new(0, 0, ONE / 2);
    let scene = Stairs { first: Plain { tint: red, absorbs: false }, second: Plain { tint: blue, absorbs: false } };
    let start = Ray { origin: Vec3::new(5, 0, 5), direction: Vec3::new(0, ONE, 0) };
    let path = trace_path(&start, &scene, 20);
    assert_eq!(path.end, PathEnd::Escaped);
    assert_eq!(path.tints, vec![red, blue]);
    assert_eq!(path.last, Ray { origin: Vec3::new(5, 2 * ONE, 5), direction: Vec3::new(ONE, 0, 0) });
    assert_eq!(
        path.rays,
        vec![
            start,
            Ray { origin: Vec3::new(5, ONE, 5), direction: Vec3::new(ONE, 0, 0) },
            Ray { origin: Vec3::new(5, 2 * ONE, 5), direction: Vec3::new(ONE, 0, 0) },
        ]
    );
    let cut = trace_path(&start, &scene, 1);
    assert_eq!(cut.end, PathEnd::Exhausted);
    assert_eq!(cut.tints, vec![red]);
    assert_eq!(cut.last, Ray { origin: Vec3::new(5, ONE, 5), direction: Vec3::new(ONE, 0, 0) });
}

#[test]
fn absorbing_second_surface_ends_the_path_there() {
    let red = Vec3::new(ONE, 0, 0);
    let scene = Stairs { first: Plain { tint: red, absorbs: false }, second: Plain { tint: red, absorbs: true } };
    let start = Ray { origin: Vec3::new(0, 0, 0), direction: Vec3::new(0, ONE, 0) };
    let path = trace_path(&start, &scene, 20);
    assert_eq!(path.end, PathEnd::Absorbed);
    assert_eq!(path.tints, vec![red]);
    assert_eq!(path.last.origin, Vec3::new(0, ONE, 0));
    let sky = |_ray: Ray| white();
    assert_eq!(ray_color(&start, &scene, 20, &sky), black());
}
