use raycam::bands::Band;
use raycam::buffer::{render_band, PixelBuffer};
use raycam::camera::{Camera, Config, Offset, Ray};
use raycam::color::{black, mean_color, quantize, Color};
use raycam::fixed::{HALF, ONE};
use raycam::integrator::{ray_color, HitRecord, Hittable, Material};
use raycam::ppm::{encode, Rgb};
use raycam::sampling::{pixel_color, Draw};
use raycam::vec3::Vec3;
use std::cell::Cell;
use std::sync::atomic::{AtomicUsize, Ordering};

fn white() -> raycam::vec3::Vec3 {
    raycam::vec3::Vec3::new(1 << 32, 1 << 32, 1 << 32)
}

fn fx(x: f64) -> i64 {
    (x * ONE as f64).round() as i64
}

fn fl(v: i64) -> f64 {
    v as f64 / ONE as f64
}

fn floats(v: Vec3) -> [f64; 3] {
    [fl(v.x), fl(v.y), fl(v.z)]
}

fn fixed(v: [f64; 3]) -> Vec3 {
    Vec3::new(fx(v[0]), fx(v[1]), fx(v[2]))
}

fn dot(a: [f64; 3], b: [f64; 3]) -> f64 {
    a[0] * b[0] + a[1] * b[1] + a[2] * b[2]
}

/// A source of random draws with a seed.
struct Dice {
    state: Cell<u64>,
}

impl Dice {
    fn new(seed: u64) -> Dice {
        Dice { state: Cell::new(seed.wrapping_mul(0x9E37_79B9_7F4A_7C15) | 1) }
    }

    fn next(&self) -> i64 {
        let mut x = self.state.get();
        x ^= x << 13;
        x ^= x >> 7;
        x ^= x << 17;
        self.state.set(x);
        (x >> 32) as i64
    }

    fn draw(&self) -> Draw {
        let jitter = Offset { x: self.next() - HALF, y: self.next() - HALF };
        loop {
            let (x, y) = (2 * self.next() - ONE, 2 * self.next() - ONE);
            if (x as i128) * (x as i128) + (y as i128) * (y as i128) <= (ONE as i128) * (ONE as i128) {
                return Draw { jitter, lens: Offset { x, y } };
            }
        }
    }
}

struct Paint {
    tint: Color,
}

impl Material for Paint {
    fn scatter(&self, _ray_in: &Ray, hit: &HitRecord<Self>) -> Option<(Color, Ray)> {
        Some((self.tint, Ray { origin: hit.point, direction: hit.normal }))
    }
}

struct Nothing;

impl Hittable for Nothing {
    type Surface = Paint;

    fn hit(&self, _ray: &Ray, _t_min: i64, _t_max: i64) -> Option<HitRecord<'_, Paint>> {
        None
    }
}

struct Sphere {
    centre: [f64; 3],
    radius: f64,
    paint: Paint,
}

impl Hittable for Sphere {
    type Surface = Paint;

    fn hit(&self, ray: &Ray, t_min: i64, t_max: i64) -> Option<HitRecord<'_, Paint>> {
        let origin = floats(ray.origin);
        let direction = floats(ray.direction);
        let oc = [origin[0] - self.centre[0], origin[1] - self.centre[1], origin[2] - self.centre[2]];
        let a = dot(direction, direction);
        let half_b = dot(oc, direction);
        let c = dot(oc, oc) - self.radius * self.radius;
        let discriminant = half_b * half_b - a * c;
        if discriminant < 0.0 {
            return None;
        }
        let root = discriminant.sqrt();
        let (near, far) = ((-half_b - root) / a, (-half_b + root) / a);
        let inside = |t: f64| t > fl(t_min) && t < fl(t_max);
        let t = if inside(near) {
            near
        } else if inside(far) {
            far
        } else {
            return None;
        };
        let point = [origin[0] + t * direction[0], origin[1] + t * direction[1], origin[2] + t * direction[2]];
        let normal = [
            (point[0] - self.centre[0]) / self.radius,
            (point[1] - self.centre[1]) / self.radius,
            (point[2] - self.centre[2]) / self.radius,
        ];
        Some(HitRecord { point: fixed(point), normal: fixed(normal), t: fx(t), material: &self.paint })
    }
}

/// Eye at (0, 0, 5) looking at the origin; the viewport is the square from
/// -10.5 to 10.5 in the plane z = 0, 21 by 21 pixels of size 1.
fn camera(sample_num: u16, lens_slope: i64, workers: usize) -> Camera {
    let config = Config {
        width: 21,
        aspect_num: 1,
        aspect_den: 1,
        view_slope: fx(2.1),
        focus_dist: 5 * ONE,
        lens_slope,
        sample_num,
        reflect_depth: 20,
        workers,
    };
    Camera::new(Vec3::new(0, 0, 5 * ONE), Vec3::new(0, 0, 0), &config).unwrap()
}

fn red() -> Color {
    Vec3::new(fx(0.8), fx(0.2), fx(0.1))
}

/// A sphere around the origin whose outline, seen from the eye, is the
/// circle of radius 3 in the plane z = 0.
fn ball() -> Sphere {
    Sphere { centre: [0.0, 0.0, 0.0], radius: (225.0f64 / 34.0).sqrt(), paint: Paint { tint: red() } }
}

fn solid(_ray: Ray) -> Color {
    white()
}

fn gradient(ray: Ray) -> Color {
    Vec3::new(ONE / 2 + ray.direction.x / 64, ONE / 2 + ray.direction.y / 64, ONE)
}

fn render<S: Hittable, B: Fn(Ray) -> Color>(
    camera: &Camera,
    scene: &S,
    background: &B,
    seed: u64,
) -> (PixelBuffer<Color>, usize) {
    let dice = Dice::new(seed);
    let draw = |_row: usize, _col: usize, _k: u16| dice.draw();
    let counter = Cell::new(0usize);
    let mut image = PixelBuffer::new(camera.width, camera.height, black());
    for id in 0..camera.workers {
        let band = Band::of_worker(id, camera.height, camera.workers);
        let local = render_band(band, camera.width, |row: usize, col: usize| {
            let seen = pixel_color(camera, scene, row, col, &draw, background);
            counter.set(counter.get() + 1);
            seen
        });
        image.merge_band(band, &local);
    }
    (image, counter.get())
}

fn written(image: &PixelBuffer<Color>) -> Vec<u8> {
    let pixels: Vec<Rgb> = image.pixels().iter().map(|c| quantize(*c)).collect();
    encode(&PixelBuffer::from_vec(image.width(), image.height(), pixels).unwrap())
}

fn distance(a: Color, b: Color) -> f64 {
    let d = [fl(a.x) - fl(b.x), fl(a.y) - fl(b.y), fl(a.z) - fl(b.z)];
    dot(d, d).sqrt()
}

#[test]
fn pixel_is_the_mean_of_its_samples() {
    let camera = camera(7, fx(0.05), 1);
    let first = Dice::new(42);
    let seen = pixel_color(&camera, &Nothing, 3, 17, &|_row: usize, _col: usize, _k: u16| first.draw(), &gradient);
    let second = Dice::new(42);
    let mut samples = Vec::new();
    for _ in 0..7 {
        let d = second.draw();
        let ray = camera.sample_ray(3, 17, d.jitter, d.lens);
        samples.push(ray_color(&ray, &Nothing, 20, &gradient));
    }
    assert_eq!(seen, mean_color(&samples));
}

#[test]
fn pixel_takes_one_draw_per_sample() {
    for sample_num in [1u16, 2, 50, 500] {
        let camera = camera(sample_num, 0, 1);
        let draws = Cell::new(0u32);
        let still = |_row: usize, _col: usize, _k: u16| {
            draws.set(draws.get() + 1);
            Draw { jitter: Offset { x: 0, y: 0 }, lens: Offset { x: 0, y: 0 } }
        };
        pixel_color(&camera, &Nothing, 0, 0, &still, &solid);
        assert_eq!(draws.get(), sample_num as u32);
    }
}

#[test]
fn empty_scene_shows_the_background_of_each_central_ray() {
    let camera = camera(3, 0, 4);
    let still = |_row: usize, _col: usize, _k: u16| Draw { jitter: Offset { x: 0, y: 0 }, lens: Offset { x: 0, y: 0 } };
    let none = Offset { x: 0, y: 0 };
    for row in 0..camera.height {
        for col in 0..camera.width {
            let seen = pixel_color(&camera, &Nothing, row, col, &still, &gradient);
            let central = camera.sample_ray(row, col, none, none);
            assert_eq!(seen, gradient(central));
        }
    }
}

#[test]
fn empty_scene_with_solid_background_is_solid() {
    let camera = camera(5, fx(0.1), 3);
    let (image, _) = render(&camera, &Nothing, &solid, 7);
    assert!(image.pixels().iter().all(|c| *c == white()));
}

#[test]
fn same_seed_gives_the_same_image() {
    let camera = camera(1, fx(0.05), 4);
    let (first, _) = render(&camera, &ball(), &gradient, 2024);
    let (second, _) = render(&camera, &ball(), &gradient, 2024);
    assert_eq!(first.pixels(), second.pixels());
    assert_eq!(written(&first), written(&second));
    let (other, _) = render(&camera, &ball(), &gradient, 2025);
    assert_ne!(first.pixels(), other.pixels());
}

#[test]
fn every_pixel_is_counted_once() {
    for workers in [1usize, 4, 12, 30] {
        let camera = camera(1, 0, workers);
        let (image, counted) = render(&camera, &Nothing, &solid, 1);
        assert_eq!(counted, camera.width * camera.height);
        assert_eq!(image.pixels().len(), counted);
    }
}

#[test]
fn sphere_in_the_centre_is_seen_in_the_centre() {
    let camera = camera(50, 0, 12);
    let (image, _) = render(&camera, &ball(), &solid, 99);
    let centre = image.get(10, 10);
    assert!(distance(centre, red()) < 1e-6);
    for (row, col) in [(0, 0), (0, 20), (20, 0), (20, 20)] {
        let corner = image.get(row, col);
        assert_eq!(corner, white());
        assert!(distance(centre, red()) < distance(corner, red()));
    }
    let text = String::from_utf8(written(&image)).unwrap();
    let lines: Vec<&str> = text.lines().collect();
    assert_eq!(lines[1], "21 21");
    assert_eq!(lines[3], "255 255 255");
    // sqrt(0.8) = 0.894, sqrt(0.2) = 0.447, sqrt(0.1) = 0.316
    assert_eq!(lines[3 + 10 * 21 + 10], "228 114 80");
}

#[test]
fn pixel_on_the_outline_mixes_sphere_and_background() {
    let camera = camera(400, 0, 1);
    let dice = Dice::new(5);
    let seen = pixel_color(&camera, &ball(), 10, 13, &|_row: usize, _col: usize, _k: u16| dice.draw(), &solid);
    // about half of the pixel shows the sphere
    let share = (fl(white().x) - fl(seen.x)) / (fl(white().x) - fl(red().x));
    assert!(share > 0.35 && share < 0.65, "share {share}");
}

#[test]
fn more_samples_give_a_steadier_pixel() {
    let spread = |sample_num: u16| {
        let camera = camera(sample_num, 0, 1);
        let runs = 60;
        let values: Vec<f64> = (0..runs)
            .map(|run| {
                let dice = Dice::new(1000 + run);
                fl(pixel_color(&camera, &ball(), 10, 13, &|_row: usize, _col: usize, _k: u16| dice.draw(), &solid).x)
            })
            .collect();
        let mean = values.iter().sum::<f64>() / runs as f64;
        values.iter().map(|v| (v - mean) * (v - mean)).sum::<f64>() / runs as f64
    };
    let (few, some, many) = (spread(2), spread(16), spread(128));
    assert!(few > some, "{few} {some}");
    assert!(some > many, "{some} {many}");
}

#[test]
fn defocus_blurs_what_is_out_of_focus() {
    // the sphere lies behind the plane in focus, so a wide lens blurs its outline
    let far = Sphere { centre: [0.0, 0.0, -20.0], radius: 10.0, paint: Paint { tint: red() } };
    let sharp = camera(200, 0, 1);
    let blurred = camera(200, fx(0.3), 1);
    let dice = Dice::new(3);
    let inside_sharp = pixel_color(&sharp, &far, 10, 11, &|_row: usize, _col: usize, _k: u16| dice.draw(), &solid);
    assert!(distance(inside_sharp, red()) < 1e-6);
    let inside_blurred = pixel_color(&blurred, &far, 10, 11, &|_row: usize, _col: usize, _k: u16| dice.draw(), &solid);
    assert!(distance(inside_blurred, red()) > 1e-3);
}

#[test]
fn whole_render_is_the_work_of_its_parts() {
    for workers in [1usize, 5, 12] {
        let camera = camera(3, fx(0.05), workers);
        let (expected, _) = render(&camera, &ball(), &gradient, 77);
        let dice = Dice::new(77);
        let counter = AtomicUsize::new(0);
        let image = camera.render(&ball(), &|_row: usize, _col: usize, _k: u16| dice.draw(), &gradient, &counter);
        assert_eq!(image.pixels(), expected.pixels());
        assert_eq!(counter.load(Ordering::SeqCst), 21 * 21);
    }
}

/// A draw that depends on the seed, the pixel and the number of the sample
/// alone.
fn draw_of(seed: u64, row: usize, col: usize, k: u16) -> Draw {
    let key = ((seed * 65536 + k as u64) * 65536 + row as u64) * 65536 + col as u64;
    Dice::new(key.wrapping_mul(0xD6E8_FEB8_6659_FD93) ^ 0x5DEE_CE66).draw()
}

#[test]
fn draws_are_asked_for_by_pixel_and_sample() {
    let camera = camera(5, 0, 1);
    let asked = std::cell::RefCell::new(Vec::new());
    let draw = |row: usize, col: usize, k: u16| {
        asked.borrow_mut().push((row, col, k));
        draw_of(1, row, col, k)
    };
    pixel_color(&camera, &Nothing, 7, 11, &draw, &solid);
    assert_eq!(*asked.borrow(), vec![(7, 11, 0), (7, 11, 1), (7, 11, 2), (7, 11, 3), (7, 11, 4)]);
}

#[test]
fn two_renders_with_the_same_draws_agree() {
    for sample_num in [1u16, 4] {
        let counter = AtomicUsize::new(0);
        let seeded = |row: usize, col: usize, k: u16| draw_of(2024, row, col, k);
        let first = camera(sample_num, fx(0.05), 1).render(&ball(), &seeded, &gradient, &counter);
        let text = written(&first);
        // whichever worker renders which rows, and however often it is done
        for workers in [1usize, 3, 12, 30] {
            let again = camera(sample_num, fx(0.05), workers).render(&ball(), &seeded, &gradient, &counter);
            assert!(first.pixels() == again.pixels(), "{} workers", workers);
            assert!(text == written(&again));
        }
        let other = |row: usize, col: usize, k: u16| draw_of(2025, row, col, k);
        let different = camera(sample_num, fx(0.05), 1).render(&ball(), &other, &gradient, &counter);
        assert!(first.pixels() != different.pixels());
    }
}

#[test]
fn bands_merged_in_any_order_give_the_same_image() {
    let camera = camera(1, 0, 5);
    let seeded = |row: usize, col: usize, k: u16| draw_of(9, row, col, k);
    let shade = |row: usize, col: usize| pixel_color(&camera, &ball(), row, col, &seeded, &gradient);
    let bands: Vec<(Band, Vec<Color>)> = (0..5)
        .map(|id| {
            let band = Band::of_worker(id, camera.height, 5);
            (band, render_band(band, camera.width, shade))
        })
        .collect();
    let mut expected = PixelBuffer::new(camera.width, camera.height, black());
    for (band, local) in bands.iter() {
        expected.merge_band(*band, local);
    }
    for order in [[4usize, 3, 2, 1, 0], [2, 0, 4, 1, 3], [1, 4, 0, 3, 2]] {
        let mut image = PixelBuffer::new(camera.width, camera.height, black());
        for id in order {
            image.merge_band(bands[id].0, &bands[id].1);
        }
        assert_eq!(image.pixels(), expected.pixels());
    }
}

