use raycam::bands::Band;
use raycam::buffer::PixelBuffer;
use raycam::camera::{Camera, Config, Offset, Ray};
use raycam::color::{black, Color};
use raycam::fixed::ONE;
use raycam::integrator::{
    ray_color, trace_path, EmptyScene, HitRecord, Hittable, Material, NoMaterial, PathEnd, T_MAX,
    T_MIN,
};
use raycam::ppm::write_image;
use raycam::sampling::{pixel_color, Draw};
use raycam::vec3::Vec3;
use raycam::worker::work_band;
use std::sync::atomic::{AtomicUsize, Ordering};

fn white() -> raycam::vec3::Vec3 {
    raycam::vec3::Vec3::new(1 << 32, 1 << 32, 1 << 32)
}

fn camera_of(width: usize, workers: usize) -> Camera {
    let config = Config {
        width,
        aspect_num: 4,
        aspect_den: 3,
        view_slope: ONE / 2,
        focus_dist: 2 * ONE,
        lens_slope: 0,
        sample_num: 2,
        reflect_depth: 5,
        workers,
    };
    Camera::new(Vec3::new(0, 0, 2 * ONE), Vec3::new(0, 0, 0), &config).unwrap()
}

fn still(_row: usize, _col: usize, _k: u16) -> Draw {
    Draw { jitter: Offset { x: 0, y: 0 }, lens: Offset { x: 0, y: 0 } }
}

fn by_direction(ray: Ray) -> Color {
    Vec3::new(ray.direction.x, ray.direction.y, ONE)
}

#[test]
fn empty_scene_is_never_hit() {
    let ray = Ray { origin: Vec3::new(1, 2, 3), direction: Vec3::new(0, 0, -ONE) };
    let path = trace_path(&ray, &EmptyScene, 20);
    assert_eq!(path.end, PathEnd::Escaped);
    assert!(path.tints.is_empty());
    assert_eq!(path.last, ray);
    assert_eq!(ray_color(&ray, &EmptyScene, 20, &by_direction), by_direction(ray));
}

#[test]
fn worker_renders_its_band() {
    let camera = camera_of(8, 4);
    assert_eq!(camera.height, 6);
    let counter = AtomicUsize::new(0);
    let (band, local) = work_band(&camera, &EmptyScene, 2, &still, &by_direction, &counter);
    assert_eq!(band, Band::of_worker(2, 6, 4));
    assert_eq!(band, Band { start_row: 2, end_row: 3 });
    assert_eq!(local.len(), 8);
    assert_eq!(counter.load(Ordering::SeqCst), 8);
    for col in 0..8 {
        assert_eq!(local[col], pixel_color(&camera, &EmptyScene, 2, col, &still, &by_direction));
    }
}

#[test]
fn last_worker_takes_the_rest() {
    let camera = camera_of(8, 4);
    let counter = AtomicUsize::new(0);
    let (band, local) = work_band(&camera, &EmptyScene, 3, &still, &by_direction, &counter);
    assert_eq!(band, Band { start_row: 3, end_row: 6 });
    assert_eq!(local.len(), 24);
    assert_eq!(counter.load(Ordering::SeqCst), 24);
    let none = Offset { x: 0, y: 0 };
    for row in 3..6 {
        for col in 0..8 {
            let central = camera.sample_ray(row, col, none, none);
            assert_eq!(local[(row - 3) * 8 + col], by_direction(central));
        }
    }
}

#[test]
fn counter_ends_at_the_number_of_pixels() {
    for (width, workers) in [(8usize, 1usize), (8, 4), (40, 12), (133, 12), (2, 12)] {
        let camera = camera_of(width, workers);
        let counter = AtomicUsize::new(0);
        let mut image = PixelBuffer::new(camera.width, camera.height, black());
        for id in 0..workers {
            let (band, local) = work_band(&camera, &EmptyScene, id, &still, &|_r: Ray| white(), &counter);
            image.merge_band(band, &local);
        }
        assert_eq!(counter.load(Ordering::SeqCst), camera.width * camera.height);
        assert!(image.pixels().iter().all(|c| *c == white()));
    }
}

#[test]
fn written_image_of_an_empty_scene() {
    let camera = camera_of(3, 2);
    assert_eq!(camera.height, 2);
    let counter = AtomicUsize::new(0);
    let quarter = |_r: Ray| Vec3::new(ONE / 4, ONE, 0);
    let mut image = PixelBuffer::new(camera.width, camera.height, black());
    for id in (0..2).rev() {
        let (band, local) = work_band(&camera, &EmptyScene, id, &still, &quarter, &counter);
        image.merge_band(band, &local);
    }
    let text = String::from_utf8(write_image(&image)).unwrap();
    assert_eq!(text, format!("P3\n3 2\n255\n{}", "128 255 0\n".repeat(6)));
}

#[test]
fn written_image_quantizes_every_colour() {
    let colors = vec![
        Vec3::new(0, 0, 0),
        Vec3::new(ONE, ONE, ONE),
        Vec3::new(ONE / 4, ONE / 16, ONE / 64),
        Vec3::new(-ONE, 5 * ONE, ONE / 2),
    ];
    let image = PixelBuffer::from_vec(2, 2, colors).unwrap();
    let text = String::from_utf8(write_image(&image)).unwrap();
    assert_eq!(text, "P3\n2 2\n255\n0 0 0\n255 255 255\n128 64 32\n0 255 181\n");
}

#[test]
fn render_is_the_work_of_all_workers() {
    for (width, workers) in [(8usize, 1usize), (8, 4), (21, 12), (5, 30)] {
        let camera = camera_of(width, workers);
        let counter = AtomicUsize::new(0);
        let image = camera.render(&EmptyScene, &still, &by_direction, &counter);
        assert_eq!(image.width(), camera.width);
        assert_eq!(image.height(), camera.height);
        assert_eq!(counter.load(Ordering::SeqCst), camera.width * camera.height);
        let none = Offset { x: 0, y: 0 };
        for row in 0..camera.height {
            for col in 0..camera.width {
                let central = camera.sample_ray(row, col, none, none);
                assert_eq!(image.get(row, col), by_direction(central));
            }
        }
    }
}

#[test]
fn render_does_not_depend_on_the_number_of_workers() {
    let counter = AtomicUsize::new(0);
    let one = camera_of(16, 1).render(&EmptyScene, &still, &by_direction, &counter);
    let many = camera_of(16, 7).render(&EmptyScene, &still, &by_direction, &counter);
    assert_eq!(one.pixels(), many.pixels());
}

#[test]
fn no_material_absorbs_every_ray() {
    let material = NoMaterial;
    for direction in [Vec3::new(0, 0, -ONE), Vec3::new(ONE, ONE, ONE), Vec3::new(0, 0, 0)] {
        let ray = Ray { origin: Vec3::new(1, 2, 3), direction };
        let hit = HitRecord { point: ray.origin, normal: Vec3::new(0, ONE, 0), t: ONE, material: &material };
        assert!(material.scatter(&ray, &hit).is_none());
    }
}

#[test]
fn empty_scene_reports_no_hit() {
    for direction in [Vec3::new(0, 0, -ONE), Vec3::new(ONE, -ONE, 5)] {
        let ray = Ray { origin: Vec3::new(0, 0, 0), direction };
        assert!(EmptyScene.hit(&ray, T_MIN, T_MAX).is_none());
        assert!(EmptyScene.hit(&ray, 0, 1).is_none());
    }
}
