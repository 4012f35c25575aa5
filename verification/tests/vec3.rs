use raycam::fixed::{LIMIT, ONE};
use raycam::vec3::Vec3;

#[test]
fn new_sets_the_components() {
    let v = Vec3::new(1, -2, 3);
    assert_eq!((v.x, v.y, v.z), (1, -2, 3));
}

#[test]
fn difference() {
    let a = Vec3::new(13 * ONE, 2 * ONE, 3 * ONE);
    let b = Vec3::new(ONE, -ONE, 3 * ONE);
    assert_eq!(a.minus(&b), Vec3::new(12 * ONE, 3 * ONE, 0));
    let far = Vec3::new(LIMIT, -LIMIT, 0);
    let opposite = Vec3::new(-LIMIT, LIMIT, 0);
    assert_eq!(far.minus(&opposite), Vec3::new(2 * LIMIT, -2 * LIMIT, 0));
}

#[test]
fn limit_check() {
    assert!(Vec3::new(LIMIT, -LIMIT, 0).in_limit());
    assert!(!Vec3::new(LIMIT + 1, 0, 0).in_limit());
    assert!(!Vec3::new(0, -LIMIT - 1, 0).in_limit());
    assert!(!Vec3::new(0, 0, i64::MAX).in_limit());
}

#[test]
fn cross_of_the_axes() {
    let x = Vec3::new(ONE, 0, 0);
    let y = Vec3::new(0, ONE, 0);
    let z = Vec3::new(0, 0, ONE);
    assert_eq!(x.cross(&y), z);
    assert_eq!(y.cross(&z), x);
    assert_eq!(z.cross(&x), y);
    assert_eq!(y.cross(&x), Vec3::new(0, 0, -ONE));
    assert_eq!(x.cross(&x), Vec3::new(0, 0, 0));
}

#[test]
fn cross_of_general_vectors() {
    // (0.5, 1, -1.5) x (2, -0.25, 1) = (0.625, -3.5, -2.125)
    let a = Vec3::new(ONE / 2, ONE, -3 * ONE / 2);
    let b = Vec3::new(2 * ONE, -ONE / 4, ONE);
    assert_eq!(a.cross(&b), Vec3::new(5 * ONE / 8, -7 * ONE / 2, -17 * ONE / 8));
}

#[test]
fn length_of_a_3_4_5_triangle() {
    assert_eq!(Vec3::new(3 * ONE, 4 * ONE, 0).length(), 5 * ONE as u64);
    assert_eq!(Vec3::new(0, -3 * ONE, 4 * ONE).length(), 5 * ONE as u64);
    assert_eq!(Vec3::new(0, 0, 0).length(), 0);
    assert_eq!(Vec3::new(0, 0, -7).length(), 7);
}

#[test]
fn length_is_rounded_down() {
    // sqrt(2) * 2^32 = 6074000999.95...
    assert_eq!(Vec3::new(ONE, ONE, 0).length(), 6074000999);
    // sqrt(3) = 1.73...
    assert_eq!(Vec3::new(1, 1, 1).length(), 1);
}

#[test]
fn length_of_the_longest_vector() {
    let v = Vec3::new(2 * LIMIT, 2 * LIMIT, 2 * LIMIT);
    let len = v.length() as f64;
    let expected = (3.0f64).sqrt() * (2.0 * LIMIT as f64);
    assert!((len - expected).abs() / expected < 1e-12);
}

#[test]
fn unit_vector() {
    let u = Vec3::new(3 * ONE, 4 * ONE, 0).unit().unwrap();
    assert_eq!(u, Vec3::new(2576980377, 3435973836, 0));
    let d = Vec3::new(0, -5 * ONE, 0).unit().unwrap();
    assert_eq!(d, Vec3::new(0, -ONE, 0));
}

#[test]
fn unit_vector_has_length_one() {
    for v in [
        Vec3::new(13 * ONE, 2 * ONE, 3 * ONE),
        Vec3::new(-7, 100, 3),
        Vec3::new(2 * LIMIT, -LIMIT, 12345),
        Vec3::new(1, 0, 0),
        Vec3::new(1, 1, 1),
        Vec3::new(i64::MAX, i64::MIN, i64::MAX),
        Vec3::new(-3 * ONE, 4 * ONE, 12 * ONE),
    ] {
        let u = v.unit().unwrap();
        let len = u.length() as f64 / ONE as f64;
        assert!((len - 1.0).abs() < 1e-8, "length {len}");
        assert!(u.x.abs() <= ONE && u.y.abs() <= ONE && u.z.abs() <= ONE);
        let one = ONE as i128;
        let squares = [u.x, u.y, u.z].iter().map(|c| (*c as i128) * (*c as i128)).sum::<i128>();
        assert!(one * one - 6 * one - 3 <= squares && squares <= one * one + 48);
    }
}

#[test]
fn zero_vector_has_no_direction() {
    assert_eq!(Vec3::new(0, 0, 0).unit(), None);
}

#[test]
fn largest_vectors() {
    let v = Vec3::new(i64::MIN, i64::MIN, i64::MIN);
    let len = v.length() as f64;
    let expected = (3.0f64).sqrt() * (2.0f64).powi(63);
    assert!((len - expected).abs() / expected < 1e-12);
    assert_eq!(v.peak(), 1u64 << 63);
    // 1 / sqrt(3) = 0.57735026918962576...
    assert_eq!(v.unit(), Some(Vec3::new(-2479700524, -2479700524, -2479700524)));
    let w = Vec3::new(i64::MAX, 0, 0);
    assert_eq!(w.length(), i64::MAX as u64);
    assert_eq!(w.unit(), Some(Vec3::new(ONE, 0, 0)));
}

#[test]
fn peak_is_the_largest_magnitude() {
    assert_eq!(Vec3::new(1, -5, 3).peak(), 5);
    assert_eq!(Vec3::new(-7, 5, 3).peak(), 7);
    assert_eq!(Vec3::new(1, 5, -9).peak(), 9);
    assert_eq!(Vec3::new(0, 0, 0).peak(), 0);
}

#[test]
fn short_vectors_keep_their_direction() {
    // a vector of a few units of 2^-32: its direction is still found to ten digits
    let u = Vec3::new(-7, 100, 3).unit().unwrap();
    let len = (49.0f64 + 10000.0 + 9.0).sqrt();
    assert!((u.x as f64 / ONE as f64 - -7.0 / len).abs() < 1e-9);
    assert!((u.y as f64 / ONE as f64 - 100.0 / len).abs() < 1e-9);
    assert!((u.z as f64 / ONE as f64 - 3.0 / len).abs() < 1e-9);
    assert_eq!(Vec3::new(0, 0, -1).unit(), Some(Vec3::new(0, 0, -ONE)));
}
