use raycam::fixed::{div_wide, fixed_mul, mul_wide, narrow, sqrt_floor, HALF, LIMIT, ONE};

#[test]
fn constants() {
    assert_eq!(ONE, 1i64 << 32);
    assert_eq!(HALF, 1i64 << 31);
    assert_eq!(LIMIT, 1i64 << 60);
}

#[test]
fn products() {
    assert_eq!(fixed_mul(ONE, ONE), ONE as i128);
    assert_eq!(fixed_mul(3 * ONE, HALF), (3 * HALF) as i128);
    assert_eq!(fixed_mul(HALF, HALF), (ONE / 4) as i128);
    assert_eq!(fixed_mul(0, i64::MAX), 0);
    assert_eq!(fixed_mul(-2 * ONE, 5 * ONE), (-10 * ONE) as i128);
    assert_eq!(fixed_mul(i64::MIN, i64::MIN), 1i128 << 94);
}

#[test]
fn products_round_toward_zero() {
    assert_eq!(fixed_mul(3, HALF), 1);
    assert_eq!(fixed_mul(-3, HALF), -1);
    assert_eq!(fixed_mul(3, -HALF), -1);
    assert_eq!(fixed_mul(-3, -HALF), 1);
    assert_eq!(fixed_mul(1, HALF), 0);
    assert_eq!(fixed_mul(-1, HALF), 0);
}

#[test]
fn wide_helpers() {
    assert_eq!(mul_wide(i64::MAX, i64::MAX), (i64::MAX as i128) * (i64::MAX as i128));
    assert_eq!(mul_wide(-7, 6), -42);
    assert_eq!(div_wide(7, 2), 3);
    assert_eq!(div_wide(-7, 2), -3);
    assert_eq!(div_wide(0, 5), 0);
    assert_eq!(div_wide(i128::MIN, 1), i128::MIN);
    assert_eq!(div_wide(i128::MIN, i128::MAX), -1);
    assert_eq!(div_wide(-(ONE as i128) * (ONE as i128), 3 * ONE as i128), -1431655765);
}

#[test]
fn narrow_at_the_limit() {
    assert_eq!(narrow(LIMIT as i128), Some(LIMIT));
    assert_eq!(narrow(-(LIMIT as i128)), Some(-LIMIT));
    assert_eq!(narrow(LIMIT as i128 + 1), None);
    assert_eq!(narrow(-(LIMIT as i128) - 1), None);
    assert_eq!(narrow(0), Some(0));
    assert_eq!(narrow(i128::MAX), None);
}

#[test]
fn square_roots() {
    assert_eq!(sqrt_floor(0), 0);
    assert_eq!(sqrt_floor(1), 1);
    assert_eq!(sqrt_floor(3), 1);
    assert_eq!(sqrt_floor(4), 2);
    assert_eq!(sqrt_floor(15), 3);
    assert_eq!(sqrt_floor(16), 4);
    assert_eq!(sqrt_floor(17), 4);
    assert_eq!(sqrt_floor(1 << 64), 1 << 32);
    assert_eq!(sqrt_floor((1 << 64) - 1), (1 << 32) - 1);
    assert_eq!(sqrt_floor((1u128 << 126) - 1), (1u64 << 63) - 1);
}

#[test]
fn square_root_brackets_its_argument() {
    let mut n: u128 = 1;
    for step in 0..2000u128 {
        let r = sqrt_floor(n) as u128;
        assert!(r * r <= n);
        assert!(n < (r + 1) * (r + 1));
        n = (n * 3 + step * 7919 + 1) % (1u128 << 126);
    }
}
