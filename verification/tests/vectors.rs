use leg_creature::arith::{div_floor, isqrt};
use leg_creature::vec3::Vector3;

fn v(x: i64, y: i64, z: i64) -> Vector3 {
    Vector3::new(x, y, z)
}

#[test]
fn square_roots_are_rounded_down() {
    assert_eq!(isqrt(0), 0);
    assert_eq!(isqrt(1), 1);
    assert_eq!(isqrt(3), 1);
    assert_eq!(isqrt(4), 2);
    assert_eq!(isqrt(47_500), 217);
    assert_eq!(isqrt(999_999_999_999), 999_999);
    assert_eq!(isqrt(1_000_000_000_000), 1_000_000);
    assert_eq!(isqrt(u128::MAX), u64::MAX as u128);
    assert_eq!(isqrt((u64::MAX as u128) * (u64::MAX as u128) - 1), u64::MAX as u128 - 1);
}

#[test]
fn quotients_are_rounded_down() {
    assert_eq!(div_floor(7, 2), 3);
    assert_eq!(div_floor(-7, 2), -4);
    assert_eq!(div_floor(-8, 2), -4);
    assert_eq!(div_floor(-1, 1000), -1);
    assert_eq!(div_floor(0, 5), 0);
    assert_eq!(div_floor(i128::MIN, 1), i128::MIN);
    assert_eq!(div_floor(i128::MIN, i128::MAX), -2);
    assert_eq!(div_floor(i128::MAX, i128::MAX), 1);
}

#[test]
fn vector_sums_and_products() {
    let a = v(1, -2, 3);
    let b = v(-4, 5, 6);
    assert_eq!(a.plus(&b), v(-3, 3, 9));
    assert_eq!(a.minus(&b), v(5, -7, -3));
    assert_eq!(a.dot(&b), 4);
    assert_eq!(a.cross(&b), v(-27, -18, -3));
    assert_eq!(b.cross(&a), v(27, 18, 3));
    assert_eq!(a.norm_sq(), 14);
    assert_eq!(a.dist_sq(&b), 83);
    assert_eq!(Vector3::zero(), v(0, 0, 0));
    let big = 0x4000_0000_0000_0000;
    assert_eq!(v(big, -big, big).norm_sq(), 3 * (1u128 << 124));
}

#[test]
fn directions_have_unit_length() {
    assert_eq!(v(0, 0, 0).normalized(), None);
    assert_eq!(v(1, 1, 0).normalized(), Some(v(707, 707, 0)));
    assert_eq!(v(3, 4, 0).normalized(), Some(v(600, 800, 0)));
    assert_eq!(v(-5, 0, 12).normalized(), Some(v(-385, 0, 923)));
    assert_eq!(v(0, 0, -7).normalized(), Some(v(0, 0, -1000)));
    let top = 0x8_0000_0000_0000;
    assert_eq!(v(top, -top, top).normalized(), Some(v(577, -578, 577)));
}

#[test]
fn points_between_two_positions() {
    let a = v(0, 100, -100);
    let b = v(10, 0, 100);
    assert_eq!(a.lerp(&b, 0, 4), a);
    assert_eq!(a.lerp(&b, 4, 4), b);
    assert_eq!(a.lerp(&b, 1, 4), v(2, 75, -50));
    assert_eq!(a.lerp(&b, 3, 4), v(7, 25, 50));
    assert_eq!(a.lerp(&b, 1, 3), v(3, 66, -34));
    let top = 16_777_216;
    assert_eq!(v(-top, top, 0).lerp(&v(top, -top, 0), u64::MAX - 1, u64::MAX), v(top - 1, -top, 0));
}

#[test]
fn ranges_are_told() {
    let top = 16_777_216;
    assert!(v(top, -top, 0).is_in_range());
    assert!(!v(top + 1, 0, 0).is_in_range());
    assert!(!v(0, -top - 1, 0).is_in_range());
    assert!(v(3, -3, 0).is_within(3));
    assert!(!v(3, -3, 4).is_within(3));
    assert_eq!(Vector3::from_wide(1, -2, 3), Some(v(1, -2, 3)));
    assert_eq!(Vector3::from_wide(top as i128 + 1, 0, 0), None);
    assert_eq!(Vector3::from_wide(0, 0, i128::MIN), None);
}
