use particle_sandbox::fixed::{
    clamp_to, distance_squared, divide_toward_zero, is_within, Vec2, ONE,
};

#[test]
fn one_has_ten_fractional_bits() {
    assert_eq!(ONE, 1 << 10);
}

#[test]
fn clamp_keeps_a_value_inside() {
    assert_eq!(clamp_to(5, -10, 10), 5);
    assert_eq!(clamp_to(-10, -10, 10), -10);
    assert_eq!(clamp_to(10, -10, 10), 10);
}

#[test]
fn clamp_limits_a_value_outside() {
    assert_eq!(clamp_to(11, -10, 10), 10);
    assert_eq!(clamp_to(-11, -10, 10), -10);
    assert_eq!(clamp_to(i128::MAX, 0, i32::MAX), i32::MAX);
    assert_eq!(clamp_to(i128::MIN, i32::MIN, 0), i32::MIN);
}

#[test]
fn division_rounds_toward_zero() {
    assert_eq!(divide_toward_zero(7, 2), 3);
    assert_eq!(divide_toward_zero(-7, 2), -3);
    assert_eq!(divide_toward_zero(6, 2), 3);
    assert_eq!(divide_toward_zero(-6, 2), -3);
    assert_eq!(divide_toward_zero(1, 2), 0);
    assert_eq!(divide_toward_zero(-1, 2), 0);
    assert_eq!(divide_toward_zero(0, 5), 0);
}

#[test]
fn squared_distance_of_a_3_4_5_triangle() {
    let a = Vec2 { x: 1, y: 1 };
    let b = Vec2 { x: 4, y: 5 };
    assert_eq!(distance_squared(a, b), 25);
    assert_eq!(distance_squared(b, a), 25);
}

#[test]
fn squared_distance_across_the_whole_range() {
    let a = Vec2 { x: i32::MIN, y: i32::MIN };
    let b = Vec2 { x: i32::MAX, y: i32::MAX };
    let side: i128 = (1i128 << 32) - 1;
    assert_eq!(distance_squared(a, b), 2 * side * side);
}

#[test]
fn within_includes_the_rim() {
    let a = Vec2 { x: 0, y: 0 };
    assert!(is_within(a, Vec2 { x: 3, y: 4 }, 5));
    assert!(!is_within(a, Vec2 { x: 3, y: 4 }, 4));
    assert!(is_within(a, a, 0));
    assert!(!is_within(a, Vec2 { x: 1, y: 0 }, 0));
}

#[test]
fn nothing_is_within_a_negative_radius() {
    let a = Vec2 { x: 7, y: 7 };
    assert!(!is_within(a, a, -1));
}
