use nodes::geometry::{Aabb2, Vec2};

#[test]
fn vectors_are_built_from_coordinates() {
    assert_eq!(Vec2::new(3, -4), Vec2 { x: 3, y: -4 });
    assert_eq!(Vec2::zero(), Vec2 { x: 0, y: 0 });
    assert_eq!(Vec2::splat(7), Vec2 { x: 7, y: 7 });
    assert_eq!(Vec2::from_x(9), Vec2 { x: 9, y: 0 });
}

#[test]
fn vectors_add_and_subtract() {
    let a = Vec2::new(1_000_000, -2_000_000);
    let b = Vec2::new(250_000, 500_000);
    assert_eq!(a.plus(b), Vec2::new(1_250_000, -1_500_000));
    assert_eq!(a.minus(b), Vec2::new(750_000, -2_500_000));
    assert_eq!(a.negated(), Vec2::new(-1_000_000, 2_000_000));
    assert_eq!(b.minus(a), a.minus(b).negated());
}

#[test]
fn vector_sums_saturate() {
    let far = Vec2::new(i64::MAX, i64::MIN);
    assert_eq!(far.plus(Vec2::new(1, -1)), Vec2::new(i64::MAX, -i64::MAX));
    assert_eq!(far.negated(), Vec2::new(-i64::MAX, i64::MAX));
}

#[test]
fn vectors_scale() {
    let a = Vec2::new(1_000_000, -2_000_000);
    assert_eq!(a.scaled(500_000), Vec2::new(500_000, -1_000_000));
    assert_eq!(a.scaled(-2_000_000), Vec2::new(-2_000_000, 4_000_000));
    assert_eq!(a.times_ratio(3, 4), Vec2::new(750_000, -1_500_000));
    assert_eq!(Vec2::new(7, -7).times_ratio(1, 2), Vec2::new(3, -3));
}

#[test]
fn length_and_direction() {
    let a = Vec2::new(300_000, 400_000);
    assert_eq!(a.length(), 500_000);
    assert_eq!(a.normalized(), Vec2::new(600_000, 800_000));
    assert_eq!(a.negated().normalized(), Vec2::new(-600_000, -800_000));
    assert_eq!(Vec2::zero().length(), 0);
    assert_eq!(Vec2::zero().normalized(), Vec2::zero());
    assert_eq!(Vec2::new(-400_000, -100_000).normalized(), Vec2::new(-970_143, -242_535));
}

#[test]
fn boxes_reach_to_each_side_of_their_center() {
    let b = Aabb2::around_point(Vec2::new(1_000_000, 2_000_000), Vec2::splat(125_000));
    assert_eq!(b.min, Vec2::new(875_000, 1_875_000));
    assert_eq!(b.max, Vec2::new(1_125_000, 2_125_000));
}

#[test]
fn boxes_at_the_end_of_the_range_hold_their_center() {
    for center in [
        Vec2::new(i64::MIN, i64::MIN),
        Vec2::new(i64::MAX, i64::MIN),
        Vec2::new(i64::MIN + 5, i64::MAX - 5),
    ] {
        let b = Aabb2::around_point(center, Vec2::splat(125_000));
        assert!(b.contains_point(center), "{:?}", center);
    }
    let b = Aabb2::around_point(Vec2::new(i64::MIN, i64::MAX), Vec2::splat(10));
    assert_eq!(b.min, Vec2::new(i64::MIN, i64::MAX - 10));
    assert_eq!(b.max, Vec2::new(i64::MIN + 10, i64::MAX));
}

#[test]
fn boxes_hold_their_border() {
    let b = Aabb2::around_point(Vec2::new(0, 0), Vec2::splat(125_000));
    assert!(b.contains_point(Vec2::new(0, 0)));
    assert!(b.contains_point(Vec2::new(125_000, 125_000)));
    assert!(b.contains_point(Vec2::new(-125_000, 125_000)));
    assert!(!b.contains_point(Vec2::new(125_001, 0)));
    assert!(!b.contains_point(Vec2::new(0, -125_001)));
    assert!(!b.contains_point(Vec2::new(-125_001, -125_001)));
}
