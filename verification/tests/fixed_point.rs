use nodes::fixed::{fx_add, fx_div, fx_mul, fx_neg, fx_sub, hypot, int_sqrt, mul_div, saturate, LIMIT, ONE};

#[test]
fn one_is_a_million() {
    assert_eq!(ONE, 1_000_000);
    assert_eq!(LIMIT, i64::MAX);
}

#[test]
fn products_are_scaled_back() {
    assert_eq!(fx_mul(1_500_000, 2_000_000), 3_000_000);
    assert_eq!(fx_mul(-1_500_000, 2_000_000), -3_000_000);
    assert_eq!(fx_mul(1_500_000, -2_000_000), -3_000_000);
    assert_eq!(fx_mul(0, 123_456), 0);
    assert_eq!(fx_mul(1_259_921, 1_259_921), 1_587_400);
}

#[test]
fn quotients_round_toward_zero() {
    assert_eq!(mul_div(7, 1, 2), 3);
    assert_eq!(mul_div(-7, 1, 2), -3);
    assert_eq!(mul_div(7, -1, 2), -3);
    assert_eq!(fx_mul(1, 1), 0);
    assert_eq!(fx_mul(-1, 1), 0);
    assert_eq!(fx_mul(999_999, 1), 0);
    assert_eq!(fx_mul(-1_999_999, 1), -1);
}

#[test]
fn division_is_fixed_point() {
    assert_eq!(fx_div(1_000_000, 500_000), 2_000_000);
    assert_eq!(fx_div(-1_000_000, 3_000_000), -333_333);
    assert_eq!(fx_div(412_310, 500_000), 824_620);
}

#[test]
fn sums_saturate() {
    assert_eq!(fx_add(2, 3), 5);
    assert_eq!(fx_add(i64::MAX, 1), i64::MAX);
    assert_eq!(fx_add(i64::MIN, -1), -i64::MAX);
    assert_eq!(fx_sub(5, 7), -2);
    assert_eq!(fx_sub(i64::MIN, 1), -i64::MAX);
    assert_eq!(fx_sub(i64::MAX, -1), i64::MAX);
    assert_eq!(fx_neg(5), -5);
    assert_eq!(fx_neg(i64::MIN), i64::MAX);
}

#[test]
fn the_smallest_integer_is_out_of_range() {
    assert_eq!(saturate(i64::MIN as i128), -i64::MAX);
    assert_eq!(fx_add(i64::MIN, 0), -i64::MAX);
}

#[test]
fn wide_values_are_clamped() {
    assert_eq!(saturate(0), 0);
    assert_eq!(saturate(-17), -17);
    assert_eq!(saturate(i128::MAX), i64::MAX);
    assert_eq!(saturate(i128::MIN), -i64::MAX);
    assert_eq!(saturate(i64::MAX as i128 + 1), i64::MAX);
}

#[test]
fn products_saturate() {
    assert_eq!(fx_mul(i64::MAX, i64::MAX), i64::MAX);
    assert_eq!(fx_mul(i64::MAX, i64::MIN), -i64::MAX);
    assert_eq!(mul_div(i64::MIN, i64::MIN, 1), i64::MAX);
    assert_eq!(mul_div(i64::MAX, 2, 4), i64::MAX / 2);
}

#[test]
fn square_roots_round_down() {
    assert_eq!(int_sqrt(0), 0);
    assert_eq!(int_sqrt(1), 1);
    assert_eq!(int_sqrt(2), 1);
    assert_eq!(int_sqrt(3), 1);
    assert_eq!(int_sqrt(4), 2);
    assert_eq!(int_sqrt(99), 9);
    assert_eq!(int_sqrt(100), 10);
    assert_eq!(int_sqrt(1_000_000_000_000), 1_000_000);
    assert_eq!(int_sqrt(u128::MAX), u64::MAX);
}

#[test]
fn lengths_of_vectors() {
    assert_eq!(hypot(3_000_000, 4_000_000), 5_000_000);
    assert_eq!(hypot(-3_000_000, 4_000_000), 5_000_000);
    assert_eq!(hypot(0, 0), 0);
    assert_eq!(hypot(1, 1), 1);
    assert_eq!(hypot(-400_000, -100_000), 412_310);
    assert_eq!(hypot(i64::MIN, i64::MIN), i64::MAX);
    assert_eq!(hypot(i64::MAX, 0), i64::MAX);
}
