use vetracer::fixed::{
    div_toward_zero, fx_add, fx_div, fx_mul, fx_sub, mul_div, narrow, SCALE,
};
use vetracer::sqrt::isqrt;

#[test]
fn scale_is_one_billion() {
    assert_eq!(SCALE, 1_000_000_000);
}

#[test]
fn sums_and_differences_are_exact() {
    assert_eq!(fx_add(1_500_000_000, 2_250_000_000), 3_750_000_000);
    assert_eq!(fx_add(-1, 1), 0);
    assert_eq!(fx_sub(1_500_000_000, 2_250_000_000), -750_000_000);
    assert_eq!(fx_sub(-5, -7), 2);
}

#[test]
fn sums_and_differences_saturate() {
    assert_eq!(fx_add(i64::MAX, 5), i64::MAX);
    assert_eq!(fx_add(i64::MIN, -1), i64::MIN);
    assert_eq!(fx_add(i64::MAX, i64::MIN), -1);
    assert_eq!(fx_sub(i64::MIN, 1), i64::MIN);
    assert_eq!(fx_sub(i64::MAX, -1), i64::MAX);
    assert_eq!(fx_sub(0, i64::MIN), i64::MAX);
    assert_eq!(fx_sub(-1, i64::MIN), i64::MAX);
}

#[test]
fn product_of_one_and_a_half_and_two_is_three() {
    assert_eq!(fx_mul(1_500_000_000, 2_000_000_000), 3_000_000_000);
}

#[test]
fn product_with_one_is_the_other_factor() {
    assert_eq!(fx_mul(123_456_789, SCALE), 123_456_789);
    assert_eq!(fx_mul(SCALE, -987_654_321), -987_654_321);
    assert_eq!(fx_mul(i64::MIN, SCALE), i64::MIN);
    assert_eq!(fx_mul(i64::MAX, SCALE), i64::MAX);
}

#[test]
fn products_round_toward_zero() {
    assert_eq!(fx_mul(-1, 999_999_999), 0);
    assert_eq!(fx_mul(1, 999_999_999), 0);
    assert_eq!(fx_mul(-3, 500_000_000), -1);
    assert_eq!(fx_mul(3, 500_000_000), 1);
    assert_eq!(fx_mul(3, -500_000_000), -1);
    assert_eq!(fx_mul(-3, -500_000_000), 1);
    assert_eq!(fx_mul(123_456_789_123, -987_654_321), -121_932_631_234);
}

#[test]
fn products_saturate() {
    assert_eq!(fx_mul(i64::MAX, 2_000_000_000), i64::MAX);
    assert_eq!(fx_mul(i64::MIN, 2_000_000_000), i64::MIN);
    assert_eq!(fx_mul(i64::MIN, -2_000_000_000), i64::MAX);
    assert_eq!(fx_mul(i64::MIN, i64::MIN), i64::MAX);
    assert_eq!(fx_mul(i64::MIN, i64::MAX), i64::MIN);
}

#[test]
fn quotients_round_toward_zero() {
    assert_eq!(fx_div(-1_000_000_000, 3_000_000_000), -333_333_333);
    assert_eq!(fx_div(1_000_000_000, -3_000_000_000), -333_333_333);
    assert_eq!(fx_div(-1_000_000_000, -3_000_000_000), 333_333_333);
    assert_eq!(fx_div(1, 3), 333_333_333);
    assert_eq!(fx_div(7_000_000_000, 2_000_000_000), 3_500_000_000);
    assert_eq!(fx_div(-7, 2), -3_500_000_000);
    assert_eq!(fx_div(5, -1_000_000_000), -5);
    assert_eq!(fx_div(0, -17), 0);
}

#[test]
fn quotients_saturate() {
    assert_eq!(fx_div(i64::MAX, 1), i64::MAX);
    assert_eq!(fx_div(i64::MIN, 1), i64::MIN);
    assert_eq!(fx_div(i64::MIN, -1), i64::MAX);
    assert_eq!(fx_div(i64::MIN, i64::MIN), SCALE);
    assert_eq!(fx_div(i64::MAX, i64::MIN), -999_999_999);
}

#[test]
fn quotient_undoes_product_up_to_rounding() {
    let a: i64 = 2_718_281_828;
    let b: i64 = 3_141_592_654;
    let back = fx_div(fx_mul(a, b), b);
    assert!((back - a).abs() <= 1);
}

#[test]
fn narrowing_keeps_what_fits_and_clips_the_rest() {
    assert_eq!(narrow(0), 0);
    assert_eq!(narrow(-42), -42);
    assert_eq!(narrow(i64::MAX as i128), i64::MAX);
    assert_eq!(narrow(i64::MAX as i128 + 1), i64::MAX);
    assert_eq!(narrow(i64::MIN as i128), i64::MIN);
    assert_eq!(narrow(i64::MIN as i128 - 1), i64::MIN);
    assert_eq!(narrow(i128::MAX), i64::MAX);
    assert_eq!(narrow(i128::MIN), i64::MIN);
}

#[test]
fn square_roots_round_down() {
    assert_eq!(isqrt(0), 0);
    assert_eq!(isqrt(1), 1);
    assert_eq!(isqrt(2), 1);
    assert_eq!(isqrt(3), 1);
    assert_eq!(isqrt(4), 2);
    assert_eq!(isqrt(15), 3);
    assert_eq!(isqrt(16), 4);
    assert_eq!(isqrt(17), 4);
    assert_eq!(isqrt(1_000_000_000_000), 1_000_000);
    assert_eq!(isqrt(999_999_999_999), 999_999);
}

#[test]
fn square_roots_of_the_largest_arguments() {
    let top: u128 = u64::MAX as u128;
    assert_eq!(isqrt(u128::MAX), u64::MAX);
    assert_eq!(isqrt(top * top), u64::MAX);
    assert_eq!(isqrt(top * top - 1), u64::MAX - 1);
}

#[test]
fn square_root_is_bracketed_by_its_squares() {
    let mut n: u128 = 1;
    let mut i = 0;
    while i < 120 {
        let r = isqrt(n) as u128;
        assert!(r * r <= n);
        assert!((r + 1) * (r + 1) > n);
        n = n * 2 + (i % 3);
        i += 1;
    }
}

#[test]
fn division_rounds_toward_zero_for_every_sign() {
    assert_eq!(div_toward_zero(7, 2), 3);
    assert_eq!(div_toward_zero(-7, 2), -3);
    assert_eq!(div_toward_zero(7, -2), -3);
    assert_eq!(div_toward_zero(-7, -2), 3);
    assert_eq!(div_toward_zero(0, -5), 0);
    assert_eq!(div_toward_zero(6, 3), 2);
    assert_eq!(div_toward_zero(-6, 3), -2);
    assert_eq!(div_toward_zero(i128::MAX, 1), i128::MAX);
    assert_eq!(div_toward_zero(i128::MIN + 1, -1), i128::MAX);
    assert_eq!(div_toward_zero(1, i128::MAX), 0);
}

#[test]
fn product_over_a_divisor_is_rounded_once() {
    assert_eq!(mul_div(7, 5, 2), 17);
    assert_eq!(mul_div(-7, 5, 2), -17);
    assert_eq!(mul_div(7, 5, -2), -17);
    assert_eq!(mul_div(3, 3, 10), 0);
    assert_eq!(mul_div(i64::MAX, i64::MAX, i64::MAX as i128), i64::MAX);
    assert_eq!(mul_div(i64::MIN, i64::MIN, 1), i64::MAX);
    assert_eq!(mul_div(i64::MIN, i64::MAX, 1), i64::MIN);
    assert_eq!(mul_div(i64::MIN, i64::MIN, i128::MAX), 0);
    assert_eq!(mul_div(6_000_000_000, 5_000_000_000, 10_000_000_000), 3_000_000_000);
}
