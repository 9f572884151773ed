use vetracer::fixed::SCALE;
use vetracer::vector::{
    add_scaled, difference, direction, length, limit_magnitude, norm_squared, same_vector,
    scaled, sum, FINE_RANGE,
};

#[test]
fn squared_length_is_exact() {
    assert_eq!(norm_squared(&[3, 4, 12]), 169);
    assert_eq!(norm_squared(&[-3_000_000_000, 4_000_000_000, 0]), 25_000_000_000_000_000_000);
    assert_eq!(norm_squared(&[0, 0, 0]), 0);
    let top = (i64::MIN as i128 * i64::MIN as i128) as u128;
    assert_eq!(norm_squared(&[i64::MIN, i64::MIN, i64::MIN]), 3 * top);
}

#[test]
fn length_rounds_down() {
    assert_eq!(length(&[3, 4, 12]), 13);
    assert_eq!(length(&[1, 1, 1]), 1);
    assert_eq!(length(&[1_000_000_000, 1_000_000_000, 0]), 1_414_213_562);
    assert_eq!(length(&[0, 0, 0]), 0);
    assert_eq!(length(&[i64::MIN, i64::MIN, i64::MIN]), 15_975_348_984_942_515_101);
}

#[test]
fn sum_difference_and_scaling() {
    assert_eq!(sum(&[1, 2, 3], &[10, -20, 30]), [11, -18, 33]);
    assert_eq!(difference(&[1, 2, 3], &[10, -20, 30]), [-9, 22, -27]);
    assert_eq!(
        scaled(&[1_000_000_000, -2_000_000_000, 3], 1_500_000_000),
        [1_500_000_000, -3_000_000_000, 4]
    );
    assert_eq!(sum(&[i64::MAX, 0, i64::MIN], &[1, 0, -1]), [i64::MAX, 0, i64::MIN]);
    assert_eq!(difference(&[i64::MIN, 0, 0], &[1, 0, i64::MIN]), [i64::MIN, 0, i64::MAX]);
}

#[test]
fn add_scaled_moves_by_velocity_times_time() {
    assert_eq!(
        add_scaled(&[0, 10_000_000_000, 0], &[3_000_000_000, -156_960_000, 0], 16_000_000),
        [48_000_000, 9_997_488_640, 0]
    );
}

#[test]
fn a_short_vector_is_not_limited() {
    assert_eq!(
        limit_magnitude(&[3_000_000_000, 4_000_000_000, 0], 5_000_000_000),
        [3_000_000_000, 4_000_000_000, 0]
    );
    assert_eq!(limit_magnitude(&[0, 0, 0], 5_000_000_000), [0, 0, 0]);
    assert_eq!(limit_magnitude(&[-1, 2, -3], 5_000_000_000), [-1, 2, -3]);
}

#[test]
fn a_long_vector_is_rescaled_to_the_limit() {
    assert_eq!(
        limit_magnitude(&[6_000_000_000, 8_000_000_000, 0], 5_000_000_000),
        [3_000_000_000, 4_000_000_000, 0]
    );
    assert_eq!(
        limit_magnitude(&[0, -100_156_960_000, 0], 5_000_000_000),
        [0, -5_000_000_000, 0]
    );
    assert_eq!(
        limit_magnitude(&[-7_000_000_000, 1_000_000_000, 2_000_000_000], 5_000_000_000),
        [-4_762_896_722, 680_413_817, 1_360_827_634]
    );
}

#[test]
fn the_largest_vector_is_rescaled_too() {
    assert_eq!(
        limit_magnitude(&[i64::MAX, i64::MIN, i64::MAX], 5_000_000_000),
        [2_886_751_345, -2_886_751_345, 2_886_751_345]
    );
}

#[test]
fn a_limit_of_zero_stops_everything() {
    assert_eq!(limit_magnitude(&[1, 1, 1], 0), [0, 0, 0]);
    assert_eq!(limit_magnitude(&[-9_000_000_000, 0, 0], 0), [0, 0, 0]);
}

#[test]
fn a_limited_vector_is_shorter_than_the_limit_plus_one_unit() {
    let cap: i64 = 5_000_000_000;
    let bound = (cap as u128 + 1) * (cap as u128 + 1);
    let samples = [
        [6_000_000_000, 8_000_000_000, 0],
        [3_000_000_000, 4_000_000_000, 1],
        [-7_000_000_000, 1_000_000_000, 2_000_000_000],
        [i64::MAX, i64::MIN, i64::MAX],
        [5_000_000_001, 0, 0],
        [2_886_751_346, 2_886_751_346, 2_886_751_346],
        [1, -123_456_789_012_345, 77],
    ];
    for v in samples {
        let w = limit_magnitude(&v, cap);
        assert!(norm_squared(&w) < bound);
        for i in 0..3 {
            assert!(w[i] == 0 || (w[i] < 0) == (v[i] < 0));
        }
    }
}

#[test]
fn vectors_compare_by_component() {
    assert!(same_vector(&[1, 2, 3], &[1, 2, 3]));
    assert!(!same_vector(&[1, 2, 3], &[1, 2, 4]));
    assert!(!same_vector(&[1, 2, 3], &[1, 0, 3]));
    assert!(!same_vector(&[1, 2, 3], &[-1, 2, 3]));
}

#[test]
fn a_rescaled_vector_is_almost_as_long_as_the_limit() {
    let cap: i64 = 5_000_000_000;
    let floor = cap as u128 * (cap as u128 - 6);
    let samples = [
        [6_000_000_000, 8_000_000_000, 0],
        [3_000_000_000, 4_000_000_000, 1],
        [-7_000_000_000, 1_000_000_000, 2_000_000_000],
        [i64::MAX, i64::MIN, i64::MAX],
        [5_000_000_001, 0, 0],
        [2_886_751_346, 2_886_751_346, 2_886_751_346],
        [1, -123_456_789_012_345, 77],
        [i64::MAX, 1, -1],
    ];
    for v in samples {
        assert!(norm_squared(&v) > cap as u128 * cap as u128);
        let w = limit_magnitude(&v, cap);
        assert!(norm_squared(&w) >= floor);
    }
}

#[test]
fn directions_of_short_and_long_vectors() {
    assert_eq!(direction(&[0, 0, 0]), [0, 0, 0]);
    assert_eq!(direction(&[1, 0, 0]), [1_000_000_000, 0, 0]);
    assert_eq!(direction(&[0, -7, 0]), [0, -1_000_000_000, 0]);
    assert_eq!(direction(&[1, 1, 1]), [577_350_269, 577_350_269, 577_350_269]);
    assert_eq!(direction(&[3, -4, 0]), [600_000_000, -800_000_000, 0]);
    assert_eq!(direction(&[1, 2, 2]), [333_333_333, 666_666_666, 666_666_666]);
    assert_eq!(
        direction(&[1_000_000_000, -2_000_000_000, 2_000_000_000]),
        [333_333_333, -666_666_666, 666_666_666]
    );
    assert_eq!(direction(&[FINE_RANGE, 0, 0]), [1_000_000_000, 0, 0]);
    assert_eq!(direction(&[FINE_RANGE + 1, 0, 0]), [1_000_000_000, 0, 0]);
    assert_eq!(
        direction(&[i64::MAX, i64::MIN, i64::MAX]),
        [577_350_269, -577_350_269, 577_350_269]
    );
    assert_eq!(direction(&[i64::MIN, 1, 0]), [-1_000_000_000, 0, 0]);
}

#[test]
fn a_direction_is_a_unit_vector_however_short_the_vector() {
    let floor = SCALE as u128 * (SCALE as u128 - 6);
    let ceiling = (SCALE as u128 + 1) * (SCALE as u128 + 1);
    let samples = [
        [1, 0, 0],
        [1, 1, 1],
        [-1, 1, -1],
        [2, -3, 1],
        [1, 1_000, -1_000_000],
        [FINE_RANGE, FINE_RANGE, -FINE_RANGE],
        [FINE_RANGE + 1, -1, 1],
        [100_000_000, -200_000_000, 300_000_000],
        [i64::MAX, i64::MIN, i64::MAX],
        [i64::MIN, 0, 1],
    ];
    for v in samples {
        let n = direction(&v);
        assert!(floor <= norm_squared(&n) && norm_squared(&n) < ceiling);
        for i in 0..3 {
            assert!(n[i] == 0 || (n[i] < 0) == (v[i] < 0));
        }
    }
}
