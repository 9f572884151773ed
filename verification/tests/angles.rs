use vetracer::fixed::SCALE;
use vetracer::trig::{sin_cos, HALF_PI, PI, QUARTER_PI, TWO_PI};

fn as_real(x: i64) -> f64 {
    x as f64 / SCALE as f64
}

#[test]
fn angle_zero() {
    assert_eq!(sin_cos(0), (0, SCALE));
}

#[test]
fn quarter_and_half_turn() {
    assert_eq!(sin_cos(HALF_PI), (1_000_000_000, 0));
    assert_eq!(sin_cos(PI), (0, -1_000_000_000));
    assert_eq!(sin_cos(-HALF_PI), (-1_000_000_000, 0));
}

#[test]
fn eighth_of_a_turn() {
    assert_eq!(sin_cos(QUARTER_PI), (707_106_781, 707_106_782));
}

#[test]
fn half_a_radian() {
    assert_eq!(sin_cos(500_000_000), (479_425_539, 877_582_562));
}

#[test]
fn a_full_turn_comes_back_to_the_start() {
    assert_eq!(sin_cos(TWO_PI), sin_cos(0));
    assert_eq!(sin_cos(TWO_PI + 500_000_000), sin_cos(500_000_000));
    assert_eq!(sin_cos(3 * TWO_PI + 1_234_567_891), sin_cos(1_234_567_891));
}

#[test]
fn sine_is_odd_and_cosine_even() {
    let mut x: i64 = 0;
    while x <= 7 * SCALE {
        let (s, c) = sin_cos(x);
        let (sn, cn) = sin_cos(-x);
        assert_eq!(sn, -s);
        assert_eq!(cn, c);
        x += 1_237_013;
    }
}

#[test]
fn sine_and_cosine_stay_within_one() {
    let probes = [i64::MIN, i64::MIN + 1, -TWO_PI, -1, 0, 1, HALF_PI, PI, TWO_PI - 1, i64::MAX];
    for x in probes {
        let (s, c) = sin_cos(x);
        assert!(-SCALE <= s && s <= SCALE);
        assert!(-SCALE <= c && c <= SCALE);
    }
}

#[test]
fn close_to_the_real_functions_within_two_turns() {
    let mut x: i64 = -2 * TWO_PI;
    while x <= 2 * TWO_PI {
        let (s, c) = sin_cos(x);
        assert!((as_real(s) - as_real(x).sin()).abs() < 0.000_000_005);
        assert!((as_real(c) - as_real(x).cos()).abs() < 0.000_000_005);
        x += 997_003;
    }
}

#[test]
fn squares_add_up_to_one() {
    let mut x: i64 = -TWO_PI;
    while x <= TWO_PI {
        let (s, c) = sin_cos(x);
        let total = as_real(s) * as_real(s) + as_real(c) * as_real(c);
        assert!((total - 1.0).abs() < 0.000_000_01);
        x += 4_001_003;
    }
}
