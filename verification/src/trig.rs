//! Sine and cosine of a fixed-point angle in radians.
//!
//! The angle is first brought into one turn, then into the first eighth of a
//! turn by the usual symmetries, and there the functions are evaluated by
//! their Taylor polynomials (degree 11 for the sine, degree 12 for the
//! cosine) in Horner form. On that interval the truncation error of either
//! polynomial is far below one stored unit; each Horner step rounds once.

use vstd::prelude::*;
use crate::fixed::{magnitude, SCALE};

verus! {

/// A half turn, rounded to the nearest stored unit.
pub const PI: i64 = 3_141_592_654;

/// A full turn.
pub const TWO_PI: i64 = 6_283_185_307;

/// A quarter turn.
pub const HALF_PI: i64 = 1_570_796_327;

/// An eighth of a turn.
pub const QUARTER_PI: i64 = 785_398_163;

/// One Horner step of an alternating series: `1 - z * h / c` in fixed point,
/// where `z` is the squared angle and `h` the value of the inner steps.
pub open spec fn series_step(z: int, h: int, c: int) -> int {
    SCALE - (z * h) / (c * SCALE)
}

/// The squared angle in fixed point.
pub open spec fn squared(r: int) -> int {
    (r * r) / (SCALE as int)
}

/// `r - r^3/3! + r^5/5! - ... - r^11/11!`, written as
/// `r (1 - z/6 (1 - z/20 (1 - z/42 (1 - z/72 (1 - z/110)))))` with
/// `z = r^2`.
pub open spec fn sin_series(r: int) -> int {
    let z = squared(r);
    let h2 = series_step(z, series_step(z, SCALE as int, 110), 72);
    (r * series_step(z, series_step(z, series_step(z, h2, 42), 20), 6)) / (SCALE as int)
}

/// `1 - r^2/2! + r^4/4! - ... + r^12/12!`, written as
/// `1 - z/2 (1 - z/12 (1 - z/30 (1 - z/56 (1 - z/90 (1 - z/132)))))` with
/// `z = r^2`.
pub open spec fn cos_series(r: int) -> int {
    let z = squared(r);
    let h2 = series_step(z, series_step(z, SCALE as int, 132), 90);
    series_step(z, series_step(z, series_step(z, series_step(z, h2, 56), 30), 12), 2)
}

/// Sine on the first quarter turn, `0 <= r <= HALF_PI`.
pub open spec fn quarter_sin(r: int) -> int {
    if r <= QUARTER_PI {
        sin_series(r)
    } else {
        cos_series(HALF_PI - r)
    }
}

/// Cosine on the first quarter turn, `0 <= r <= HALF_PI`.
pub open spec fn quarter_cos(r: int) -> int {
    if r <= QUARTER_PI {
        cos_series(r)
    } else {
        sin_series(HALF_PI - r)
    }
}

/// Sine on one turn, `0 <= r < TWO_PI`.
pub open spec fn turn_sin(r: int) -> int {
    if r <= HALF_PI {
        quarter_sin(r)
    } else if r < PI {
        quarter_sin(PI - r)
    } else if r - PI <= HALF_PI {
        -quarter_sin(r - PI)
    } else {
        -quarter_sin(PI - (r - PI))
    }
}

/// Cosine on one turn, `0 <= r < TWO_PI`.
pub open spec fn turn_cos(r: int) -> int {
    if r <= HALF_PI {
        quarter_cos(r)
    } else if r < PI {
        -quarter_cos(PI - r)
    } else if r - PI <= HALF_PI {
        -quarter_cos(r - PI)
    } else {
        quarter_cos(PI - (r - PI))
    }
}

/// The angle's size brought into one turn.
pub open spec fn within_turn(x: i64) -> int {
    magnitude(x as int) % (TWO_PI as int)
}

/// The sine of `x`: odd in `x`, periodic in its size.
#[verifier::opaque]
pub open spec fn spec_sin(x: i64) -> i64 {
    if x < 0 {
        (-turn_sin(within_turn(x))) as i64
    } else {
        turn_sin(within_turn(x)) as i64
    }
}

/// The cosine of `x`: even in `x`, periodic in its size.
#[verifier::opaque]
pub open spec fn spec_cos(x: i64) -> i64 {
    turn_cos(within_turn(x)) as i64
}

/// A Horner step stays between zero and one while the squared angle is at
/// most one.
proof fn lemma_series_step_range(z: int, h: int, c: int)
    requires
        0 <= z <= SCALE,
        0 <= h <= SCALE,
        1 <= c,
    ensures
        0 <= z * h <= SCALE * SCALE,
        0 <= series_step(z, h, c) <= SCALE,
{
    let s = SCALE as int;
    assert(0 <= z * h <= s * s) by (nonlinear_arith)
        requires
            0 <= z <= s,
            0 <= h <= s,
    ;
    assert(s * s <= s * (c * s)) by (nonlinear_arith)
        requires
            1 <= c,
            0 < s,
    ;
    vstd::arithmetic::div_mod::lemma_div_is_ordered(z * h, s * (c * s), c * s);
    vstd::arithmetic::div_mod::lemma_div_multiples_vanish(s, c * s);
    vstd::arithmetic::div_mod::lemma_div_pos_is_pos(z * h, c * s);
}

/// On the first eighth of a turn the squared angle is below one.
proof fn lemma_squared_range(r: int)
    requires
        0 <= r <= QUARTER_PI,
    ensures
        0 <= r * r <= 616_850_274_443_774_569,
        0 <= squared(r) <= 616_850_274,
{
    assert(0 <= r * r <= 785_398_163 * 785_398_163) by (nonlinear_arith)
        requires
            0 <= r <= 785_398_163,
    ;
}

/// Both polynomials stay between zero and one on the first eighth of a turn.
proof fn lemma_series_range(r: int)
    requires
        0 <= r <= QUARTER_PI,
    ensures
        0 <= sin_series(r) <= SCALE,
        0 <= cos_series(r) <= SCALE,
{
    let s = SCALE as int;
    let z = squared(r);
    lemma_squared_range(r);
    lemma_series_step_range(z, s, 110);
    let s5 = series_step(z, s, 110);
    lemma_series_step_range(z, s5, 72);
    let s4 = series_step(z, s5, 72);
    lemma_series_step_range(z, s4, 42);
    let s1 = series_step(z, s4, 42);
    lemma_series_step_range(z, s1, 20);
    let s2 = series_step(z, s1, 20);
    lemma_series_step_range(z, s2, 6);
    let s3 = series_step(z, s2, 6);
    assert(0 <= r * s3 <= s * s) by (nonlinear_arith)
        requires
            0 <= r <= s,
            0 <= s3 <= s,
    ;
    vstd::arithmetic::div_mod::lemma_div_is_ordered(r * s3, s * s, s);
    vstd::arithmetic::div_mod::lemma_div_multiples_vanish(s, s);
    vstd::arithmetic::div_mod::lemma_div_pos_is_pos(r * s3, s);

    lemma_series_step_range(z, s, 132);
    let c5 = series_step(z, s, 132);
    lemma_series_step_range(z, c5, 90);
    let c4 = series_step(z, c5, 90);
    lemma_series_step_range(z, c4, 56);
    let c1 = series_step(z, c4, 56);
    lemma_series_step_range(z, c1, 30);
    let c2 = series_step(z, c1, 30);
    lemma_series_step_range(z, c2, 12);
    let c3 = series_step(z, c2, 12);
    lemma_series_step_range(z, c3, 2);
}

/// Sine and cosine never leave `[-1, 1]`.
pub proof fn lemma_trig_range(x: i64)
    ensures
        -SCALE <= spec_sin(x) <= SCALE,
        -SCALE <= spec_cos(x) <= SCALE,
        -SCALE <= turn_sin(within_turn(x)) <= SCALE,
        -SCALE <= turn_cos(within_turn(x)) <= SCALE,
{
    reveal(spec_sin);
    reveal(spec_cos);
    let r = within_turn(x);
    let q = if r <= HALF_PI {
        r
    } else if r < PI {
        PI - r
    } else if r - PI <= HALF_PI {
        r - PI
    } else {
        PI - (r - PI)
    };
    if q <= QUARTER_PI {
        lemma_series_range(q);
    } else {
        lemma_series_range(HALF_PI - q);
    }
}

/// The sine is odd and the cosine even.
pub proof fn lemma_trig_symmetry(x: i64)
    requires
        x != i64::MIN,
    ensures
        spec_sin((-x) as i64) == -spec_sin(x),
        spec_cos((-x) as i64) == spec_cos(x),
{
    reveal(spec_sin);
    reveal(spec_cos);
    lemma_trig_range(x);
    let y = (-x) as i64;
    assert(within_turn(y) == within_turn(x));
    if x == 0 {
        lemma_trig_at_zero();
    }
}

/// At angle zero the sine is zero and the cosine one.
pub proof fn lemma_trig_at_zero()
    ensures
        spec_sin(0) == 0,
        spec_cos(0) == SCALE,
{
    reveal(spec_sin);
    reveal(spec_cos);
    assert(within_turn(0) == 0);
    assert(squared(0) == 0);
    assert(series_step(0, SCALE as int, 110) == SCALE) by (nonlinear_arith);
    assert(series_step(0, SCALE as int, 72) == SCALE) by (nonlinear_arith);
    assert(series_step(0, SCALE as int, 42) == SCALE) by (nonlinear_arith);
    assert(series_step(0, SCALE as int, 20) == SCALE) by (nonlinear_arith);
    assert(series_step(0, SCALE as int, 6) == SCALE) by (nonlinear_arith);
    assert(series_step(0, SCALE as int, 132) == SCALE) by (nonlinear_arith);
    assert(series_step(0, SCALE as int, 90) == SCALE) by (nonlinear_arith);
    assert(series_step(0, SCALE as int, 56) == SCALE) by (nonlinear_arith);
    assert(series_step(0, SCALE as int, 30) == SCALE) by (nonlinear_arith);
    assert(series_step(0, SCALE as int, 12) == SCALE) by (nonlinear_arith);
    assert(series_step(0, SCALE as int, 2) == SCALE) by (nonlinear_arith);
    assert(sin_series(0) == 0) by (nonlinear_arith)
        requires
            sin_series(0) == (0 * SCALE) / (SCALE as int),
    ;
}

fn horner_step(z: i64, h: i64, c: i64) -> (r: i64)
    requires
        0 <= z <= SCALE,
        0 <= h <= SCALE,
        1 <= c <= 1000,
    ensures
        r == series_step(z as int, h as int, c as int),
        0 <= r <= SCALE,
{
    proof {
        lemma_series_step_range(z as int, h as int, c as int);
    }
    SCALE - (z * h) / (c * SCALE)
}

/// Sine and cosine on the first eighth of a turn.
fn eighth_sin_cos(r: i64) -> (sc: (i64, i64))
    requires
        0 <= r <= QUARTER_PI,
    ensures
        sc.0 == sin_series(r as int),
        sc.1 == cos_series(r as int),
        0 <= sc.0 <= SCALE,
        0 <= sc.1 <= SCALE,
{
    proof {
        lemma_squared_range(r as int);
        lemma_series_range(r as int);
    }
    let z: i64 = (r * r) / SCALE;
    let s2 = horner_step(z, horner_step(z, SCALE, 110), 72);
    let s3 = horner_step(z, horner_step(z, horner_step(z, s2, 42), 20), 6);
    assert(0 <= r * s3 <= SCALE * SCALE) by (nonlinear_arith)
        requires
            0 <= r <= SCALE,
            0 <= s3 <= SCALE,
    ;
    let sine = (r * s3) / SCALE;
    let c2 = horner_step(z, horner_step(z, SCALE, 132), 90);
    let cosine = horner_step(z, horner_step(z, horner_step(z, horner_step(z, c2, 56), 30), 12), 2);
    (sine, cosine)
}

/// Sine and cosine on the first quarter turn.
fn quarter_sin_cos(r: i64) -> (sc: (i64, i64))
    requires
        0 <= r <= HALF_PI,
    ensures
        sc.0 == quarter_sin(r as int),
        sc.1 == quarter_cos(r as int),
        0 <= sc.0 <= SCALE,
        0 <= sc.1 <= SCALE,
{
    if r <= QUARTER_PI {
        eighth_sin_cos(r)
    } else {
        let (s, c) = eighth_sin_cos(HALF_PI - r);
        (c, s)
    }
}

/// Sine and cosine of `x`, as a pair.
pub fn sin_cos(x: i64) -> (sc: (i64, i64))
    ensures
        sc.0 == spec_sin(x),
        sc.1 == spec_cos(x),
        -SCALE <= sc.0 <= SCALE,
        -SCALE <= sc.1 <= SCALE,
{
    proof {
        reveal(spec_sin);
        reveal(spec_cos);
    }
    let size: u64 = if x < 0 {
        (-(x as i128)) as u64
    } else {
        x as u64
    };
    let r: i64 = (size % (TWO_PI as u64)) as i64;
    let (s, c) = if r <= HALF_PI {
        quarter_sin_cos(r)
    } else if r < PI {
        let (s, c) = quarter_sin_cos(PI - r);
        (s, -c)
    } else if r - PI <= HALF_PI {
        let (s, c) = quarter_sin_cos(r - PI);
        (-s, -c)
    } else {
        let (s, c) = quarter_sin_cos(PI - (r - PI));
        (-s, c)
    };
    if x < 0 {
        (-s, c)
    } else {
        (s, c)
    }
}

} // verus!
