//! Signed fixed-point scalars with nine decimal places.
//!
//! A quantity `q` is held as the `i64` that equals `q * 1_000_000_000`, so
//! `1.5` is `1_500_000_000`, the smallest step is one billionth, and the
//! largest value is a little over nine billion. Seconds, metres, radians
//! and the dimensionless components of a quaternion all use this one scale.
//! Sums and differences are exact; products and quotients round toward
//! zero. A result that does not fit in an `i64` is replaced by the nearest
//! bound, so no operation on `i64` here can overflow, and the only input
//! that they refuse is a divisor of zero. The two functions that work on
//! `i128`, [`div_toward_zero`] and [`mul_div`], refuse the value
//! `i128::MIN` as well, which has no negative.

use vstd::prelude::*;

verus! {

/// Stored units per whole unit.
pub const SCALE: i64 = 1_000_000_000;

/// Absolute value.
pub open spec fn magnitude(x: int) -> int {
    if x < 0 {
        -x
    } else {
        x
    }
}

/// `a / b` rounded toward zero, for `b != 0`.
pub open spec fn quot(a: int, b: int) -> int
    recommends
        b != 0,
{
    if (a < 0) == (b < 0) {
        magnitude(a) / magnitude(b)
    } else {
        -(magnitude(a) / magnitude(b))
    }
}

/// The `i64` nearest to `x`.
pub open spec fn saturate(x: int) -> i64 {
    if x < i64::MIN {
        i64::MIN
    } else if x > i64::MAX {
        i64::MAX
    } else {
        x as i64
    }
}

/// Saturating sum.
pub open spec fn spec_fx_add(a: i64, b: i64) -> i64 {
    saturate(a + b)
}

/// Saturating difference.
pub open spec fn spec_fx_sub(a: i64, b: i64) -> i64 {
    saturate(a - b)
}

/// `a * b / c` with the product taken exactly, the quotient rounded toward
/// zero and the result saturated.
pub open spec fn spec_mul_div(a: i64, b: i64, c: int) -> i64
    recommends
        c != 0,
{
    saturate(quot(a * b, c))
}

/// Fixed-point product: `a * b / SCALE`.
pub open spec fn spec_fx_mul(a: i64, b: i64) -> i64 {
    spec_mul_div(a, b, SCALE as int)
}

/// Fixed-point quotient: `a * SCALE / b`.
pub open spec fn spec_fx_div(a: i64, b: i64) -> i64
    recommends
        b != 0,
{
    spec_mul_div(a, SCALE, b as int)
}

/// The product of two `i64` values fits in an `i128` with room to spare.
pub proof fn lemma_product_range(a: i64, b: i64)
    ensures
        -0x4000_0000_0000_0000_0000_0000_0000_0000 < a * b,
        a * b <= 0x4000_0000_0000_0000_0000_0000_0000_0000,
{
    assert(-0x4000_0000_0000_0000_0000_0000_0000_0000 < a * b
        <= 0x4000_0000_0000_0000_0000_0000_0000_0000) by (nonlinear_arith)
        requires
            -0x8000_0000_0000_0000 <= a < 0x8000_0000_0000_0000,
            -0x8000_0000_0000_0000 <= b < 0x8000_0000_0000_0000,
    ;
}

/// Rounding toward zero never increases the size of a value and keeps its
/// sign.
pub proof fn lemma_quot_sign(a: int, b: int)
    requires
        b != 0,
    ensures
        magnitude(quot(a, b)) == magnitude(a) / magnitude(b),
        magnitude(quot(a, b)) <= magnitude(a),
        (a >= 0) == (b > 0) ==> quot(a, b) >= 0,
        (a <= 0) == (b > 0) ==> quot(a, b) <= 0,
        a == 0 ==> quot(a, b) == 0,
{
    let m = magnitude(a);
    let d = magnitude(b);
    vstd::arithmetic::div_mod::lemma_div_pos_is_pos(m, d);
    vstd::arithmetic::div_mod::lemma_div_is_ordered_by_denominator(m, 1, d);
    vstd::arithmetic::div_mod::lemma_div_basics(m);
}

/// Whatever lies in the right interval is the quotient: for a positive
/// divisor `b`, `quot(a, b)` is the `q` of the same sign as `a` with
/// `|q| * b <= |a| < (|q| + 1) * b`.
pub proof fn lemma_quot_unique(a: int, b: int, q: int)
    requires
        0 < b,
        a >= 0 ==> q * b <= a < (q + 1) * b,
        a <= 0 ==> (q - 1) * b < a <= q * b,
    ensures
        quot(a, b) == q,
{
    let m = magnitude(a);
    let k = if a >= 0 {
        q
    } else {
        -q
    };
    assert(k * b <= m < (k + 1) * b) by (nonlinear_arith)
        requires
            a >= 0 ==> k == q && m == a && q * b <= a < (q + 1) * b,
            a < 0 ==> k == -q && m == -a && (q - 1) * b < a <= q * b,
    ;
    assert(0 <= k) by (nonlinear_arith)
        requires
            0 < b,
            0 <= m < (k + 1) * b,
    ;
    assert((k + 1) * b == k * b + b) by (nonlinear_arith);
    vstd::arithmetic::div_mod::lemma_fundamental_div_mod_converse(m, b, k, m - k * b);
}

/// Narrows to `i64`, replacing a value out of range by the nearest bound.
pub fn narrow(x: i128) -> (r: i64)
    ensures
        r == saturate(x as int),
{
    if x < i64::MIN as i128 {
        i64::MIN
    } else if x > i64::MAX as i128 {
        i64::MAX
    } else {
        x as i64
    }
}

/// Divides rounding toward zero.
pub fn div_toward_zero(a: i128, b: i128) -> (r: i128)
    requires
        b != 0,
        a > i128::MIN,
        b > i128::MIN,
    ensures
        r == quot(a as int, b as int),
{
    let ua: u128 = if a < 0 {
        (-a) as u128
    } else {
        a as u128
    };
    let ub: u128 = if b < 0 {
        (-b) as u128
    } else {
        b as u128
    };
    let q: u128 = ua / ub;
    proof {
        lemma_quot_sign(a as int, b as int);
    }
    if (a < 0) == (b < 0) {
        q as i128
    } else {
        -(q as i128)
    }
}

/// Saturating sum.
#[verifier::when_used_as_spec(spec_fx_add)]
pub fn fx_add(a: i64, b: i64) -> (r: i64)
    ensures
        r == spec_fx_add(a, b),
{
    narrow(a as i128 + b as i128)
}

/// Saturating difference.
#[verifier::when_used_as_spec(spec_fx_sub)]
pub fn fx_sub(a: i64, b: i64) -> (r: i64)
    ensures
        r == spec_fx_sub(a, b),
{
    narrow(a as i128 - b as i128)
}

/// `a * b / c`, rounded toward zero and saturated.
pub fn mul_div(a: i64, b: i64, c: i128) -> (r: i64)
    requires
        c != 0,
        c > i128::MIN,
    ensures
        r == spec_mul_div(a, b, c as int),
{
    proof {
        lemma_product_range(a, b);
    }
    let p: i128 = (a as i128) * (b as i128);
    narrow(div_toward_zero(p, c))
}

/// Fixed-point product.
#[verifier::when_used_as_spec(spec_fx_mul)]
pub fn fx_mul(a: i64, b: i64) -> (r: i64)
    ensures
        r == spec_fx_mul(a, b),
{
    mul_div(a, b, SCALE as i128)
}

/// Fixed-point quotient.
pub fn fx_div(a: i64, b: i64) -> (r: i64)
    requires
        b != 0,
    ensures
        r == spec_fx_div(a, b),
{
    mul_div(a, SCALE, b as i128)
}

} // verus!
