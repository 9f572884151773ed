//! Three-component vectors of fixed-point scalars.
//!
//! Squared lengths are exact integers (in squared stored units) and lengths
//! are their integer square roots, so comparisons against a limit involve
//! no rounding beyond that of the root. A direction is taken from the
//! vector magnified, so that it is a unit vector however short the vector.

use vstd::prelude::*;
use crate::arith::{lemma_square_of_magnitude, lemma_sum_of_shortfalls};
use crate::fixed::{
    fx_add, fx_mul, fx_sub, lemma_product_range, lemma_quot_sign, magnitude, mul_div, quot,
    saturate, spec_mul_div, SCALE,
};
use crate::sqrt::{isqrt, lemma_isqrt_is_floor_sqrt, lemma_square_monotonic, spec_isqrt};

verus! {

/// The exact sum of the squared components.
pub open spec fn spec_norm_squared(v: [i64; 3]) -> nat {
    (v[0] * v[0] + v[1] * v[1] + v[2] * v[2]) as nat
}

/// The length, rounded down to a whole stored unit.
pub open spec fn spec_length(v: [i64; 3]) -> nat {
    spec_isqrt(spec_norm_squared(v))
}

/// Component-wise saturating difference `a - b`.
pub open spec fn spec_difference(a: [i64; 3], b: [i64; 3]) -> [i64; 3] {
    [fx_sub(a[0], b[0]), fx_sub(a[1], b[1]), fx_sub(a[2], b[2])]
}

/// Component-wise saturating sum `a + b`.
pub open spec fn spec_sum(a: [i64; 3], b: [i64; 3]) -> [i64; 3] {
    [fx_add(a[0], b[0]), fx_add(a[1], b[1]), fx_add(a[2], b[2])]
}

/// `v * k`, component by component.
pub open spec fn spec_scaled(v: [i64; 3], k: i64) -> [i64; 3] {
    [fx_mul(v[0], k), fx_mul(v[1], k), fx_mul(v[2], k)]
}

/// `p + v * t`, component by component.
pub open spec fn spec_add_scaled(p: [i64; 3], v: [i64; 3], t: i64) -> [i64; 3] {
    [
        fx_add(p[0], fx_mul(v[0], t)),
        fx_add(p[1], fx_mul(v[1], t)),
        fx_add(p[2], fx_mul(v[2], t)),
    ]
}

/// `v` itself while its length is at most `cap`; otherwise `v` rescaled by
/// `cap / |v|`, each component rounded toward zero.
pub open spec fn spec_limit_magnitude(v: [i64; 3], cap: i64) -> [i64; 3] {
    if spec_norm_squared(v) > cap * cap {
        let len = spec_length(v) as int;
        [spec_mul_div(v[0], cap, len), spec_mul_div(v[1], cap, len), spec_mul_div(v[2], cap, len)]
    } else {
        v
    }
}

/// Vectors with no component larger than this are magnified by [`SCALE`]
/// before their direction is taken; it is the largest value that can be.
pub const FINE_RANGE: i64 = 9_223_372_036;

/// Whether `v` is short enough to be magnified.
pub open spec fn spec_is_fine(v: [i64; 3]) -> bool {
    &&& -FINE_RANGE <= v[0] <= FINE_RANGE
    &&& -FINE_RANGE <= v[1] <= FINE_RANGE
    &&& -FINE_RANGE <= v[2] <= FINE_RANGE
}

/// The factor by which `v` is magnified: [`SCALE`] if it is short enough,
/// one if not.
pub open spec fn spec_magnification(v: [i64; 3]) -> int {
    if spec_is_fine(v) {
        SCALE as int
    } else {
        1
    }
}

/// `v` times its magnification: a vector of the same direction and of
/// length [`SCALE`] at least, unless `v` is zero.
pub open spec fn spec_magnified(v: [i64; 3]) -> [i64; 3] {
    if spec_is_fine(v) {
        [(v[0] * SCALE) as i64, (v[1] * SCALE) as i64, (v[2] * SCALE) as i64]
    } else {
        v
    }
}

/// The unit vector along `v`, and zero for the zero vector: the magnified
/// `v` divided by its length, each component rounded toward zero. The
/// magnification keeps the rounding of the length below one part in
/// [`SCALE`], however short `v` is.
pub open spec fn spec_direction(v: [i64; 3]) -> [i64; 3] {
    spec_limit_magnitude(spec_magnified(v), SCALE)
}

/// A square is non-negative and, for an `i64`, at most `2^126`.
pub proof fn lemma_square_range(a: i64)
    ensures
        0 <= a * a <= 0x4000_0000_0000_0000_0000_0000_0000_0000,
{
    lemma_product_range(a, a);
    assert(0 <= a * a) by (nonlinear_arith);
}

/// No component is longer than the vector.
pub proof fn lemma_component_le_length(v: [i64; 3], i: int)
    requires
        0 <= i < 3,
    ensures
        magnitude(v[i] as int) <= spec_length(v),
{
    lemma_square_range(v[0]);
    lemma_square_range(v[1]);
    lemma_square_range(v[2]);
    let n = spec_norm_squared(v);
    let len = spec_length(v) as int;
    let m = magnitude(v[i] as int);
    lemma_isqrt_is_floor_sqrt(n);
    assert(m * m == v[i] * v[i]) by (nonlinear_arith)
        requires
            m == magnitude(v[i] as int),
    ;
    if m > len {
        lemma_square_monotonic(len + 1, m);
    }
}

/// Limiting the magnitude to `cap` leaves a vector shorter than `cap` plus
/// one stored unit, and changes nothing when the vector is short enough. A
/// vector that was too long comes out with a length within a few stored
/// units of `cap`: its squared length is at least `cap * (cap - 6)`.
pub proof fn lemma_limit_magnitude_bound(v: [i64; 3], cap: i64)
    requires
        0 <= cap,
    ensures
        spec_norm_squared(spec_limit_magnitude(v, cap)) < (cap + 1) * (cap + 1),
        spec_norm_squared(v) <= cap * cap ==> spec_limit_magnitude(v, cap) == v,
        spec_norm_squared(v) > cap * cap ==> spec_norm_squared(spec_limit_magnitude(v, cap))
            >= cap * (cap - 6),
{
    let n = spec_norm_squared(v) as int;
    let c = cap as int;
    lemma_square_range(v[0]);
    lemma_square_range(v[1]);
    lemma_square_range(v[2]);
    assert(c * c < (c + 1) * (c + 1)) by (nonlinear_arith)
        requires
            0 <= c,
    ;
    if n > c * c {
        let len = spec_length(v) as int;
        let w = spec_limit_magnitude(v, cap);
        lemma_isqrt_is_floor_sqrt(n as nat);
        if len < c {
            lemma_square_monotonic(len + 1, c);
        }
        assert(c <= len);
        assert(len > 0) by (nonlinear_arith)
            requires
                0 <= len,
                0 <= c * c < n < (len + 1) * (len + 1),
        ;
        let w0 = lemma_limited_component(v, cap, 0);
        let w1 = lemma_limited_component(v, cap, 1);
        let w2 = lemma_limited_component(v, cap, 2);
        assert(w[0] == spec_mul_div(v[0], cap, len));
        assert(w[1] == spec_mul_div(v[1], cap, len));
        assert(w[2] == spec_mul_div(v[2], cap, len));
        let s = w[0] * w[0] + w[1] * w[1] + w[2] * w[2];
        assert(s * (len * len) <= n * (c * c)) by (nonlinear_arith)
            requires
                s == w[0] * w[0] + w[1] * w[1] + w[2] * w[2],
                n == v[0] * v[0] + v[1] * v[1] + v[2] * v[2],
                w[0] * w[0] * (len * len) <= v[0] * v[0] * (c * c),
                w[1] * w[1] * (len * len) <= v[1] * v[1] * (c * c),
                w[2] * w[2] * (len * len) <= v[2] * v[2] * (c * c),
        ;
        assert(n * (c * c) <= (len * len) * ((c + 1) * (c + 1)) - 1) by (nonlinear_arith)
            requires
                n < (len + 1) * (len + 1),
                0 <= c <= len,
                0 < len,
                c * c < n,
        ;
        assert(s < (c + 1) * (c + 1)) by (nonlinear_arith)
            requires
                s * (len * len) < (len * len) * ((c + 1) * (c + 1)),
                0 < len,
        ;
        assert(0 <= s) by (nonlinear_arith)
            requires
                s == w[0] * w[0] + w[1] * w[1] + w[2] * w[2],
        ;
        // From below.
        let u0 = magnitude(v[0] as int);
        let u1 = magnitude(v[1] as int);
        let u2 = magnitude(v[2] as int);
        let k0 = magnitude(w0);
        let k1 = magnitude(w1);
        let k2 = magnitude(w2);
        lemma_component_le_length(v, 0);
        lemma_component_le_length(v, 1);
        lemma_component_le_length(v, 2);
        lemma_sum_of_shortfalls(u0, u1, u2, k0, k1, k2, len, c, len - 1);
        lemma_square_of_magnitude(v[0] as int);
        lemma_square_of_magnitude(v[1] as int);
        lemma_square_of_magnitude(v[2] as int);
        lemma_square_of_magnitude(w0);
        lemma_square_of_magnitude(w1);
        lemma_square_of_magnitude(w2);
        assert(s == k0 * k0 + k1 * k1 + k2 * k2);
        assert(n == u0 * u0 + u1 * u1 + u2 * u2);
        let total = u0 + u1 + u2;
        assert(n * (c * c) >= (len * len) * (c * c)) by (nonlinear_arith)
            requires
                len * len <= n,
        ;
        assert(2 * (len - 1) * c * total <= (len * len) * (6 * c)) by (nonlinear_arith)
            requires
                0 <= total <= 3 * len,
                0 < len,
                0 <= c,
        ;
        assert(s >= c * c - 6 * c) by (nonlinear_arith)
            requires
                s * (len * len) >= n * (c * c) - 2 * (len - 1) * c * total,
                n * (c * c) >= (len * len) * (c * c),
                2 * (len - 1) * c * total <= (len * len) * (6 * c),
                0 < len,
        ;
        assert(c * c - 6 * c == c * (c - 6)) by (nonlinear_arith);
    }
}

/// One component of a rescaled vector: it needs no saturation, keeps the
/// sign of the component it came from, and its square times the squared
/// length is at most the old square times the squared cap.
proof fn lemma_limited_component(v: [i64; 3], cap: i64, i: int) -> (w: int)
    requires
        0 <= i < 3,
        0 <= cap <= spec_length(v),
        0 < spec_length(v),
    ensures
        w == spec_mul_div(v[i], cap, spec_length(v) as int),
        w == quot(v[i] * cap, spec_length(v) as int),
        magnitude(w) <= cap,
        magnitude(w) == (magnitude(v[i] as int) * cap) / (spec_length(v) as int),
        v[i] >= 0 ==> w >= 0,
        v[i] <= 0 ==> w <= 0,
        magnitude(w) * spec_length(v) >= magnitude(v[i] as int) * cap - (spec_length(v) - 1),
        w * w * (spec_length(v) * spec_length(v)) <= v[i] * v[i] * (cap * cap),
{
    let len = spec_length(v) as int;
    let c = cap as int;
    let x = v[i] as int;
    let m = magnitude(x);
    lemma_component_le_length(v, i);
    let q = quot(x * c, len);
    lemma_quot_sign(x * c, len);
    assert(magnitude(x * c) == m * c) by (nonlinear_arith)
        requires
            m == magnitude(x),
            0 <= c,
    ;
    assert((x >= 0 ==> x * c >= 0) && (x <= 0 ==> x * c <= 0)) by (nonlinear_arith)
        requires
            0 <= c,
    ;
    let k = magnitude(q);
    assert(k == (m * c) / len);
    assert(0 <= m * c <= len * c) by (nonlinear_arith)
        requires
            0 <= m <= len,
            0 <= c,
    ;
    vstd::arithmetic::div_mod::lemma_div_is_ordered(m * c, len * c, len);
    vstd::arithmetic::div_mod::lemma_div_multiples_vanish(c, len);
    assert(len * c == c * len) by (nonlinear_arith);
    assert(k <= c);
    vstd::arithmetic::div_mod::lemma_fundamental_div_mod(m * c, len);
    vstd::arithmetic::div_mod::lemma_mod_bound(m * c, len);
    assert(0 <= k * len <= m * c) by (nonlinear_arith)
        requires
            m * c == len * k + (m * c) % len,
            0 <= (m * c) % len,
            0 <= k,
            0 < len,
    ;
    lemma_square_monotonic(k * len, m * c);
    assert(q * q * (len * len) == (k * len) * (k * len)) by (nonlinear_arith)
        requires
            k == magnitude(q),
    ;
    assert(x * x * (c * c) == (m * c) * (m * c)) by (nonlinear_arith)
        requires
            m == magnitude(x),
    ;
    assert(saturate(q) == q);
    q
}

/// The magnified vector is the vector times its magnification, component
/// by component, and so is its length, up to the rounding of the root:
/// with `d` the length of `v`, `k` its magnification and `len` the length of
/// the magnified vector, `k * d <= len < k * (d + 1)`.
pub proof fn lemma_magnified(v: [i64; 3])
    ensures
        spec_magnified(v)[0] == spec_magnification(v) * v[0],
        spec_magnified(v)[1] == spec_magnification(v) * v[1],
        spec_magnified(v)[2] == spec_magnification(v) * v[2],
        spec_norm_squared(spec_magnified(v)) == spec_magnification(v) * spec_magnification(v)
            * spec_norm_squared(v),
        spec_magnification(v) * spec_length(v) <= spec_length(spec_magnified(v)),
        spec_length(spec_magnified(v)) < spec_magnification(v) * (spec_length(v) + 1),
        spec_norm_squared(v) > 0 ==> spec_length(spec_magnified(v)) >= SCALE,
{
    let k = spec_magnification(v);
    let s = spec_magnified(v);
    let n = spec_norm_squared(v) as int;
    let d = spec_length(v) as int;
    let len = spec_length(s) as int;
    if spec_is_fine(v) {
        assert(s[0] == v[0] * SCALE && s[1] == v[1] * SCALE && s[2] == v[2] * SCALE);
    }
    assert(s[0] == k * v[0] && s[1] == k * v[1] && s[2] == k * v[2]) by (nonlinear_arith)
        requires
            k == 1 || k == SCALE,
            k == 1 ==> s[0] == v[0] && s[1] == v[1] && s[2] == v[2],
            k == SCALE ==> s[0] == v[0] * SCALE && s[1] == v[1] * SCALE && s[2] == v[2] * SCALE,
    ;
    lemma_square_range(v[0]);
    lemma_square_range(v[1]);
    lemma_square_range(v[2]);
    lemma_square_range(s[0]);
    lemma_square_range(s[1]);
    lemma_square_range(s[2]);
    let m = spec_norm_squared(s) as int;
    let kk = k * k;
    assert(s[0] * s[0] == kk * (v[0] * v[0])) by (nonlinear_arith)
        requires
            s[0] == k * v[0],
            kk == k * k,
    ;
    assert(s[1] * s[1] == kk * (v[1] * v[1])) by (nonlinear_arith)
        requires
            s[1] == k * v[1],
            kk == k * k,
    ;
    assert(s[2] * s[2] == kk * (v[2] * v[2])) by (nonlinear_arith)
        requires
            s[2] == k * v[2],
            kk == k * k,
    ;
    assert(m == kk * n) by (nonlinear_arith)
        requires
            m == kk * (v[0] * v[0]) + kk * (v[1] * v[1]) + kk * (v[2] * v[2]),
            n == v[0] * v[0] + v[1] * v[1] + v[2] * v[2],
    ;
    lemma_isqrt_is_floor_sqrt(n as nat);
    lemma_isqrt_is_floor_sqrt(m as nat);
    assert((k * d) * (k * d) == kk * (d * d) && (k * (d + 1)) * (k * (d + 1)) == kk * ((d + 1)
        * (d + 1))) by (nonlinear_arith)
        requires
            kk == k * k,
    ;
    assert(kk * (d * d) <= kk * n && kk * n < kk * ((d + 1) * (d + 1))) by (nonlinear_arith)
        requires
            d * d <= n < (d + 1) * (d + 1),
            0 < kk,
    ;
    assert(0 <= k * d && 0 < k * (d + 1)) by (nonlinear_arith)
        requires
            0 < k,
            0 <= d,
    ;
    if len + 1 <= k * d {
        lemma_square_monotonic(len + 1, k * d);
    }
    if k * (d + 1) <= len {
        lemma_square_monotonic(k * (d + 1), len);
    }
    if n > 0 {
        assert(d >= 1) by (nonlinear_arith)
            requires
                0 <= d,
                0 < n < (d + 1) * (d + 1),
        ;
        if spec_is_fine(v) {
            assert(k * d >= k) by (nonlinear_arith)
                requires
                    d >= 1,
                    k > 0,
            ;
        } else {
            lemma_component_le_length(v, 0);
            lemma_component_le_length(v, 1);
            lemma_component_le_length(v, 2);
        }
    }
}

/// One component of a direction: the offset along that axis, magnified,
/// times [`SCALE`] over the length of the magnified vector. It has the sign
/// of the offset and is at most one in size.
pub proof fn lemma_direction_component(v: [i64; 3], i: int)
    requires
        0 <= i < 3,
        spec_norm_squared(v) > 0,
    ensures
        spec_direction(v)[i] == quot(
            spec_magnified(v)[i] * SCALE,
            spec_length(spec_magnified(v)) as int,
        ),
        magnitude(spec_direction(v)[i] as int) == (magnitude(spec_magnified(v)[i] as int) * SCALE)
            / (spec_length(spec_magnified(v)) as int),
        magnitude(spec_direction(v)[i] as int) <= SCALE,
        magnitude(spec_magnified(v)[i] as int) <= spec_length(spec_magnified(v)),
        v[i] >= 0 ==> spec_direction(v)[i] >= 0,
        v[i] <= 0 ==> spec_direction(v)[i] <= 0,
{
    let s = spec_magnified(v);
    let len = spec_length(s) as int;
    let scale = SCALE as int;
    lemma_magnified(v);
    lemma_component_le_length(s, i);
    let k = spec_magnification(v);
    assert((v[i] >= 0 ==> s[i] >= 0) && (v[i] <= 0 ==> s[i] <= 0)) by (nonlinear_arith)
        requires
            s[i] == k * v[i],
            0 < k,
    ;
    if spec_norm_squared(s) > SCALE * SCALE {
        let w = lemma_limited_component(s, SCALE, i);
        let n = spec_limit_magnitude(s, SCALE);
        assert(n[i] == spec_mul_div(s[i], SCALE, len));
    } else {
        lemma_isqrt_is_floor_sqrt(spec_norm_squared(s));
        if len > scale {
            lemma_square_monotonic(scale + 1, len);
        }
        assert(len == scale);
        let m = magnitude(s[i] as int);
        lemma_quot_sign(s[i] * scale, scale);
        assert(magnitude(s[i] * scale) == m * scale) by (nonlinear_arith)
            requires
                m == magnitude(s[i] as int),
                0 < scale,
        ;
        vstd::arithmetic::div_mod::lemma_div_multiples_vanish(m, scale);
        assert((s[i] >= 0 ==> s[i] * scale >= 0) && (s[i] <= 0 ==> s[i] * scale <= 0))
            by (nonlinear_arith)
            requires
                0 < scale,
        ;
    }
}

/// A direction is a unit vector up to rounding: unless `v` is zero, the
/// squared length of its direction lies between `SCALE * (SCALE - 6)` and
/// `(SCALE + 1)^2`. The direction of the zero vector is zero.
pub proof fn lemma_direction_is_unit(v: [i64; 3])
    ensures
        spec_norm_squared(v) > 0 ==> SCALE * (SCALE - 6) <= spec_norm_squared(spec_direction(v))
            < (SCALE + 1) * (SCALE + 1),
        spec_norm_squared(v) == 0 ==> spec_direction(v) == v,
{
    let s = spec_magnified(v);
    lemma_magnified(v);
    lemma_limit_magnitude_bound(s, SCALE);
    lemma_square_range(v[0]);
    lemma_square_range(v[1]);
    lemma_square_range(v[2]);
    if spec_norm_squared(v) > 0 {
        if spec_norm_squared(s) <= SCALE * SCALE {
            let len = spec_length(s) as int;
            lemma_isqrt_is_floor_sqrt(spec_norm_squared(s));
            lemma_square_monotonic(SCALE as int, len);
        }
    } else {
        assert(v[0] == 0 && v[1] == 0 && v[2] == 0) by (nonlinear_arith)
            requires
                v[0] * v[0] + v[1] * v[1] + v[2] * v[2] == 0,
        ;
        assert(s =~= v);
        assert(spec_norm_squared(s) == 0);
    }
}

/// Exact squared length.
pub fn norm_squared(v: &[i64; 3]) -> (r: u128)
    ensures
        r == spec_norm_squared(*v),
{
    proof {
        lemma_square_range(v[0]);
        lemma_square_range(v[1]);
        lemma_square_range(v[2]);
    }
    let x: i128 = v[0] as i128;
    let y: i128 = v[1] as i128;
    let z: i128 = v[2] as i128;
    (x * x) as u128 + (y * y) as u128 + (z * z) as u128
}

/// Length rounded down.
pub fn length(v: &[i64; 3]) -> (r: u64)
    ensures
        r == spec_length(*v),
{
    isqrt(norm_squared(v))
}

/// Component-wise saturating difference `a - b`.
pub fn difference(a: &[i64; 3], b: &[i64; 3]) -> (r: [i64; 3])
    ensures
        r == spec_difference(*a, *b),
{
    let r = [fx_sub(a[0], b[0]), fx_sub(a[1], b[1]), fx_sub(a[2], b[2])];
    assert(r =~= spec_difference(*a, *b));
    r
}

/// Component-wise saturating sum `a + b`.
pub fn sum(a: &[i64; 3], b: &[i64; 3]) -> (r: [i64; 3])
    ensures
        r == spec_sum(*a, *b),
{
    let r = [fx_add(a[0], b[0]), fx_add(a[1], b[1]), fx_add(a[2], b[2])];
    assert(r =~= spec_sum(*a, *b));
    r
}

/// `v * k`, component by component.
pub fn scaled(v: &[i64; 3], k: i64) -> (r: [i64; 3])
    ensures
        r == spec_scaled(*v, k),
{
    let r = [fx_mul(v[0], k), fx_mul(v[1], k), fx_mul(v[2], k)];
    assert(r =~= spec_scaled(*v, k));
    r
}

/// `p + v * t`, component by component.
pub fn add_scaled(p: &[i64; 3], v: &[i64; 3], t: i64) -> (r: [i64; 3])
    ensures
        r == spec_add_scaled(*p, *v, t),
{
    let r = [
        fx_add(p[0], fx_mul(v[0], t)),
        fx_add(p[1], fx_mul(v[1], t)),
        fx_add(p[2], fx_mul(v[2], t)),
    ];
    assert(r =~= spec_add_scaled(*p, *v, t));
    r
}

/// Rescales `v` to length `cap` if it is longer, keeping its direction.
pub fn limit_magnitude(v: &[i64; 3], cap: i64) -> (r: [i64; 3])
    ensures
        r == spec_limit_magnitude(*v, cap),
{
    proof {
        lemma_square_range(cap);
    }
    let n = norm_squared(v);
    let c: i128 = cap as i128;
    if n > (c * c) as u128 {
        let len = isqrt(n);
        proof {
            lemma_isqrt_is_floor_sqrt(n as nat);
            assert(len > 0) by (nonlinear_arith)
                requires
                    0 <= c * c < n < (len + 1) * (len + 1),
            ;
        }
        let r = [
            mul_div(v[0], cap, len as i128),
            mul_div(v[1], cap, len as i128),
            mul_div(v[2], cap, len as i128),
        ];
        assert(r =~= spec_limit_magnitude(*v, cap));
        r
    } else {
        *v
    }
}

/// The unit vector along `v`, and zero for the zero vector.
pub fn direction(v: &[i64; 3]) -> (r: [i64; 3])
    ensures
        r == spec_direction(*v),
{
    let fine = -FINE_RANGE <= v[0] && v[0] <= FINE_RANGE && -FINE_RANGE <= v[1] && v[1]
        <= FINE_RANGE && -FINE_RANGE <= v[2] && v[2] <= FINE_RANGE;
    if fine {
        let magnified = [v[0] * SCALE, v[1] * SCALE, v[2] * SCALE];
        assert(magnified =~= spec_magnified(*v));
        limit_magnitude(&magnified, SCALE)
    } else {
        limit_magnitude(v, SCALE)
    }
}

/// Whether two vectors have the same components.
pub fn same_vector(a: &[i64; 3], b: &[i64; 3]) -> (r: bool)
    ensures
        r == (*a == *b),
{
    let r = a[0] == b[0] && a[1] == b[1] && a[2] == b[2];
    proof {
        if r {
            assert(*a =~= *b);
        }
    }
    r
}

} // verus!
