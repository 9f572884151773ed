//! Facts of integer arithmetic that the proofs about vectors share.

use vstd::prelude::*;
use crate::fixed::magnitude;
use crate::sqrt::lemma_square_monotonic;

verus! {

/// A quotient of a non-negative number by a positive one, rounded down,
/// misses the number by less than the divisor.
pub proof fn lemma_floor_bounds(p: int, q: int)
    requires
        0 <= p,
        0 < q,
    ensures
        0 <= p / q,
        (p / q) * q <= p < (p / q) * q + q,
{
    vstd::arithmetic::div_mod::lemma_fundamental_div_mod(p, q);
    vstd::arithmetic::div_mod::lemma_mod_bound(p, q);
    vstd::arithmetic::div_mod::lemma_div_pos_is_pos(p, q);
    assert(q * (p / q) == (p / q) * q) by (nonlinear_arith);
}

/// If `y` falls short of `x` by at most `e`, its square falls short of the
/// square of `x` by at most `2 * e * x`.
pub proof fn lemma_square_shortfall(x: int, y: int, e: int)
    requires
        0 <= x,
        0 <= y,
        0 <= e,
        y >= x - e,
    ensures
        y * y >= x * x - 2 * e * x,
{
    if x >= e {
        lemma_square_monotonic(x - e, y);
        assert((x - e) * (x - e) == x * x - 2 * e * x + e * e) by (nonlinear_arith);
        assert(e * e >= 0) by (nonlinear_arith);
    } else {
        assert(x * x - 2 * e * x <= 0) by (nonlinear_arith)
            requires
                0 <= x < e,
        ;
        assert(y * y >= 0) by (nonlinear_arith);
    }
}

/// Three shortfalls together: if each of `y0, y1, y2`, scaled by `t`, falls
/// short of the matching `u`, scaled by `q`, by at most `e`, then the sum of
/// the squares of the `y`, scaled, falls short of that of the `u`, scaled,
/// by at most `2 * e * q` times the sum of the `u`.
pub proof fn lemma_sum_of_shortfalls(
    u0: int,
    u1: int,
    u2: int,
    y0: int,
    y1: int,
    y2: int,
    t: int,
    q: int,
    e: int,
)
    requires
        0 <= u0 && 0 <= u1 && 0 <= u2,
        0 <= y0 && 0 <= y1 && 0 <= y2,
        0 < t,
        0 <= q,
        0 <= e,
        y0 * t >= u0 * q - e,
        y1 * t >= u1 * q - e,
        y2 * t >= u2 * q - e,
    ensures
        (y0 * y0 + y1 * y1 + y2 * y2) * (t * t) >= (u0 * u0 + u1 * u1 + u2 * u2) * (q * q) - 2
            * e * q * (u0 + u1 + u2),
{
    assert(0 <= y0 * t && 0 <= y1 * t && 0 <= y2 * t) by (nonlinear_arith)
        requires
            0 <= y0 && 0 <= y1 && 0 <= y2,
            0 < t,
    ;
    assert(0 <= u0 * q && 0 <= u1 * q && 0 <= u2 * q) by (nonlinear_arith)
        requires
            0 <= u0 && 0 <= u1 && 0 <= u2,
            0 <= q,
    ;
    lemma_square_shortfall(u0 * q, y0 * t, e);
    lemma_square_shortfall(u1 * q, y1 * t, e);
    lemma_square_shortfall(u2 * q, y2 * t, e);
    assert((y0 * t) * (y0 * t) == y0 * y0 * (t * t)) by (nonlinear_arith);
    assert((y1 * t) * (y1 * t) == y1 * y1 * (t * t)) by (nonlinear_arith);
    assert((y2 * t) * (y2 * t) == y2 * y2 * (t * t)) by (nonlinear_arith);
    assert((u0 * q) * (u0 * q) == u0 * u0 * (q * q)) by (nonlinear_arith);
    assert((u1 * q) * (u1 * q) == u1 * u1 * (q * q)) by (nonlinear_arith);
    assert((u2 * q) * (u2 * q) == u2 * u2 * (q * q)) by (nonlinear_arith);
    assert(2 * e * (u0 * q) == 2 * e * q * u0) by (nonlinear_arith);
    assert(2 * e * (u1 * q) == 2 * e * q * u1) by (nonlinear_arith);
    assert(2 * e * (u2 * q) == 2 * e * q * u2) by (nonlinear_arith);
    assert((y0 * y0 + y1 * y1 + y2 * y2) * (t * t) == y0 * y0 * (t * t) + y1 * y1 * (t * t) + y2
        * y2 * (t * t)) by (nonlinear_arith);
    assert((u0 * u0 + u1 * u1 + u2 * u2) * (q * q) == u0 * u0 * (q * q) + u1 * u1 * (q * q) + u2
        * u2 * (q * q)) by (nonlinear_arith);
    assert(2 * e * q * (u0 + u1 + u2) == 2 * e * q * u0 + 2 * e * q * u1 + 2 * e * q * u2)
        by (nonlinear_arith);
}

/// The square of a number is the square of its size.
pub proof fn lemma_square_of_magnitude(x: int)
    ensures
        magnitude(x) * magnitude(x) == x * x,
{
    assert(magnitude(x) * magnitude(x) == x * x) by (nonlinear_arith)
        requires
            magnitude(x) == x || magnitude(x) == -x,
    ;
}

} // verus!
