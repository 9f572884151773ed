//! How a collision resolution parts two objects: never closer than they
//! were, along a normal of unit length, and so that they end up touching,
//! up to what the roundings cost; and how far an update keeps an object out
//! of its only peer.

use vstd::prelude::*;
use crate::arith::{
    lemma_floor_bounds, lemma_square_of_magnitude, lemma_sum_of_shortfalls,
};
use crate::fixed::{
    fx_add, fx_mul, fx_sub, lemma_quot_sign, magnitude, spec_fx_div, spec_mul_div, SCALE,
};
use crate::laws::lemma_resolved_moves_positions_only;
use crate::object::{Object, FIXED_STEP, GRAVITY, MAX_SPEED};
use crate::sqrt::{is_floor_sqrt, lemma_isqrt_is_floor_sqrt, lemma_square_monotonic, spec_isqrt};
use crate::vector::{
    lemma_component_le_length, lemma_direction_component, lemma_direction_is_unit,
    lemma_limit_magnitude_bound, lemma_magnified, lemma_square_range, spec_add_scaled,
    spec_difference, spec_length, spec_limit_magnitude, spec_magnification, spec_magnified,
    spec_norm_squared,
};

verus! {

/// The exact squared distance between two centres.
pub open spec fn gap_squared(a: Object, b: Object) -> int {
    (b.position[0] - a.position[0]) * (b.position[0] - a.position[0]) + (b.position[1]
        - a.position[1]) * (b.position[1] - a.position[1]) + (b.position[2] - a.position[2]) * (
    b.position[2] - a.position[2])
}

/// The largest coordinate and the largest radius for which the laws on
/// completeness and on keeping apart are stated: far below the range of an
/// `i64`, so that nothing saturates.
pub const REACH: i64 = 0x1000_0000_0000_0000;

/// Every coordinate of the centre is within [`REACH`] of the origin, and
/// the radius is positive and at most [`REACH`].
pub open spec fn within_reach(a: Object) -> bool {
    &&& -REACH <= a.position[0] <= REACH
    &&& -REACH <= a.position[1] <= REACH
    &&& -REACH <= a.position[2] <= REACH
    &&& 0 < a.radius <= REACH
}

/// By how much the distance after a resolution may differ from the sum of
/// the radii: six stored units for every whole unit of the depth and of the
/// two radii together, and thirty-six more.
pub open spec fn slack(a: Object, b: Object) -> int {
    6 * ((Object::penetration_depth(a, b) + a.radius + b.radius) / (SCALE as int) + 6)
}

/// The normal between two different centres is a unit vector up to
/// rounding, however close the centres are: its squared length lies between
/// `SCALE * (SCALE - 6)` and `(SCALE + 1)^2`.
pub proof fn lemma_normal_is_unit(a: Object, b: Object)
    requires
        a.position != b.position,
    ensures
        SCALE * (SCALE - 6) <= spec_norm_squared(Object::normal(a, b)) < (SCALE + 1) * (SCALE
            + 1),
{
    let v = spec_difference(b.position, a.position);
    lemma_offset_is_not_zero(a, b);
    lemma_direction_is_unit(v);
}

/// One resolution parts two overlapping objects so that they touch. If at
/// least one of them moves, then afterwards the distance between the
/// centres is the sum of the radii up to [`slack`], in either direction: no
/// overlap is left and there is no overshoot beyond that. A static object
/// stays where it is.
pub proof fn lemma_resolution_is_complete(a: Object, b: Object)
    requires
        within_reach(a),
        within_reach(b),
        !a.is_static || !b.is_static,
        a != b,
        Object::spec_distance(a, b) > 0,
        Object::penetration_depth(a, b) > 0,
    ensures
        a.is_static ==> Object::resolved(a, b).0 == a,
        b.is_static ==> Object::resolved(a, b).1 == b,
        gap_squared(Object::resolved(a, b).0, Object::resolved(a, b).1) >= (a.radius + b.radius)
            * (a.radius + b.radius - slack(a, b)),
        gap_squared(Object::resolved(a, b).0, Object::resolved(a, b).1) < (a.radius + b.radius
            + slack(a, b)) * (a.radius + b.radius + slack(a, b)),
        -slack(a, b) <= Object::penetration_depth(
            Object::resolved(a, b).0,
            Object::resolved(a, b).1,
        ) <= slack(a, b),
{
    let (x, y) = Object::resolved(a, b);
    lemma_resolved_moves_positions_only(a, b);
    lemma_complete_gap(a, b);
    lemma_depth_from_gap(x, y, slack(a, b));
}

/// The farthest that a fall can move an object along one axis in one step
/// of at most [`FIXED_STEP`]: the largest speed times the step.
pub const MAX_MOVE: i64 = 80_000_000;

/// How far below the sum of the radii the distance between an object and
/// its only peer can be found after a step: what a fall of one step can
/// take, and what the roundings of a resolution can cost.
pub open spec fn margin(a: Object, b: Object) -> int {
    6 * MAX_MOVE + 6 * ((2 * (a.radius + b.radius)) / (SCALE as int) + 6)
}

/// The most that one step can move either of the two along an axis.
pub open spec fn stride(a: Object, b: Object) -> int {
    a.radius + b.radius + MAX_MOVE
}

/// Both centres keep `budget` clear of [`REACH`] along every axis, and the
/// radii are positive and within it.
pub open spec fn room(a: Object, b: Object, budget: int) -> bool {
    &&& 0 <= budget <= REACH
    &&& -(REACH - budget) <= a.position[0] <= REACH - budget
    &&& -(REACH - budget) <= a.position[1] <= REACH - budget
    &&& -(REACH - budget) <= a.position[2] <= REACH - budget
    &&& -(REACH - budget) <= b.position[0] <= REACH - budget
    &&& -(REACH - budget) <= b.position[1] <= REACH - budget
    &&& -(REACH - budget) <= b.position[2] <= REACH - budget
    &&& 0 < a.radius <= REACH
    &&& 0 < b.radius <= REACH
}

/// An update never lets a moving object sink into its only peer. Whatever
/// the time, as long as it is positive, and whatever the velocities, after
/// the update the distance between the centres is the sum of the radii less
/// [`margin`] at least. So two objects that overlapped by more than the
/// margin are farther apart after the update than before. The centres must
/// differ at the start, the radii together must exceed the margin, and
/// there must be room for every step.
pub proof fn lemma_update_against_one_peer_keeps_apart(a: Object, b: Object, dt: i64)
    requires
        !a.is_static,
        a.position != b.position,
        0 < dt,
        a.radius + b.radius > margin(a, b),
        room(a, b, (dt / FIXED_STEP + 1) * stride(a, b)),
    ensures
        a.after_update(seq![b], dt).1.len() == 1,
        Object::spec_distance(a.after_update(seq![b], dt).0, a.after_update(seq![b], dt).1[0])
            >= a.radius + b.radius - margin(a, b),
        Object::spec_distance(a, b) <= a.radius + b.radius - margin(a, b)
            ==> Object::spec_distance(
            a.after_update(seq![b], dt).0,
            a.after_update(seq![b], dt).1[0],
        ) >= Object::spec_distance(a, b),
{
    let n = (dt / FIXED_STEP) as nat;
    let rest = dt % FIXED_STEP;
    let step = stride(a, b);
    let budget = (n + 1) * step;
    vstd::arithmetic::div_mod::lemma_fundamental_div_mod(dt as int, FIXED_STEP as int);
    vstd::arithmetic::div_mod::lemma_mod_bound(dt as int, FIXED_STEP as int);
    assert(budget == n * step + step) by (nonlinear_arith)
        requires
            budget == (n + 1) * step,
    ;
    assert(0 <= n * step) by (nonlinear_arith)
        requires
            0 <= step,
    ;
    lemma_steps_keep_apart(a, b, n, budget);
    let (x, p) = a.after_steps(seq![b], n);
    if rest > 0 {
        assert(p =~= seq![p[0]]);
        lemma_step_keeps_apart(x, p[0], rest as i64, budget - n * step);
    } else {
        assert(n >= 1);
    }
}

/// The pushes that a resolution applies along axis `i`: what is taken from
/// the position of `a` and what is added to that of `b`.
spec fn pushes(a: Object, b: Object, i: int) -> (i64, i64) {
    let depth = Object::penetration_depth(a, b);
    let n = Object::normal(a, b);
    if a == b || depth <= 0 || Object::spec_distance(a, b) == 0 {
        (0, 0)
    } else if !a.is_static && b.is_static {
        (fx_mul(n[i], depth), 0)
    } else if a.is_static && !b.is_static {
        (0, fx_mul(n[i], depth))
    } else if !a.is_static && !b.is_static {
        let factor = spec_fx_div(depth, fx_add(a.radius, b.radius));
        (fx_mul(fx_mul(n[i], a.radius), factor), fx_mul(fx_mul(n[i], b.radius), factor))
    } else {
        (0, 0)
    }
}

/// A collision resolution never brings two centres closer together, along
/// any axis and therefore in distance.
pub proof fn lemma_resolution_never_closer(a: Object, b: Object)
    requires
        a.well_formed(),
        b.well_formed(),
    ensures
        gap_squared(Object::resolved(a, b).0, Object::resolved(a, b).1) >= gap_squared(a, b),
{
    lemma_pushes_point_apart(a, b, 0);
    lemma_pushes_point_apart(a, b, 1);
    lemma_pushes_point_apart(a, b, 2);
    lemma_axis_never_closer(a.position[0], b.position[0], pushes(a, b, 0).0, pushes(a, b, 0).1);
    lemma_axis_never_closer(a.position[1], b.position[1], pushes(a, b, 1).0, pushes(a, b, 1).1);
    lemma_axis_never_closer(a.position[2], b.position[2], pushes(a, b, 2).0, pushes(a, b, 2).1);
}

/// When a moving object overlaps its only peer, the step that resolves the
/// collision leaves their centres no closer than they were: gravity is
/// suppressed in that step, so nothing but the resolution moves either of
/// them.
pub proof fn lemma_step_against_one_peer_never_closer(a: Object, b: Object, dt: i64)
    requires
        a.well_formed(),
        b.well_formed(),
        !a.is_static,
        a.overlaps(b),
    ensures
        a.after_step(seq![b], dt).1.len() == 1,
        gap_squared(a.after_step(seq![b], dt).0, a.after_step(seq![b], dt).1[0]) >= gap_squared(
            a,
            b,
        ),
{
    let peers = seq![b];
    assert(a.scanned(peers, 0) == (a, peers, false));
    assert(peers[0] == b);
    let (x, y) = Object::resolved(a, b);
    assert(a.scanned(peers, 1) == (x, peers.update(0, y), true));
    lemma_resolution_never_closer(a, b);
    assert(x.spun(dt).position == x.position);
}

/// Where the first `n` full steps take an object and its only peer: the
/// centres still differ, there is room left for the steps that follow, and
/// after the first step the two are apart as stated.
proof fn lemma_steps_keep_apart(a: Object, b: Object, n: nat, budget: int)
    requires
        !a.is_static,
        a.position != b.position,
        a.radius + b.radius > margin(a, b),
        budget >= n * stride(a, b),
        room(a, b, budget),
    ensures
        a.after_steps(seq![b], n).1.len() == 1,
        !a.after_steps(seq![b], n).0.is_static,
        a.after_steps(seq![b], n).0.radius == a.radius,
        a.after_steps(seq![b], n).1[0].radius == b.radius,
        a.after_steps(seq![b], n).0.position != a.after_steps(seq![b], n).1[0].position,
        room(
            a.after_steps(seq![b], n).0,
            a.after_steps(seq![b], n).1[0],
            budget - n * stride(a, b),
        ),
        n >= 1 ==> Object::spec_distance(
            a.after_steps(seq![b], n).0,
            a.after_steps(seq![b], n).1[0],
        ) >= a.radius + b.radius - margin(a, b),
    decreases n,
{
    let step = stride(a, b);
    if n == 0 {
        assert(a.after_steps(seq![b], 0) == (a, seq![b]));
        assert(0 * step == 0) by (nonlinear_arith);
    } else {
        let m = (n - 1) as nat;
        assert(n * step == m * step + step && 0 <= m * step) by (nonlinear_arith)
            requires
                m == n - 1,
                0 <= m,
                0 <= step,
        ;
        lemma_steps_keep_apart(a, b, m, budget);
        let (x, p) = a.after_steps(seq![b], m);
        assert(p =~= seq![p[0]]);
        lemma_step_keeps_apart(x, p[0], FIXED_STEP, budget - m * step);
    }
}

/// One step of an object against its only peer: afterwards the two are
/// apart by the sum of the radii less the margin, each has moved by a
/// stride at most along any axis, and nothing else about them has changed.
proof fn lemma_step_keeps_apart(a: Object, b: Object, dt: i64, budget: int)
    requires
        !a.is_static,
        a.position != b.position,
        0 < dt <= FIXED_STEP,
        a.radius + b.radius > margin(a, b),
        budget >= stride(a, b),
        room(a, b, budget),
    ensures
        a.after_step(seq![b], dt).1.len() == 1,
        !a.after_step(seq![b], dt).0.is_static,
        a.after_step(seq![b], dt).0.radius == a.radius,
        a.after_step(seq![b], dt).1[0].radius == b.radius,
        a.after_step(seq![b], dt).0.position != a.after_step(seq![b], dt).1[0].position,
        room(a.after_step(seq![b], dt).0, a.after_step(seq![b], dt).1[0], budget - stride(a, b)),
        Object::spec_distance(a.after_step(seq![b], dt).0, a.after_step(seq![b], dt).1[0])
            >= a.radius + b.radius - margin(a, b),
{
    let peers = seq![b];
    assert(a.scanned(peers, 0) == (a, peers, false));
    assert(peers[0] == b);
    let r = a.radius + b.radius;
    lemma_distance_within_reach(a, b);
    if a.overlaps(b) {
        let (x, y) = Object::resolved(a, b);
        assert(a.scanned(peers, 1) == (x, peers.update(0, y), true));
        lemma_resolved_within_stride(a, b);
        assert(x.spun(dt).position == x.position);
        assert(x.spun(dt).radius == x.radius && x.spun(dt).is_static == x.is_static);
        lemma_apart_is_different(x.spun(dt), y, r - margin(a, b));
    } else {
        assert(a.scanned(peers, 1) == (a, peers, false));
        let x = a.fallen(dt);
        lemma_fall_keeps_apart(a, b, dt);
        assert(x.spun(dt).position == x.position);
        assert(x.spun(dt).radius == x.radius && x.spun(dt).is_static == x.is_static);
        lemma_apart_is_different(x.spun(dt), b, r - margin(a, b));
    }
}

/// Objects whose centres are a positive distance apart have different
/// centres, and the distance depends on the centres only.
proof fn lemma_apart_is_different(x: Object, y: Object, floor: int)
    requires
        0 < floor,
    ensures
        Object::spec_distance(x, y) >= floor ==> x.position != y.position,
{
    if x.position == y.position {
        crate::laws::lemma_coincident_centres_untouched(x, y);
    }
}

/// A resolution within reach moves each centre by the sum of the radii at
/// most along any axis, and leaves the two apart by that sum less the
/// slack.
proof fn lemma_resolved_within_stride(a: Object, b: Object)
    requires
        !a.is_static,
        a.overlaps(b),
        within_reach(a),
        within_reach(b),
    ensures
        ({
            let (x, y) = Object::resolved(a, b);
            let r = a.radius + b.radius;
            &&& Object::spec_distance(x, y) >= r - margin(a, b)
            &&& x.radius == a.radius && y.radius == b.radius && x.is_static == a.is_static
            &&& a.position[0] - r <= x.position[0] <= a.position[0] + r
            &&& a.position[1] - r <= x.position[1] <= a.position[1] + r
            &&& a.position[2] - r <= x.position[2] <= a.position[2] + r
            &&& b.position[0] - r <= y.position[0] <= b.position[0] + r
            &&& b.position[1] - r <= y.position[1] <= b.position[1] + r
            &&& b.position[2] - r <= y.position[2] <= b.position[2] + r
        }),
{
    let (x, y) = Object::resolved(a, b);
    let r = a.radius + b.radius;
    let s = SCALE as int;
    lemma_distance_within_reach(a, b);
    lemma_offset_is_not_zero(a, b);
    let d = Object::spec_distance(a, b);
    let depth = Object::penetration_depth(a, b);
    assert(d > 0) by (nonlinear_arith)
        requires
            0 <= d,
            gap_squared(a, b) < (d + 1) * (d + 1),
            gap_squared(a, b) > 0,
    ;
    assert(depth == r - d);
    lemma_resolved_moves_positions_only(a, b);
    lemma_resolution_is_complete(a, b);
    let v = spec_difference(b.position, a.position);
    lemma_direction_component(v, 0);
    lemma_direction_component(v, 1);
    lemma_direction_component(v, 2);
    let w0 = lemma_push_sizes(a, b, 0);
    let w1 = lemma_push_sizes(a, b, 1);
    let w2 = lemma_push_sizes(a, b, 2);
    lemma_pushes_point_apart(a, b, 0);
    lemma_pushes_point_apart(a, b, 1);
    lemma_pushes_point_apart(a, b, 2);
    // The slack of this resolution is within the margin.
    vstd::arithmetic::div_mod::lemma_div_is_ordered(depth + r, 2 * r, s);
    assert(slack(a, b) <= margin(a, b));
    assert(Object::penetration_depth(x, y) == r - Object::spec_distance(x, y));
}

/// A fall of one step beside a peer that is not overlapped leaves the two
/// apart by the sum of the radii less six times the farthest move.
proof fn lemma_fall_keeps_apart(a: Object, b: Object, dt: i64)
    requires
        !a.overlaps(b),
        a.position != b.position,
        0 < dt <= FIXED_STEP,
        a.radius + b.radius > margin(a, b),
        room(a, b, MAX_MOVE as int),
    ensures
        Object::spec_distance(a.fallen(dt), b) >= a.radius + b.radius - margin(a, b),
        a.fallen(dt).radius == a.radius,
        a.fallen(dt).is_static == a.is_static,
        a.position[0] - MAX_MOVE <= a.fallen(dt).position[0] <= a.position[0] + MAX_MOVE,
        a.position[1] - MAX_MOVE <= a.fallen(dt).position[1] <= a.position[1] + MAX_MOVE,
        a.position[2] - MAX_MOVE <= a.fallen(dt).position[2] <= a.position[2] + MAX_MOVE,
{
    let x = a.fallen(dt);
    let r = a.radius + b.radius;
    let e = MAX_MOVE as int;
    lemma_distance_within_reach(a, b);
    let d = Object::spec_distance(a, b) as int;
    assert(d >= r);
    lemma_fall_moves_little(a, dt, 0);
    lemma_fall_moves_little(a, dt, 1);
    lemma_fall_moves_little(a, dt, 2);
    let u = (
        magnitude(b.position[0] - a.position[0]),
        magnitude(b.position[1] - a.position[1]),
        magnitude(b.position[2] - a.position[2]),
    );
    let y = (
        magnitude(b.position[0] - x.position[0]),
        magnitude(b.position[1] - x.position[1]),
        magnitude(b.position[2] - x.position[2]),
    );
    lemma_square_of_magnitude(b.position[0] - a.position[0]);
    lemma_square_of_magnitude(b.position[1] - a.position[1]);
    lemma_square_of_magnitude(b.position[2] - a.position[2]);
    lemma_square_of_magnitude(b.position[0] - x.position[0]);
    lemma_square_of_magnitude(b.position[1] - x.position[1]);
    lemma_square_of_magnitude(b.position[2] - x.position[2]);
    assert(y.0 * 1 >= u.0 * 1 - e && y.1 * 1 >= u.1 * 1 - e && y.2 * 1 >= u.2 * 1 - e);
    lemma_sum_of_shortfalls(u.0, u.1, u.2, y.0, y.1, y.2, 1, 1, e);
    let g = gap_squared(x, b);
    let n = gap_squared(a, b);
    let total = u.0 + u.1 + u.2;
    assert(g == y.0 * y.0 + y.1 * y.1 + y.2 * y.2);
    assert(n == u.0 * u.0 + u.1 * u.1 + u.2 * u.2);
    assert(g >= n - 2 * e * total) by (nonlinear_arith)
        requires
            g * (1 * 1) >= n * (1 * 1) - 2 * e * 1 * total,
    ;
    assert(2 * e * total <= 6 * e * d && n >= d * d) by (nonlinear_arith)
        requires
            0 <= total <= 3 * d,
            0 <= e,
            d * d <= n,
    ;
    assert(d * d - 6 * e * d >= (d - 6 * e) * (d - 6 * e)) by (nonlinear_arith)
        requires
            d >= 6 * e,
            e >= 0,
    ;
    lemma_distance_within_reach(x, b);
    let after = Object::spec_distance(x, b) as int;
    if after + 1 <= d - 6 * e {
        lemma_square_monotonic(after + 1, d - 6 * e);
    }
}

/// A fall of one step moves the centre by [`MAX_MOVE`] at most along any
/// axis.
proof fn lemma_fall_moves_little(a: Object, dt: i64, i: int)
    requires
        0 <= i < 3,
        0 < dt <= FIXED_STEP,
        -REACH <= a.position[i] <= REACH,
    ensures
        a.position[i] - MAX_MOVE <= a.fallen(dt).position[i] <= a.position[i] + MAX_MOVE,
{
    let acceleration = [a.acceleration[0], GRAVITY, a.acceleration[2]];
    let before = spec_add_scaled(a.velocity, acceleration, dt);
    let v = spec_limit_magnitude(before, MAX_SPEED);
    lemma_limit_magnitude_bound(before, MAX_SPEED);
    lemma_square_range(v[0]);
    lemma_square_range(v[1]);
    lemma_square_range(v[2]);
    let size = magnitude(v[i] as int);
    lemma_square_of_magnitude(v[i] as int);
    if size > MAX_SPEED {
        lemma_square_monotonic(MAX_SPEED + 1, size);
    }
    assert(size * dt <= MAX_SPEED * FIXED_STEP) by (nonlinear_arith)
        requires
            0 <= size <= MAX_SPEED,
            0 < dt <= FIXED_STEP,
    ;
    let w = lemma_fx_mul_size(v[i], dt);
    assert(a.fallen(dt).position[i] == fx_add(a.position[i], fx_mul(v[i], dt)));
}

/// Different centres have an offset that is not zero, in either order.
proof fn lemma_offset_is_not_zero(a: Object, b: Object)
    requires
        a.position != b.position,
    ensures
        spec_norm_squared(spec_difference(b.position, a.position)) > 0,
        spec_norm_squared(spec_difference(a.position, b.position)) > 0,
{
    let v = spec_difference(b.position, a.position);
    let w = spec_difference(a.position, b.position);
    lemma_square_range(v[0]);
    lemma_square_range(v[1]);
    lemma_square_range(v[2]);
    lemma_square_range(w[0]);
    lemma_square_range(w[1]);
    lemma_square_range(w[2]);
    if a.position[0] == b.position[0] && a.position[1] == b.position[1] && a.position[2]
        == b.position[2] {
        assert(a.position =~= b.position);
    }
    assert(forall|x: int| x != 0 ==> #[trigger] (x * x) > 0) by (nonlinear_arith);
    assert(v[0] != 0 || v[1] != 0 || v[2] != 0);
    assert(w[0] != 0 || w[1] != 0 || w[2] != 0);
    assert(v[0] * v[0] > 0 || v[1] * v[1] > 0 || v[2] * v[2] > 0);
    assert(w[0] * w[0] > 0 || w[1] * w[1] > 0 || w[2] * w[2] > 0);
}

/// Along each axis a resolution pushes `a` away from `b` and `b` away from
/// `a`, or not at all.
proof fn lemma_pushes_point_apart(a: Object, b: Object, i: int)
    requires
        a.radius > 0,
        b.radius > 0,
        0 <= i < 3,
    ensures
        Object::resolved(a, b).0.position[i] == fx_sub(a.position[i], pushes(a, b, i).0),
        Object::resolved(a, b).1.position[i] == fx_add(b.position[i], pushes(a, b, i).1),
        b.position[i] - a.position[i] >= 0 ==> pushes(a, b, i).0 >= 0 && pushes(a, b, i).1 >= 0,
        b.position[i] - a.position[i] <= 0 ==> pushes(a, b, i).0 <= 0 && pushes(a, b, i).1 <= 0,
{
    let depth = Object::penetration_depth(a, b);
    let d = Object::spec_distance(a, b);
    if !(a == b || depth <= 0 || d == 0) {
        let n = Object::normal(a, b);
        let v = spec_difference(b.position, a.position);
        if a.position == b.position {
            crate::laws::lemma_coincident_centres_untouched(a, b);
        }
        lemma_offset_is_not_zero(a, b);
        lemma_direction_component(v, i);
        lemma_mul_div_sign(n[i], depth, SCALE as int);
        let total = fx_add(a.radius, b.radius);
        assert(total > 0);
        lemma_mul_div_sign(depth, SCALE, total as int);
        let factor = spec_fx_div(depth, total);
        lemma_mul_div_sign(n[i], a.radius, SCALE as int);
        lemma_mul_div_sign(n[i], b.radius, SCALE as int);
        lemma_mul_div_sign(fx_mul(n[i], a.radius), factor, SCALE as int);
        lemma_mul_div_sign(fx_mul(n[i], b.radius), factor, SCALE as int);
    }
}

/// If the squared distance between two centres is at least
/// `r * (r - bound)` and below `(r + bound)^2`, with `r` the sum of the
/// radii, the two overlap by `bound` at most and are apart by `bound` at
/// most.
proof fn lemma_depth_from_gap(x: Object, y: Object, bound: int)
    requires
        -3 * REACH <= x.position[0] <= 3 * REACH,
        -3 * REACH <= x.position[1] <= 3 * REACH,
        -3 * REACH <= x.position[2] <= 3 * REACH,
        -3 * REACH <= y.position[0] <= 3 * REACH,
        -3 * REACH <= y.position[1] <= 3 * REACH,
        -3 * REACH <= y.position[2] <= 3 * REACH,
        magnitude(y.position[0] - x.position[0]) <= 4 * REACH,
        magnitude(y.position[1] - x.position[1]) <= 4 * REACH,
        magnitude(y.position[2] - x.position[2]) <= 4 * REACH,
        0 < x.radius <= REACH,
        0 < y.radius <= REACH,
        0 <= bound,
        gap_squared(x, y) >= (x.radius + y.radius) * (x.radius + y.radius - bound),
        gap_squared(x, y) < (x.radius + y.radius + bound) * (x.radius + y.radius + bound),
    ensures
        -bound <= Object::penetration_depth(x, y) <= bound,
{
    let r = x.radius + y.radius;
    let g = gap_squared(x, y);
    lemma_distance_within_reach(x, y);
    let after = Object::spec_distance(x, y) as int;
    if r - bound > 0 {
        assert(r * (r - bound) >= (r - bound) * (r - bound)) by (nonlinear_arith)
            requires
                r - bound > 0,
                bound >= 0,
        ;
        if after + 1 <= r - bound {
            lemma_square_monotonic(after + 1, r - bound);
        }
    }
    assert(after >= r - bound);
    if after >= r + bound {
        lemma_square_monotonic(r + bound, after);
    }
    assert(after < r + bound);
}

/// The size of a fixed-point product with a factor that is not negative,
/// when it needs no saturation: the product of the sizes over [`SCALE`],
/// rounded down, with the sign of the first factor.
proof fn lemma_fx_mul_size(x: i64, y: i64) -> (w: int)
    requires
        0 <= y,
        magnitude(x as int) * y <= SCALE * 0x4000_0000_0000_0000,
    ensures
        w == magnitude(fx_mul(x, y) as int),
        0 <= w <= 0x4000_0000_0000_0000,
        w * SCALE <= magnitude(x as int) * y < w * SCALE + SCALE,
        x >= 0 ==> fx_mul(x, y) >= 0,
        x <= 0 ==> fx_mul(x, y) <= 0,
{
    let s = SCALE as int;
    let m = magnitude(x as int);
    lemma_quot_sign(x * y, s);
    assert(magnitude(x * y) == m * y && (x >= 0 ==> x * y >= 0) && (x <= 0 ==> x * y <= 0))
        by (nonlinear_arith)
        requires
            m == magnitude(x as int),
            0 <= y,
    ;
    assert(0 <= m * y) by (nonlinear_arith)
        requires
            0 <= m,
            0 <= y,
    ;
    lemma_floor_bounds(m * y, s);
    let w = (m * y) / s;
    assert(w <= 0x4000_0000_0000_0000) by (nonlinear_arith)
        requires
            w * s <= m * y,
            m * y <= s * 0x4000_0000_0000_0000,
            0 < s,
    ;
    w
}

/// The share of the depth that falls to one unit of radius: the depth over
/// the sum of the radii, at most one.
proof fn lemma_share(depth: i64, total: i64) -> (f: int)
    requires
        0 < depth <= total <= 2 * REACH,
    ensures
        f == spec_fx_div(depth, total),
        0 <= f <= SCALE,
        f * total <= depth * SCALE < f * total + total,
{
    let s = SCALE as int;
    lemma_quot_sign(depth * s, total as int);
    assert(0 <= depth * s <= total * s) by (nonlinear_arith)
        requires
            0 < depth <= total,
            0 < s,
    ;
    lemma_floor_bounds(depth * s, total as int);
    let f = (depth * s) / (total as int);
    assert(f <= s) by (nonlinear_arith)
        requires
            f * total <= depth * s,
            depth * s <= total * s,
            0 < total,
    ;
    f
}

/// The push of a moving object out of a static one, along one axis: the
/// component `n` of the normal times the depth.
proof fn lemma_whole_push(n: i64, depth: i64) -> (w: int)
    requires
        magnitude(n as int) <= SCALE,
        0 < depth <= 2 * REACH,
    ensures
        w == magnitude(fx_mul(n, depth) as int),
        0 <= w <= depth,
        w * SCALE <= magnitude(n as int) * depth,
        w * SCALE >= magnitude(n as int) * depth - (SCALE - 1),
        n >= 0 ==> fx_mul(n, depth) >= 0,
        n <= 0 ==> fx_mul(n, depth) <= 0,
{
    let s = SCALE as int;
    let k = magnitude(n as int);
    assert(k * depth <= s * depth && s * depth <= s * 0x4000_0000_0000_0000) by (nonlinear_arith)
        requires
            0 <= k <= s,
            0 < depth <= 0x2000_0000_0000_0000,
    ;
    let w = lemma_fx_mul_size(n, depth);
    assert(w <= depth) by (nonlinear_arith)
        requires
            w * s <= k * depth,
            k * depth <= s * depth,
            0 < s,
    ;
    w
}

/// The pushes of two moving objects along one axis: the component `n` of
/// the normal times each radius times the share. Together they are the
/// component times the depth, up to three roundings each.
proof fn lemma_shared_push(n: i64, ra: i64, rb: i64, depth: i64) -> (w: (int, int))
    requires
        magnitude(n as int) <= SCALE,
        0 < ra <= REACH,
        0 < rb <= REACH,
        0 < depth <= ra + rb,
    ensures
        w.0 == magnitude(fx_mul(fx_mul(n, ra), spec_fx_div(depth, fx_add(ra, rb))) as int),
        w.1 == magnitude(fx_mul(fx_mul(n, rb), spec_fx_div(depth, fx_add(ra, rb))) as int),
        0 <= w.0 <= ra,
        0 <= w.1 <= rb,
        (w.0 + w.1) * SCALE <= magnitude(n as int) * depth,
        (w.0 + w.1) * SCALE >= magnitude(n as int) * depth - (ra + rb + 4 * SCALE),
        n >= 0 ==> fx_mul(fx_mul(n, ra), spec_fx_div(depth, fx_add(ra, rb))) >= 0 && fx_mul(
            fx_mul(n, rb),
            spec_fx_div(depth, fx_add(ra, rb)),
        ) >= 0,
        n <= 0 ==> fx_mul(fx_mul(n, ra), spec_fx_div(depth, fx_add(ra, rb))) <= 0 && fx_mul(
            fx_mul(n, rb),
            spec_fx_div(depth, fx_add(ra, rb)),
        ) <= 0,
{
    let s = SCALE as int;
    let k = magnitude(n as int);
    let total = fx_add(ra, rb);
    let r = ra + rb;
    assert(total == r);
    let f = lemma_share(depth, total);
    let share = spec_fx_div(depth, total);
    assert(k * ra <= s * ra && s * ra <= s * 0x4000_0000_0000_0000 && k * rb <= s * rb && s * rb
        <= s * 0x4000_0000_0000_0000) by (nonlinear_arith)
        requires
            0 <= k <= s,
            0 < ra <= 0x1000_0000_0000_0000,
            0 < rb <= 0x1000_0000_0000_0000,
    ;
    let pa = lemma_fx_mul_size(n, ra);
    let pb = lemma_fx_mul_size(n, rb);
    assert(pa <= ra && pb <= rb) by (nonlinear_arith)
        requires
            pa * s <= k * ra,
            k * ra <= s * ra,
            pb * s <= k * rb,
            k * rb <= s * rb,
            0 < s,
    ;
    let xa = fx_mul(n, ra);
    let xb = fx_mul(n, rb);
    assert(pa * f <= s * 0x4000_0000_0000_0000 && pb * f <= s * 0x4000_0000_0000_0000)
        by (nonlinear_arith)
        requires
            0 <= pa <= 0x1000_0000_0000_0000,
            0 <= pb <= 0x1000_0000_0000_0000,
            0 <= f <= s,
    ;
    let wa = lemma_fx_mul_size(xa, share);
    let wb = lemma_fx_mul_size(xb, share);
    assert(wa <= pa && wb <= pb) by (nonlinear_arith)
        requires
            wa * s <= pa * f,
            wb * s <= pb * f,
            0 <= f <= s,
            0 <= pa,
            0 <= pb,
            0 < s,
    ;
    let sum_w = wa + wb;
    let sum_p = pa + pb;
    assert(sum_w * s <= sum_p * f && sum_p * f < sum_w * s + 2 * s) by (nonlinear_arith)
        requires
            sum_w == wa + wb,
            sum_p == pa + pb,
            wa * s <= pa * f < wa * s + s,
            wb * s <= pb * f < wb * s + s,
    ;
    assert(sum_p * s <= k * r && k * r < sum_p * s + 2 * s) by (nonlinear_arith)
        requires
            sum_p == pa + pb,
            r == ra + rb,
            pa * s <= k * ra < pa * s + s,
            pb * s <= k * rb < pb * s + s,
    ;
    // From above: no more than the component times the depth.
    assert((sum_p * s) * (f * r) <= (k * r) * (depth * s)) by (nonlinear_arith)
        requires
            0 <= sum_p * s <= k * r,
            0 <= f * r <= depth * s,
    ;
    assert(sum_w * s <= k * depth) by (nonlinear_arith)
        requires
            sum_w * s <= sum_p * f,
            (sum_p * s) * (f * r) <= (k * r) * (depth * s),
            0 < s,
            0 < r,
            0 <= sum_p,
            0 <= f,
    ;
    // From below: the three roundings.
    assert(sum_w * s * s >= sum_p * s * f - 2 * s * s) by (nonlinear_arith)
        requires
            sum_p * f < sum_w * s + 2 * s,
            0 < s,
    ;
    assert(sum_p * s * f >= k * r * f - 2 * s * f) by (nonlinear_arith)
        requires
            k * r < sum_p * s + 2 * s,
            0 <= f,
    ;
    assert(k * r * f >= k * depth * s - k * r) by (nonlinear_arith)
        requires
            depth * s < f * r + r,
            0 <= k,
    ;
    assert(2 * s * f <= 2 * s * s && k * r <= s * r) by (nonlinear_arith)
        requires
            0 <= f <= s,
            0 <= k <= s,
            0 < r,
    ;
    assert(sum_w * s >= k * depth - (r + 4 * s)) by (nonlinear_arith)
        requires
            sum_w * s * s >= k * depth * s - s * r - 4 * s * s,
            0 < s,
    ;
    (wa, wb)
}

/// One axis, in numbers. `u` is the size of the offset before, `w` the sum
/// of the pushes, `k` the size of the normal's component, which is `mag * u
/// * SCALE / len` rounded down. Then the offset after, `u + w`, is `u`
/// stretched by `1 + mag * depth / len`, from above exactly and from below
/// up to what the roundings cost.
proof fn lemma_axis_stretch(
    u: int,
    w: int,
    k: int,
    mag: int,
    len: int,
    depth: int,
    sigma: int,
)
    requires
        0 <= u,
        0 <= w,
        0 <= k,
        1 <= mag,
        0 < len,
        0 < depth,
        0 <= sigma,
        k * len <= mag * u * SCALE < k * len + len,
        w * SCALE <= k * depth,
        w * SCALE >= k * depth - sigma,
    ensures
        (u + w) * len <= u * (len + mag * depth),
        (u + w) * (SCALE * len) >= u * (SCALE * (len + mag * depth)) - ((len - 1) * depth + sigma
            * len),
{
    let s = SCALE as int;
    assert(w * s * len <= mag * u * s * depth) by (nonlinear_arith)
        requires
            w * s <= k * depth,
            k * len <= mag * u * s,
            0 < len,
            0 < depth,
            0 <= k,
            0 <= w,
    ;
    assert(w * len <= mag * u * depth) by (nonlinear_arith)
        requires
            w * s * len <= mag * u * s * depth,
            0 < s,
    ;
    assert((u + w) * len <= u * (len + mag * depth)) by (nonlinear_arith)
        requires
            w * len <= mag * u * depth,
    ;
    assert(w * s * len >= k * len * depth - sigma * len) by (nonlinear_arith)
        requires
            w * s >= k * depth - sigma,
            0 < len,
    ;
    assert(k * len * depth >= mag * u * s * depth - (len - 1) * depth) by (nonlinear_arith)
        requires
            mag * u * s < k * len + len,
            0 < depth,
    ;
    let base = u * (s * len);
    let gain = w * s * len;
    let ideal = mag * u * s * depth;
    assert((u + w) * (s * len) == base + gain) by (nonlinear_arith)
        requires
            base == u * (s * len),
            gain == w * s * len,
    ;
    assert(u * (s * (len + mag * depth)) == base + ideal) by (nonlinear_arith)
        requires
            base == u * (s * len),
            ideal == mag * u * s * depth,
    ;
    assert(gain >= ideal - (len - 1) * depth - sigma * len);
}

/// The three axes together, from above: the squared distance after is
/// below `(r + depth / SCALE + 3)^2`, with `r = d + depth` the sum of the
/// radii.
proof fn lemma_parted_from_above(
    u: (int, int, int),
    y: (int, int, int),
    mag: int,
    len: int,
    d: int,
    depth: int,
)
    requires
        0 <= u.0 && 0 <= u.1 && 0 <= u.2,
        0 <= y.0 && 0 <= y.1 && 0 <= y.2,
        1 <= mag,
        SCALE <= len,
        0 <= d,
        0 < depth,
        len < mag * (d + 1),
        mag * mag * (u.0 * u.0 + u.1 * u.1 + u.2 * u.2) < (len + 1) * (len + 1),
        y.0 * len <= u.0 * (len + mag * depth),
        y.1 * len <= u.1 * (len + mag * depth),
        y.2 * len <= u.2 * (len + mag * depth),
    ensures
        y.0 * y.0 + y.1 * y.1 + y.2 * y.2 < (d + depth + (depth / (SCALE as int) + 3)) * (d + depth
            + (depth / (SCALE as int) + 3)),
{
    let s = SCALE as int;
    let p = len + mag * depth;
    let n = u.0 * u.0 + u.1 * u.1 + u.2 * u.2;
    let g = y.0 * y.0 + y.1 * y.1 + y.2 * y.2;
    let c = depth / s + 3;
    let bound = d + depth + c;
    assert(0 < p) by (nonlinear_arith)
        requires
            p == len + mag * depth,
            0 < len,
            0 < mag,
            0 < depth,
    ;
    assert(0 <= y.0 * len && 0 <= y.1 * len && 0 <= y.2 * len) by (nonlinear_arith)
        requires
            0 <= y.0 && 0 <= y.1 && 0 <= y.2,
            0 < len,
    ;
    lemma_square_monotonic(y.0 * len, u.0 * p);
    lemma_square_monotonic(y.1 * len, u.1 * p);
    lemma_square_monotonic(y.2 * len, u.2 * p);
    assert((y.0 * len) * (y.0 * len) == y.0 * y.0 * (len * len) && (u.0 * p) * (u.0 * p) == u.0
        * u.0 * (p * p)) by (nonlinear_arith);
    assert((y.1 * len) * (y.1 * len) == y.1 * y.1 * (len * len) && (u.1 * p) * (u.1 * p) == u.1
        * u.1 * (p * p)) by (nonlinear_arith);
    assert((y.2 * len) * (y.2 * len) == y.2 * y.2 * (len * len) && (u.2 * p) * (u.2 * p) == u.2
        * u.2 * (p * p)) by (nonlinear_arith);
    assert(g * (len * len) <= n * (p * p)) by (nonlinear_arith)
        requires
            g == y.0 * y.0 + y.1 * y.1 + y.2 * y.2,
            n == u.0 * u.0 + u.1 * u.1 + u.2 * u.2,
            y.0 * y.0 * (len * len) <= u.0 * u.0 * (p * p),
            y.1 * y.1 * (len * len) <= u.1 * u.1 * (p * p),
            y.2 * y.2 * (len * len) <= u.2 * u.2 * (p * p),
    ;
    let mm = mag * mag;
    assert(mm * (g * (len * len)) <= (mm * n) * (p * p)) by (nonlinear_arith)
        requires
            g * (len * len) <= n * (p * p),
            mm == mag * mag,
    ;
    assert((mm * n) * (p * p) <= ((len + 1) * (len + 1) - 1) * (p * p)) by (nonlinear_arith)
        requires
            mm * n < (len + 1) * (len + 1),
    ;
    assert(p * p > 0) by (nonlinear_arith)
        requires
            0 < p,
    ;
    assert(((len + 1) * (len + 1) - 1) * (p * p) < ((len + 1) * (len + 1)) * (p * p))
        by (nonlinear_arith)
        requires
            p * p > 0,
    ;
    // (len + 1) * p <= len * mag * bound.
    lemma_floor_bounds(depth, s);
    assert(depth <= len * (depth / s + 1)) by (nonlinear_arith)
        requires
            depth < (depth / s) * s + s,
            s <= len,
            0 <= depth / s,
    ;
    assert(len * len <= len * mag * d + len * mag) by (nonlinear_arith)
        requires
            len < mag * (d + 1),
            0 < len,
    ;
    assert(len + mag * depth <= len * mag * (depth / s + 2)) by (nonlinear_arith)
        requires
            depth <= len * (depth / s + 1),
            1 <= mag,
            0 < len,
            0 <= depth / s,
    ;
    let top = len * mag * bound;
    assert((len + 1) * p <= top) by (nonlinear_arith)
        requires
            p == len + mag * depth,
            top == len * mag * bound,
            bound == d + depth + c,
            c == depth / s + 3,
            len * len <= len * mag * d + len * mag,
            len + mag * depth <= len * mag * (depth / s + 2),
    ;
    assert(0 <= (len + 1) * p) by (nonlinear_arith)
        requires
            0 < len,
            0 < p,
    ;
    lemma_square_monotonic((len + 1) * p, top);
    assert(((len + 1) * p) * ((len + 1) * p) == ((len + 1) * (len + 1)) * (p * p))
        by (nonlinear_arith);
    assert(top * top == mm * (len * len) * (bound * bound)) by (nonlinear_arith)
        requires
            top == len * mag * bound,
            mm == mag * mag,
    ;
    assert(mm * (g * (len * len)) == mm * (len * len) * g) by (nonlinear_arith);
    assert(0 < mm * (len * len)) by (nonlinear_arith)
        requires
            mm == mag * mag,
            1 <= mag,
            0 < len,
    ;
    assert(g < bound * bound) by (nonlinear_arith)
        requires
            mm * (len * len) * g < mm * (len * len) * (bound * bound),
            0 < mm * (len * len),
    ;
}

/// The three axes together, from below: the squared distance after is at
/// least `r * (r - 6 * c)`, with `r = d + depth` the sum of the radii, for
/// every `c` with `depth + sigma <= SCALE * c`.
proof fn lemma_parted_from_below(
    u: (int, int, int),
    y: (int, int, int),
    mag: int,
    len: int,
    d: int,
    depth: int,
    sigma: int,
    c: int,
)
    requires
        0 <= u.0 && 0 <= u.1 && 0 <= u.2,
        0 <= y.0 && 0 <= y.1 && 0 <= y.2,
        1 <= mag,
        0 < len,
        0 <= d,
        0 < depth,
        0 <= sigma,
        depth + sigma <= SCALE * c,
        mag * d <= len,
        mag * u.0 <= len && mag * u.1 <= len && mag * u.2 <= len,
        len * len <= mag * mag * (u.0 * u.0 + u.1 * u.1 + u.2 * u.2),
        y.0 * (SCALE * len) >= u.0 * (SCALE * (len + mag * depth)) - ((len - 1) * depth + sigma
            * len),
        y.1 * (SCALE * len) >= u.1 * (SCALE * (len + mag * depth)) - ((len - 1) * depth + sigma
            * len),
        y.2 * (SCALE * len) >= u.2 * (SCALE * (len + mag * depth)) - ((len - 1) * depth + sigma
            * len),
    ensures
        y.0 * y.0 + y.1 * y.1 + y.2 * y.2 >= (d + depth) * (d + depth - 6 * c),
{
    let s = SCALE as int;
    let p = len + mag * depth;
    let r = d + depth;
    let t = s * len;
    let q = s * p;
    let e = (len - 1) * depth + sigma * len;
    let n = u.0 * u.0 + u.1 * u.1 + u.2 * u.2;
    let g = y.0 * y.0 + y.1 * y.1 + y.2 * y.2;
    let total = u.0 + u.1 + u.2;
    let mm = mag * mag;
    assert(0 <= g) by (nonlinear_arith)
        requires
            g == y.0 * y.0 + y.1 * y.1 + y.2 * y.2,
    ;
    assert(0 < t && 0 < p && 0 < q && 0 <= e && 0 < c) by (nonlinear_arith)
        requires
            t == s * len,
            p == len + mag * depth,
            q == s * p,
            e == (len - 1) * depth + sigma * len,
            0 < s,
            0 < len,
            1 <= mag,
            0 < depth,
            0 <= sigma,
            depth + sigma <= s * c,
    ;
    lemma_sum_of_shortfalls(u.0, u.1, u.2, y.0, y.1, y.2, t, q, e);
    if r - 6 * c > 0 {
        // g * t * t >= n * q * q - 2 * e * q * total, times mag * mag.
        assert(mm * (g * (t * t)) >= (mm * n) * (q * q) - 2 * e * q * mag * (mag * total))
            by (nonlinear_arith)
            requires
                g * (t * t) >= n * (q * q) - 2 * e * q * total,
                mm == mag * mag,
                0 < mag,
        ;
        assert((mm * n) * (q * q) >= (len * len) * (q * q)) by (nonlinear_arith)
            requires
                len * len <= mm * n,
        ;
        assert(mag * total <= 3 * len) by (nonlinear_arith)
            requires
                total == u.0 + u.1 + u.2,
                mag * u.0 <= len && mag * u.1 <= len && mag * u.2 <= len,
        ;
        assert(e <= len * (s * c)) by (nonlinear_arith)
            requires
                e == (len - 1) * depth + sigma * len,
                depth + sigma <= s * c,
                0 < len,
                0 < depth,
        ;
        assert(0 < s * c && 0 <= mag * total) by (nonlinear_arith)
            requires
                0 < s,
                0 < c,
                0 < mag,
                0 <= total,
        ;
        assert(2 * e * q * mag * (mag * total) <= (len * len) * (6 * s * c * q * mag))
            by (nonlinear_arith)
            requires
                0 <= e <= len * (s * c),
                0 <= mag * total <= 3 * len,
                0 < q,
                0 < mag,
                0 < len,
                0 < s * c,
        ;
        assert(mm * (g * (t * t)) == (len * len) * (mm * g * (s * s))) by (nonlinear_arith)
            requires
                t == s * len,
        ;
        assert(mm * g * (s * s) >= q * q - 6 * s * c * q * mag) by (nonlinear_arith)
            requires
                (len * len) * (mm * g * (s * s)) >= (len * len) * (q * q) - (len * len) * (6 * s
                    * c * q * mag),
                0 < len,
        ;
        assert(q * q - 6 * s * c * q * mag == (s * s) * (p * (p - 6 * c * mag)))
            by (nonlinear_arith)
            requires
                q == s * p,
        ;
        assert(mm * g >= p * (p - 6 * c * mag)) by (nonlinear_arith)
            requires
                mm * g * (s * s) >= (s * s) * (p * (p - 6 * c * mag)),
                0 < s,
        ;
        // p is at least mag * r, and mag * r exceeds 6 * c * mag.
        let low = mag * r;
        assert(low <= p && low - 6 * c * mag > 0 && low > 0) by (nonlinear_arith)
            requires
                low == mag * r,
                p == len + mag * depth,
                r == d + depth,
                mag * d <= len,
                r - 6 * c > 0,
                1 <= mag,
                0 < c,
        ;
        assert(p * (p - 6 * c * mag) >= low * (low - 6 * c * mag)) by (nonlinear_arith)
            requires
                0 < low <= p,
                low - 6 * c * mag > 0,
        ;
        assert(low * (low - 6 * c * mag) == mm * (r * (r - 6 * c))) by (nonlinear_arith)
            requires
                low == mag * r,
                mm == mag * mag,
        ;
        assert(g >= r * (r - 6 * c)) by (nonlinear_arith)
            requires
                mm * g >= mm * (r * (r - 6 * c)),
                mm == mag * mag,
                1 <= mag,
        ;
    } else {
        assert(r * (r - 6 * c) <= 0) by (nonlinear_arith)
            requires
                r - 6 * c <= 0,
                0 < r,
        ;
    }
}

/// The sum of the sizes of the two pushes along axis `i`, when nothing
/// saturates: the normal's component times the depth up to the roundings.
proof fn lemma_push_sizes(a: Object, b: Object, i: int) -> (w: int)
    requires
        0 <= i < 3,
        0 < a.radius <= REACH,
        0 < b.radius <= REACH,
        !a.is_static || !b.is_static,
        a != b,
        Object::spec_distance(a, b) > 0,
        0 < Object::penetration_depth(a, b) <= a.radius + b.radius,
        magnitude(Object::normal(a, b)[i] as int) <= SCALE,
    ensures
        w == magnitude(pushes(a, b, i).0 as int) + magnitude(pushes(a, b, i).1 as int),
        magnitude(pushes(a, b, i).0 as int) <= 2 * REACH,
        magnitude(pushes(a, b, i).1 as int) <= 2 * REACH,
        !a.is_static && !b.is_static ==> magnitude(pushes(a, b, i).0 as int) <= REACH
            && magnitude(pushes(a, b, i).1 as int) <= REACH,
        a.is_static ==> pushes(a, b, i).0 == 0,
        b.is_static ==> pushes(a, b, i).1 == 0,
        magnitude(pushes(a, b, i).0 as int) <= a.radius + b.radius,
        magnitude(pushes(a, b, i).1 as int) <= a.radius + b.radius,
        w * SCALE <= magnitude(Object::normal(a, b)[i] as int) * Object::penetration_depth(a, b),
        w * SCALE >= magnitude(Object::normal(a, b)[i] as int) * Object::penetration_depth(a, b)
            - (a.radius + b.radius + 4 * SCALE),
{
    let n = Object::normal(a, b)[i];
    let depth = Object::penetration_depth(a, b);
    if !a.is_static && !b.is_static {
        let w = lemma_shared_push(n, a.radius, b.radius, depth);
        w.0 + w.1
    } else {
        lemma_whole_push(n, depth)
    }
}

/// What a resolution does along axis `i` when nothing saturates: the
/// offset after is the offset before, lengthened by the sum of the pushes.
proof fn lemma_axis_of_resolution(a: Object, b: Object, i: int) -> (w: int)
    requires
        0 <= i < 3,
        within_reach(a),
        within_reach(b),
        !a.is_static || !b.is_static,
        a != b,
        Object::spec_distance(a, b) > 0,
        0 < Object::penetration_depth(a, b) <= a.radius + b.radius,
        magnitude(Object::normal(a, b)[i] as int) <= SCALE,
    ensures
        0 <= w <= 2 * REACH,
        magnitude(Object::resolved(a, b).1.position[i] - Object::resolved(a, b).0.position[i])
            == magnitude(b.position[i] - a.position[i]) + w,
        magnitude(Object::resolved(a, b).1.position[i] - Object::resolved(a, b).0.position[i])
            <= 4 * REACH,
        -3 * REACH <= Object::resolved(a, b).0.position[i] <= 3 * REACH,
        -3 * REACH <= Object::resolved(a, b).1.position[i] <= 3 * REACH,
        w * SCALE <= magnitude(Object::normal(a, b)[i] as int) * Object::penetration_depth(a, b),
        w * SCALE >= magnitude(Object::normal(a, b)[i] as int) * Object::penetration_depth(a, b)
            - (a.radius + b.radius + 4 * SCALE),
{
    let w = lemma_push_sizes(a, b, i);
    lemma_pushes_point_apart(a, b, i);
    lemma_axis_lengthened(a.position[i], b.position[i], pushes(a, b, i).0, pushes(a, b, i).1);
    w
}

/// Along one axis, in numbers: pushes that point apart lengthen the offset
/// by their sizes, and within reach nothing saturates.
proof fn lemma_axis_lengthened(from: i64, to: i64, back: i64, on: i64)
    requires
        -REACH <= from <= REACH,
        -REACH <= to <= REACH,
        magnitude(back as int) <= 2 * REACH,
        magnitude(on as int) <= 2 * REACH,
        back == 0 || on == 0 || (magnitude(back as int) <= REACH && magnitude(on as int)
            <= REACH),
        to - from >= 0 ==> back >= 0 && on >= 0,
        to - from <= 0 ==> back <= 0 && on <= 0,
    ensures
        magnitude(fx_add(to, on) - fx_sub(from, back)) == magnitude(to - from) + magnitude(
            back as int,
        ) + magnitude(on as int),
        magnitude(fx_add(to, on) - fx_sub(from, back)) <= 4 * REACH,
        -3 * REACH <= fx_sub(from, back) <= 3 * REACH,
        -3 * REACH <= fx_add(to, on) <= 3 * REACH,
{
    assert(fx_sub(from, back) == from - back);
    assert(fx_add(to, on) == to + on);
}

/// The squared distance after a resolution, from both sides.
proof fn lemma_complete_gap(a: Object, b: Object)
    requires
        within_reach(a),
        within_reach(b),
        !a.is_static || !b.is_static,
        a != b,
        Object::spec_distance(a, b) > 0,
        Object::penetration_depth(a, b) > 0,
    ensures
        gap_squared(Object::resolved(a, b).0, Object::resolved(a, b).1) >= (a.radius + b.radius)
            * (a.radius + b.radius - slack(a, b)),
        gap_squared(Object::resolved(a, b).0, Object::resolved(a, b).1) < (a.radius + b.radius
            + slack(a, b)) * (a.radius + b.radius + slack(a, b)),
        -3 * REACH <= Object::resolved(a, b).0.position[0] <= 3 * REACH,
        -3 * REACH <= Object::resolved(a, b).0.position[1] <= 3 * REACH,
        -3 * REACH <= Object::resolved(a, b).0.position[2] <= 3 * REACH,
        -3 * REACH <= Object::resolved(a, b).1.position[0] <= 3 * REACH,
        -3 * REACH <= Object::resolved(a, b).1.position[1] <= 3 * REACH,
        -3 * REACH <= Object::resolved(a, b).1.position[2] <= 3 * REACH,
        magnitude(Object::resolved(a, b).1.position[0] - Object::resolved(a, b).0.position[0])
            <= 4 * REACH,
        magnitude(Object::resolved(a, b).1.position[1] - Object::resolved(a, b).0.position[1])
            <= 4 * REACH,
        magnitude(Object::resolved(a, b).1.position[2] - Object::resolved(a, b).0.position[2])
            <= 4 * REACH,
{
    let s = SCALE as int;
    let d = Object::spec_distance(a, b) as int;
    let depth = Object::penetration_depth(a, b) as int;
    let r = a.radius + b.radius;
    let v = spec_difference(b.position, a.position);
    let (x, y) = Object::resolved(a, b);
    lemma_distance_within_reach(a, b);
    assert(depth == r - d);
    assert(v[0] == b.position[0] - a.position[0] && v[1] == b.position[1] - a.position[1]
        && v[2] == b.position[2] - a.position[2]);
    let u = (magnitude(v[0] as int), magnitude(v[1] as int), magnitude(v[2] as int));
    lemma_square_of_magnitude(v[0] as int);
    lemma_square_of_magnitude(v[1] as int);
    lemma_square_of_magnitude(v[2] as int);
    let n = u.0 * u.0 + u.1 * u.1 + u.2 * u.2;
    assert(n == gap_squared(a, b));
    assert(spec_norm_squared(v) == n);
    assert(spec_length(v) == d);
    assert(n > 0) by (nonlinear_arith)
        requires
            0 < d,
            d * d <= n,
    ;
    // The normal.
    let mag = spec_magnification(v);
    let len = spec_length(spec_magnified(v)) as int;
    lemma_magnified(v);
    lemma_direction_component(v, 0);
    lemma_direction_component(v, 1);
    lemma_direction_component(v, 2);
    lemma_isqrt_is_floor_sqrt(spec_norm_squared(spec_magnified(v)));
    let k = (
        magnitude(Object::normal(a, b)[0] as int),
        magnitude(Object::normal(a, b)[1] as int),
        magnitude(Object::normal(a, b)[2] as int),
    );
    lemma_magnified_size(v, 0);
    lemma_magnified_size(v, 1);
    lemma_magnified_size(v, 2);
    lemma_floor_bounds(mag * u.0 * s, len);
    lemma_floor_bounds(mag * u.1 * s, len);
    lemma_floor_bounds(mag * u.2 * s, len);
    // The pushes.
    let w0 = lemma_axis_of_resolution(a, b, 0);
    let w1 = lemma_axis_of_resolution(a, b, 1);
    let w2 = lemma_axis_of_resolution(a, b, 2);
    let sigma = r + 4 * s;
    lemma_axis_stretch(u.0, w0, k.0, mag, len, depth, sigma);
    lemma_axis_stretch(u.1, w1, k.1, mag, len, depth, sigma);
    lemma_axis_stretch(u.2, w2, k.2, mag, len, depth, sigma);
    let after = (u.0 + w0, u.1 + w1, u.2 + w2);
    lemma_square_of_magnitude(y.position[0] - x.position[0]);
    lemma_square_of_magnitude(y.position[1] - x.position[1]);
    lemma_square_of_magnitude(y.position[2] - x.position[2]);
    let g = gap_squared(x, y);
    assert(g == after.0 * after.0 + after.1 * after.1 + after.2 * after.2);
    // The two sides.
    let c = slack(a, b) / 6;
    assert(c == (depth + r) / s + 6);
    lemma_floor_bounds(depth + r, s);
    assert(depth + sigma <= s * c) by (nonlinear_arith)
        requires
            depth + r < ((depth + r) / s) * s + s,
            c == (depth + r) / s + 6,
            sigma == r + 4 * s,
            0 < s,
    ;
    lemma_parted_from_below(u, after, mag, len, d, depth, sigma, c);
    lemma_parted_from_above(u, after, mag, len, d, depth);
    let tight = depth / s + 3;
    vstd::arithmetic::div_mod::lemma_div_is_ordered(depth, depth + r, s);
    assert(0 <= r + tight <= r + 6 * c);
    lemma_square_monotonic(r + tight, r + 6 * c);
}

/// The size of a magnified component is the magnification times the size
/// of the component.
proof fn lemma_magnified_size(v: [i64; 3], i: int)
    requires
        0 <= i < 3,
        spec_magnified(v)[i] == spec_magnification(v) * v[i],
    ensures
        magnitude(spec_magnified(v)[i] as int) * SCALE == spec_magnification(v) * magnitude(
            v[i] as int,
        ) * SCALE,
{
    let k = spec_magnification(v);
    let x = v[i] as int;
    assert(magnitude(k * x) == k * magnitude(x)) by (nonlinear_arith)
        requires
            0 < k,
    ;
}

/// Along one axis: if `a` is pushed by `-ma` and `b` by `+mb`, and neither
/// push points from one toward the other, they end up no closer.
proof fn lemma_axis_never_closer(a: i64, b: i64, ma: i64, mb: i64)
    requires
        b - a >= 0 ==> ma >= 0 && mb >= 0,
        b - a <= 0 ==> ma <= 0 && mb <= 0,
    ensures
        (fx_add(b, mb) - fx_sub(a, ma)) * (fx_add(b, mb) - fx_sub(a, ma)) >= (b - a) * (b - a),
{
    let d = b - a;
    let e = fx_add(b, mb) - fx_sub(a, ma);
    if d >= 0 {
        assert(e >= d);
        lemma_square_monotonic(d, e);
    } else {
        assert(e <= d);
        lemma_square_monotonic(-d, -e);
        assert((-d) * (-d) == d * d) by (nonlinear_arith);
        assert((-e) * (-e) == e * e) by (nonlinear_arith);
    }
}

/// A product over a positive divisor has the sign of its first factor when
/// the second is not negative.
proof fn lemma_mul_div_sign(a: i64, b: i64, c: int)
    requires
        0 <= b,
        0 < c,
    ensures
        a >= 0 ==> spec_mul_div(a, b, c) >= 0,
        a <= 0 ==> spec_mul_div(a, b, c) <= 0,
{
    lemma_quot_sign(a * b, c);
    assert(a >= 0 ==> a * b >= 0) by (nonlinear_arith)
        requires
            0 <= b,
    ;
    assert(a <= 0 ==> a * b <= 0) by (nonlinear_arith)
        requires
            0 <= b,
    ;
}

/// Within reach the distance between two centres is the root of the exact
/// squared distance: nothing saturates, and no offset along an axis is
/// longer than the distance.
proof fn lemma_distance_within_reach(a: Object, b: Object)
    requires
        -3 * REACH <= a.position[0] <= 3 * REACH,
        -3 * REACH <= a.position[1] <= 3 * REACH,
        -3 * REACH <= a.position[2] <= 3 * REACH,
        -3 * REACH <= b.position[0] <= 3 * REACH,
        -3 * REACH <= b.position[1] <= 3 * REACH,
        -3 * REACH <= b.position[2] <= 3 * REACH,
        magnitude(b.position[0] - a.position[0]) <= 4 * REACH,
        magnitude(b.position[1] - a.position[1]) <= 4 * REACH,
        magnitude(b.position[2] - a.position[2]) <= 4 * REACH,
    ensures
        gap_squared(a, b) >= 0,
        gap_squared(a, b) == gap_squared(b, a),
        Object::spec_distance(a, b) == spec_isqrt(gap_squared(a, b) as nat),
        Object::spec_distance(a, b) == Object::spec_distance(b, a),
        is_floor_sqrt(gap_squared(a, b), Object::spec_distance(a, b) as int),
        magnitude(b.position[0] - a.position[0]) <= Object::spec_distance(a, b),
        magnitude(b.position[1] - a.position[1]) <= Object::spec_distance(a, b),
        magnitude(b.position[2] - a.position[2]) <= Object::spec_distance(a, b),
{
    let diff = spec_difference(a.position, b.position);
    let back = spec_difference(b.position, a.position);
    assert(diff[0] == a.position[0] - b.position[0]);
    assert(diff[1] == a.position[1] - b.position[1]);
    assert(diff[2] == a.position[2] - b.position[2]);
    assert(back[0] == b.position[0] - a.position[0]);
    assert(back[1] == b.position[1] - a.position[1]);
    assert(back[2] == b.position[2] - a.position[2]);
    let limit: int = 4 * REACH;
    let n = gap_squared(a, b);
    assert forall|i: int| 0 <= i < 3 implies 0 <= #[trigger] (diff[i] * diff[i]) <= limit * limit
        && diff[i] * diff[i] == back[i] * back[i] by {
        let m = magnitude(diff[i] as int);
        lemma_square_monotonic(m, limit);
        lemma_square_of_magnitude(diff[i] as int);
        assert(m * m >= 0) by (nonlinear_arith);
        assert(diff[i] * diff[i] == back[i] * back[i]) by (nonlinear_arith)
            requires
                diff[i] == -back[i],
        ;
    }
    assert(diff[0] * diff[0] >= 0 && diff[1] * diff[1] >= 0 && diff[2] * diff[2] >= 0);
    assert(spec_norm_squared(diff) == n);
    assert(spec_norm_squared(back) == n);
    let root = spec_isqrt(n as nat) as int;
    lemma_isqrt_is_floor_sqrt(n as nat);
    assert(root <= i64::MAX) by {
        assert((2 * limit) * (2 * limit) == 4 * (limit * limit) && limit * limit > 0)
            by (nonlinear_arith)
            requires
                limit > 0,
        ;
        if root >= 2 * limit {
            lemma_square_monotonic(2 * limit, root);
        }
    }
    lemma_component_le_length(back, 0);
    lemma_component_le_length(back, 1);
    lemma_component_le_length(back, 2);
}

} // verus!
