//! What holds of every step, whatever the scene: what a step leaves alone,
//! how an update is cut into steps, and the limits on speed.

use vstd::prelude::*;
use crate::object::{
    attributes_kept, moved_only, peers_moved_only, Object, FIXED_STEP, GRAVITY,
    MAX_ANGULAR_SPEED, MAX_SPEED, REST_THRESHOLD,
};
use crate::sqrt::lemma_isqrt_of_square;
use crate::vector::{
    lemma_limit_magnitude_bound, lemma_square_range, spec_add_scaled, spec_difference,
    spec_norm_squared,
};

verus! {


/// A collision resolution changes positions only, and never that of a
/// static object.
pub proof fn lemma_resolved_moves_positions_only(a: Object, b: Object)
    ensures
        moved_only(Object::resolved(a, b).0, a),
        moved_only(Object::resolved(a, b).1, b),
        a.is_static ==> Object::resolved(a, b).0 == a,
        b.is_static ==> Object::resolved(a, b).1 == b,
{
}

/// Two objects with the same centre are left as they are: their distance is
/// zero, so there is no direction in which to part them.
pub proof fn lemma_coincident_centres_untouched(a: Object, b: Object)
    requires
        a.position == b.position,
    ensures
        Object::spec_distance(a, b) == 0,
        !a.overlaps(b),
        Object::resolved(a, b) == (a, b),
{
    let d = spec_difference(a.position, b.position);
    assert(d[0] == 0 && d[1] == 0 && d[2] == 0);
    assert(spec_norm_squared(d) == 0);
    lemma_isqrt_of_square(0);
    assert(0nat * 0nat == 0) by (nonlinear_arith);
}

/// A scan changes the positions of the object and of its peers at most,
/// never that of a static peer, and leaves alone the peers it has not yet
/// reached.
pub proof fn lemma_scanned_frame(a: Object, peers: Seq<Object>, n: nat)
    requires
        n <= peers.len(),
    ensures
        moved_only(a.scanned(peers, n).0, a),
        peers_moved_only(a.scanned(peers, n).1, peers),
        forall|j: int| n <= j < peers.len() ==> a.scanned(peers, n).1[j] == peers[j],
    decreases n,
{
    if n > 0 {
        let (x, p, hit) = a.scanned(peers, (n - 1) as nat);
        lemma_scanned_frame(a, peers, (n - 1) as nat);
        lemma_resolved_moves_positions_only(x, p[n - 1]);
        assert(p[n - 1] == peers[n - 1]);
    }
}

/// A scan that never finds a collision changes nothing.
pub proof fn lemma_scan_without_hit(a: Object, peers: Seq<Object>, n: nat)
    requires
        n <= peers.len(),
        !a.scanned(peers, n).2,
    ensures
        a.scanned(peers, n) == (a, peers, false),
    decreases n,
{
    if n > 0 {
        let (x, p, hit) = a.scanned(peers, (n - 1) as nat);
        if x.overlaps(p[n - 1]) {
            assert(a.scanned(peers, n).2);
        } else {
            lemma_scan_without_hit(a, peers, (n - 1) as nat);
        }
    }
}

/// An object that shares its centre with every peer collides with none.
pub proof fn lemma_coincident_scene_untouched(a: Object, peers: Seq<Object>, n: nat)
    requires
        n <= peers.len(),
        forall|j: int| 0 <= j < peers.len() ==> (#[trigger] peers[j]).position == a.position,
    ensures
        a.scanned(peers, n) == (a, peers, false),
    decreases n,
{
    if n > 0 {
        lemma_coincident_scene_untouched(a, peers, (n - 1) as nat);
        lemma_coincident_centres_untouched(a, peers[n - 1]);
    }
}

/// One step keeps every attribute of the object, moves peers at most, and
/// moves no static peer. A static object is not changed at all, and
/// neither are its peers.
pub proof fn lemma_step_frame(a: Object, peers: Seq<Object>, dt: i64)
    ensures
        attributes_kept(a.after_step(peers, dt).0, a),
        peers_moved_only(a.after_step(peers, dt).1, peers),
        a.is_static ==> a.after_step(peers, dt) == (a, peers),
{
    if !a.is_static {
        lemma_scanned_frame(a, peers, peers.len());
    }
}

/// Any number of full steps keeps every attribute of the object, moves
/// peers at most, and moves no static peer. A static object is not changed
/// at all, and neither are its peers.
pub proof fn lemma_steps_frame(a: Object, peers: Seq<Object>, n: nat)
    ensures
        attributes_kept(a.after_steps(peers, n).0, a),
        peers_moved_only(a.after_steps(peers, n).1, peers),
        a.is_static ==> a.after_steps(peers, n) == (a, peers),
    decreases n,
{
    if n > 0 {
        let (x, p) = a.after_steps(peers, (n - 1) as nat);
        lemma_steps_frame(a, peers, (n - 1) as nat);
        lemma_step_frame(x, p, FIXED_STEP);
    }
}

/// An update, whatever the time and the peers, leaves a static object
/// exactly as it was, together with its peers; and the update of a moving
/// object moves no static peer. What an update may change at all is the
/// kinematic state of the object and the positions of its moving peers; in
/// particular, objects that were well formed still are.
pub proof fn lemma_update_frame(a: Object, peers: Seq<Object>, dt: i64)
    ensures
        attributes_kept(a.after_update(peers, dt).0, a),
        peers_moved_only(a.after_update(peers, dt).1, peers),
        a.is_static ==> a.after_update(peers, dt) == (a, peers),
        a.well_formed() ==> a.after_update(peers, dt).0.well_formed(),
        forall|j: int|
            0 <= j < peers.len() && peers[j].well_formed() ==> (#[trigger] a.after_update(
                peers,
                dt,
            ).1[j]).well_formed(),
{
    if dt > 0 {
        let n = (dt / FIXED_STEP) as nat;
        let (x, p) = a.after_steps(peers, n);
        lemma_steps_frame(a, peers, n);
        if dt % FIXED_STEP > 0 {
            lemma_step_frame(x, p, (dt % FIXED_STEP) as i64);
        }
    }
}

/// A time of `full` whole steps and a remainder `rest` shorter than a step
/// is consumed as exactly `full` steps of [`FIXED_STEP`], followed by one
/// step of length `rest` if `rest` is not zero.
pub proof fn lemma_update_steps(a: Object, peers: Seq<Object>, full: nat, rest: i64)
    requires
        0 <= rest < FIXED_STEP,
        full * FIXED_STEP + rest <= i64::MAX,
    ensures
        a.after_update(peers, (full * FIXED_STEP + rest) as i64) == if rest > 0 {
            a.after_steps(peers, full).0.after_step(a.after_steps(peers, full).1, rest)
        } else {
            a.after_steps(peers, full)
        },
{
    let dt = full * FIXED_STEP + rest;
    vstd::arithmetic::div_mod::lemma_fundamental_div_mod_converse(
        dt,
        FIXED_STEP as int,
        full as int,
        rest as int,
    );
}

/// Full steps add up: `m + n` of them are `m` followed by `n`.
pub proof fn lemma_steps_add(a: Object, peers: Seq<Object>, m: nat, n: nat)
    ensures
        a.after_steps(peers, m + n) == a.after_steps(peers, m).0.after_steps(
            a.after_steps(peers, m).1,
            n,
        ),
    decreases n,
{
    if n > 0 {
        lemma_steps_add(a, peers, m, (n - 1) as nat);
        assert(m + n - 1 == m + (n - 1) as nat);
    }
}

/// How a time is split between two updates does not matter as long as the
/// first gets a whole number of steps: the two updates together do what one
/// update does with the whole time.
pub proof fn lemma_update_in_two_parts(a: Object, peers: Seq<Object>, first: i64, second: i64)
    requires
        0 <= first,
        first % FIXED_STEP == 0,
        0 <= second,
        first + second <= i64::MAX,
    ensures
        a.after_update(peers, (first + second) as i64) == a.after_update(
            peers,
            first,
        ).0.after_update(a.after_update(peers, first).1, second),
{
    let step = FIXED_STEP as int;
    let k = (first / FIXED_STEP) as nat;
    let j = (second / FIXED_STEP) as nat;
    let rest = second % FIXED_STEP;
    vstd::arithmetic::div_mod::lemma_fundamental_div_mod(first as int, step);
    vstd::arithmetic::div_mod::lemma_fundamental_div_mod(second as int, step);
    assert(first + second == (k + j) * step + rest) by (nonlinear_arith)
        requires
            first == step * k + 0,
            second == step * j + rest,
    ;
    vstd::arithmetic::div_mod::lemma_fundamental_div_mod_converse(
        first + second,
        step,
        (k + j) as int,
        rest as int,
    );
    lemma_steps_add(a, peers, k, j);
    assert(a.after_steps(peers, 0) == (a, peers));
}

/// However fast the object was and whatever its acceleration, after a fall
/// its speed is below [`MAX_SPEED`] plus one stored unit.
pub proof fn lemma_fall_limits_speed(a: Object, dt: i64)
    ensures
        spec_norm_squared(a.fallen(dt).velocity) < (MAX_SPEED + 1) * (MAX_SPEED + 1),
{
    let acceleration = [a.acceleration[0], GRAVITY, a.acceleration[2]];
    lemma_limit_magnitude_bound(spec_add_scaled(a.velocity, acceleration, dt), MAX_SPEED);
}

/// After the angular part of a step the angular speed is below
/// [`MAX_ANGULAR_SPEED`] plus one stored unit. A velocity whose squared size
/// was below [`REST_THRESHOLD`] is now exactly zero, and any other velocity
/// is what it was.
pub proof fn lemma_spin_limits_and_rests(a: Object, dt: i64)
    ensures
        spec_norm_squared(a.spun(dt).angular_velocity) < (MAX_ANGULAR_SPEED + 1) * (
        MAX_ANGULAR_SPEED + 1),
        spec_norm_squared(a.velocity) < REST_THRESHOLD ==> a.spun(dt).velocity == [
            0i64,
            0i64,
            0i64,
        ],
        spec_norm_squared(a.velocity) >= REST_THRESHOLD ==> a.spun(dt).velocity == a.velocity,
        spec_norm_squared(a.spun(dt).velocity) <= spec_norm_squared(a.velocity),
{
    lemma_limit_magnitude_bound(
        spec_add_scaled(a.angular_velocity, a.angular_acceleration, dt),
        MAX_ANGULAR_SPEED,
    );
    lemma_square_range(a.velocity[0]);
    lemma_square_range(a.velocity[1]);
    lemma_square_range(a.velocity[2]);
    let zero = [0i64, 0i64, 0i64];
    assert(spec_norm_squared(zero) == 0) by {
        assert(zero[0] == 0 && zero[1] == 0 && zero[2] == 0);
    }
}

/// After any step of a moving object its angular speed is below
/// [`MAX_ANGULAR_SPEED`] plus one stored unit, and its velocity is either
/// exactly zero or at least as large as the rest threshold.
pub proof fn lemma_step_limits_rotation_and_rests(a: Object, peers: Seq<Object>, dt: i64)
    requires
        !a.is_static,
    ensures
        spec_norm_squared(a.after_step(peers, dt).0.angular_velocity) < (MAX_ANGULAR_SPEED + 1)
            * (MAX_ANGULAR_SPEED + 1),
        a.after_step(peers, dt).0.velocity == [0i64, 0i64, 0i64] || spec_norm_squared(
            a.after_step(peers, dt).0.velocity,
        ) >= REST_THRESHOLD,
{
    let (x, p, hit) = a.scanned(peers, peers.len());
    let moved = if hit {
        x
    } else {
        x.fallen(dt)
    };
    lemma_spin_limits_and_rests(moved, dt);
}

/// After a step in which a moving object met no peer, and so fell, its
/// speed is below [`MAX_SPEED`] plus one stored unit.
pub proof fn lemma_step_limits_speed(a: Object, peers: Seq<Object>, dt: i64)
    requires
        !a.is_static,
        !a.scanned(peers, peers.len()).2,
    ensures
        spec_norm_squared(a.after_step(peers, dt).0.velocity) < (MAX_SPEED + 1) * (MAX_SPEED
            + 1),
{
    let (x, p, hit) = a.scanned(peers, peers.len());
    lemma_fall_limits_speed(x, dt);
    lemma_spin_limits_and_rests(x.fallen(dt), dt);
}

/// A step never makes an object faster than it was or than the limit
/// allows: once the speed is below [`MAX_SPEED`] plus one stored unit, it
/// stays there through every further step, with or without collisions.
pub proof fn lemma_step_keeps_speed_limit(a: Object, peers: Seq<Object>, dt: i64)
    requires
        spec_norm_squared(a.velocity) < (MAX_SPEED + 1) * (MAX_SPEED + 1),
    ensures
        spec_norm_squared(a.after_step(peers, dt).0.velocity) < (MAX_SPEED + 1) * (MAX_SPEED
            + 1),
{
    if !a.is_static {
        let (x, p, hit) = a.scanned(peers, peers.len());
        lemma_scanned_frame(a, peers, peers.len());
        if hit {
            lemma_spin_limits_and_rests(x, dt);
        } else {
            lemma_step_limits_speed(a, peers, dt);
        }
    }
}

/// Any number of full steps keeps a speed that is below [`MAX_SPEED`] plus
/// one stored unit below it.
pub proof fn lemma_steps_keep_speed_limit(a: Object, peers: Seq<Object>, n: nat)
    requires
        spec_norm_squared(a.velocity) < (MAX_SPEED + 1) * (MAX_SPEED + 1),
    ensures
        spec_norm_squared(a.after_steps(peers, n).0.velocity) < (MAX_SPEED + 1) * (MAX_SPEED
            + 1),
    decreases n,
{
    if n > 0 {
        let (x, p) = a.after_steps(peers, (n - 1) as nat);
        lemma_steps_keep_speed_limit(a, peers, (n - 1) as nat);
        lemma_step_keeps_speed_limit(x, p, FIXED_STEP);
    }
}

/// An object whose speed is below [`MAX_SPEED`] plus one stored unit never
/// exceeds that bound again, however long it is updated and whatever it
/// meets.
pub proof fn lemma_update_keeps_speed_limit(a: Object, peers: Seq<Object>, dt: i64)
    requires
        spec_norm_squared(a.velocity) < (MAX_SPEED + 1) * (MAX_SPEED + 1),
    ensures
        spec_norm_squared(a.after_update(peers, dt).0.velocity) < (MAX_SPEED + 1) * (MAX_SPEED
            + 1),
{
    if dt > 0 {
        let n = (dt / FIXED_STEP) as nat;
        let (x, p) = a.after_steps(peers, n);
        lemma_steps_keep_speed_limit(a, peers, n);
        if dt % FIXED_STEP > 0 {
            lemma_step_keeps_speed_limit(x, p, (dt % FIXED_STEP) as i64);
        }
    }
}

/// After an update that consumed any time at all, the angular speed of a
/// moving object is below [`MAX_ANGULAR_SPEED`] plus one stored unit, and
/// its velocity is either exactly zero or at least as large as the rest
/// threshold.
pub proof fn lemma_update_limits_rotation_and_rests(a: Object, peers: Seq<Object>, dt: i64)
    requires
        !a.is_static,
        dt > 0,
    ensures
        spec_norm_squared(a.after_update(peers, dt).0.angular_velocity) < (MAX_ANGULAR_SPEED
            + 1) * (MAX_ANGULAR_SPEED + 1),
        a.after_update(peers, dt).0.velocity == [0i64, 0i64, 0i64] || spec_norm_squared(
            a.after_update(peers, dt).0.velocity,
        ) >= REST_THRESHOLD,
{
    let n = (dt / FIXED_STEP) as nat;
    let (x, p) = a.after_steps(peers, n);
    lemma_steps_frame(a, peers, n);
    if dt % FIXED_STEP > 0 {
        lemma_step_limits_rotation_and_rests(x, p, (dt % FIXED_STEP) as i64);
    } else {
        assert(n > 0);
        let (y, q) = a.after_steps(peers, (n - 1) as nat);
        lemma_steps_frame(a, peers, (n - 1) as nat);
        lemma_step_limits_rotation_and_rests(y, q, FIXED_STEP);
    }
}

} // verus!
