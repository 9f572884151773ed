//! A scene object and its physics step.
//!
//! All scalars are fixed-point numbers as described in [`crate::fixed`]:
//! positions in metres, velocities in metres per second, angles in radians,
//! times in seconds, each stored as billionths.

use vstd::prelude::*;
use vstd::std_specs::cmp::PartialEqSpecImpl;
use crate::fixed::{fx_add, fx_div, fx_mul, fx_sub, narrow, saturate, spec_fx_div, SCALE};
use crate::laws::{lemma_step_frame, lemma_update_frame};
use crate::trig::{sin_cos, spec_cos, spec_sin};
use crate::vector::{
    add_scaled, difference, direction, length, limit_magnitude, norm_squared, same_vector,
    scaled, spec_add_scaled, spec_difference, spec_direction, spec_length,
    spec_limit_magnitude, spec_norm_squared, spec_scaled, spec_sum, sum,
};

verus! {

/// Length of a full sub-step: 0.016 s.
pub const FIXED_STEP: i64 = 16_000_000;

/// Vertical acceleration imposed on every falling object: -9.81 m/s^2.
pub const GRAVITY: i64 = -9_810_000_000;

/// Largest linear speed: 5 m/s.
pub const MAX_SPEED: i64 = 5_000_000_000;

/// Largest angular speed: 10 rad/s.
pub const MAX_ANGULAR_SPEED: i64 = 10_000_000_000;

/// An object whose squared speed is below this comes to rest: 0.5 m^2/s^2,
/// in squared stored units.
pub const REST_THRESHOLD: u128 = 500_000_000_000_000_000;

/// The factor one half.
pub const HALF: i64 = 500_000_000;

/// A sphere or box of the scene.
///
/// `position`, `velocity`, `acceleration`, `angular_velocity`,
/// `angular_acceleration` and `orientation` (a quaternion, scalar part
/// first) are the kinematic state. `radius` is the extent used by every
/// collision test, whatever the shape. `is_static` marks an object that
/// never moves but still stops others. The remaining fields describe how the
/// object is drawn and are carried through untouched.
#[derive(Clone, Copy, Debug)]
pub struct Object {
    /// Centre, in metres.
    pub position: [i64; 3],
    /// Metres per second.
    pub velocity: [i64; 3],
    /// Metres per second squared.
    pub acceleration: [i64; 3],
    /// Extent for collisions, in metres.
    pub radius: i64,
    pub color: [i64; 3],
    pub roughness: i64,
    pub emission: i64,
    /// A static object is never moved.
    pub is_static: bool,
    /// Radians per second, as a rotation vector.
    pub angular_velocity: [i64; 3],
    /// Radians per second squared.
    pub angular_acceleration: [i64; 3],
    /// Rotation as a quaternion, scalar part first.
    pub orientation: [i64; 4],
    /// Kept with the object; no step reads it.
    pub mass: i64,
    pub is_cube: bool,
    pub size: [i64; 3],
    pub is_glass: bool,
    pub reflectness: i64,
}

/// Whether two quaternions have the same components.
pub fn same_quaternion(a: &[i64; 4], b: &[i64; 4]) -> (r: bool)
    ensures
        r == (*a == *b),
{
    let r = a[0] == b[0] && a[1] == b[1] && a[2] == b[2] && a[3] == b[3];
    proof {
        if r {
            assert(*a =~= *b);
        }
    }
    r
}

impl PartialEq for Object {
    /// Two objects are equal when every field is.
    fn eq(&self, other: &Self) -> (r: bool) {
        same_vector(&self.position, &other.position)
            && same_vector(&self.velocity, &other.velocity)
            && same_vector(&self.acceleration, &other.acceleration)
            && self.radius == other.radius
            && same_vector(&self.color, &other.color)
            && self.roughness == other.roughness
            && self.emission == other.emission
            && self.is_static == other.is_static
            && same_vector(&self.angular_velocity, &other.angular_velocity)
            && same_vector(&self.angular_acceleration, &other.angular_acceleration)
            && same_quaternion(&self.orientation, &other.orientation)
            && self.mass == other.mass
            && self.is_cube == other.is_cube
            && same_vector(&self.size, &other.size)
            && self.is_glass == other.is_glass
            && self.reflectness == other.reflectness
    }
}

impl PartialEqSpecImpl for Object {
    open spec fn obeys_eq_spec() -> bool {
        true
    }

    open spec fn eq_spec(&self, other: &Self) -> bool {
        *self == *other
    }
}

/// The Hamilton product `q1 * q2`, scalar part first. Each of the sixteen
/// products is a fixed-point product; the four that make a component are
/// combined exactly and the result is saturated.
pub open spec fn spec_quaternion_multiply(q1: [i64; 4], q2: [i64; 4]) -> [i64; 4] {
    [
        saturate(
            fx_mul(q1[0], q2[0]) - fx_mul(q1[1], q2[1]) - fx_mul(q1[2], q2[2]) - fx_mul(
                q1[3],
                q2[3],
            ),
        ),
        saturate(
            fx_mul(q1[0], q2[1]) + fx_mul(q1[1], q2[0]) + fx_mul(q1[2], q2[3]) - fx_mul(
                q1[3],
                q2[2],
            ),
        ),
        saturate(
            fx_mul(q1[0], q2[2]) - fx_mul(q1[1], q2[3]) + fx_mul(q1[2], q2[0]) + fx_mul(
                q1[3],
                q2[1],
            ),
        ),
        saturate(
            fx_mul(q1[0], q2[3]) + fx_mul(q1[1], q2[2]) - fx_mul(q1[2], q2[1]) + fx_mul(
                q1[3],
                q2[0],
            ),
        ),
    ]
}

/// `x` differs from `y` in its position at most.
pub open spec fn moved_only(x: Object, y: Object) -> bool {
    x == (Object { position: x.position, ..y })
}

/// `x` differs from `y` in its kinematic state at most: position, velocity,
/// vertical acceleration, angular velocity and orientation. Radius, mass,
/// the static flag, the angular acceleration and everything that describes
/// how the object is drawn are those of `y`.
pub open spec fn attributes_kept(x: Object, y: Object) -> bool {
    &&& x.acceleration[0] == y.acceleration[0]
    &&& x.acceleration[2] == y.acceleration[2]
    &&& x == (Object {
        position: x.position,
        velocity: x.velocity,
        acceleration: x.acceleration,
        angular_velocity: x.angular_velocity,
        orientation: x.orientation,
        ..y
    })
}

/// The peers `after` a step are the peers `before` it, each moved at most,
/// and the static ones not at all.
pub open spec fn peers_moved_only(after: Seq<Object>, before: Seq<Object>) -> bool {
    &&& after.len() == before.len()
    &&& forall|j: int| 0 <= j < before.len() ==> moved_only(#[trigger] after[j], before[j])
    &&& forall|j: int|
        0 <= j < before.len() && before[j].is_static ==> #[trigger] after[j] == before[j]
}

impl Object {
    /// What every object of a scene is expected to satisfy: a positive
    /// radius and a positive mass. No function here depends on it; the laws
    /// that do say so.
    pub open spec fn well_formed(self) -> bool {
        self.radius > 0 && self.mass > 0
    }

    /// Distance between the centres of `s1` and `s2`, rounded down.
    pub open spec fn spec_distance(s1: Object, s2: Object) -> i64 {
        saturate(spec_length(spec_difference(s1.position, s2.position)) as int)
    }

    /// By how much the two extents overlap; positive when they do.
    pub open spec fn penetration_depth(a: Object, b: Object) -> i64 {
        fx_sub(fx_add(a.radius, b.radius), Object::spec_distance(a, b))
    }

    /// The unit vector from the centre of `a` toward the centre of `b`; zero
    /// when the centres coincide.
    pub open spec fn normal(a: Object, b: Object) -> [i64; 3] {
        spec_direction(spec_difference(b.position, a.position))
    }

    /// The pair after one collision resolution of `a` against `b`.
    ///
    /// Nothing moves unless the two are different objects whose extents
    /// overlap and whose centres are apart. Then a moving object is pushed
    /// out along the normal by the whole depth if the other is static; two
    /// moving objects share the depth in proportion to their radii; static
    /// objects stay where they are.
    pub open spec fn resolved(a: Object, b: Object) -> (Object, Object) {
        let depth = Object::penetration_depth(a, b);
        if a == b || depth <= 0 || Object::spec_distance(a, b) == 0 {
            (a, b)
        } else {
            let n = Object::normal(a, b);
            if !a.is_static && b.is_static {
                (Object { position: spec_difference(a.position, spec_scaled(n, depth)), ..a }, b)
            } else if a.is_static && !b.is_static {
                (a, Object { position: spec_sum(b.position, spec_scaled(n, depth)), ..b })
            } else if !a.is_static && !b.is_static {
                let factor = spec_fx_div(depth, fx_add(a.radius, b.radius));
                (
                    Object {
                        position: spec_difference(
                            a.position,
                            spec_scaled(spec_scaled(n, a.radius), factor),
                        ),
                        ..a
                    },
                    Object {
                        position: spec_sum(
                            b.position,
                            spec_scaled(spec_scaled(n, b.radius), factor),
                        ),
                        ..b
                    },
                )
            } else {
                (a, b)
            }
        }
    }

    /// Whether a scan of the scene lets `self` collide with `other`: their
    /// centres differ, they are not the same object, and they are closer
    /// than the sum of their radii.
    pub open spec fn overlaps(self, other: Object) -> bool {
        &&& self.position != other.position
        &&& self != other
        &&& Object::spec_distance(self, other) < fx_add(self.radius, other.radius)
    }

    /// The state after `self` has been tested, in order, against the first
    /// `n` of `peers`: the object, the peers, and whether any test led to a
    /// collision. Each resolution takes place before the next test.
    pub open spec fn scanned(self, peers: Seq<Object>, n: nat) -> (Object, Seq<Object>, bool)
        recommends
            n <= peers.len(),
        decreases n,
    {
        if n == 0 {
            (self, peers, false)
        } else {
            let (a, p, hit) = self.scanned(peers, (n - 1) as nat);
            if a.overlaps(p[n - 1]) {
                let (a2, b2) = Object::resolved(a, p[n - 1]);
                (a2, p.update(n - 1, b2), true)
            } else {
                (a, p, hit)
            }
        }
    }

    /// Free fall for a time `dt`: the vertical acceleration becomes
    /// [`GRAVITY`], the velocity gains `acceleration * dt` and is limited to
    /// [`MAX_SPEED`], and the position gains the new velocity times `dt`.
    pub open spec fn fallen(self, dt: i64) -> Object {
        let acceleration = [self.acceleration[0], GRAVITY, self.acceleration[2]];
        let velocity = spec_limit_magnitude(
            spec_add_scaled(self.velocity, acceleration, dt),
            MAX_SPEED,
        );
        Object {
            acceleration,
            velocity,
            position: spec_add_scaled(self.position, velocity, dt),
            ..self
        }
    }

    /// The rotation of a time `dt` applied to the orientation.
    ///
    /// With `angle = |angular_velocity| * dt`, nothing changes when `angle`
    /// is zero. Otherwise the orientation is multiplied on the left by the
    /// quaternion `(cos(angle/2), axis * sin(angle/2))`, where `axis` is the
    /// angular velocity divided by `angle`: the new orientation is that
    /// quaternion times the old one. The product is not normalised.
    pub open spec fn reoriented(self, dt: i64) -> Object {
        let angle = fx_mul(saturate(spec_length(self.angular_velocity) as int), dt);
        if angle == 0 {
            self
        } else {
            let half = fx_mul(angle, HALF);
            let s = spec_sin(half);
            let w = self.angular_velocity;
            let step = [
                spec_cos(half),
                fx_mul(spec_fx_div(w[0], angle), s),
                fx_mul(spec_fx_div(w[1], angle), s),
                fx_mul(spec_fx_div(w[2], angle), s),
            ];
            Object { orientation: spec_quaternion_multiply(step, self.orientation), ..self }
        }
    }

    /// The angular part of a step of length `dt`: the angular velocity
    /// gains `angular_acceleration * dt` and is limited to
    /// [`MAX_ANGULAR_SPEED`]; a linear velocity whose squared size is below
    /// [`REST_THRESHOLD`] becomes zero; then the orientation is advanced.
    pub open spec fn spun(self, dt: i64) -> Object {
        let angular_velocity = spec_limit_magnitude(
            spec_add_scaled(self.angular_velocity, self.angular_acceleration, dt),
            MAX_ANGULAR_SPEED,
        );
        let velocity = if spec_norm_squared(self.velocity) < REST_THRESHOLD {
            [0i64, 0i64, 0i64]
        } else {
            self.velocity
        };
        (Object { angular_velocity, velocity, ..self }).reoriented(dt)
    }

    /// The object and its peers after one step of length `dt`.
    ///
    /// A static object is left alone, and so are the peers. A moving object
    /// is first scanned against all peers; it falls only if the scan found
    /// no collision; the angular part follows in either case.
    pub open spec fn after_step(self, peers: Seq<Object>, dt: i64) -> (Object, Seq<Object>) {
        if self.is_static {
            (self, peers)
        } else {
            let (a, p, hit) = self.scanned(peers, peers.len());
            let moved = if hit {
                a
            } else {
                a.fallen(dt)
            };
            (moved.spun(dt), p)
        }
    }

    /// The object and its peers after `n` steps of length [`FIXED_STEP`].
    pub open spec fn after_steps(self, peers: Seq<Object>, n: nat) -> (Object, Seq<Object>)
        decreases n,
    {
        if n == 0 {
            (self, peers)
        } else {
            let (a, p) = self.after_steps(peers, (n - 1) as nat);
            a.after_step(p, FIXED_STEP)
        }
    }

    /// The object and its peers after a time `dt` has been consumed: as
    /// many full steps as fit into `dt`, then one step for what is left, if
    /// anything is. A `dt` of zero or less consumes nothing.
    pub open spec fn after_update(self, peers: Seq<Object>, dt: i64) -> (Object, Seq<Object>) {
        if dt <= 0 {
            (self, peers)
        } else {
            let (a, p) = self.after_steps(peers, (dt / FIXED_STEP) as nat);
            if dt % FIXED_STEP > 0 {
                a.after_step(p, (dt % FIXED_STEP) as i64)
            } else {
                (a, p)
            }
        }
    }

    /// A new object at rest: no velocity, no acceleration, no rotation,
    /// unit mass, a unit cube, neither glass nor reflecting.
    pub fn new(
        position: [i64; 3],
        radius: i64,
        color: [i64; 3],
        roughness: i64,
        emission: i64,
        is_static: bool,
    ) -> (r: Self)
        ensures
            r == (Object {
                position,
                velocity: [0i64, 0i64, 0i64],
                acceleration: [0i64, 0i64, 0i64],
                radius,
                color,
                roughness,
                emission,
                is_static,
                angular_velocity: [0i64, 0i64, 0i64],
                angular_acceleration: [0i64, 0i64, 0i64],
                orientation: [SCALE, 0i64, 0i64, 0i64],
                mass: SCALE,
                is_cube: true,
                size: [SCALE, SCALE, SCALE],
                is_glass: false,
                reflectness: 0,
            }),
            r.well_formed() == (radius > 0),
    {
        Object {
            position,
            velocity: [0, 0, 0],
            acceleration: [0, 0, 0],
            radius,
            color,
            roughness,
            emission,
            is_static,
            angular_velocity: [0, 0, 0],
            angular_acceleration: [0, 0, 0],
            orientation: [SCALE, 0, 0, 0],
            mass: SCALE,
            is_cube: true,
            size: [SCALE, SCALE, SCALE],
            is_glass: false,
            reflectness: 0,
        }
    }

    /// Distance between the centres of `s1` and `s2`, rounded down.
    pub fn distance_between_spheres(s1: &Object, s2: &Object) -> (r: i64)
        ensures
            r == Object::spec_distance(*s1, *s2),
            r >= 0,
    {
        let d = difference(&s1.position, &s2.position);
        narrow(length(&d) as i128)
    }

    /// The Hamilton product `q1 * q2`, scalar part first.
    pub fn quaternion_multiply(q1: [i64; 4], q2: [i64; 4]) -> (r: [i64; 4])
        ensures
            r == spec_quaternion_multiply(q1, q2),
    {
        let r = [
            narrow(
                fx_mul(q1[0], q2[0]) as i128 - fx_mul(q1[1], q2[1]) as i128 - fx_mul(
                    q1[2],
                    q2[2],
                ) as i128 - fx_mul(q1[3], q2[3]) as i128,
            ),
            narrow(
                fx_mul(q1[0], q2[1]) as i128 + fx_mul(q1[1], q2[0]) as i128 + fx_mul(
                    q1[2],
                    q2[3],
                ) as i128 - fx_mul(q1[3], q2[2]) as i128,
            ),
            narrow(
                fx_mul(q1[0], q2[2]) as i128 - fx_mul(q1[1], q2[3]) as i128 + fx_mul(
                    q1[2],
                    q2[0],
                ) as i128 + fx_mul(q1[3], q2[1]) as i128,
            ),
            narrow(
                fx_mul(q1[0], q2[3]) as i128 + fx_mul(q1[1], q2[2]) as i128 - fx_mul(
                    q1[2],
                    q2[1],
                ) as i128 + fx_mul(q1[3], q2[0]) as i128,
            ),
        ];
        assert(r =~= spec_quaternion_multiply(q1, q2));
        r
    }

    /// Separates `self` and `other` if they overlap: see
    /// [`Object::resolved`]. No velocity changes.
    pub fn resolve_collision(&mut self, other: &mut Object)
        ensures
            (*final(self), *final(other)) == Object::resolved(*old(self), *old(other)),
    {
        if !(*self == *other) {
            let distance = Object::distance_between_spheres(self, other);
            let penetration_depth = fx_sub(fx_add(self.radius, other.radius), distance);
            if penetration_depth > 0 && distance != 0 {
                let collision_normal = direction(
                    &difference(&other.position, &self.position),
                );
                if !self.is_static && other.is_static {
                    self.position = difference(
                        &self.position,
                        &scaled(&collision_normal, penetration_depth),
                    );
                } else if !other.is_static && self.is_static {
                    other.position = sum(
                        &other.position,
                        &scaled(&collision_normal, penetration_depth),
                    );
                } else if !self.is_static && !other.is_static {
                    let correction_factor = fx_div(
                        penetration_depth,
                        fx_add(self.radius, other.radius),
                    );
                    self.position = difference(
                        &self.position,
                        &scaled(&scaled(&collision_normal, self.radius), correction_factor),
                    );
                    other.position = sum(
                        &other.position,
                        &scaled(&scaled(&collision_normal, other.radius), correction_factor),
                    );
                }
            }
        }
    }

    /// Advances the orientation by the rotation of a time `delta_time`.
    pub fn update_orientation(&mut self, delta_time: i64)
        ensures
            *final(self) == (*old(self)).reoriented(delta_time),
    {
        let angular_speed = narrow(length(&self.angular_velocity) as i128);
        let angle = fx_mul(angular_speed, delta_time);
        if angle != 0 {
            let axis = [
                fx_div(self.angular_velocity[0], angle),
                fx_div(self.angular_velocity[1], angle),
                fx_div(self.angular_velocity[2], angle),
            ];
            let half_angle = fx_mul(angle, HALF);
            let (sin_half_angle, cos_half_angle) = sin_cos(half_angle);
            let delta_orientation = [
                cos_half_angle,
                fx_mul(axis[0], sin_half_angle),
                fx_mul(axis[1], sin_half_angle),
                fx_mul(axis[2], sin_half_angle),
            ];
            self.orientation = Object::quaternion_multiply(delta_orientation, self.orientation);
        }
    }

    /// Tests this object against each of `spheres` in order and resolves
    /// every collision found. Returns whether there was one.
    pub fn collide_with_peers(&mut self, spheres: &mut [Object]) -> (hit: bool)
        ensures
            (*final(self), final(spheres)@, hit) == (*old(self)).scanned(
                old(spheres)@,
                old(spheres)@.len(),
            ),
    {
        let ghost start = *self;
        let ghost peers = spheres@;
        let mut hit = false;
        let n = spheres.len();
        let mut i: usize = 0;
        while i < n
            invariant
                i <= n,
                n == spheres@.len(),
                n == peers.len(),
                (*self, spheres@, hit) == start.scanned(peers, i as nat),
            decreases n - i,
        {
            if !same_vector(&self.position, &spheres[i].position) && !(*self == spheres[i]) {
                let distance = Object::distance_between_spheres(self, &spheres[i]);
                if distance < fx_add(self.radius, spheres[i].radius) {
                    self.resolve_collision(&mut spheres[i]);
                    hit = true;
                }
            }
            i += 1;
        }
        hit
    }

    /// Lets the object fall for a time `delta_time`.
    pub fn apply_gravity(&mut self, delta_time: i64)
        ensures
            *final(self) == (*old(self)).fallen(delta_time),
    {
        self.acceleration[1] = GRAVITY;
        assert(self.acceleration =~= [
            old(self).acceleration[0],
            GRAVITY,
            old(self).acceleration[2],
        ]);
        self.velocity = limit_magnitude(
            &add_scaled(&self.velocity, &self.acceleration, delta_time),
            MAX_SPEED,
        );
        self.position = add_scaled(&self.position, &self.velocity, delta_time);
    }

    /// The angular part of a step of length `delta_time`.
    pub fn integrate_rotation(&mut self, delta_time: i64)
        ensures
            *final(self) == (*old(self)).spun(delta_time),
    {
        self.angular_velocity = limit_magnitude(
            &add_scaled(&self.angular_velocity, &self.angular_acceleration, delta_time),
            MAX_ANGULAR_SPEED,
        );
        if norm_squared(&self.velocity) < REST_THRESHOLD {
            self.velocity = [0, 0, 0];
        }
        self.update_orientation(delta_time);
    }

    /// One step of length `delta_time` for this object among `spheres`.
    ///
    /// A static object is skipped. A moving one is first pushed out of every
    /// peer that it overlaps; if it overlapped none, it falls; then its
    /// angular velocity, its rest and its orientation are brought up to
    /// date. Of the peers only positions change, and only those of moving
    /// peers.
    pub fn process_physics(&mut self, delta_time: i64, spheres: &mut [Object])
        ensures
            (*final(self), final(spheres)@) == (*old(self)).after_step(old(spheres)@, delta_time),
            old(self).is_static ==> *final(self) == *old(self) && final(spheres)@ == old(spheres)@,
            attributes_kept(*final(self), *old(self)),
            peers_moved_only(final(spheres)@, old(spheres)@),
    {
        proof {
            lemma_step_frame(*self, spheres@, delta_time);
        }
        if !self.is_static {
            let hit = self.collide_with_peers(spheres);
            if !hit {
                self.apply_gravity(delta_time);
            }
            self.integrate_rotation(delta_time);
        }
    }

    /// Advances this object by `delta_time` among `spheres`: one step of
    /// [`FIXED_STEP`] for each time that length fits into `delta_time`, and
    /// one shorter step for the rest, if there is one. Nothing happens when
    /// `delta_time` is zero or negative.
    pub fn update(&mut self, delta_time: i64, spheres: &mut [Object])
        ensures
            (*final(self), final(spheres)@) == (*old(self)).after_update(
                old(spheres)@,
                delta_time,
            ),
            old(self).is_static ==> *final(self) == *old(self) && final(spheres)@ == old(spheres)@,
            attributes_kept(*final(self), *old(self)),
            peers_moved_only(final(spheres)@, old(spheres)@),
    {
        proof {
            lemma_update_frame(*self, spheres@, delta_time);
        }
        let ghost start = *self;
        let ghost peers = spheres@;
        let ghost mut done: nat = 0;
        let mut time_accumulator = delta_time;

        while time_accumulator >= FIXED_STEP
            invariant
                time_accumulator == delta_time - done * FIXED_STEP,
                done == 0 || time_accumulator >= 0,
                (*self, spheres@) == start.after_steps(peers, done),
            decreases time_accumulator,
        {
            self.process_physics(FIXED_STEP, spheres);
            time_accumulator -= FIXED_STEP;
            proof {
                done = done + 1;
            }
        }

        proof {
            if delta_time > 0 {
                vstd::arithmetic::div_mod::lemma_fundamental_div_mod_converse(
                    delta_time as int,
                    FIXED_STEP as int,
                    done as int,
                    time_accumulator as int,
                );
            }
        }
        if time_accumulator > 0 {
            self.process_physics(time_accumulator, spheres);
        }
    }
}

} // verus!
