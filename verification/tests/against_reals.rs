// The same step written in `f64`, to show how far nine decimal places and
// rounding toward zero take the fixed-point step from real arithmetic.

use vetracer::fixed::SCALE;
use vetracer::object::{Object, FIXED_STEP};

#[derive(Clone, Copy)]
struct Body {
    position: [f64; 3],
    velocity: [f64; 3],
    acceleration: [f64; 3],
    radius: f64,
    is_static: bool,
    angular_velocity: [f64; 3],
    angular_acceleration: [f64; 3],
    orientation: [f64; 4],
}

fn as_real(x: i64) -> f64 {
    x as f64 / SCALE as f64
}

fn as_real3(v: [i64; 3]) -> [f64; 3] {
    [as_real(v[0]), as_real(v[1]), as_real(v[2])]
}

fn body_of(o: &Object) -> Body {
    Body {
        position: as_real3(o.position),
        velocity: as_real3(o.velocity),
        acceleration: as_real3(o.acceleration),
        radius: as_real(o.radius),
        is_static: o.is_static,
        angular_velocity: as_real3(o.angular_velocity),
        angular_acceleration: as_real3(o.angular_acceleration),
        orientation: [
            as_real(o.orientation[0]),
            as_real(o.orientation[1]),
            as_real(o.orientation[2]),
            as_real(o.orientation[3]),
        ],
    }
}

fn norm(v: [f64; 3]) -> f64 {
    (v[0] * v[0] + v[1] * v[1] + v[2] * v[2]).sqrt()
}

fn distance(a: &Body, b: &Body) -> f64 {
    norm([
        a.position[0] - b.position[0],
        a.position[1] - b.position[1],
        a.position[2] - b.position[2],
    ])
}

fn limit(v: &mut [f64; 3], cap: f64) {
    let size = norm(*v);
    if size > cap {
        for x in v.iter_mut() {
            *x = *x / size * cap;
        }
    }
}

fn resolve(a: &mut Body, b: &mut Body) {
    let d = distance(a, b);
    let depth = a.radius + b.radius - d;
    if depth > 0.0 && d > 0.0 {
        let mut n = [0.0; 3];
        for i in 0..3 {
            n[i] = (b.position[i] - a.position[i]) / d;
        }
        if !a.is_static && b.is_static {
            for i in 0..3 {
                a.position[i] -= n[i] * depth;
            }
        } else if a.is_static && !b.is_static {
            for i in 0..3 {
                b.position[i] += n[i] * depth;
            }
        } else if !a.is_static && !b.is_static {
            let factor = depth / (a.radius + b.radius);
            for i in 0..3 {
                a.position[i] -= n[i] * a.radius * factor;
                b.position[i] += n[i] * b.radius * factor;
            }
        }
    }
}

fn multiply(p: [f64; 4], q: [f64; 4]) -> [f64; 4] {
    [
        p[0] * q[0] - p[1] * q[1] - p[2] * q[2] - p[3] * q[3],
        p[0] * q[1] + p[1] * q[0] + p[2] * q[3] - p[3] * q[2],
        p[0] * q[2] - p[1] * q[3] + p[2] * q[0] + p[3] * q[1],
        p[0] * q[3] + p[1] * q[2] - p[2] * q[1] + p[3] * q[0],
    ]
}

fn step(a: &mut Body, dt: f64, peers: &mut [Body]) {
    if a.is_static {
        return;
    }
    let mut fall = true;
    for b in peers.iter_mut() {
        if a.position != b.position && distance(a, b) < a.radius + b.radius {
            resolve(a, b);
            fall = false;
        }
    }
    if fall {
        a.acceleration[1] = -9.81;
        for i in 0..3 {
            a.velocity[i] += a.acceleration[i] * dt;
        }
        limit(&mut a.velocity, 5.0);
        for i in 0..3 {
            a.position[i] += a.velocity[i] * dt;
        }
    }
    for i in 0..3 {
        a.angular_velocity[i] += a.angular_acceleration[i] * dt;
    }
    limit(&mut a.angular_velocity, 10.0);
    let v = a.velocity;
    if v[0] * v[0] + v[1] * v[1] + v[2] * v[2] < 0.5 {
        a.velocity = [0.0; 3];
    }
    let angle = norm(a.angular_velocity) * dt;
    if angle != 0.0 {
        let half = angle * 0.5;
        let w = a.angular_velocity;
        let turn = [
            half.cos(),
            w[0] / angle * half.sin(),
            w[1] / angle * half.sin(),
            w[2] / angle * half.sin(),
        ];
        a.orientation = multiply(turn, a.orientation);
    }
}

fn assert_close(o: &Object, b: &Body, tolerance: f64) {
    for i in 0..3 {
        assert!((as_real(o.position[i]) - b.position[i]).abs() <= tolerance);
        assert!((as_real(o.velocity[i]) - b.velocity[i]).abs() <= tolerance);
        assert!((as_real(o.acceleration[i]) - b.acceleration[i]).abs() <= tolerance);
        assert!((as_real(o.angular_velocity[i]) - b.angular_velocity[i]).abs() <= tolerance);
    }
    for i in 0..4 {
        assert!((as_real(o.orientation[i]) - b.orientation[i]).abs() <= tolerance);
    }
}

fn compare(start: Object, scene: &[Object], dt: i64, steps: usize, tolerance: f64) {
    let mut fixed = start;
    let mut fixed_peers: Vec<Object> = scene.to_vec();
    let mut float = body_of(&start);
    let mut float_peers: Vec<Body> = scene.iter().map(body_of).collect();
    for _ in 0..steps {
        fixed.process_physics(dt, &mut fixed_peers);
        step(&mut float, as_real(dt), &mut float_peers);
        assert_close(&fixed, &float, tolerance);
        for (o, b) in fixed_peers.iter().zip(float_peers.iter()) {
            assert_close(o, b, tolerance);
        }
    }
}

fn ball(position: [i64; 3], radius: i64, is_static: bool) -> Object {
    Object::new(position, radius, [120 * SCALE; 3], SCALE, 0, is_static)
}

#[test]
fn a_thrown_ball_follows_the_real_step() {
    let mut a = ball([0, 10 * SCALE, 0], SCALE, false);
    a.velocity = [3 * SCALE, 2 * SCALE, -SCALE];
    a.acceleration = [SCALE / 4, 0, -SCALE / 8];
    compare(a, &[], FIXED_STEP, 200, 0.000_001);
}

#[test]
fn a_fast_ball_is_limited_like_the_real_one() {
    let mut a = ball([0, 0, 0], SCALE, false);
    a.velocity = [30 * SCALE, -40 * SCALE, 120 * SCALE];
    compare(a, &[], FIXED_STEP, 50, 0.000_001);
}

#[test]
fn pushes_follow_the_real_step() {
    let a = ball([SCALE / 10, -SCALE / 5, 3 * SCALE / 10], 2 * SCALE, false);
    let scene = [
        ball([11 * SCALE / 10, SCALE, -SCALE / 2], SCALE / 2, true),
        ball([-3 * SCALE / 2, 7 * SCALE / 10, 9 * SCALE / 10], 5 * SCALE / 4, false),
        ball([9 * SCALE, 9 * SCALE, 9 * SCALE], SCALE, false),
    ];
    compare(a, &scene, FIXED_STEP, 1, 0.000_000_05);
}

#[test]
fn a_slow_spin_follows_the_real_step() {
    let mut a = ball([0, 0, 0], SCALE, false);
    a.angular_velocity = [30_000_000, -20_000_000, 50_000_000];
    a.angular_acceleration = [1_000_000, 2_000_000, -3_000_000];
    a.velocity = [SCALE, 0, 0];
    compare(a, &[], FIXED_STEP, 100, 0.000_01);
}

#[test]
fn one_turn_in_one_step_follows_the_real_step() {
    let mut a = ball([0, 0, 0], SCALE, false);
    a.angular_velocity = [0, 0, 6_283_185_307];
    let wall = ball([SCALE / 2, 0, 0], SCALE, true);
    compare(a, &[wall], SCALE, 1, 0.000_000_05);
}
