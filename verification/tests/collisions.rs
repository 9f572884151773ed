use vetracer::fixed::SCALE;
use vetracer::object::{same_quaternion, Object};

fn ball(position: [i64; 3], radius: i64, is_static: bool) -> Object {
    Object::new(position, radius, [120 * SCALE; 3], SCALE, 0, is_static)
}

fn squared_gap(a: &Object, b: &Object) -> i128 {
    let mut total: i128 = 0;
    for i in 0..3 {
        let d = b.position[i] as i128 - a.position[i] as i128;
        total += d * d;
    }
    total
}

#[test]
fn new_object_is_at_rest_and_upright() {
    let o = Object::new(
        [1_000_000_000, -2_000_000_000, 3_000_000_000],
        750_000_000,
        [10, 20, 30],
        400_000_000,
        9,
        true,
    );
    assert_eq!(o.position, [1_000_000_000, -2_000_000_000, 3_000_000_000]);
    assert_eq!(o.velocity, [0, 0, 0]);
    assert_eq!(o.acceleration, [0, 0, 0]);
    assert_eq!(o.radius, 750_000_000);
    assert_eq!(o.color, [10, 20, 30]);
    assert_eq!(o.roughness, 400_000_000);
    assert_eq!(o.emission, 9);
    assert!(o.is_static);
    assert_eq!(o.angular_velocity, [0, 0, 0]);
    assert_eq!(o.angular_acceleration, [0, 0, 0]);
    assert_eq!(o.orientation, [1_000_000_000, 0, 0, 0]);
    assert_eq!(o.mass, 1_000_000_000);
    assert!(o.is_cube);
    assert_eq!(o.size, [1_000_000_000, 1_000_000_000, 1_000_000_000]);
    assert!(!o.is_glass);
    assert_eq!(o.reflectness, 0);
}

#[test]
fn objects_are_equal_when_every_field_is() {
    let a = ball([1, 2, 3], SCALE, false);
    let mut b = a;
    assert!(a == b);
    b.reflectness = 1;
    assert!(a != b);
    b = a;
    b.orientation[3] = 1;
    assert!(a != b);
    b = a;
    b.is_glass = true;
    assert!(a != b);
    b = a;
    b.size[1] = 0;
    assert!(a != b);
    b = a;
    b.position[2] = 4;
    assert!(a != b);
}

#[test]
fn quaternions_compare_by_component() {
    assert!(same_quaternion(&[1, 2, 3, 4], &[1, 2, 3, 4]));
    assert!(!same_quaternion(&[1, 2, 3, 4], &[1, 2, 3, 5]));
    assert!(!same_quaternion(&[1, 2, 3, 4], &[0, 2, 3, 4]));
}

#[test]
fn distance_between_centres() {
    let a = ball([0, 0, 0], SCALE, false);
    let b = ball([1_000_000_000, 2_000_000_000, 2_000_000_000], 1_000_000_000, false);
    assert_eq!(Object::distance_between_spheres(&a, &b), 3_000_000_000);
    assert_eq!(Object::distance_between_spheres(&b, &a), 3_000_000_000);
    assert_eq!(Object::distance_between_spheres(&a, &a), 0);
    let c = ball([100_000_000, -200_000_000, 300_000_000], 1_000_000_000, false);
    let d = ball([1_100_000_000, 1_000_000_000, -500_000_000], 1_000_000_000, false);
    assert_eq!(Object::distance_between_spheres(&c, &d), 1_754_992_877);
}

#[test]
fn distance_between_the_farthest_centres_saturates() {
    let a = ball([i64::MIN, i64::MIN, i64::MIN], SCALE, false);
    let b = ball([i64::MAX, i64::MAX, i64::MAX], SCALE, false);
    assert_eq!(Object::distance_between_spheres(&a, &b), i64::MAX);
}

#[test]
fn quaternion_product_with_the_identity() {
    let q = [500_000_000, -500_000_000, 500_000_000, 500_000_000];
    let one = [SCALE, 0, 0, 0];
    assert_eq!(Object::quaternion_multiply(q, one), q);
    assert_eq!(Object::quaternion_multiply(one, q), q);
}

#[test]
fn quaternion_product_does_not_commute() {
    let i = [0, SCALE, 0, 0];
    let j = [0, 0, SCALE, 0];
    assert_eq!(Object::quaternion_multiply(i, j), [0, 0, 0, SCALE]);
    assert_eq!(Object::quaternion_multiply(j, i), [0, 0, 0, -SCALE]);
    assert_eq!(Object::quaternion_multiply(i, i), [-SCALE, 0, 0, 0]);
}

#[test]
fn quaternion_product_of_two_general_quaternions() {
    let p = [1_500_000_000, -2_000_000_000, 250_000_000, 3_000_000_000];
    let q = [-500_000_000, 1_250_000_000, 2_000_000_000, -750_000_000];
    assert_eq!(
        Object::quaternion_multiply(p, q),
        [3_500_000_000, -3_312_500_000, 5_125_000_000, -6_937_500_000]
    );
}

#[test]
fn quaternion_product_saturates() {
    let big = [i64::MAX, i64::MAX, i64::MAX, i64::MAX];
    let mixed = [i64::MAX, i64::MIN, i64::MIN, i64::MIN];
    assert_eq!(Object::quaternion_multiply(big, mixed), [i64::MAX, -1, -1, -1]);
    assert_eq!(
        Object::quaternion_multiply([i64::MAX, 0, 0, 0], [2 * SCALE, 0, 0, 0]),
        [i64::MAX, 0, 0, 0]
    );
}

#[test]
fn moving_sphere_is_pushed_out_of_a_static_one_by_the_whole_depth() {
    let mut a = ball([500_000_000, 0, 0], 1_000_000_000, false);
    let mut b = ball([0, 0, 0], SCALE, true);
    let before = b;
    a.resolve_collision(&mut b);
    assert_eq!(a.position, [2_000_000_000, 0, 0]);
    assert!(b == before);
    assert_eq!(Object::distance_between_spheres(&a, &b), 2_000_000_000);
}

#[test]
fn static_sphere_pushes_a_moving_one_by_the_whole_depth() {
    let mut a = ball([0, 0, 0], SCALE, true);
    let mut b = ball([500_000_000, 0, 0], 1_000_000_000, false);
    let before = a;
    a.resolve_collision(&mut b);
    assert!(a == before);
    assert_eq!(b.position, [2_000_000_000, 0, 0]);
}

#[test]
fn push_out_of_a_static_sphere_along_a_skew_direction() {
    let mut a = ball([100_000_000, -200_000_000, 300_000_000], 2_000_000_000, false);
    let mut b = ball([1_100_000_000, 1_000_000_000, -500_000_000], 500_000_000, true);
    a.resolve_collision(&mut b);
    assert_eq!(a.position, [-324_507_205, -709_408_646, 639_605_764]);
    assert_eq!(b.position, [1_100_000_000, 1_000_000_000, -500_000_000]);
    assert_eq!(Object::distance_between_spheres(&a, &b), 2_499_999_998);
}

#[test]
fn two_moving_spheres_of_equal_radius_share_the_depth_equally() {
    let mut a = ball([0, 0, 0], SCALE, false);
    let mut b = ball([1_500_000_000, 0, 0], 1_000_000_000, false);
    a.resolve_collision(&mut b);
    assert_eq!(a.position, [-250_000_000, 0, 0]);
    assert_eq!(b.position, [1_750_000_000, 0, 0]);
}

#[test]
fn two_moving_spheres_share_the_depth_by_radius() {
    let mut a = ball([0, 0, 0], SCALE, false);
    let mut b = ball([1_000_000_000, 2_000_000_000, 2_000_000_000], 3_000_000_000, false);
    a.resolve_collision(&mut b);
    assert_eq!(a.position, [-83_333_333, -166_666_666, -166_666_666]);
    assert_eq!(b.position, [1_249_999_999, 2_499_999_999, 2_499_999_999]);
    assert_eq!(Object::distance_between_spheres(&a, &b), 3_999_999_997);
}

#[test]
fn resolution_changes_positions_only() {
    let mut a = ball([0, 0, 0], SCALE, false);
    a.velocity = [1, 2, 3];
    a.angular_velocity = [4, 5, 6];
    a.orientation = [7, 8, 9, 10];
    let mut b = ball([1_000_000_000, 2_000_000_000, 2_000_000_000], 3_000_000_000, false);
    b.acceleration = [11, 12, 13];
    b.is_glass = true;
    let (a0, b0) = (a, b);
    a.resolve_collision(&mut b);
    assert!(a.position != a0.position && b.position != b0.position);
    a.position = a0.position;
    b.position = b0.position;
    assert!(a == a0);
    assert!(b == b0);
}

#[test]
fn two_static_spheres_stay_where_they_are() {
    let mut a = ball([0, 0, 0], SCALE, true);
    let mut b = ball([500_000_000, 0, 0], 1_000_000_000, true);
    let (a0, b0) = (a, b);
    a.resolve_collision(&mut b);
    assert!(a == a0 && b == b0);
}

#[test]
fn spheres_that_do_not_overlap_stay_where_they_are() {
    let mut a = ball([0, 0, 0], SCALE, false);
    let mut b = ball([2_000_000_000, 0, 0], 1_000_000_000, false);
    let (a0, b0) = (a, b);
    a.resolve_collision(&mut b);
    assert!(a == a0 && b == b0);
    let mut c = ball([0, 5_000_000_000, 0], 1_000_000_000, false);
    let c0 = c;
    a.resolve_collision(&mut c);
    assert!(a == a0 && c == c0);
}

#[test]
fn an_object_does_not_collide_with_its_equal() {
    let mut a = ball([0, 0, 0], SCALE, false);
    let mut b = a;
    a.resolve_collision(&mut b);
    assert!(a == b);
    assert_eq!(a.position, [0, 0, 0]);
}

#[test]
fn objects_with_the_same_centre_are_not_parted() {
    let mut a = ball([1_000_000_000, 2_000_000_000, 3_000_000_000], 1_000_000_000, false);
    let mut b = ball([1_000_000_000, 2_000_000_000, 3_000_000_000], 2_000_000_000, false);
    let (a0, b0) = (a, b);
    a.resolve_collision(&mut b);
    assert!(a == a0 && b == b0);
    let mut c = ball([1_000_000_000, 2_000_000_000, 3_000_000_000], 1_000_000_000, true);
    let c0 = c;
    a.resolve_collision(&mut c);
    assert!(a == a0 && c == c0);
}

#[test]
fn resolution_never_brings_centres_closer() {
    let placements: [([i64; 3], i64, [i64; 3], i64); 6] = [
        ([0, 0, 0], 1_000_000_000, [1_500_000_000, 0, 0], 1_000_000_000),
        ([0, 0, 0], 1_000_000_000, [1, 1, 1], 1_000_000_000),
        ([5, -7, 11], 3_000_000_000, [-400_000_000, 300_000_000, 1], 250_000_000),
        ([0, 0, 0], 1, [0, 0, 1], 1),
        ([i64::MAX - 10, 0, 0], 1_000_000_000, [i64::MAX, 0, 0], 1_000_000_000),
        ([i64::MIN + 3, i64::MIN, 0], 2_000_000_000, [i64::MIN, i64::MIN + 4, 0], 2_000_000_000),
    ];
    let kinds = [(false, false), (false, true), (true, false), (true, true)];
    for (pa, ra, pb, rb) in placements {
        for (sa, sb) in kinds {
            let mut a = ball(pa, ra, sa);
            let mut b = ball(pb, rb, sb);
            let before = squared_gap(&a, &b);
            a.resolve_collision(&mut b);
            assert!(squared_gap(&a, &b) >= before);
            assert!(!sa || a.position == pa);
            assert!(!sb || b.position == pb);
        }
    }
}

#[test]
fn a_resolution_leaves_the_spheres_touching() {
    let placements: [([i64; 3], i64, [i64; 3], i64); 10] = [
        ([500_000_000, 0, 0], 1_000_000_000, [0, 0, 0], 1_000_000_000),
        (
            [100_000_000, -200_000_000, 300_000_000],
            2_000_000_000,
            [1_100_000_000, 1_000_000_000, -500_000_000],
            500_000_000,
        ),
        ([0, 0, 0], 1_000_000_000, [1, 1, 1], 1_000_000_000),
        ([7, -3, 2], 1_000_000_000_000, [-900_000_000, 5, 123_456_789], 1_000_000_000_000),
        ([1_000_000_000_000_000, 0, 0], 3, [1_000_000_000_000_000, 1, 2], 4),
        ([0, 0, 0], 123_456_789, [0, 0, -1], 654_321_987),
        (
            [-5_000_000_000, 5_000_000_000, 0],
            9_000_000_000,
            [1_000_000_000, -2_000_000_000, 3_000_000_000],
            1_500_000_000,
        ),
        ([0, 0, 0], 1_000_000_000, [1, 0, 0], 1_000_000_000),
        ([0, 0, 0], 1_000_000_000, [-2, 3, -1], 250_000_000),
        ([9_300_000_000, 0, 0], 20_000_000_000, [-9_300_000_000, 1, 0], 20_000_000_000),
    ];
    let kinds = [(false, true), (true, false), (false, false)];
    for (pa, ra, pb, rb) in placements {
        for (sa, sb) in kinds {
            let mut a = ball(pa, ra, sa);
            let mut b = ball(pb, rb, sb);
            b.emission = 1;
            let depth = ra + rb - Object::distance_between_spheres(&a, &b);
            assert!(depth > 0);
            let slack = 6 * ((depth + ra + rb) / SCALE + 6);
            a.resolve_collision(&mut b);
            let left = ra + rb - Object::distance_between_spheres(&a, &b);
            assert!(-slack <= left && left <= slack);
            assert!(!sa || a.position == pa);
            assert!(!sb || b.position == pb);
        }
    }
}

#[test]
fn centres_one_stored_unit_apart_are_parted_along_a_unit_normal() {
    let mut a = ball([0, 0, 0], SCALE, false);
    let mut wall = ball([1, 1, 1], SCALE, true);
    a.resolve_collision(&mut wall);
    assert_eq!(a.position, [-1_154_700_537, -1_154_700_537, -1_154_700_537]);
    assert_eq!(wall.position, [1, 1, 1]);
    assert_eq!(Object::distance_between_spheres(&a, &wall), 1_999_999_999);

    let mut c = ball([0, 0, 0], SCALE, false);
    let mut d = ball([1, 1, 1], SCALE, false);
    d.emission = 1;
    c.resolve_collision(&mut d);
    assert_eq!(c.position, [-577_350_268, -577_350_268, -577_350_268]);
    assert_eq!(d.position, [577_350_269, 577_350_269, 577_350_269]);
    assert_eq!(Object::distance_between_spheres(&c, &d), 1_999_999_997);
}
