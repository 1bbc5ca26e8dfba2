use physics_kernel::collision::{hit_test, resolve_collision, resolve_collision_impulse};
use physics_kernel::config::{
    collision_response_registers, compile_formula, spring_force_registers, Config,
};
use physics_kernel::fixed::Fixed;
use physics_kernel::pairs::{CombinatePair, GetMutPair, Itertools};
use physics_kernel::plane::Plane;
use physics_kernel::softbody::{apply_spring_force, SoftBody};
use physics_kernel::sphere::Sphere;
use physics_kernel::vector::{Mat3, Vec3};
use physics_kernel::vm::VM;

fn num(x: f64) -> Fixed {
    Fixed::from_raw((x * 1_000_000.0).round() as i64)
}

fn v(x: f64, y: f64, z: f64) -> Vec3 {
    Vec3::new(num(x), num(y), num(z))
}

fn ball(x: f64, vx: f64) -> Sphere {
    let mut s = Sphere::new(num(1.0), num(1.0));
    s.position = v(x, 0.0, 0.0);
    s.velocity = v(vx, 0.0, 0.0);
    s
}

fn spring_vm() -> VM {
    compile_formula("0 - k * x - dampening * v", &spring_force_registers(), 4).unwrap()
}

fn response_vm() -> VM {
    compile_formula("(0 - p + other_p) / mass", &collision_response_registers(), 3).unwrap()
}

#[test]
fn spheres_collide_up_to_the_sum_of_radii() {
    let a = ball(0.0, 0.0);
    assert!(hit_test(&a, &ball(1.5, 0.0)).is_some());
    assert!(hit_test(&a, &ball(2.0, 0.0)).is_some());
    assert!(hit_test(&a, &ball(2.5, 0.0)).is_none());
    assert!(hit_test(&a, &ball(2.000001, 0.0)).is_none());
}

#[test]
fn contact_normal_and_translation() {
    let r = hit_test(&ball(0.0, 0.0), &ball(1.5, 0.0)).unwrap();
    assert_eq!(r.normal, v(-1.0, 0.0, 0.0));
    assert_eq!(r.mtv, v(-0.5, 0.0, 0.0));
}

#[test]
fn coincident_centers_have_no_direction() {
    let r = hit_test(&ball(1.0, 0.0), &ball(1.0, 0.0)).unwrap();
    assert_eq!(r.normal, Vec3::zero());
    assert_eq!(r.mtv, Vec3::zero());
}

#[test]
fn formula_response_exchanges_momenta() {
    let mut a = ball(0.0, 1.0);
    a.velocity = v(1.0, 0.5, 0.0);
    let mut b = ball(1.5, -1.0);
    b.velocity = v(-1.0, 0.0, 0.25);
    let res = hit_test(&a, &b).unwrap();
    resolve_collision(&mut a, &mut b, &res, &response_vm());
    assert_eq!(a.position, v(-0.25, 0.0, 0.0));
    assert_eq!(b.position, v(1.75, 0.0, 0.0));
    assert_eq!(a.velocity, v(-1.0, 0.5, 0.0));
    assert_eq!(b.velocity, v(1.0, 0.0, 0.25));
}

#[test]
fn fixed_spheres_do_not_move() {
    let mut a = ball(0.0, 1.0);
    a.fixed = true;
    let mut b = ball(1.5, -1.0);
    let res = hit_test(&a, &b).unwrap();
    resolve_collision(&mut a, &mut b, &res, &response_vm());
    assert_eq!(a.position, v(0.0, 0.0, 0.0));
    assert_eq!(a.velocity, v(1.0, 0.0, 0.0));
    assert_eq!(b.position, v(1.75, 0.0, 0.0));
}

#[test]
fn impulse_conserves_momentum_for_equal_masses() {
    let mut a = ball(0.0, 0.0);
    a.velocity = v(1.0, 0.5, 0.0);
    let mut b = ball(1.5, 0.0);
    b.velocity = v(-1.0, 0.0, 0.25);
    let before = a.velocity.add(b.velocity);
    let res = hit_test(&a, &b).unwrap();
    resolve_collision_impulse(&mut a, &mut b, &res, num(1.0));
    assert_eq!(a.velocity.add(b.velocity), before);
    assert_eq!(a.velocity, v(-1.0, 0.5, 0.0));
    assert_eq!(b.velocity, v(1.0, 0.0, 0.25));
    assert_eq!(a.angular_velocity, v(0.0, -0.3125, -0.625));
    assert_eq!(b.angular_velocity, v(0.0, -0.3125, -0.625));
}

#[test]
fn impulse_ignores_separating_spheres() {
    let mut a = ball(0.0, -1.0);
    let mut b = ball(1.5, 1.0);
    let res = hit_test(&a, &b).unwrap();
    resolve_collision_impulse(&mut a, &mut b, &res, num(1.0));
    assert_eq!(a.velocity, v(-1.0, 0.0, 0.0));
    assert_eq!(b.velocity, v(1.0, 0.0, 0.0));
}

#[test]
fn bounce_reverses_or_kills_the_normal_component() {
    let floor = Plane::new(v(0.0, 0.0, 0.0), v(0.0, 2.0, 0.0), num(1.0));
    assert_eq!(floor.normal, v(0.0, 1.0, 0.0));
    let mut s = Sphere::new(num(1.0), num(1.0));
    s.velocity = v(0.3, -2.0, 0.1);
    floor.bounce_sphere(&mut s);
    assert_eq!(s.velocity, v(0.3, 2.0, 0.1));
    let dead = Plane::new(v(0.0, 0.0, 0.0), v(0.0, 1.0, 0.0), num(0.0));
    dead.bounce_sphere(&mut s);
    assert_eq!(s.velocity.dot(dead.normal), num(0.0));
}

#[test]
fn reflect_mirrors_vectors() {
    let wall = Plane::new(v(10.0, 0.0, 0.0), v(-1.0, 0.0, 0.0), num(1.0));
    assert_eq!(wall.reflect(v(2.0, 3.0, -1.0)), v(-2.0, 3.0, -1.0));
}

#[test]
fn overlapping_sphere_is_pushed_out() {
    let floor = Plane::new(v(0.0, 0.0, 0.0), v(0.0, 1.0, 0.0), num(1.0));
    let mut s = Sphere::new(num(1.0), num(1.0));
    s.position = v(3.0, 0.5, 0.0);
    s.velocity = v(0.0, -0.1, 0.0);
    assert!(floor.check_collision(&mut s));
    assert_eq!(s.position, v(3.0, 1.0, 0.0));
    s.position = v(3.0, 0.5, 0.0);
    s.velocity = v(0.0, 0.1, 0.0);
    assert!(!floor.check_collision(&mut s));
    assert_eq!(s.position, v(3.0, 0.5, 0.0));
}

#[test]
fn tunneled_sphere_is_put_back() {
    let floor = Plane::new(v(0.0, 0.0, 0.0), v(0.0, 1.0, 0.0), num(1.0));
    let mut s = Sphere::new(num(0.1), num(1.0));
    s.position = v(0.0, -0.5, 0.0);
    s.velocity = v(0.0, -1.0, 0.0);
    assert!(floor.check_collision(&mut s));
    assert_eq!(s.position, v(0.0, 0.1, 0.0));
}

#[test]
fn sphere_update_moves_and_turns() {
    let mut s = Sphere::new(num(1.0), num(1.0));
    s.velocity = v(0.5, -1.0, 2.0);
    s.update();
    assert_eq!(s.position, v(0.5, -1.0, 2.0));
    assert_eq!(s.rotation, Mat3::identity());
    s.angular_velocity = v(0.0, 0.0, 1.570796);
    s.update();
    let r = s.rotation;
    let close = |a: Fixed, b: f64| (a.raw - num(b).raw).abs() <= 3;
    assert!(close(r.r0.x, 0.0) && close(r.r0.y, -1.0) && close(r.r0.z, 0.0), "{:?}", r);
    assert!(close(r.r1.x, 1.0) && close(r.r1.y, 0.0) && close(r.r2.z, 1.0), "{:?}", r);
}

#[test]
fn lattice_shape() {
    let body = SoftBody::new(v(0.0, 2.0, 20.0), num(2.0));
    let pts = body.get_points();
    assert_eq!(pts.len(), 343);
    assert_eq!(pts[0].position, v(-1.999998, 0.000002, 18.000002));
    assert!(!pts[0].fixed);
    assert!(pts[6].fixed);
    assert_eq!(pts[171].position, v(0.0, 2.0, 20.0));
    assert_eq!(body.get_connections().len(), 3 * 6 * 49);
    for c in body.get_connections() {
        assert!(c.lhs < c.rhs && c.rhs < 343);
        assert_eq!(c.rest_length, num(0.666666));
    }
}

#[test]
fn rest_lattice_has_no_spring_force() {
    let mut body = SoftBody::new(v(0.0, 2.0, 20.0), num(2.0));
    body.accumulate_spring_forces(num(0.01), num(0.03), &spring_vm());
    for p in body.get_points() {
        assert_eq!(p.force, Vec3::zero());
    }
}

#[test]
fn stretched_spring_pulls_both_ends() {
    let mut a = Sphere::new(num(0.1), num(1.0));
    let mut b = Sphere::new(num(0.1), num(1.0));
    b.position = v(2.0, 0.0, 0.0);
    apply_spring_force(&mut a, &mut b, num(1.0), num(0.5), num(0.0), &spring_vm());
    assert_eq!(a.force, v(0.5, 0.0, 0.0));
    assert_eq!(b.force, v(-0.5, 0.0, 0.0));
}

#[test]
fn coincident_points_exert_no_spring_force() {
    let mut a = Sphere::new(num(0.1), num(1.0));
    let mut b = Sphere::new(num(0.1), num(1.0));
    a.position = v(1.0, 1.0, 1.0);
    b.position = v(1.0, 1.0, 1.0);
    b.velocity = v(0.5, -0.25, 2.0);
    apply_spring_force(&mut a, &mut b, num(1.0), num(0.5), num(0.3), &spring_vm());
    assert_eq!(a.force, Vec3::zero());
    assert_eq!(b.force, Vec3::zero());
}

#[test]
fn configured_policy_picks_the_response() {
    let mut c = Config::new();
    let mut a = ball(0.0, 0.0);
    a.velocity = v(1.0, 0.5, 0.0);
    let mut b = ball(1.5, 0.0);
    b.velocity = v(-1.0, 0.0, 0.25);
    c.apply_line("impulse_response = 1").unwrap();
    let res = hit_test(&a, &b).unwrap();
    c.resolve(&mut a, &mut b, &res);
    assert_eq!(a.velocity, v(-1.0, 0.5, 0.0));
    assert_eq!(a.angular_velocity, v(0.0, -0.3125, -0.625));
}

#[test]
fn rest_lattice_stays_put_without_gravity() {
    let mut body = SoftBody::new(v(0.0, 2.0, 20.0), num(2.0));
    let before: Vec<Sphere> = body.get_points().clone();
    body.update(num(0.0), num(0.01), num(0.03), &spring_vm());
    assert_eq!(body.get_points(), &before);
}

#[test]
fn soft_body_update_integrates_free_points() {
    let mut body = SoftBody::new(v(0.0, 2.0, 20.0), num(2.0));
    let before = body.get_points()[0];
    body.update(num(-0.01), num(0.01), num(0.03), &spring_vm());
    let p = body.get_points()[0];
    assert_eq!(p.position, before.position);
    assert_eq!(p.velocity, v(0.0, -0.0097, 0.0));
    let top = body.get_points()[6];
    assert_eq!(top.velocity, Vec3::zero());
}

#[test]
fn pair_access_by_index() {
    let mut xs = vec![1, 2, 3];
    {
        let (a, b) = xs.get_pair_mut(2, 0);
        *a += 10;
        *b += 20;
    }
    assert_eq!(xs, vec![21, 2, 13]);
}

#[test]
fn all_pairs_in_order() {
    let mut it = CombinatePair::new(vec![1, 2, 3]);
    assert_eq!(it.next(), Some((1, 2)));
    assert_eq!(it.next(), Some((1, 3)));
    assert_eq!(it.next(), Some((2, 3)));
    assert_eq!(it.next(), None);
    assert_eq!(it.next(), None);
    assert_eq!((it.i, it.j), (1, 3));
    let mut it = vec![7].combinate_pair();
    assert_eq!(it.next(), None);
    let mut it = vec![4, 5].combinate_pair();
    assert_eq!(it.next(), Some((4, 5)));
    assert_eq!(it.next(), None);
}
