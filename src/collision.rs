//! Sphere-sphere collision detection and impulse resolution.
use vstd::prelude::*;

use crate::fixed::{fx_add, fx_div, fx_mul, fx_sub, Fixed, SCALE};
use crate::sphere::Sphere;
use crate::vector::{
    one, sq_len, v_add, v_cross, v_dot, v_norm, v_normalize, v_scale, v_sub, Vec3,
};
use crate::vm::{formula_value, loads_below, VM};

verus! {

/// The contact data of two overlapping spheres: the unit normal pointing
/// from the second sphere to the first, and the minimum translation vector
/// that separates them.
#[derive(Clone, Copy, PartialEq, Eq, Structural, Debug)]
pub struct CollisionResult {
    pub normal: Vec3,
    pub mtv: Vec3,
}

/// Two spheres collide when the distance between their centers is at most
/// the sum of their radii, compared exactly on squares; the difference of
/// the centers saturates like every other vector operation.
pub open spec fn colliding(a: Sphere, b: Sphere) -> bool {
    let rs = a.radius.raw + b.radius.raw;
    rs >= 0 && sq_len(v_sub(a.position, b.position)) <= rs * rs
}

pub open spec fn hit_spec(a: Sphere, b: Sphere) -> Option<CollisionResult> {
    if colliding(a, b) {
        let d = v_sub(a.position, b.position);
        let n = v_normalize(d);
        Some(
            CollisionResult {
                normal: n,
                mtv: v_scale(n, fx_sub(fx_add(a.radius, b.radius), v_norm(d))),
            },
        )
    } else {
        None
    }
}

/// Detects a collision of two spheres. Coincident centers give a zero
/// normal and a zero translation, so that resolution has no effect.
pub fn hit_test(lhs: &Sphere, rhs: &Sphere) -> (r: Option<CollisionResult>)
    ensures
        r == hit_spec(*lhs, *rhs),
{
    let d = lhs.position.sub(rhs.position);
    let rs = lhs.radius.raw as i128 + rhs.radius.raw as i128;
    if rs < 0 {
        return None;
    }
    let rsu = rs as u128;
    assert(rsu * rsu <= 0xffff_ffff_ffff_ffff_ffff_ffff_ffff_ffffu128) by (nonlinear_arith)
        requires
            rsu <= 0xffff_ffff_ffff_fffeu128,
    ;
    if d.sq_len() <= rsu * rsu {
        let n = d.normalize();
        let depth = lhs.radius.plus(rhs.radius).minus(d.norm());
        Some(CollisionResult { normal: n, mtv: n.scale(depth) })
    } else {
        None
    }
}

/// Position after the share of the separation that falls to a sphere;
/// fixed spheres do not move.
pub open spec fn corrected(s: Sphere, mtv: Vec3, total: Fixed, toward: bool) -> Vec3 {
    if s.fixed {
        s.position
    } else if toward {
        v_add(s.position, v_scale(mtv, fx_div(s.radius, total)))
    } else {
        v_sub(s.position, v_scale(mtv, fx_div(s.radius, total)))
    }
}

fn correct_positions(lhs: &mut Sphere, rhs: &mut Sphere, res: &CollisionResult)
    ensures
        *final(lhs) == (Sphere {
            position: corrected(
                *old(lhs),
                res.mtv,
                fx_add(old(lhs).radius, old(rhs).radius),
                true,
            ),
            ..*old(lhs)
        }),
        *final(rhs) == (Sphere {
            position: corrected(
                *old(rhs),
                res.mtv,
                fx_add(old(lhs).radius, old(rhs).radius),
                false,
            ),
            ..*old(rhs)
        }),
{
    let total = lhs.radius.plus(rhs.radius);
    if !lhs.fixed {
        lhs.position = lhs.position.add(res.mtv.scale(lhs.radius.divide(total)));
    }
    if !rhs.fixed {
        rhs.position = rhs.position.sub(res.mtv.scale(rhs.radius.divide(total)));
    }
}

/// Momentum along the contact normal.
pub open spec fn normal_momentum(s: Sphere, n: Vec3) -> Fixed {
    fx_mul(v_dot(s.velocity, n), s.mass)
}

/// Velocity after the formula-driven response: the formula maps
/// `(p_self, p_other, mass_self)` to a change of speed along the normal.
pub open spec fn formula_velocity(s: Sphere, o: Sphere, n: Vec3, mac: VM) -> Vec3 {
    if s.fixed {
        s.velocity
    } else {
        v_add(
            s.velocity,
            v_scale(
                n,
                formula_value(mac, seq![normal_momentum(s, n), normal_momentum(o, n), s.mass]),
            ),
        )
    }
}

/// Resolves a detected collision with a compiled response formula whose
/// registers are `p`, `other_p` and `mass`, in that order: positions are
/// separated in proportion to the radii, then each free sphere's velocity
/// changes along the normal by the formula's value.
pub fn resolve_collision(lhs: &mut Sphere, rhs: &mut Sphere, res: &CollisionResult, mac: &VM)
    requires
        mac.balanced(),
        loads_below(mac.program(), 3),
    ensures
        *final(lhs) == (Sphere {
            position: corrected(
                *old(lhs),
                res.mtv,
                fx_add(old(lhs).radius, old(rhs).radius),
                true,
            ),
            velocity: formula_velocity(*old(lhs), *old(rhs), res.normal, *mac),
            ..*old(lhs)
        }),
        *final(rhs) == (Sphere {
            position: corrected(
                *old(rhs),
                res.mtv,
                fx_add(old(lhs).radius, old(rhs).radius),
                false,
            ),
            velocity: formula_velocity(*old(rhs), *old(lhs), res.normal, *mac),
            ..*old(rhs)
        }),
{
    correct_positions(lhs, rhs, res);
    let n = res.normal;
    let p_lhs = lhs.velocity.dot(n).times(lhs.mass);
    let p_rhs = rhs.velocity.dot(n).times(rhs.mass);
    let data = vec![p_lhs, p_rhs, lhs.mass];
    let d_lhs = mac.run(&data);
    let data = vec![p_rhs, p_lhs, rhs.mass];
    let d_rhs = mac.run(&data);
    if !lhs.fixed {
        lhs.velocity = lhs.velocity.add(n.scale(d_lhs));
    }
    if !rhs.fixed {
        rhs.velocity = rhs.velocity.add(n.scale(d_rhs));
    }
}

/// Inverse mass; zero for a fixed sphere.
pub open spec fn inv_mass(s: Sphere) -> Fixed {
    if s.fixed {
        Fixed { raw: 0 }
    } else {
        fx_div(one(), s.mass)
    }
}

/// Normal component of the relative velocity of `a` with respect to `b`.
pub open spec fn approach_speed(a: Sphere, b: Sphere, n: Vec3) -> Fixed {
    v_dot(v_sub(a.velocity, b.velocity), n)
}

/// Whether the built-in response acts: the spheres approach along the
/// normal and at least one of them is free.
pub open spec fn impulse_acts(a: Sphere, b: Sphere, n: Vec3) -> bool {
    approach_speed(a, b, n).raw < 0 && fx_add(inv_mass(a), inv_mass(b)).raw != 0
}

/// Magnitude of the normal impulse, `-(1 + e) v_n / (1/m_a + 1/m_b)`.
pub open spec fn impulse_magnitude(a: Sphere, b: Sphere, n: Vec3, e: Fixed) -> Fixed {
    fx_div(
        fx_mul(fx_sub(Fixed { raw: 0 }, fx_add(one(), e)), approach_speed(a, b, n)),
        fx_add(inv_mass(a), inv_mass(b)),
    )
}

/// The tangential impulse on `a` that would stop the sliding of the contact
/// (`-v_t / (1/m_a + 1/m_b)`, rotation not counted).
pub open spec fn tangent_impulse(a: Sphere, b: Sphere, n: Vec3) -> Vec3 {
    let vrel = v_sub(a.velocity, b.velocity);
    let vt = v_sub(vrel, v_scale(n, v_dot(vrel, n)));
    v_scale(vt, fx_div(Fixed { raw: -1_000_000i64 }, fx_add(inv_mass(a), inv_mass(b))))
}

/// Change of angular velocity per unit of `n x J_t`: minus the contact
/// offset over the moment of inertia `2/5 m r^2`, that is `-(5/2) / (m r)`.
pub open spec fn spin_gain(s: Sphere) -> Fixed {
    fx_sub(Fixed { raw: 0 }, fx_div(fx_mul(inv_mass(s), Fixed { raw: 2_500_000 }), s.radius))
}

/// Linear velocities after the built-in response.
pub open spec fn impulse_velocities(a: Sphere, b: Sphere, n: Vec3, e: Fixed) -> (Vec3, Vec3) {
    if impulse_acts(a, b, n) {
        let j = impulse_magnitude(a, b, n, e);
        (
            v_add(a.velocity, v_scale(n, fx_mul(j, inv_mass(a)))),
            v_sub(b.velocity, v_scale(n, fx_mul(j, inv_mass(b)))),
        )
    } else {
        (a.velocity, b.velocity)
    }
}

/// Angular velocities after the built-in response.
pub open spec fn impulse_spins(a: Sphere, b: Sphere, n: Vec3) -> (Vec3, Vec3) {
    if impulse_acts(a, b, n) {
        let t = v_cross(n, tangent_impulse(a, b, n));
        (
            v_add(a.angular_velocity, v_scale(t, spin_gain(a))),
            v_add(b.angular_velocity, v_scale(t, spin_gain(b))),
        )
    } else {
        (a.angular_velocity, b.angular_velocity)
    }
}

fn inv_mass_exec(s: &Sphere) -> (r: Fixed)
    ensures
        r == inv_mass(*s),
{
    if s.fixed {
        Fixed::zero()
    } else {
        Fixed::from_raw(SCALE).divide(s.mass)
    }
}

/// Resolves a detected collision with the built-in impulse response of
/// restitution `e`: positions are separated in proportion to the radii;
/// when the spheres approach, the normal impulse changes the linear
/// velocities and the tangential one the angular velocities.
pub fn resolve_collision_impulse(lhs: &mut Sphere, rhs: &mut Sphere, res: &CollisionResult, e: Fixed)
    ensures
        *final(lhs) == (Sphere {
            position: corrected(
                *old(lhs),
                res.mtv,
                fx_add(old(lhs).radius, old(rhs).radius),
                true,
            ),
            velocity: impulse_velocities(*old(lhs), *old(rhs), res.normal, e).0,
            angular_velocity: impulse_spins(*old(lhs), *old(rhs), res.normal).0,
            ..*old(lhs)
        }),
        *final(rhs) == (Sphere {
            position: corrected(
                *old(rhs),
                res.mtv,
                fx_add(old(lhs).radius, old(rhs).radius),
                false,
            ),
            velocity: impulse_velocities(*old(lhs), *old(rhs), res.normal, e).1,
            angular_velocity: impulse_spins(*old(lhs), *old(rhs), res.normal).1,
            ..*old(rhs)
        }),
{
    let ghost a = *lhs;
    let ghost b = *rhs;
    correct_positions(lhs, rhs, res);
    let n = res.normal;
    let inv_a = inv_mass_exec(lhs);
    let inv_b = inv_mass_exec(rhs);
    let inv = inv_a.plus(inv_b);
    let vrel = lhs.velocity.sub(rhs.velocity);
    let vn = vrel.dot(n);
    if vn.raw < 0 && inv.raw != 0 {
        let zero = Fixed::zero();
        let one = Fixed::from_raw(SCALE);
        let j = zero.minus(one.plus(e)).times(vn).divide(inv);
        let vt = vrel.sub(n.scale(vn));
        let jt = vt.scale(Fixed::from_raw(-SCALE).divide(inv));
        let t = n.cross(jt);
        let five_halves = Fixed::from_raw(2_500_000);
        let gain_a = zero.minus(inv_a.times(five_halves).divide(lhs.radius));
        let gain_b = zero.minus(inv_b.times(five_halves).divide(rhs.radius));
        lhs.velocity = lhs.velocity.add(n.scale(j.times(inv_a)));
        rhs.velocity = rhs.velocity.sub(n.scale(j.times(inv_b)));
        lhs.angular_velocity = lhs.angular_velocity.add(t.scale(gain_a));
        rhs.angular_velocity = rhs.angular_velocity.add(t.scale(gain_b));
    }
}

/// Both spheres after the formula-driven response.
pub open spec fn formula_outcome(a: Sphere, b: Sphere, res: CollisionResult, mac: VM) -> (Sphere, Sphere) {
    let total = fx_add(a.radius, b.radius);
    (
        Sphere {
            position: corrected(a, res.mtv, total, true),
            velocity: formula_velocity(a, b, res.normal, mac),
            ..a
        },
        Sphere {
            position: corrected(b, res.mtv, total, false),
            velocity: formula_velocity(b, a, res.normal, mac),
            ..b
        },
    )
}

/// Both spheres after the built-in impulse response of restitution `e`.
pub open spec fn impulse_outcome(a: Sphere, b: Sphere, res: CollisionResult, e: Fixed) -> (Sphere, Sphere) {
    let total = fx_add(a.radius, b.radius);
    (
        Sphere {
            position: corrected(a, res.mtv, total, true),
            velocity: impulse_velocities(a, b, res.normal, e).0,
            angular_velocity: impulse_spins(a, b, res.normal).0,
            ..a
        },
        Sphere {
            position: corrected(b, res.mtv, total, false),
            velocity: impulse_velocities(a, b, res.normal, e).1,
            angular_velocity: impulse_spins(a, b, res.normal).1,
            ..b
        },
    )
}

/// A raw component sum that stays inside the `i64` range.
pub open spec fn fits(x: int) -> bool {
    i64::MIN <= x <= i64::MAX
}

/// With two free spheres of equal mass, the built-in response conserves
/// the total linear momentum (and so its component along the contact
/// normal): the sum of the two velocities is the same after as before,
/// unless a velocity component leaves the representable range.
pub proof fn lemma_impulse_conserves_momentum(a: Sphere, b: Sphere, n: Vec3, e: Fixed)
    requires
        a.mass == b.mass,
        !a.fixed,
        !b.fixed,
        ({
            let (va, vb) = impulse_velocities(a, b, n, e);
            let d = v_scale(n, fx_mul(impulse_magnitude(a, b, n, e), inv_mass(a)));
            impulse_acts(a, b, n) ==> fits(a.velocity.x.raw + d.x.raw) && fits(a.velocity.y.raw + d.y.raw)
                && fits(a.velocity.z.raw + d.z.raw) && fits(b.velocity.x.raw - d.x.raw) && fits(
                b.velocity.y.raw - d.y.raw,
            ) && fits(b.velocity.z.raw - d.z.raw)
        }),
    ensures
        ({
            let (va, vb) = impulse_velocities(a, b, n, e);
            &&& v_add(va, vb) == v_add(a.velocity, b.velocity)
            &&& v_dot(v_add(va, vb), n) == v_dot(v_add(a.velocity, b.velocity), n)
        }),
{
}

} // verus!
