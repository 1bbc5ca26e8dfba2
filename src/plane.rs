//! Planes that spheres bounce off.
use vstd::prelude::*;

use crate::fixed::{fx_sub, lemma_mul_small, Fixed, SCALE};
use crate::sphere::Sphere;
use crate::vector::{v_add, v_dot, v_norm, v_normalize, v_scale, v_sub, Vec3};

verus! {

/// A plane through `point` with unit normal `normal`; spheres that bounce
/// off it keep the fraction `restitution` of their reflected velocity.
#[derive(Clone, Copy, PartialEq, Eq, Structural, Debug)]
pub struct Plane {
    pub point: Vec3,
    pub normal: Vec3,
    pub restitution: Fixed,
}

/// The mirror image of `v` in a plane of unit normal `n`:
/// `v - 2 n (v . n)`.
pub open spec fn reflect_spec(n: Vec3, v: Vec3) -> Vec3 {
    v_sub(v, v_scale(v_scale(n, Fixed { raw: 2_000_000i64 }), v_dot(v, n)))
}

/// The new position of a sphere that touches or has tunneled through the
/// plane during this tick, or `None` when there is no contact.
pub open spec fn contact_spec(p: Plane, s: Sphere) -> Option<Vec3> {
    let n = p.normal;
    let vd = v_dot(s.velocity, n);
    let prev = v_dot(v_sub(v_sub(s.position, s.velocity), p.point), n);
    let cur = v_dot(v_sub(s.position, p.point), n);
    let projection = v_scale(n, cur);
    let distance = v_norm(projection);
    if vd.raw > 0 {
        None
    } else if distance.raw < s.radius.raw {
        if cur.raw > 0 {
            Some(v_add(s.position, v_scale(n, fx_sub(s.radius, distance))))
        } else {
            Some(v_add(v_sub(s.position, projection), v_scale(n, s.radius)))
        }
    } else if vd.raw < 0 && cur.raw < 0 && prev.raw > 0 {
        Some(v_add(v_sub(s.position, projection), v_scale(n, s.radius)))
    } else {
        None
    }
}

impl Plane {
    /// A plane through `point`; `normal` is normalized.
    pub fn new(point: Vec3, normal: Vec3, restitution: Fixed) -> (r: Plane)
        ensures
            r == (Plane { point, normal: v_normalize(normal), restitution }),
    {
        Plane { point, normal: normal.normalize(), restitution }
    }

    /// Detects contact with a sphere that is not moving away from the
    /// plane: one that overlaps it is pushed out along the normal until it
    /// touches, and one that crossed it during this tick is put back on the
    /// front side. Returns whether there was contact.
    pub fn check_collision(&self, sphere: &mut Sphere) -> (r: bool)
        ensures
            match contact_spec(*self, *old(sphere)) {
                Some(pos) => r && *final(sphere) == (Sphere { position: pos, ..*old(sphere) }),
                None => !r && *final(sphere) == *old(sphere),
            },
    {
        let n = self.normal;
        let vd = sphere.velocity.dot(n);
        if vd.raw > 0 {
            return false;
        }
        let prev = sphere.position.sub(sphere.velocity).sub(self.point).dot(n);
        let cur = sphere.position.sub(self.point).dot(n);
        let projection = n.scale(cur);
        let distance = projection.norm();
        if distance.raw < sphere.radius.raw {
            if cur.raw > 0 {
                sphere.position = sphere.position.add(n.scale(sphere.radius.minus(distance)));
            } else {
                sphere.position = sphere.position.sub(projection).add(n.scale(sphere.radius));
            }
            true
        } else if vd.raw < 0 && cur.raw < 0 && prev.raw > 0 {
            sphere.position = sphere.position.sub(projection).add(n.scale(sphere.radius));
            true
        } else {
            false
        }
    }

    /// Reflects the sphere's velocity in the plane and scales it by the
    /// restitution.
    pub fn bounce_sphere(&self, sphere: &mut Sphere)
        ensures
            *final(sphere) == (Sphere {
                velocity: v_scale(reflect_spec(self.normal, old(sphere).velocity), self.restitution),
                ..*old(sphere)
            }),
    {
        sphere.velocity = self.reflect(sphere.velocity).scale(self.restitution);
    }

    /// The mirror image of a vector in the plane.
    pub fn reflect(&self, vector: Vec3) -> (r: Vec3)
        ensures
            r == reflect_spec(self.normal, vector),
    {
        vector.sub(self.normal.scale(Fixed::from_raw(2 * SCALE)).scale(vector.dot(self.normal)))
    }
}

/// Whether `n` is one of the six axis-aligned unit vectors.
pub open spec fn axis_unit(n: Vec3) -> bool {
    let (a, b, c) = (n.x.raw as int, n.y.raw as int, n.z.raw as int);
    (abs_is_one(a) && b == 0 && c == 0) || (a == 0 && abs_is_one(b) && c == 0) || (a == 0 && b == 0
        && abs_is_one(c))
}

pub open spec fn abs_is_one(a: int) -> bool {
    a == SCALE || a == -SCALE
}

/// Bouncing off a plane with an axis-aligned normal exactly reverses the
/// velocity's normal component when the restitution is one, and zeroes it
/// when the restitution is zero (for velocity components of at most half
/// the representable range).
pub proof fn lemma_bounce_normal_component(p: Plane, v: Vec3)
    requires
        axis_unit(p.normal),
        -0x3fff_ffff_ffff_ffff <= v.x.raw <= 0x3fff_ffff_ffff_ffff,
        -0x3fff_ffff_ffff_ffff <= v.y.raw <= 0x3fff_ffff_ffff_ffff,
        -0x3fff_ffff_ffff_ffff <= v.z.raw <= 0x3fff_ffff_ffff_ffff,
    ensures
        p.restitution.raw == SCALE ==> v_dot(v_scale(reflect_spec(p.normal, v), p.restitution), p.normal)
            == fx_sub(Fixed { raw: 0 }, v_dot(v, p.normal)),
        p.restitution.raw == 0 ==> v_dot(v_scale(reflect_spec(p.normal, v), p.restitution), p.normal).raw
            == 0,
{
    let n = p.normal;
    let e = p.restitution;
    let d = v_dot(v, n);
    let r = reflect_spec(n, v);
    let w = v_scale(r, e);
    let n2 = v_scale(n, Fixed { raw: 2_000_000i64 });
    let t = v_scale(n2, d);
    assert(n2.x.raw == 2 * n.x.raw && n2.y.raw == 2 * n.y.raw && n2.z.raw == 2 * n.z.raw) by {
        lemma_mul_small(n.x.raw as int);
        lemma_mul_small(n.y.raw as int);
        lemma_mul_small(n.z.raw as int);
    }
    if n.x.raw != 0 {
        assert(d.raw == if n.x.raw == SCALE { v.x.raw as int } else { -v.x.raw }) by {
            lemma_mul_small(v.x.raw as int);
            lemma_mul_small(v.y.raw as int);
            lemma_mul_small(v.z.raw as int);
        }
        assert(t.x.raw == 2 * v.x.raw && t.y.raw == 0 && t.z.raw == 0) by {
            lemma_mul_small(d.raw as int);
        }
        assert(r.x.raw == -v.x.raw && r.y == v.y && r.z == v.z);
    } else if n.y.raw != 0 {
        assert(d.raw == if n.y.raw == SCALE { v.y.raw as int } else { -v.y.raw }) by {
            lemma_mul_small(v.x.raw as int);
            lemma_mul_small(v.y.raw as int);
            lemma_mul_small(v.z.raw as int);
        }
        assert(t.y.raw == 2 * v.y.raw && t.x.raw == 0 && t.z.raw == 0) by {
            lemma_mul_small(d.raw as int);
        }
        assert(r.y.raw == -v.y.raw && r.x == v.x && r.z == v.z);
    } else {
        assert(d.raw == if n.z.raw == SCALE { v.z.raw as int } else { -v.z.raw }) by {
            lemma_mul_small(v.x.raw as int);
            lemma_mul_small(v.y.raw as int);
            lemma_mul_small(v.z.raw as int);
        }
        assert(t.z.raw == 2 * v.z.raw && t.x.raw == 0 && t.y.raw == 0) by {
            lemma_mul_small(d.raw as int);
        }
        assert(r.z.raw == -v.z.raw && r.x == v.x && r.y == v.y);
    }
    if e.raw == SCALE {
        assert(w == r) by {
            lemma_mul_small(r.x.raw as int);
            lemma_mul_small(r.y.raw as int);
            lemma_mul_small(r.z.raw as int);
        }
        assert(v_dot(w, n) == fx_sub(Fixed { raw: 0 }, d)) by {
            lemma_mul_small(r.x.raw as int);
            lemma_mul_small(r.y.raw as int);
            lemma_mul_small(r.z.raw as int);
        }
    } else if e.raw == 0 {
        assert(w.x.raw == 0 && w.y.raw == 0 && w.z.raw == 0) by {
            lemma_mul_small(r.x.raw as int);
            lemma_mul_small(r.y.raw as int);
            lemma_mul_small(r.z.raw as int);
        }
        lemma_mul_small(n.x.raw as int);
        lemma_mul_small(n.y.raw as int);
        lemma_mul_small(n.z.raw as int);
    }
}

} // verus!
