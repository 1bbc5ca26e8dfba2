//! Rigid spheres and their per-tick integration.
use vstd::prelude::*;

use crate::fixed::Fixed;
use crate::vector::{m_identity, m_mul, rot_of, v_add, v_zero, Mat3, Vec3};

verus! {

/// A rigid sphere. A fixed sphere has infinite effective mass: collisions
/// and integration leave it where it is.
#[derive(Clone, Copy, PartialEq, Eq, Structural, Debug)]
pub struct Sphere {
    pub mass: Fixed,
    pub radius: Fixed,
    pub position: Vec3,
    pub velocity: Vec3,
    /// Accumulated orientation.
    pub rotation: Mat3,
    pub angular_velocity: Vec3,
    /// Force accumulated during the current tick.
    pub force: Vec3,
    pub fixed: bool,
}

impl Sphere {
    /// A positive radius, and a positive mass unless the sphere is fixed.
    pub open spec fn wf(&self) -> bool {
        self.radius.raw > 0 && (self.fixed || self.mass.raw > 0)
    }

    /// A free sphere at rest at the origin.
    pub fn new(radius: Fixed, mass: Fixed) -> (r: Sphere)
        ensures
            r.radius == radius,
            r.mass == mass,
            r.position == v_zero(),
            r.velocity == v_zero(),
            r.rotation == m_identity(),
            r.angular_velocity == v_zero(),
            r.force == v_zero(),
            !r.fixed,
            radius.raw > 0 && mass.raw > 0 ==> r.wf(),
    {
        Sphere {
            mass,
            radius,
            position: Vec3::zero(),
            velocity: Vec3::zero(),
            rotation: Mat3::identity(),
            angular_velocity: Vec3::zero(),
            force: Vec3::zero(),
            fixed: false,
        }
    }

    /// One tick: the orientation is composed with the rotation that the
    /// angular velocity gives, and the position advances by the velocity.
    pub fn update(&mut self)
        ensures
            *final(self) == (Sphere {
                rotation: m_mul(rot_of(old(self).angular_velocity), old(self).rotation),
                position: v_add(old(self).position, old(self).velocity),
                ..*old(self)
            }),
    {
        let delta = Mat3::rotation(self.angular_velocity);
        self.rotation = delta.mul(self.rotation);
        self.position = self.position.add(self.velocity);
    }
}

} // verus!
