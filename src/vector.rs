//! Three-dimensional fixed-point vectors and rotation matrices.
use vstd::prelude::*;

use crate::fixed::{
    clamp, fx, fx_add, fx_cos, fx_mul, fx_sin, fx_sub, isqrt, isqrt_u128, tdiv, Fixed,
    SCALE,
};

verus! {

#[derive(Clone, Copy, PartialEq, Eq, Structural, Debug)]
pub struct Vec3 {
    pub x: Fixed,
    pub y: Fixed,
    pub z: Fixed,
}

/// A 3x3 matrix given by its rows.
#[derive(Clone, Copy, PartialEq, Eq, Structural, Debug)]
pub struct Mat3 {
    pub r0: Vec3,
    pub r1: Vec3,
    pub r2: Vec3,
}

pub open spec fn v_new(x: Fixed, y: Fixed, z: Fixed) -> Vec3 {
    Vec3 { x, y, z }
}

pub open spec fn v_zero() -> Vec3 {
    Vec3 { x: Fixed { raw: 0 }, y: Fixed { raw: 0 }, z: Fixed { raw: 0 } }
}

pub open spec fn v_add(a: Vec3, b: Vec3) -> Vec3 {
    Vec3 { x: fx_add(a.x, b.x), y: fx_add(a.y, b.y), z: fx_add(a.z, b.z) }
}

pub open spec fn v_sub(a: Vec3, b: Vec3) -> Vec3 {
    Vec3 { x: fx_sub(a.x, b.x), y: fx_sub(a.y, b.y), z: fx_sub(a.z, b.z) }
}

/// Each component multiplied by `k`.
pub open spec fn v_scale(a: Vec3, k: Fixed) -> Vec3 {
    Vec3 { x: fx_mul(a.x, k), y: fx_mul(a.y, k), z: fx_mul(a.z, k) }
}

pub open spec fn v_dot(a: Vec3, b: Vec3) -> Fixed {
    fx_add(fx_add(fx_mul(a.x, b.x), fx_mul(a.y, b.y)), fx_mul(a.z, b.z))
}

pub open spec fn v_cross(a: Vec3, b: Vec3) -> Vec3 {
    Vec3 {
        x: fx_sub(fx_mul(a.y, b.z), fx_mul(a.z, b.y)),
        y: fx_sub(fx_mul(a.z, b.x), fx_mul(a.x, b.z)),
        z: fx_sub(fx_mul(a.x, b.y), fx_mul(a.y, b.x)),
    }
}

/// Exact squared length in raw units.
pub open spec fn sq_len(a: Vec3) -> int {
    a.x.raw * a.x.raw + a.y.raw * a.y.raw + a.z.raw * a.z.raw
}

/// Length, rounded down.
pub open spec fn v_norm(a: Vec3) -> Fixed {
    fx(clamp(isqrt(sq_len(a))))
}

/// The unit vector along `a`; the zero vector has no direction and stays
/// zero.
pub open spec fn v_normalize(a: Vec3) -> Vec3 {
    let n = v_norm(a).raw as int;
    if n == 0 {
        v_zero()
    } else {
        Vec3 {
            x: fx(clamp(tdiv(a.x.raw * SCALE, n))),
            y: fx(clamp(tdiv(a.y.raw * SCALE, n))),
            z: fx(clamp(tdiv(a.z.raw * SCALE, n))),
        }
    }
}

pub open spec fn one() -> Fixed {
    Fixed { raw: SCALE }
}

pub open spec fn m_identity() -> Mat3 {
    Mat3 {
        r0: v_new(one(), Fixed { raw: 0 }, Fixed { raw: 0 }),
        r1: v_new(Fixed { raw: 0 }, one(), Fixed { raw: 0 }),
        r2: v_new(Fixed { raw: 0 }, Fixed { raw: 0 }, one()),
    }
}

pub open spec fn m_row_times(r: Vec3, b: Mat3) -> Vec3 {
    Vec3 {
        x: v_dot(r, v_new(b.r0.x, b.r1.x, b.r2.x)),
        y: v_dot(r, v_new(b.r0.y, b.r1.y, b.r2.y)),
        z: v_dot(r, v_new(b.r0.z, b.r1.z, b.r2.z)),
    }
}

/// The matrix product `a * b`.
pub open spec fn m_mul(a: Mat3, b: Mat3) -> Mat3 {
    Mat3 { r0: m_row_times(a.r0, b), r1: m_row_times(a.r1, b), r2: m_row_times(a.r2, b) }
}

/// Diagonal entry `(i, i)` of the rotation `I + s K + c (u u^T - I)` about the unit
/// axis `u`, where `K` is the cross-product matrix of `u`.
pub open spec fn rot_diag(ui: Fixed, c: Fixed) -> Fixed {
    fx_add(one(), fx_mul(c, fx_sub(fx_mul(ui, ui), one())))
}

/// Off-diagonal entry `c ui uj + s uk` (or `- s uk`) of the same rotation.
pub open spec fn rot_off(ui: Fixed, uj: Fixed, uk: Fixed, s: Fixed, c: Fixed, plus: bool) -> Fixed {
    let base = fx_mul(c, fx_mul(ui, uj));
    if plus {
        fx_add(base, fx_mul(s, uk))
    } else {
        fx_sub(base, fx_mul(s, uk))
    }
}

/// The rotation by the angle `|w|` about the axis `w` (Rodrigues' formula);
/// the identity for a zero `w`.
pub open spec fn rot_of(w: Vec3) -> Mat3 {
    let theta = v_norm(w);
    if theta.raw == 0 {
        m_identity()
    } else {
        let u = v_normalize(w);
        let s = fx_sin(theta);
        let c = fx_sub(one(), fx_cos(theta));
        Mat3 {
            r0: v_new(rot_diag(u.x, c), rot_off(u.x, u.y, u.z, s, c, false), rot_off(u.x, u.z, u.y, s, c, true)),
            r1: v_new(rot_off(u.x, u.y, u.z, s, c, true), rot_diag(u.y, c), rot_off(u.y, u.z, u.x, s, c, false)),
            r2: v_new(rot_off(u.x, u.z, u.y, s, c, false), rot_off(u.y, u.z, u.x, s, c, true), rot_diag(u.z, c)),
        }
    }
}

fn sq_u128(v: i64) -> (r: u128)
    ensures
        r == v * v,
        r <= 0x4000_0000_0000_0000_0000_0000_0000_0000u128,
{
    let a: u128 = if v < 0 {
        (-(v as i128)) as u128
    } else {
        v as u128
    };
    assert(a * a <= 0x8000_0000_0000_0000u128 * 0x8000_0000_0000_0000u128) by (nonlinear_arith)
        requires
            a <= 0x8000_0000_0000_0000u128,
    ;
    assert(a * a == v * v) by (nonlinear_arith)
        requires
            a == v || a == -v,
    ;
    a * a
}

impl Vec3 {
    pub fn new(x: Fixed, y: Fixed, z: Fixed) -> (r: Vec3)
        ensures
            r == v_new(x, y, z),
    {
        Vec3 { x, y, z }
    }

    pub fn zero() -> (r: Vec3)
        ensures
            r == v_zero(),
    {
        Vec3 { x: Fixed::zero(), y: Fixed::zero(), z: Fixed::zero() }
    }

    pub fn add(self, b: Vec3) -> (r: Vec3)
        ensures
            r == v_add(self, b),
    {
        Vec3 { x: self.x.plus(b.x), y: self.y.plus(b.y), z: self.z.plus(b.z) }
    }

    pub fn sub(self, b: Vec3) -> (r: Vec3)
        ensures
            r == v_sub(self, b),
    {
        Vec3 { x: self.x.minus(b.x), y: self.y.minus(b.y), z: self.z.minus(b.z) }
    }

    pub fn scale(self, k: Fixed) -> (r: Vec3)
        ensures
            r == v_scale(self, k),
    {
        Vec3 { x: self.x.times(k), y: self.y.times(k), z: self.z.times(k) }
    }

    pub fn dot(self, b: Vec3) -> (r: Fixed)
        ensures
            r == v_dot(self, b),
    {
        self.x.times(b.x).plus(self.y.times(b.y)).plus(self.z.times(b.z))
    }

    pub fn cross(self, b: Vec3) -> (r: Vec3)
        ensures
            r == v_cross(self, b),
    {
        Vec3 {
            x: self.y.times(b.z).minus(self.z.times(b.y)),
            y: self.z.times(b.x).minus(self.x.times(b.z)),
            z: self.x.times(b.y).minus(self.y.times(b.x)),
        }
    }

    /// Exact squared length in raw units.
    pub fn sq_len(self) -> (r: u128)
        ensures
            r == sq_len(self),
    {
        sq_u128(self.x.raw) + sq_u128(self.y.raw) + sq_u128(self.z.raw)
    }

    pub fn norm(self) -> (r: Fixed)
        ensures
            r == v_norm(self),
            r.raw >= 0,
    {
        let s = isqrt_u128(self.sq_len());
        if s > i64::MAX as u128 {
            Fixed::from_raw(i64::MAX)
        } else {
            Fixed::from_raw(s as i64)
        }
    }

    pub fn normalize(self) -> (r: Vec3)
        ensures
            r == v_normalize(self),
    {
        let n = self.norm();
        if n.raw == 0 {
            Vec3::zero()
        } else {
            Vec3 { x: unit_part(self.x, n), y: unit_part(self.y, n), z: unit_part(self.z, n) }
        }
    }
}

fn unit_part(c: Fixed, n: Fixed) -> (r: Fixed)
    requires
        n.raw > 0,
    ensures
        r == fx(clamp(tdiv(c.raw * SCALE, n.raw as int))),
{
    assert(-0x8000_0000_0000_0000 * 1_000_000 <= c.raw * 1_000_000 <= 0x8000_0000_0000_0000 * 1_000_000)
        by (nonlinear_arith)
        requires
            -0x8000_0000_0000_0000 <= c.raw < 0x8000_0000_0000_0000,
    ;
    let p = (c.raw as i128) * (SCALE as i128);
    let q: i128 = if p >= 0 {
        p / (n.raw as i128)
    } else {
        -((-p) / (n.raw as i128))
    };
    let r = if q > i64::MAX as i128 {
        i64::MAX
    } else if q < i64::MIN as i128 {
        i64::MIN
    } else {
        q as i64
    };
    Fixed::from_raw(r)
}

impl Mat3 {
    pub fn identity() -> (r: Mat3)
        ensures
            r == m_identity(),
    {
        let o = Fixed::from_raw(SCALE);
        let z = Fixed::zero();
        Mat3 { r0: Vec3::new(o, z, z), r1: Vec3::new(z, o, z), r2: Vec3::new(z, z, o) }
    }

    fn row_times(r: Vec3, b: Mat3) -> (out: Vec3)
        ensures
            out == m_row_times(r, b),
    {
        Vec3 {
            x: r.dot(Vec3::new(b.r0.x, b.r1.x, b.r2.x)),
            y: r.dot(Vec3::new(b.r0.y, b.r1.y, b.r2.y)),
            z: r.dot(Vec3::new(b.r0.z, b.r1.z, b.r2.z)),
        }
    }

    /// The product `self * b`.
    pub fn mul(self, b: Mat3) -> (r: Mat3)
        ensures
            r == m_mul(self, b),
    {
        Mat3 {
            r0: Mat3::row_times(self.r0, b),
            r1: Mat3::row_times(self.r1, b),
            r2: Mat3::row_times(self.r2, b),
        }
    }

    /// The rotation by the angle `|w|` about the axis `w`.
    pub fn rotation(w: Vec3) -> (r: Mat3)
        ensures
            r == rot_of(w),
    {
        let theta = w.norm();
        if theta.raw == 0 {
            Mat3::identity()
        } else {
            let u = w.normalize();
            let s = theta.sin();
            let c = Fixed::from_raw(SCALE).minus(theta.cos());
            Mat3 {
                r0: Vec3::new(rot_diag_exec(u.x, c), rot_off_exec(u.x, u.y, u.z, s, c, false), rot_off_exec(u.x, u.z, u.y, s, c, true)),
                r1: Vec3::new(rot_off_exec(u.x, u.y, u.z, s, c, true), rot_diag_exec(u.y, c), rot_off_exec(u.y, u.z, u.x, s, c, false)),
                r2: Vec3::new(rot_off_exec(u.x, u.z, u.y, s, c, false), rot_off_exec(u.y, u.z, u.x, s, c, true), rot_diag_exec(u.z, c)),
            }
        }
    }
}

fn rot_diag_exec(ui: Fixed, c: Fixed) -> (r: Fixed)
    ensures
        r == rot_diag(ui, c),
{
    let o = Fixed::from_raw(SCALE);
    o.plus(c.times(ui.times(ui).minus(o)))
}

fn rot_off_exec(ui: Fixed, uj: Fixed, uk: Fixed, s: Fixed, c: Fixed, plus: bool) -> (r: Fixed)
    ensures
        r == rot_off(ui, uj, uk, s, c, plus),
{
    let base = c.times(ui.times(uj));
    if plus {
        base.plus(s.times(uk))
    } else {
        base.minus(s.times(uk))
    }
}

} // verus!
