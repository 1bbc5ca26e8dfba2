//! A soft body: a cubic lattice of point masses joined by springs.
use vstd::prelude::*;

use crate::fixed::{
    fx, fx_add, fx_div, isqrt, fx_mul, fx_sub, lemma_isqrt_square, lemma_mul_small, lemma_mul_whole, Fixed,
    SCALE,
};
use crate::pairs::GetMutPair;
use crate::sphere::Sphere;
use crate::vector::{
    m_identity, m_mul, one, rot_of, v_add, v_new, v_norm, v_normalize, v_scale, v_sub, v_zero, Vec3,
};
use crate::vm::{formula_value, loads_below, VM};

verus! {

/// Points per lattice edge on each side of the center.
pub const HALF_DIM: i64 = 3;

/// Points in the lattice.
pub const POINT_COUNT: usize = 343;

/// A spring between two points of a soft body, with the rest length it was
/// created with.
#[derive(Clone, Copy, PartialEq, Eq, Structural, Debug)]
pub struct Connection {
    pub lhs: usize,
    pub rhs: usize,
    pub rest_length: Fixed,
}

/// Lattice coordinates `(z, x, y)`, each in `[-3, 3]`, of point `i`; points
/// are numbered with `y` fastest and `z` slowest.
pub open spec fn lattice_coords(i: int) -> (int, int, int) {
    (i / 49 - 3, (i / 7) % 7 - 3, i % 7 - 3)
}

/// Distance between neighboring lattice points of a body of the given
/// radius.
pub open spec fn spacing(radius: Fixed) -> Fixed {
    fx_div(radius, Fixed { raw: 3_000_000 })
}

/// Offset `c * d` of lattice coordinate `c` at spacing `d`.
pub open spec fn offset(c: int, d: Fixed) -> Fixed {
    fx_mul(fx(c * SCALE), d)
}

/// Point `i` of a freshly built lattice centered at `position`.
pub open spec fn lattice_point(position: Vec3, radius: Fixed, i: int) -> Sphere {
    let (z, x, y) = lattice_coords(i);
    let d = spacing(radius);
    Sphere {
        mass: Fixed { raw: 200_000 },
        radius: fx_div(fx_div(radius, Fixed { raw: 2_000_000 }), Fixed { raw: 3_000_000 }),
        position: v_add(position, v_new(offset(x, d), offset(y, d), offset(z, d))),
        velocity: v_zero(),
        rotation: m_identity(),
        angular_velocity: v_zero(),
        force: v_zero(),
        fixed: y == 3,
    }
}

/// The springs from point `i` to its positive-x, positive-y and positive-z
/// neighbors, where they exist.
pub open spec fn point_connections(i: int, d: Fixed) -> Seq<Connection> {
    let (z, x, y) = lattice_coords(i);
    let cx = if x < 3 {
        seq![Connection { lhs: i as usize, rhs: (i + 7) as usize, rest_length: d }]
    } else {
        seq![]
    };
    let cy = if y < 3 {
        seq![Connection { lhs: i as usize, rhs: (i + 1) as usize, rest_length: d }]
    } else {
        seq![]
    };
    let cz = if z < 3 {
        seq![Connection { lhs: i as usize, rhs: (i + 49) as usize, rest_length: d }]
    } else {
        seq![]
    };
    cx + cy + cz
}

/// The springs of the first `n` points.
pub open spec fn lattice_connections(n: int, d: Fixed) -> Seq<Connection>
    decreases n,
{
    if n <= 0 {
        seq![]
    } else {
        lattice_connections(n - 1, d) + point_connections(n - 1, d)
    }
}

/// The spring force on the second point of a connection; the first point
/// receives its opposite. The formula takes the deviation from the rest
/// length along one axis, the relative velocity along that axis, the
/// damping and the stiffness. Two points at the same position have no
/// direction between them, and the spring exerts no force.
pub open spec fn spring_force(l: Sphere, r: Sphere, rest: Fixed, k: Fixed, damp: Fixed, mac: VM) -> Vec3 {
    let sep = v_sub(r.position, l.position);
    let dir = v_normalize(sep);
    let rel = v_sub(r.velocity, l.velocity);
    let m = fx_sub(v_norm(sep), rest);
    if sep == v_zero() {
        v_zero()
    } else {
        Vec3 {
            x: formula_value(mac, seq![fx_mul(dir.x, m), rel.x, damp, k]),
            y: formula_value(mac, seq![fx_mul(dir.y, m), rel.y, damp, k]),
            z: formula_value(mac, seq![fx_mul(dir.z, m), rel.z, damp, k]),
        }
    }
}

/// The points after one spring has acted.
pub open spec fn spring_step(pts: Seq<Sphere>, c: Connection, k: Fixed, damp: Fixed, mac: VM) -> Seq<Sphere> {
    let l = pts[c.lhs as int];
    let r = pts[c.rhs as int];
    let f = spring_force(l, r, c.rest_length, k, damp, mac);
    pts.update(c.lhs as int, Sphere { force: v_sub(l.force, f), ..l }).update(
        c.rhs as int,
        Sphere { force: v_add(r.force, f), ..r },
    )
}

/// The points after every spring of `conns` has acted, in order.
pub open spec fn spring_pass(pts: Seq<Sphere>, conns: Seq<Connection>, k: Fixed, damp: Fixed, mac: VM) -> Seq<Sphere>
    decreases conns.len(),
{
    if conns.len() == 0 {
        pts
    } else {
        spring_step(spring_pass(pts, conns.drop_last(), k, damp, mac), conns.last(), k, damp, mac)
    }
}

/// A point after integration: a free point takes its accumulated force
/// into its velocity, moves and turns, gains the acceleration `g` along y,
/// and loses the fraction `damp` of its velocity; every point's force is
/// reset.
pub open spec fn integrate(s: Sphere, g: Fixed, damp: Fixed) -> Sphere {
    if s.fixed {
        Sphere { force: v_zero(), ..s }
    } else {
        let v1 = v_add(s.velocity, v_scale(s.force, fx_div(one(), s.mass)));
        let v2 = Vec3 { y: fx_add(v1.y, g), ..v1 };
        Sphere {
            rotation: m_mul(rot_of(s.angular_velocity), s.rotation),
            position: v_add(s.position, v1),
            velocity: v_scale(v2, fx_sub(one(), damp)),
            force: v_zero(),
            ..s
        }
    }
}

pub open spec fn connections_valid(conns: Seq<Connection>, n: int) -> bool {
    forall|c: int| 0 <= c < conns.len() ==> #[trigger] conns[c].lhs < conns[c].rhs < n
}

/// A soft body: point masses and the springs between them.
#[derive(Debug)]
pub struct SoftBody {
    points: Vec<Sphere>,
    connections: Vec<Connection>,
}

impl SoftBody {
    pub closed spec fn points_view(&self) -> Seq<Sphere> {
        self.points@
    }

    pub closed spec fn connections_view(&self) -> Seq<Connection> {
        self.connections@
    }

    /// Every spring joins two distinct points of the body.
    pub open spec fn wf(&self) -> bool {
        connections_valid(self.connections_view(), self.points_view().len() as int)
    }

    /// A 7x7x7 lattice centered at `position`, of half-width `radius`, at
    /// spacing `radius / 3`; each point is joined to its positive-x,
    /// positive-y and positive-z neighbors, and the top layer (`y = 3`) is
    /// fixed.
    pub fn new(position: Vec3, radius: Fixed) -> (r: SoftBody)
        ensures
            r.wf(),
            r.points_view() == Seq::new(343, |i: int| lattice_point(position, radius, i)),
            r.connections_view() == lattice_connections(343, spacing(radius)),
    {
        let mut points: Vec<Sphere> = Vec::new();
        let mut connections: Vec<Connection> = Vec::new();
        let dist = radius.divide(Fixed::from_raw(3_000_000));
        let point_radius = radius.divide(Fixed::from_raw(2_000_000)).divide(Fixed::from_raw(3_000_000));
        let mut i: usize = 0;
        while i < POINT_COUNT
            invariant
                i <= 343,
                dist == spacing(radius),
                point_radius == fx_div(fx_div(radius, Fixed { raw: 2_000_000 }), Fixed { raw: 3_000_000 }),
                points@ == Seq::new(i as nat, |j: int| lattice_point(position, radius, j)),
                connections@ == lattice_connections(i as int, dist),
                connections_valid(connections@, 343),
            decreases 343 - i,
        {
            let z = (i / 49) as i64 - HALF_DIM;
            let x = ((i / 7) % 7) as i64 - HALF_DIM;
            let y = (i % 7) as i64 - HALF_DIM;
            assert(lattice_coords(i as int) == (z as int, x as int, y as int));
            proof {
                lemma_neighbor_coords(i as int);
            }
            let offset_v = Vec3::new(
                Fixed::from_int(x as i32).times(dist),
                Fixed::from_int(y as i32).times(dist),
                Fixed::from_int(z as i32).times(dist),
            );
            let mut p = Sphere::new(point_radius, Fixed::from_raw(200_000));
            p.position = position.add(offset_v);
            p.fixed = y == HALF_DIM;
            assert(p == lattice_point(position, radius, i as int));
            let ghost before = points@;
            points.push(p);
            assert(points@ =~= Seq::new((i + 1) as nat, |j: int| lattice_point(position, radius, j)));
            let ghost c0 = connections@;
            if x < HALF_DIM {
                connections.push(Connection { lhs: i, rhs: i + 7, rest_length: dist });
            }
            let ghost c1 = connections@;
            if y < HALF_DIM {
                connections.push(Connection { lhs: i, rhs: i + 1, rest_length: dist });
            }
            let ghost c2 = connections@;
            if z < HALF_DIM {
                connections.push(Connection { lhs: i, rhs: i + 49, rest_length: dist });
            }
            proof {
                let pc = point_connections(i as int, dist);
                assert(connections@ =~= c0 + pc);
                assert forall|c: int| 0 <= c < connections@.len() implies #[trigger] connections@[c].lhs
                    < connections@[c].rhs < 343 by {
                    if c >= c0.len() {
                        assert(connections@[c] == pc[c - c0.len()]);
                        assert(lattice_spring(pc[c - c0.len()], dist));
                        assert(pc[c - c0.len()].lhs == i);
                        lemma_neighbor_coords(i as int);
                    }
                }
            }
            i = i + 1;
        }
        SoftBody { points, connections }
    }

    /// Applies every spring once, then integrates every point.
    pub fn update(&mut self, g: Fixed, k: Fixed, damp: Fixed, mac: &VM)
        requires
            old(self).wf(),
            mac.balanced(),
            loads_below(mac.program(), 4),
        ensures
            final(self).wf(),
            final(self).connections_view() == old(self).connections_view(),
            final(self).points_view() == Seq::new(
                old(self).points_view().len(),
                |i: int|
                    integrate(
                        spring_pass(old(self).points_view(), old(self).connections_view(), k, damp, *mac)[i],
                        g,
                        damp,
                    ),
            ),
    {
        self.accumulate_spring_forces(k, damp, mac);
        let ghost mid = self.points@;
        let n = self.points.len();
        let mut i: usize = 0;
        while i < n
            invariant
                n == self.points.len(),
                i <= n,
                self.connections@ == old(self).connections@,
                self.points@.len() == mid.len(),
                forall|j: int| 0 <= j < i ==> self.points@[j] == integrate(mid[j], g, damp),
                forall|j: int| i <= j < n ==> self.points@[j] == mid[j],
            decreases n - i,
        {
            let p = integrate_point(self.points[i], g, damp);
            self.points.set(i, p);
            i = i + 1;
        }
        assert(self.points@ =~= Seq::new(mid.len(), |i: int| integrate(mid[i], g, damp)));
    }

    /// Applies every spring once, in order, accumulating forces.
    pub fn accumulate_spring_forces(&mut self, k: Fixed, damp: Fixed, mac: &VM)
        requires
            old(self).wf(),
            mac.balanced(),
            loads_below(mac.program(), 4),
        ensures
            final(self).wf(),
            final(self).connections_view() == old(self).connections_view(),
            final(self).points_view() == spring_pass(old(self).points_view(), old(self).connections_view(), k, damp, *mac),
            final(self).points_view().len() == old(self).points_view().len(),
    {
        let m = self.connections.len();
        let mut c: usize = 0;
        let ghost pts0 = self.points@;
        while c < m
            invariant
                m == self.connections.len(),
                c <= m,
                self.connections@ == old(self).connections@,
                connections_valid(self.connections@, self.points@.len() as int),
                self.points@.len() == pts0.len(),
                mac.balanced(),
                loads_below(mac.program(), 4),
                self.points@ == spring_pass(pts0, self.connections@.take(c as int), k, damp, *mac),
            decreases m - c,
        {
            let conn = self.connections[c];
            proof {
                assert(self.connections@.take(c + 1).drop_last() =~= self.connections@.take(c as int));
                assert(self.connections@[c as int] == conn);
            }
            let (lhs, rhs) = self.points.get_pair_mut(conn.lhs, conn.rhs);
            apply_spring_force(lhs, rhs, conn.rest_length, k, damp, mac);
            c = c + 1;
        }
        assert(self.connections@.take(m as int) =~= self.connections@);
    }

    pub fn get_points(&self) -> (r: &Vec<Sphere>)
        ensures
            r@ == self.points_view(),
    {
        &self.points
    }

    pub fn get_connections(&self) -> (r: &Vec<Connection>)
        ensures
            r@ == self.connections_view(),
    {
        &self.connections
    }

    /// Replaces point `i`, keeping the springs.
    pub fn set_point(&mut self, i: usize, p: Sphere)
        requires
            i < old(self).points_view().len(),
        ensures
            final(self).points_view() == old(self).points_view().update(i as int, p),
            final(self).connections_view() == old(self).connections_view(),
            final(self).wf() == old(self).wf(),
    {
        self.points.set(i, p);
    }
}

fn integrate_point(s: Sphere, g: Fixed, damp: Fixed) -> (r: Sphere)
    ensures
        r == integrate(s, g, damp),
{
    let mut p = s;
    if !p.fixed {
        let one = Fixed::from_raw(SCALE);
        let v1 = p.velocity.add(p.force.scale(one.divide(p.mass)));
        p.velocity = v1;
        p.update();
        let v2 = Vec3 { y: v1.y.plus(g), ..v1 };
        p.velocity = v2.scale(one.minus(damp));
    }
    p.force = Vec3::zero();
    p
}

/// Applies one spring between two points: the force from the formula is
/// added to the second point's accumulator and subtracted from the first's.
/// Points at the same position are left as they are.
pub fn apply_spring_force(lhs: &mut Sphere, rhs: &mut Sphere, distance: Fixed, k: Fixed, damp: Fixed, mac: &VM)
    requires
        mac.balanced(),
        loads_below(mac.program(), 4),
    ensures
        *final(lhs) == (Sphere {
            force: v_sub(old(lhs).force, spring_force(*old(lhs), *old(rhs), distance, k, damp, *mac)),
            ..*old(lhs)
        }),
        *final(rhs) == (Sphere {
            force: v_add(old(rhs).force, spring_force(*old(lhs), *old(rhs), distance, k, damp, *mac)),
            ..*old(rhs)
        }),
        old(lhs).position == old(rhs).position ==> *final(lhs) == *old(lhs) && *final(rhs) == *old(rhs),
{
    let sep = rhs.position.sub(lhs.position);
    if sep.x.raw == 0 && sep.y.raw == 0 && sep.z.raw == 0 {
        return;
    }
    let cur = sep.norm();
    let rel = rhs.velocity.sub(lhs.velocity);
    let dir = sep.normalize();
    let modifier = cur.minus(distance);
    let data = vec![dir.x.times(modifier), rel.x, damp, k];
    let fx_ = mac.run(&data);
    let data = vec![dir.y.times(modifier), rel.y, damp, k];
    let fy = mac.run(&data);
    let data = vec![dir.z.times(modifier), rel.z, damp, k];
    let fz = mac.run(&data);
    let force = Vec3::new(fx_, fy, fz);
    lhs.force = lhs.force.sub(force);
    rhs.force = rhs.force.add(force);
}

/// A spring of a lattice of spacing `d`: it joins a point to its
/// positive-x, positive-y or positive-z neighbor at rest length `d`.
pub open spec fn lattice_spring(c: Connection, d: Fixed) -> bool {
    let i = c.lhs as int;
    let (z, x, y) = lattice_coords(i);
    &&& 0 <= i < 343
    &&& c.rest_length == d
    &&& (c.rhs == i + 7 && x < 3) || (c.rhs == i + 1 && y < 3) || (c.rhs == i + 49 && z < 3)
}

proof fn lemma_lattice_springs(n: int, d: Fixed)
    requires
        0 <= n <= 343,
    ensures
        forall|j: int|
            0 <= j < lattice_connections(n, d).len() ==> lattice_spring(
                #[trigger] lattice_connections(n, d)[j],
                d,
            ),
    decreases n,
{
    if n > 0 {
        lemma_lattice_springs(n - 1, d);
        let a = lattice_connections(n - 1, d);
        let b = point_connections(n - 1, d);
        assert forall|j: int| 0 <= j < (a + b).len() implies lattice_spring(#[trigger] (a + b)[j], d) by {
            if j >= a.len() {
                assert((a + b)[j] == b[j - a.len()]);
            }
        }
    }
}

/// Coordinates of the lattice neighbors of point `i`.
proof fn lemma_neighbor_coords(i: int)
    requires
        0 <= i < 343,
    ensures
        ({
            let (z, x, y) = lattice_coords(i);
            &&& -3 <= z <= 3 && -3 <= x <= 3 && -3 <= y <= 3
            &&& x < 3 ==> lattice_coords(i + 7) == (z, x + 1, y)
            &&& y < 3 ==> lattice_coords(i + 1) == (z, x, y + 1)
            &&& z < 3 ==> lattice_coords(i + 49) == (z + 1, x, y)
            &&& x < 3 ==> i + 7 < 343
            &&& y < 3 ==> i + 1 < 343
            &&& z < 3 ==> i + 49 < 343
        }),
{
    let a = i / 49;
    let b = (i / 7) % 7;
    let c = i % 7;
    assert(i == 49 * a + 7 * b + c && 0 <= a < 7 && 0 <= b < 7 && 0 <= c < 7) by (nonlinear_arith)
        requires
            0 <= i < 343,
            a == i / 49,
            b == (i / 7) % 7,
            c == i % 7,
    ;
    assert(b < 6 ==> (i + 7) / 49 == a && ((i + 7) / 7) % 7 == b + 1 && (i + 7) % 7 == c)
        by (nonlinear_arith)
        requires
            i == 49 * a + 7 * b + c,
            0 <= a < 7,
            0 <= b < 7,
            0 <= c < 7,
    ;
    assert(c < 6 ==> (i + 1) / 49 == a && ((i + 1) / 7) % 7 == b && (i + 1) % 7 == c + 1)
        by (nonlinear_arith)
        requires
            i == 49 * a + 7 * b + c,
            0 <= a < 7,
            0 <= b < 7,
            0 <= c < 7,
    ;
    assert(a < 6 ==> (i + 49) / 49 == a + 1 && ((i + 49) / 7) % 7 == b && (i + 49) % 7 == c)
        by (nonlinear_arith)
        requires
            i == 49 * a + 7 * b + c,
            0 <= a < 7,
            0 <= b < 7,
            0 <= c < 7,
    ;
}

/// Lattice positions on one axis: `p + c * d`, exactly.
proof fn lemma_axis_position(p: Fixed, c: int, d: Fixed)
    requires
        -3 <= c <= 3,
        0 <= d.raw <= 0x1000_0000_0000_0000,
        -0x4000_0000_0000_0000 <= p.raw <= 0x4000_0000_0000_0000,
    ensures
        fx_add(p, offset(c, d)).raw == p.raw + c * d.raw,
        -0x3000_0000_0000_0000 <= c * d.raw <= 0x3000_0000_0000_0000,
{
    lemma_mul_whole(d.raw as int, c);
    assert(-0x3000_0000_0000_0000 <= c * d.raw <= 0x3000_0000_0000_0000) by (nonlinear_arith)
        requires
            -3 <= c <= 3,
            0 <= d.raw <= 0x1000_0000_0000_0000,
    ;
    assert(d.raw * c == c * d.raw) by (nonlinear_arith);
    assert(fx(c * SCALE).raw == c * SCALE);
}

/// One lattice spring at rest exerts no force.
proof fn lemma_rest_spring(position: Vec3, radius: Fixed, c: Connection, k: Fixed, damp: Fixed, mac: VM)
    requires
        0 <= radius.raw <= 0x1000_0000_0000_0000,
        -0x4000_0000_0000_0000 <= position.x.raw <= 0x4000_0000_0000_0000,
        -0x4000_0000_0000_0000 <= position.y.raw <= 0x4000_0000_0000_0000,
        -0x4000_0000_0000_0000 <= position.z.raw <= 0x4000_0000_0000_0000,
        formula_value(mac, seq![Fixed { raw: 0 }, Fixed { raw: 0 }, damp, k]) == (Fixed { raw: 0 }),
        lattice_spring(c, spacing(radius)),
    ensures
        spring_force(
            lattice_point(position, radius, c.lhs as int),
            lattice_point(position, radius, c.rhs as int),
            c.rest_length,
            k,
            damp,
            mac,
        ) == v_zero(),
{
    let d = spacing(radius);
    assert(0 <= d.raw <= radius.raw) by {
        assert(0 <= (radius.raw * 1_000_000) / 3_000_000 <= radius.raw) by (nonlinear_arith)
            requires
                radius.raw >= 0,
        ;
    }
    let i = c.lhs as int;
    let j = c.rhs as int;
    lemma_neighbor_coords(i);
    let (z, x, y) = lattice_coords(i);
    let (z2, x2, y2) = lattice_coords(j);
    let l = lattice_point(position, radius, i);
    let r = lattice_point(position, radius, j);
    lemma_axis_position(position.x, x, d);
    lemma_axis_position(position.y, y, d);
    lemma_axis_position(position.z, z, d);
    lemma_axis_position(position.x, x2, d);
    lemma_axis_position(position.y, y2, d);
    lemma_axis_position(position.z, z2, d);
    let sep = v_sub(r.position, l.position);
    assert(d.raw * (x + 1) == d.raw * x + d.raw && (x + 1) * d.raw == x * d.raw + d.raw) by (nonlinear_arith);
    assert(d.raw * (y + 1) == d.raw * y + d.raw && (y + 1) * d.raw == y * d.raw + d.raw) by (nonlinear_arith);
    assert(d.raw * (z + 1) == d.raw * z + d.raw && (z + 1) * d.raw == z * d.raw + d.raw) by (nonlinear_arith);
    assert(along_one_axis(sep, d.raw as int));
    lemma_isqrt_square(d.raw as int);
    assert(v_norm(sep) == d);
    let m = fx_sub(v_norm(sep), c.rest_length);
    assert(m.raw == 0);
    let dir = v_normalize(sep);
    lemma_mul_small(dir.x.raw as int);
    lemma_mul_small(dir.y.raw as int);
    lemma_mul_small(dir.z.raw as int);
    assert(seq![fx_mul(dir.x, m), v_sub(r.velocity, l.velocity).x, damp, k] =~= seq![
        Fixed { raw: 0 },
        Fixed { raw: 0 },
        damp,
        k,
    ]);
    assert(seq![fx_mul(dir.y, m), v_sub(r.velocity, l.velocity).y, damp, k] =~= seq![
        Fixed { raw: 0 },
        Fixed { raw: 0 },
        damp,
        k,
    ]);
    assert(seq![fx_mul(dir.z, m), v_sub(r.velocity, l.velocity).z, damp, k] =~= seq![
        Fixed { raw: 0 },
        Fixed { raw: 0 },
        damp,
        k,
    ]);
}

/// `sep` lies along one axis at length `d`.
pub open spec fn along_one_axis(sep: Vec3, d: int) -> bool {
    (sep.x.raw == d && sep.y.raw == 0 && sep.z.raw == 0) || (sep.x.raw == 0 && sep.y.raw == d
        && sep.z.raw == 0) || (sep.x.raw == 0 && sep.y.raw == 0 && sep.z.raw == d)
}

/// A freshly built lattice is in equilibrium: every point sits at its rest
/// position with zero velocity, so when the force formula gives zero for
/// zero deviation and zero relative velocity, one pass over all springs
/// leaves every point as it was, with zero net force. The lattice must lie
/// well inside the representable range.
pub proof fn lemma_rest_lattice_no_force(position: Vec3, radius: Fixed, k: Fixed, damp: Fixed, mac: VM)
    requires
        0 <= radius.raw <= 0x1000_0000_0000_0000,
        -0x4000_0000_0000_0000 <= position.x.raw <= 0x4000_0000_0000_0000,
        -0x4000_0000_0000_0000 <= position.y.raw <= 0x4000_0000_0000_0000,
        -0x4000_0000_0000_0000 <= position.z.raw <= 0x4000_0000_0000_0000,
        formula_value(mac, seq![Fixed { raw: 0 }, Fixed { raw: 0 }, damp, k]) == (Fixed { raw: 0 }),
    ensures
        ({
            let pts = Seq::new(343, |i: int| lattice_point(position, radius, i));
            let after = spring_pass(pts, lattice_connections(343, spacing(radius)), k, damp, mac);
            &&& after == pts
            &&& forall|i: int| 0 <= i < 343 ==> (#[trigger] after[i]).force == v_zero()
        }),
{
    let pts = Seq::new(343, |i: int| lattice_point(position, radius, i));
    let d = spacing(radius);
    let conns = lattice_connections(343, d);
    lemma_lattice_springs(343, d);
    lemma_rest_prefix(position, radius, k, damp, mac, conns.len() as int);
    assert(conns.take(conns.len() as int) =~= conns);
}

proof fn lemma_rest_prefix(position: Vec3, radius: Fixed, k: Fixed, damp: Fixed, mac: VM, m: int)
    requires
        0 <= radius.raw <= 0x1000_0000_0000_0000,
        -0x4000_0000_0000_0000 <= position.x.raw <= 0x4000_0000_0000_0000,
        -0x4000_0000_0000_0000 <= position.y.raw <= 0x4000_0000_0000_0000,
        -0x4000_0000_0000_0000 <= position.z.raw <= 0x4000_0000_0000_0000,
        formula_value(mac, seq![Fixed { raw: 0 }, Fixed { raw: 0 }, damp, k]) == (Fixed { raw: 0 }),
        0 <= m <= lattice_connections(343, spacing(radius)).len(),
        forall|j: int|
            0 <= j < lattice_connections(343, spacing(radius)).len() ==> lattice_spring(
                #[trigger] lattice_connections(343, spacing(radius))[j],
                spacing(radius),
            ),
    ensures
        spring_pass(
            Seq::new(343, |i: int| lattice_point(position, radius, i)),
            lattice_connections(343, spacing(radius)).take(m),
            k,
            damp,
            mac,
        ) == Seq::new(343, |i: int| lattice_point(position, radius, i)),
    decreases m,
{
    let pts = Seq::new(343, |i: int| lattice_point(position, radius, i));
    let d = spacing(radius);
    let conns = lattice_connections(343, d);
    if m == 0 {
        assert(conns.take(0) =~= Seq::<Connection>::empty());
    } else {
        lemma_rest_prefix(position, radius, k, damp, mac, m - 1);
        let c = conns[m - 1];
        assert(conns.take(m).drop_last() =~= conns.take(m - 1));
        assert(conns.take(m).last() == c);
        assert(lattice_spring(c, d));
        lemma_rest_spring(position, radius, c, k, damp, mac);
        lemma_neighbor_coords(c.lhs as int);
        let l = pts[c.lhs as int];
        let r = pts[c.rhs as int];
        assert(Sphere { force: v_sub(l.force, v_zero()), ..l } == l);
        assert(Sphere { force: v_add(r.force, v_zero()), ..r } == r);
        assert(spring_step(pts, c, k, damp, mac) =~= pts);
    }
}

/// A point at rest, with no force, no spin and the identity orientation,
/// stays as it is through integration without gravity.
proof fn lemma_integrate_rest(p: Sphere, damp: Fixed)
    requires
        p.velocity == v_zero(),
        p.force == v_zero(),
        p.angular_velocity == v_zero(),
        p.rotation == m_identity(),
    ensures
        integrate(p, Fixed { raw: 0 }, damp) == p,
{
    lemma_mul_small(0);
    lemma_mul_small(SCALE as int);
    lemma_mul_small(p.mass.raw as int);
    lemma_mul_small(damp.raw as int);
    lemma_mul_small(fx_div(one(), p.mass).raw as int);
    lemma_mul_small(fx_sub(one(), damp).raw as int);
    assert(isqrt(0) == 0);
    assert(v_norm(v_zero()).raw == 0);
    assert(m_mul(m_identity(), m_identity()) == m_identity());
}

/// A freshly built lattice with no gravity stays exactly as it is through a
/// whole update when the force formula gives zero for zero deviation and
/// zero relative velocity (within the same range bounds as above).
pub proof fn lemma_rest_lattice_update(position: Vec3, radius: Fixed, k: Fixed, damp: Fixed, mac: VM)
    requires
        0 <= radius.raw <= 0x1000_0000_0000_0000,
        -0x4000_0000_0000_0000 <= position.x.raw <= 0x4000_0000_0000_0000,
        -0x4000_0000_0000_0000 <= position.y.raw <= 0x4000_0000_0000_0000,
        -0x4000_0000_0000_0000 <= position.z.raw <= 0x4000_0000_0000_0000,
        formula_value(mac, seq![Fixed { raw: 0 }, Fixed { raw: 0 }, damp, k]) == (Fixed { raw: 0 }),
    ensures
        ({
            let pts = Seq::new(343, |i: int| lattice_point(position, radius, i));
            let after = spring_pass(pts, lattice_connections(343, spacing(radius)), k, damp, mac);
            Seq::new(343, |i: int| integrate(after[i], Fixed { raw: 0 }, damp)) == pts
        }),
{
    let pts = Seq::new(343, |i: int| lattice_point(position, radius, i));
    lemma_rest_lattice_no_force(position, radius, k, damp, mac);
    assert forall|i: int| 0 <= i < 343 implies integrate(pts[i], Fixed { raw: 0 }, damp) == pts[i] by {
        lemma_integrate_rest(pts[i], damp);
    }
    assert(Seq::new(343, |i: int| integrate(pts[i], Fixed { raw: 0 }, damp)) =~= pts);
}

} // verus!
