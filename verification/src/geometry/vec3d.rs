//! Three-component integer vectors and point masses, with exact
//! specifications for every arithmetic operation.

use vstd::prelude::*;

verus! {

use crate::arith::div_trunc;
use crate::arith::div_trunc_i128;
use crate::arith::sqrt_floor;
use crate::arith::isqrt_u128;
use crate::MAX_MASS;
use crate::MAX_COORD;
use crate::MAX_VEL;
use crate::MAX_DT;
use crate::MAX_FORCE;
use crate::SPEED_OF_LIGHT;

/// Mathematical model of a vector: unbounded integer components.
pub ghost struct V3 {
    pub x: int,
    pub y: int,
    pub z: int,
}

pub open spec fn v3_zero() -> V3 {
    V3 { x: 0, y: 0, z: 0 }
}

pub open spec fn v3_add(a: V3, b: V3) -> V3 {
    V3 { x: a.x + b.x, y: a.y + b.y, z: a.z + b.z }
}

pub open spec fn v3_sub(a: V3, b: V3) -> V3 {
    V3 { x: a.x - b.x, y: a.y - b.y, z: a.z - b.z }
}

pub open spec fn v3_scale(a: V3, s: int) -> V3 {
    V3 { x: a.x * s, y: a.y * s, z: a.z * s }
}

/// Componentwise division rounding toward zero.
pub open spec fn v3_div_trunc(a: V3, s: int) -> V3 {
    V3 { x: div_trunc(a.x, s), y: div_trunc(a.y, s), z: div_trunc(a.z, s) }
}

/// Componentwise flooring division.
pub open spec fn v3_div_floor(a: V3, s: int) -> V3 {
    V3 { x: a.x / s, y: a.y / s, z: a.z / s }
}

pub open spec fn norm_sq(a: V3) -> int {
    a.x * a.x + a.y * a.y + a.z * a.z
}

/// Every component within `[-b, b]`.
pub open spec fn v3_in(a: V3, b: int) -> bool {
    &&& -b <= a.x <= b
    &&& -b <= a.y <= b
    &&& -b <= a.z <= b
}

/// An executable vector; components are coordinates, velocities or forces in
/// the library's units.
#[derive(Clone, Copy, PartialEq, Eq, Structural, Debug)]
pub struct Vec3d {
    pub x: i128,
    pub y: i128,
    pub z: i128,
}

impl View for Vec3d {
    type V = V3;

    open spec fn view(&self) -> V3 {
        V3 { x: self.x as int, y: self.y as int, z: self.z as int }
    }
}

impl Vec3d {
    pub fn new(x: i128, y: i128, z: i128) -> (r: Vec3d)
        ensures
            r@ == (V3 { x: x as int, y: y as int, z: z as int }),
    {
        Vec3d { x, y, z }
    }

    pub fn new_zero() -> (r: Vec3d)
        ensures
            r@ == v3_zero(),
    {
        Vec3d::new(0, 0, 0)
    }

    /// Floor of the Euclidean length.
    pub fn magnitude(&self) -> (r: u64)
        requires
            v3_in(self@, 0x2000_0000_0000_0000),
        ensures
            r == sqrt_floor(norm_sq(self@) as nat),
    {
        proof {
            lemma_norm_sq_bounds(self@, 0x2000_0000_0000_0000);
            assert(0x2000_0000_0000_0000int * 0x2000_0000_0000_0000int
                == 0x0400_0000_0000_0000_0000_0000_0000_0000int) by (nonlinear_arith);
        }
        let n = (self.x * self.x + self.y * self.y + self.z * self.z) as u128;
        isqrt_u128(n)
    }

    pub fn position(self) -> (r: (i128, i128, i128))
        ensures
            r.0 == self.x && r.1 == self.y && r.2 == self.z,
    {
        (self.x, self.y, self.z)
    }

    /// The displacement from `self` to `other`.
    pub fn distance(self, other: Vec3d) -> (r: Vec3d)
        requires
            v3_in(self@, 0x1000_0000_0000_0000_0000_0000_0000_0000),
            v3_in(other@, 0x1000_0000_0000_0000_0000_0000_0000_0000),
        ensures
            r@ == v3_sub(other@, self@),
    {
        Vec3d::new(other.x - self.x, other.y - self.y, other.z - self.z)
    }

    /// Componentwise sum.
    pub fn add(self, rhs: Vec3d) -> (r: Vec3d)
        requires
            v3_in(self@, 0x1000_0000_0000_0000_0000_0000_0000_0000),
            v3_in(rhs@, 0x1000_0000_0000_0000_0000_0000_0000_0000),
        ensures
            r@ == v3_add(self@, rhs@),
    {
        Vec3d::new(self.x + rhs.x, self.y + rhs.y, self.z + rhs.z)
    }

    /// Componentwise scaling.
    pub fn mul_scalar(self, s: i128) -> (r: Vec3d)
        requires
            i128::MIN < self@.x * s < i128::MAX,
            i128::MIN < self@.y * s < i128::MAX,
            i128::MIN < self@.z * s < i128::MAX,
        ensures
            r@ == v3_scale(self@, s as int),
    {
        Vec3d::new(self.x * s, self.y * s, self.z * s)
    }

    /// Componentwise division by a positive scalar, rounding toward zero.
    pub fn div_scalar(self, s: i128) -> (r: Vec3d)
        requires
            s > 0,
            self@.x > i128::MIN && self@.y > i128::MIN && self@.z > i128::MIN,
        ensures
            r@ == v3_div_trunc(self@, s as int),
    {
        Vec3d::new(
            div_trunc_i128(self.x, s),
            div_trunc_i128(self.y, s),
            div_trunc_i128(self.z, s),
        )
    }
}

/// Mathematical model of a point mass.
pub ghost struct PointV {
    pub mass: int,
    pub pos: V3,
    pub vel: V3,
    pub radius: int,
}

/// The merge radius a mass induces: `2 * G * m / c^2` with `G == 1`.
pub open spec fn merge_radius_of(mass: int) -> int {
    (2 * mass) / ((SPEED_OF_LIGHT * SPEED_OF_LIGHT) as int)
}

/// Floor of the Euclidean distance between two positions.
pub open spec fn dist(a: V3, b: V3) -> int {
    sqrt_floor(norm_sq(v3_sub(b, a)) as nat) as int
}

/// The Newtonian force the mass `m2` at `p2` exerts on `m1` at `p1`:
/// `G * m1 * m2 / d^2` along the unit vector from `p1` toward `p2`, with
/// `G == 1` and each component rounded toward zero.
pub open spec fn force_between(m1: int, p1: V3, m2: int, p2: V3) -> V3 {
    let delta = v3_sub(p2, p1);
    let d2 = norm_sq(delta);
    let d = dist(p1, p2);
    V3 {
        x: div_trunc(m1 * m2 * delta.x, d2 * d),
        y: div_trunc(m1 * m2 * delta.y, d2 * d),
        z: div_trunc(m1 * m2 * delta.z, d2 * d),
    }
}

/// One symplectic Euler update: the velocity absorbs the acceleration over
/// `dt`, then the position moves with the updated velocity over `dt`.
pub open spec fn stepped_point(p: PointV, dt: int, f: V3) -> PointV {
    let v2 = v3_add(p.vel, v3_div_trunc(v3_scale(f, dt), p.mass));
    PointV {
        mass: p.mass,
        pos: v3_add(p.pos, v3_scale(v2, dt)),
        vel: v2,
        radius: p.radius,
    }
}

/// A point mass: immutable value with mass, position, velocity, and the
/// merge radius derived from the mass at construction.
#[derive(Clone, Copy, PartialEq, Eq, Structural, Debug)]
pub struct Point {
    pub mass: u64,
    pub vel: Vec3d,
    pub schwarzchild_radius: u64,
    pub x: i128,
    pub y: i128,
    pub z: i128,
}

impl View for Point {
    type V = PointV;

    open spec fn view(&self) -> PointV {
        PointV {
            mass: self.mass as int,
            pos: V3 { x: self.x as int, y: self.y as int, z: self.z as int },
            vel: self.vel@,
            radius: self.schwarzchild_radius as int,
        }
    }
}

/// The bounds under which a body can take part in the simulation.
pub open spec fn point_fits(p: PointV) -> bool {
    &&& 1 <= p.mass <= MAX_MASS
    &&& v3_in(p.pos, MAX_COORD as int)
    &&& v3_in(p.vel, MAX_VEL as int)
}

impl Point {
    pub fn new(mass: u64, x: i128, y: i128, z: i128, velocity: Vec3d) -> (r: Point)
        ensures
            r.mass == mass && r.x == x && r.y == y && r.z == z && r.vel == velocity,
            r@.radius == merge_radius_of(mass as int),
    {
        let c: u128 = SPEED_OF_LIGHT as u128;
        proof {
            assert(c * c == 0x1_0000_0000u128) by (nonlinear_arith)
                requires c == 0x1_0000;
            vstd::arithmetic::div_mod::lemma_multiply_divide_lt(
                2 * mass as int, 0x10_0000_0000int, 0x1_0000_0000int);
            vstd::arithmetic::div_mod::lemma_div_pos_is_pos(2 * mass as int, 0x1_0000_0000int);
        }
        let radius = ((2 * (mass as u128)) / (c * c)) as u64;
        Point { mass, vel: velocity, schwarzchild_radius: radius, x, y, z }
    }

    pub fn new_zero() -> (r: Point)
        ensures
            r@.mass == 0 && r@.pos == v3_zero() && r@.vel == v3_zero() && r@.radius == 0,
    {
        Point::new(0, 0, 0, 0, Vec3d::new_zero())
    }

    pub fn schwarzchild_radius(&self) -> (r: u64)
        ensures
            r == self.schwarzchild_radius,
    {
        self.schwarzchild_radius
    }

    pub fn mass(&self) -> (r: u64)
        ensures
            r == self.mass,
    {
        self.mass
    }

    pub fn velocity(&self) -> (r: Vec3d)
        ensures
            r == self.vel,
    {
        self.vel
    }

    pub fn position(self) -> (r: (i128, i128, i128))
        ensures
            r.0 == self.x && r.1 == self.y && r.2 == self.z,
    {
        (self.x, self.y, self.z)
    }

    /// Floor of the Euclidean distance to `other`.
    pub fn distance_to(self, other: Point) -> (r: u64)
        requires
            v3_in(self@.pos, 0x1000_0000_0000_0000),
            v3_in(other@.pos, 0x1000_0000_0000_0000),
        ensures
            r == dist(self@.pos, other@.pos),
    {
        let d = Vec3d::new(self.x, self.y, self.z)
            .distance(Vec3d::new(other.x, other.y, other.z));
        d.magnitude()
    }

    /// The gravitational force `p` exerts on `self`.
    pub fn force_from(self, p: Point) -> (r: Vec3d)
        requires
            self@.pos != p@.pos,
            self.mass <= MAX_MASS,
            p.mass <= MAX_MASS,
            v3_in(self@.pos, MAX_COORD as int),
            v3_in(p@.pos, MAX_COORD as int),
        ensures
            r@ == force_between(self@.mass, self@.pos, p@.mass, p@.pos),
            v3_in(r@, self@.mass * p@.mass),
    {
        let ghost delta = v3_sub(p@.pos, self@.pos);
        proof {
            lemma_norm_sq_bounds(delta, 0x1000_0000_0000_0000);
            assert(0x1000_0000_0000_0000int * 0x1000_0000_0000_0000int
                == 0x100_0000_0000_0000_0000_0000_0000_0000int) by (nonlinear_arith);
            if norm_sq(delta) == 0 {
                lemma_norm_sq_zero(delta);
                assert(false);
            }
        }
        let dx = p.x - self.x;
        let dy = p.y - self.y;
        let dz = p.z - self.z;
        let d2 = dx * dx + dy * dy + dz * dz;
        let d = isqrt_u128(d2 as u128) as i128;
        proof {
            crate::arith::lemma_sqrt_floor_at_least((d2 as int) as nat, 1);
            crate::arith::lemma_sqrt_floor_bounds((d2 as int) as nat);
            assert((self.mass as int) * (p.mass as int) <= 0x4_0000_0000_0000_0000int)
                by (nonlinear_arith)
                requires
                    0 <= self.mass as int <= 0x2_0000_0000int,
                    0 <= p.mass as int <= 0x2_0000_0000int;
        }
        let m12 = (self.mass as i128) * (p.mass as i128);
        proof {
            lemma_mul_mono_both(self.mass as int, p.mass as int, m12 as int, dx as int,
                dy as int, dz as int);
        }
        let fx = force_component(m12, dx, d2, d);
        let fy = force_component(m12, dy, d2, d);
        let fz = force_component(m12, dz, d2, d);
        proof {
            lemma_force_component_value(m12 as int, dx as int, d2 as int, d as int);
            lemma_force_component_value(m12 as int, dy as int, d2 as int, d as int);
            lemma_force_component_value(m12 as int, dz as int, d2 as int, d as int);
        }
        Vec3d::new(fx, fy, fz)
    }

    /// The state after one time step of size `dt` under the force `force`.
    pub fn apply_force(self, dt: u64, force: Vec3d) -> (r: Point)
        requires
            1 <= self.mass,
            1 <= dt <= MAX_DT,
            v3_in(force@, MAX_FORCE as int),
            v3_in(self@.vel, MAX_VEL as int),
            v3_in(self@.pos, MAX_COORD as int),
        ensures
            r@.mass == self@.mass,
            r@.vel == stepped_point(self@, dt as int, force@).vel,
            r@.pos == stepped_point(self@, dt as int, force@).pos,
            r@.radius == merge_radius_of(self@.mass),
            r.mass == self.mass,
    {
        proof {
            lemma_scale_bound(force@.x, dt as int, MAX_FORCE as int, MAX_DT as int);
            lemma_scale_bound(force@.y, dt as int, MAX_FORCE as int, MAX_DT as int);
            lemma_scale_bound(force@.z, dt as int, MAX_FORCE as int, MAX_DT as int);
            assert(MAX_FORCE as int * MAX_DT as int
                == 0x400_0000_0000_0000_0000_0000int) by (nonlinear_arith);
        }
        let dvx = div_trunc_i128(force.x * (dt as i128), self.mass as i128);
        let dvy = div_trunc_i128(force.y * (dt as i128), self.mass as i128);
        let dvz = div_trunc_i128(force.z * (dt as i128), self.mass as i128);
        proof {
            crate::arith::lemma_div_trunc_bound(force@.x * dt, self@.mass);
            crate::arith::lemma_div_trunc_bound(force@.y * dt, self@.mass);
            crate::arith::lemma_div_trunc_bound(force@.z * dt, self@.mass);
        }
        let vx = self.vel.x + dvx;
        let vy = self.vel.y + dvy;
        let vz = self.vel.z + dvz;
        proof {
            let vb: int = 0x400_0000_0000_0000_0000_0000 + MAX_VEL as int;
            lemma_scale_bound(vx as int, dt as int, vb, MAX_DT as int);
            lemma_scale_bound(vy as int, dt as int, vb, MAX_DT as int);
            lemma_scale_bound(vz as int, dt as int, vb, MAX_DT as int);
        }
        Point::new(
            self.mass,
            self.x + vx * (dt as i128),
            self.y + vy * (dt as i128),
            self.z + vz * (dt as i128),
            Vec3d::new(vx, vy, vz),
        )
    }
}

/// Multiplying values bounded in magnitude keeps the product bounded.
proof fn lemma_scale_bound(a: int, t: int, ab: int, tb: int)
    requires
        -ab <= a <= ab,
        0 <= t <= tb,
        0 <= ab,
    ensures
        -(ab * tb) <= a * t <= ab * tb,
{
    assert(-(ab * tb) <= a * t <= ab * tb) by (nonlinear_arith)
        requires -ab <= a <= ab, 0 <= t <= tb, 0 <= ab;
}

/// The products of the two masses with each displacement component stay in
/// the machine range.
proof fn lemma_mul_mono_both(m1: int, m2: int, m12: int, dx: int, dy: int, dz: int)
    requires
        m12 == m1 * m2,
        0 <= m12 <= 0x4_0000_0000_0000_0000,
        -0x1000_0000_0000_0000 <= dx <= 0x1000_0000_0000_0000,
        -0x1000_0000_0000_0000 <= dy <= 0x1000_0000_0000_0000,
        -0x1000_0000_0000_0000 <= dz <= 0x1000_0000_0000_0000,
    ensures
        i128::MIN < m12 * dx < i128::MAX,
        i128::MIN < m12 * dy < i128::MAX,
        i128::MIN < m12 * dz < i128::MAX,
{
    assert(-0x4000_0000_0000_0000_0000_0000_0000_0000 <= m12 * dx
        <= 0x4000_0000_0000_0000_0000_0000_0000_0000
        && -0x4000_0000_0000_0000_0000_0000_0000_0000 <= m12 * dy
        <= 0x4000_0000_0000_0000_0000_0000_0000_0000
        && -0x4000_0000_0000_0000_0000_0000_0000_0000 <= m12 * dz
        <= 0x4000_0000_0000_0000_0000_0000_0000_0000) by (nonlinear_arith)
        requires
            0 <= m12 <= 0x4_0000_0000_0000_0000,
            -0x1000_0000_0000_0000 <= dx <= 0x1000_0000_0000_0000,
            -0x1000_0000_0000_0000 <= dy <= 0x1000_0000_0000_0000,
            -0x1000_0000_0000_0000 <= dz <= 0x1000_0000_0000_0000;
}

/// One truncated component of the force law: `m12 * delta / (d2 * d)`,
/// computed as two divisions.
fn force_component(m12: i128, delta: i128, d2: i128, d: i128) -> (r: i128)
    requires
        0 < d,
        0 < d2,
        i128::MIN < m12 * delta < i128::MAX,
        0 <= m12,
    ensures
        r == div_trunc(m12 * delta, d2 * d),
{
    let num = m12 * delta;
    let q = div_trunc_i128(num, d2);
    proof {
        crate::arith::lemma_div_trunc_bound(num as int, d2 as int);
        crate::arith::lemma_div_trunc_split(num as int, d2 as int, d as int);
    }
    div_trunc_i128(q, d)
}

/// The force component is bounded by the product of the two masses.
proof fn lemma_force_component_value(m12: int, delta: int, d2: int, d: int)
    requires
        0 < d,
        0 < d2,
        delta * delta <= d2,
        d * d <= d2,
        0 <= m12,
    ensures
        -m12 <= div_trunc(m12 * delta, d2 * d) <= m12,
{
    let a = if delta >= 0 { delta } else { -delta };
    assert(a * a <= d2) by (nonlinear_arith)
        requires delta * delta <= d2, a == delta || a == -delta;
    assert(a <= d2) by (nonlinear_arith)
        requires a * a <= d2, 0 <= a, 0 < d2;
    assert(d2 <= d2 * d) by (nonlinear_arith)
        requires 0 < d2, 1 <= d;
    assert(d2 * d > 0) by (nonlinear_arith)
        requires d2 > 0, d > 0;
    assert(m12 * a <= m12 * (d2 * d) && m12 * a >= 0) by (nonlinear_arith)
        requires 0 <= m12, 0 <= a, a <= d2 * d;
    crate::arith::lemma_div_trunc_ordered(m12 * a, m12 * (d2 * d), d2 * d);
    vstd::arithmetic::div_mod::lemma_div_multiples_vanish(m12, d2 * d);
    assert(div_trunc(m12 * (d2 * d), d2 * d) == m12);
    assert(div_trunc(m12 * a, d2 * d) <= m12);
    if delta >= 0 {
        assert(m12 * delta == m12 * a) by (nonlinear_arith)
            requires delta == a;
        assert(0 <= div_trunc(m12 * delta, d2 * d) <= m12);
    } else {
        assert(m12 * delta == -(m12 * a)) by (nonlinear_arith)
            requires delta == -a;
        assert(div_trunc(m12 * delta, d2 * d) == -div_trunc(m12 * a, d2 * d));
        assert(-m12 <= div_trunc(m12 * delta, d2 * d) <= 0);
    }
}

/// A vector whose components lie in `[-b, b]` has a squared norm within
/// `3 * b * b`, and each component's square is at most the squared norm.
pub proof fn lemma_norm_sq_bounds(a: V3, b: int)
    requires
        v3_in(a, b),
        0 <= b,
    ensures
        0 <= norm_sq(a) <= 3 * (b * b),
        a.x * a.x <= norm_sq(a),
        a.y * a.y <= norm_sq(a),
        a.z * a.z <= norm_sq(a),
{
    assert(0 <= a.x * a.x <= b * b && 0 <= a.y * a.y <= b * b && 0 <= a.z * a.z <= b * b)
        by (nonlinear_arith)
        requires -b <= a.x <= b, -b <= a.y <= b, -b <= a.z <= b, 0 <= b;
}

/// Only the zero vector has a zero squared norm.
pub proof fn lemma_norm_sq_zero(a: V3)
    requires
        norm_sq(a) == 0,
    ensures
        a == v3_zero(),
{
    assert(a.x * a.x >= 0 && a.y * a.y >= 0 && a.z * a.z >= 0) by (nonlinear_arith);
    assert(a.x * a.x == 0 && a.y * a.y == 0 && a.z * a.z == 0);
    assert(a.x == 0 && a.y == 0 && a.z == 0) by (nonlinear_arith)
        requires a.x * a.x == 0, a.y * a.y == 0, a.z * a.z == 0;
}

} // verus!
