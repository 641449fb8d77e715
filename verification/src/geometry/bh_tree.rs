//! The Barnes-Hut spatial tree: octant subdivision, exact aggregate
//! bookkeeping, the close-encounter merge policy, approximate force
//! evaluation, and the per-step state transition.

use rayon::iter::IntoParallelRefIterator;
use rayon::iter::ParallelIterator;
use vstd::prelude::*;

verus! {

use crate::arith::is_pow2;
use crate::arith::div_floor_i128;
use crate::geometry::vec3d::{Vec3d, Point, V3, PointV};
use crate::geometry::vec3d::{v3_zero, v3_add, v3_sub, v3_scale, v3_in, v3_div_floor};
use crate::geometry::vec3d::{dist, merge_radius_of, point_fits, norm_sq, force_between};
use crate::geometry::vec3d::stepped_point;
use crate::MAX_MASS;
use crate::MAX_COORD;
use crate::MAX_VEL;
use crate::MAX_DT;
use crate::MAX_FORCE;

/// Bound on a cube corner coordinate; every cube the tree builds stays
/// inside `[-MAX_REGION, MAX_REGION]` on all axes.
pub const MAX_REGION: i128 = 0x2000_0000_0000_0000;

/// One node of the spatial tree: a cubic region, the exact mass, weighted
/// position and momentum sums of the bodies below it, at most one directly
/// stored body, and either zero or eight child octants.
pub struct BHNode {
    pub theta_num: u64,
    pub theta_den: u64,
    pub mass: u64,
    pub wsum: Vec3d,
    pub msum: Vec3d,
    pub point: Option<Point>,
    pub count: u64,
    pub region_size: u64,
    pub xloc: i128,
    pub yloc: i128,
    pub zloc: i128,
    pub children: Vec<BHNode>,
}

/// Two bodies collide when their distance is within either merge radius.
pub open spec fn should_merge_spec(a: PointV, b: PointV) -> bool {
    dist(a.pos, b.pos) <= a.radius || dist(a.pos, b.pos) <= b.radius
}

/// The single body that replaces two colliding ones: summed mass,
/// mass-weighted mean position, momentum-weighted mean velocity.
pub open spec fn merged_v(a: PointV, b: PointV) -> PointV {
    let m = a.mass + b.mass;
    PointV {
        mass: m,
        pos: v3_div_floor(v3_add(v3_scale(a.pos, a.mass), v3_scale(b.pos, b.mass)), m),
        vel: v3_div_floor(v3_add(v3_scale(a.vel, a.mass), v3_scale(b.vel, b.mass)), m),
        radius: merge_radius_of(m),
    }
}

/// Decides the merge policy on two bodies.
fn should_merge(p1: Point, p2: Point) -> (r: bool)
    requires
        v3_in(p1@.pos, 0x1000_0000_0000_0000),
        v3_in(p2@.pos, 0x1000_0000_0000_0000),
    ensures
        r == should_merge_spec(p1@, p2@),
{
    let d = p1.distance_to(p2);
    (d <= p1.schwarzchild_radius()) || (d <= p2.schwarzchild_radius())
}

impl BHNode {
    /// The bodies stored in this subtree, left to right over the octants.
    pub open spec fn bodies(self) -> Seq<Point>
        decreases self, 9int, 0int,
    {
        if self.children.len() == 0 {
            match self.point {
                Some(p) => seq![p],
                None => Seq::empty(),
            }
        } else {
            bodies_upto(self.children@, 8)
        }
    }

    /// The position lies inside this node's half-open cube.
    pub open spec fn in_cube(self, p: V3) -> bool {
        &&& self.xloc <= p.x < self.xloc + self.region_size
        &&& self.yloc <= p.y < self.yloc + self.region_size
        &&& self.zloc <= p.z < self.zloc + self.region_size
    }

    /// Every one of the eight children is a well-formed octant.
    pub open spec fn children_ok(self) -> bool
        decreases self, 0int, 1int,
    {
        forall|i: int| #![trigger self.children@[i]] 0 <= i < 8 ==> self.child_ok(i)
    }

    /// Child `i` occupies the octant selected by the three bits of `i`
    /// (x highest), carries the same opening angle, and is well-formed.
    pub open spec fn child_ok(self, i: int) -> bool
        decreases self, 0int, 0int,
    {
        if 0 <= i < self.children@.len() {
            let c = self.children@[i];
            &&& octant_ok(c, self.xloc as int, self.yloc as int, self.zloc as int,
                self.region_size as int, i)
            &&& c.theta_num == self.theta_num
            &&& c.theta_den == self.theta_den
            &&& c.wf()
        } else {
            false
        }
    }

    /// The structural invariant: octant subdivision, exact aggregates, and
    /// containment, at every node.
    pub open spec fn wf(self) -> bool
        decreases self, 1int, 0int,
    {
        &&& 1 <= self.region_size
        &&& is_pow2(self.region_size as nat)
        &&& 1 <= self.theta_num <= self.theta_den
        &&& -MAX_REGION <= self.xloc && self.xloc + self.region_size <= MAX_REGION as int
        &&& -MAX_REGION <= self.yloc && self.yloc + self.region_size <= MAX_REGION as int
        &&& -MAX_REGION <= self.zloc && self.zloc + self.region_size <= MAX_REGION as int
        &&& self.count <= self.mass
        &&& v3_in(self.wsum@, self.mass * MAX_COORD)
        &&& v3_in(self.msum@, self.mass * MAX_VEL)
        &&& (self.children.len() == 0 || self.children.len() == 8)
        &&& if self.children.len() == 0 {
            &&& self.count <= 1
            &&& (self.count == 0 ==> {
                &&& self.point is None
                &&& self.mass == 0
                &&& self.wsum@ == v3_zero()
                &&& self.msum@ == v3_zero()
            })
            &&& (self.count == 1 ==> match self.point {
                Some(b) => {
                    &&& point_fits(b@)
                    &&& self.in_cube(b@.pos)
                    &&& self.mass == b@.mass
                    &&& self.wsum@ == v3_scale(b@.pos, b@.mass)
                    &&& self.msum@ == v3_scale(b@.vel, b@.mass)
                },
                None => false,
            })
        } else {
            &&& self.point is None
            &&& self.count >= 1
            &&& self.children_ok()
            &&& self.count == kids_count(self.children@, 8)
            &&& self.mass == kids_mass(self.children@, 8)
            &&& self.wsum@ == kids_wsum(self.children@, 8)
            &&& self.msum@ == kids_msum(self.children@, 8)
        }
    }

    /// The aggregate of this node as a synthetic body: total mass at the
    /// mass-weighted mean position, moving with the momentum-weighted mean
    /// velocity. Meaningful when the node holds at least one body.
    pub open spec fn com_v(self) -> PointV {
        PointV {
            mass: self.mass as int,
            pos: v3_div_floor(self.wsum@, self.mass as int),
            vel: v3_div_floor(self.msum@, self.mass as int),
            radius: merge_radius_of(self.mass as int),
        }
    }

    pub fn new(theta_num: u64, theta_den: u64, region_size: u64, x: i128, y: i128, z: i128)
        -> (r: BHNode)
        requires
            1 <= theta_num <= theta_den,
            1 <= region_size,
            is_pow2(region_size as nat),
            -MAX_REGION <= x as int && x + region_size <= MAX_REGION as int,
            -MAX_REGION <= y as int && y + region_size <= MAX_REGION as int,
            -MAX_REGION <= z as int && z + region_size <= MAX_REGION as int,
        ensures
            r.wf(),
            r.count == 0,
            r.mass == 0,
            r.bodies() == Seq::<Point>::empty(),
            r.theta_num == theta_num && r.theta_den == theta_den,
            r.region_size == region_size,
            r.xloc == x && r.yloc == y && r.zloc == z,
    {
        BHNode {
            theta_num,
            theta_den,
            mass: 0,
            wsum: Vec3d::new_zero(),
            msum: Vec3d::new_zero(),
            point: None,
            count: 0,
            region_size,
            xloc: x,
            yloc: y,
            zloc: z,
            children: Vec::new(),
        }
    }

    /// The aggregate as a `Point`; the zero point for an empty node.
    pub fn center_of_mass(&self) -> (r: Point)
        requires
            self.count == 0 ==> self.mass == 0,
            self.count >= 1 ==> 1 <= self.mass,
            v3_in(self.wsum@, self.mass * MAX_COORD),
            v3_in(self.msum@, self.mass * MAX_VEL),
        ensures
            self.count >= 1 ==> r@ == self.com_v(),
            self.count == 0 ==> r@.mass == 0 && r@.pos == v3_zero() && r@.vel == v3_zero(),
            r.mass == self.mass,
    {
        if self.count == 0 {
            let r = Point::new(0, 0, 0, 0, Vec3d::new_zero());
            return r;
        }
        proof {
            assert(0 <= self.mass * MAX_COORD < 0x8000_0000_0000_0000_0000_0000_0000_0000int
                && 0 <= self.mass * MAX_VEL < 0x8000_0000_0000_0000_0000_0000_0000_0000int)
                by (nonlinear_arith)
                requires 0 <= self.mass < 0x1_0000_0000_0000_0000,
                    MAX_COORD == 0x0800_0000_0000_0000int, MAX_VEL == 0x0800_0000_0000_0000int;
        }
        let m = self.mass as i128;
        Point::new(
            self.mass,
            div_floor_i128(self.wsum.x, m),
            div_floor_i128(self.wsum.y, m),
            div_floor_i128(self.wsum.z, m),
            Vec3d::new(
                div_floor_i128(self.msum.x, m),
                div_floor_i128(self.msum.y, m),
                div_floor_i128(self.msum.z, m),
            ),
        )
    }
}

/// The cube of `c` is octant `i` of the cube given by the other arguments.
pub open spec fn octant_ok(c: BHNode, xloc: int, yloc: int, zloc: int, region_size: int,
    i: int) -> bool {
    let h = region_size / 2;
    &&& c.region_size == h
    &&& c.xloc == xloc + if i >= 4 { h } else { 0 }
    &&& c.yloc == yloc + if i % 4 >= 2 { h } else { 0 }
    &&& c.zloc == zloc + if i % 2 == 1 { h } else { 0 }
}

/// Number of bodies under the first `n` of the nodes `s`.
pub open spec fn kids_count(s: Seq<BHNode>, n: int) -> int
    decreases n,
{
    if n <= 0 {
        0
    } else {
        kids_count(s, n - 1) + s[n - 1].count
    }
}

/// Total mass under the first `n` of the nodes `s`.
pub open spec fn kids_mass(s: Seq<BHNode>, n: int) -> int
    decreases n,
{
    if n <= 0 {
        0
    } else {
        kids_mass(s, n - 1) + s[n - 1].mass
    }
}

/// Summed weighted positions under the first `n` of the nodes `s`.
pub open spec fn kids_wsum(s: Seq<BHNode>, n: int) -> V3
    decreases n,
{
    if n <= 0 {
        v3_zero()
    } else {
        v3_add(kids_wsum(s, n - 1), s[n - 1].wsum@)
    }
}

/// Summed momenta under the first `n` of the nodes `s`.
pub open spec fn kids_msum(s: Seq<BHNode>, n: int) -> V3
    decreases n,
{
    if n <= 0 {
        v3_zero()
    } else {
        v3_add(kids_msum(s, n - 1), s[n - 1].msum@)
    }
}

/// The bodies under the first `n` of the nodes `s`, concatenated.
pub open spec fn bodies_upto(s: Seq<BHNode>, n: int) -> Seq<Point>
    decreases s, n, 1int,
{
    if n <= 0 || n > s.len() {
        Seq::empty()
    } else {
        bodies_upto(s, n - 1) + s[n - 1].bodies()
    }
}

/// `p` is not in collision range of any body in `s`.
pub open spec fn no_merge_against(p: Point, s: Seq<Point>) -> bool {
    forall|t: Point| #[trigger] s.to_multiset().count(t) > 0 ==> !should_merge_spec(t@, p@)
}

/// What one insertion guarantees: the structure stays well-formed over the
/// same cube, mass is conserved exactly, and the bodies change either by the
/// new body joining or by it merging with exactly one resident body.
pub open spec fn add_result(pre: BHNode, post: BHNode, p: Point) -> bool {
    &&& post.wf()
    &&& post.xloc == pre.xloc && post.yloc == pre.yloc && post.zloc == pre.zloc
    &&& post.region_size == pre.region_size
    &&& post.theta_num == pre.theta_num && post.theta_den == pre.theta_den
    &&& post.mass == pre.mass + p.mass
    &&& 1 <= post.count
    &&& (no_merge_against(p, pre.bodies()) ==> {
        &&& post.count == pre.count + 1
        &&& post.wsum@ == v3_add(pre.wsum@, v3_scale(p@.pos, p@.mass))
        &&& post.msum@ == v3_add(pre.msum@, v3_scale(p@.vel, p@.mass))
    })
    &&& ((post.count == pre.count + 1
        && post.bodies().to_multiset() == pre.bodies().to_multiset().insert(p))
        || (post.count == pre.count && exists|t: Point, mb: Point|
            #![trigger pre.bodies().to_multiset().remove(t).insert(mb)]
            pre.bodies().to_multiset().count(t) > 0
            && should_merge_spec(t@, p@)
            && mb@ == merged_v(t@, p@)
            && post.bodies().to_multiset()
                == pre.bodies().to_multiset().remove(t).insert(mb)))
    &&& ((pre.children.len() == 0 && pre.count == 1
            && should_merge_spec(pre.point->Some_0@, p@)) ==> {
        &&& post.count == 1
        &&& post.children.len() == 0
        &&& post.point matches Some(mb) && mb@ == merged_v(pre.point->Some_0@, p@)
    })
}

/// Sums over a prefix of nodes are monotone in the prefix.
proof fn lemma_kids_prefix(s: Seq<BHNode>, a: int, b: int)
    requires
        a <= b,
    ensures
        kids_mass(s, a) <= kids_mass(s, b),
        kids_count(s, a) <= kids_count(s, b),
        0 <= kids_mass(s, 0) && 0 <= kids_count(s, 0),
    decreases b - a,
{
    if a < b {
        lemma_kids_prefix(s, a, b - 1);
    }
}

/// Sums over well-formed nodes inherit their componentwise bounds.
proof fn lemma_kids_wf_sums(s: Seq<BHNode>, n: int)
    requires
        forall|i: int| 0 <= i < n ==> 0 <= i < s.len() && (#[trigger] s[i]).wf(),
    ensures
        0 <= kids_count(s, n) <= kids_mass(s, n),
        v3_in(kids_wsum(s, n), kids_mass(s, n) * MAX_COORD),
        v3_in(kids_msum(s, n), kids_mass(s, n) * MAX_VEL),
    decreases n,
{
    if n <= 0 {
        assert(kids_mass(s, n) * MAX_COORD == 0 && kids_mass(s, n) * MAX_VEL == 0)
            by (nonlinear_arith)
            requires kids_mass(s, n) == 0;
    } else {
        lemma_kids_wf_sums(s, n - 1);
        let c = s[n - 1];
        assert(c.wf());
        lemma_sum_scaled_bounds(kids_wsum(s, n - 1), kids_mass(s, n - 1), c.wsum@,
            c.mass as int, MAX_COORD as int);
        lemma_sum_scaled_bounds(kids_msum(s, n - 1), kids_mass(s, n - 1), c.msum@,
            c.mass as int, MAX_VEL as int);
    }
}

/// Adding a vector bounded by `m2 * b` to one bounded by `m1 * b` stays
/// within `(m1 + m2) * b`.
proof fn lemma_sum_scaled_bounds(w1: V3, m1: int, w2: V3, m2: int, b: int)
    requires
        v3_in(w1, m1 * b),
        v3_in(w2, m2 * b),
    ensures
        v3_in(v3_add(w1, w2), (m1 + m2) * b),
{
    assert((m1 + m2) * b == m1 * b + m2 * b) by (nonlinear_arith);
}

/// A single weighted body stays within its scaled bound.
proof fn lemma_scale_in(p: V3, m: int, b: int)
    requires
        v3_in(p, b),
        0 <= m,
        0 <= b,
    ensures
        v3_in(v3_scale(p, m), m * b),
{
    assert(-(m * b) <= p.x * m <= m * b && -(m * b) <= p.y * m <= m * b
        && -(m * b) <= p.z * m <= m * b) by (nonlinear_arith)
        requires -b <= p.x <= b, -b <= p.y <= b, -b <= p.z <= b, 0 <= m, 0 <= b;
}

/// Replacing one node in a prefix shifts each sum by that node's change.
proof fn lemma_kids_update(s1: Seq<BHNode>, s2: Seq<BHNode>, i: int, n: int)
    requires
        s1.len() == s2.len(),
        0 <= i < s1.len(),
        forall|j: int| 0 <= j < s1.len() && j != i ==> s1[j] == s2[j],
    ensures
        n <= i ==> kids_count(s2, n) == kids_count(s1, n)
            && kids_mass(s2, n) == kids_mass(s1, n)
            && kids_wsum(s2, n) == kids_wsum(s1, n)
            && kids_msum(s2, n) == kids_msum(s1, n),
        i < n <= s1.len() ==> kids_count(s2, n) == kids_count(s1, n) + s2[i].count - s1[i].count
            && kids_mass(s2, n) == kids_mass(s1, n) + s2[i].mass - s1[i].mass
            && kids_wsum(s2, n) == v3_add(kids_wsum(s1, n),
                v3_sub(s2[i].wsum@, s1[i].wsum@))
            && kids_msum(s2, n) == v3_add(kids_msum(s1, n),
                v3_sub(s2[i].msum@, s1[i].msum@)),
    decreases n,
{
    if n > 0 {
        lemma_kids_update(s1, s2, i, n - 1);
    }
}

/// Replacing one node in a prefix changes the collected bodies by exactly
/// that node's change, counted as multisets.
proof fn lemma_bodies_upto_update(s1: Seq<BHNode>, s2: Seq<BHNode>, i: int, n: int)
    requires
        s1.len() == s2.len(),
        0 <= i < s1.len(),
        forall|j: int| 0 <= j < s1.len() && j != i ==> s1[j] == s2[j],
    ensures
        n <= i ==> bodies_upto(s2, n) == bodies_upto(s1, n),
        i < n <= s1.len() ==> forall|t: Point|
            #[trigger] bodies_upto(s2, n).to_multiset().count(t)
            == bodies_upto(s1, n).to_multiset().count(t)
                - s1[i].bodies().to_multiset().count(t)
                + s2[i].bodies().to_multiset().count(t),
    decreases n,
{
    if n <= 0 {
    } else if n <= i {
        lemma_bodies_upto_update(s1, s2, i, n - 1);
    } else if n <= s1.len() {
        lemma_bodies_upto_update(s1, s2, i, n - 1);
        vstd::seq_lib::lemma_multiset_commutative(bodies_upto(s1, n - 1), s1[n - 1].bodies());
        vstd::seq_lib::lemma_multiset_commutative(bodies_upto(s2, n - 1), s2[n - 1].bodies());
        if i < n - 1 {
            assert(s2[n - 1] == s1[n - 1]);
        }
    }
}

/// Each node's bodies are contained in the collected bodies of any prefix
/// that includes it.
pub proof fn lemma_bodies_upto_member(s: Seq<BHNode>, i: int, n: int)
    requires
        0 <= i < n <= s.len(),
    ensures
        forall|t: Point| #[trigger] bodies_upto(s, n).to_multiset().count(t)
            >= s[i].bodies().to_multiset().count(t),
    decreases n,
{
    vstd::seq_lib::lemma_multiset_commutative(bodies_upto(s, n - 1), s[n - 1].bodies());
    if i < n - 1 {
        lemma_bodies_upto_member(s, i, n - 1);
        assert forall|t: Point| #[trigger] bodies_upto(s, n).to_multiset().count(t)
            >= s[i].bodies().to_multiset().count(t) by {
            assert(bodies_upto(s, n).to_multiset().count(t)
                == bodies_upto(s, n - 1).to_multiset().count(t)
                    + s[n - 1].bodies().to_multiset().count(t));
        }
    }
}

impl BHNode {
    /// Replaces this leaf's empty child list with the eight octants of its
    /// cube, each an empty leaf.
    fn split(&mut self)
        requires
            old(self).children@.len() == 0,
            old(self).region_size >= 2,
            is_pow2(old(self).region_size as nat),
            1 <= old(self).theta_num <= old(self).theta_den,
            -MAX_REGION <= old(self).xloc
                && old(self).xloc + old(self).region_size <= MAX_REGION as int,
            -MAX_REGION <= old(self).yloc
                && old(self).yloc + old(self).region_size <= MAX_REGION as int,
            -MAX_REGION <= old(self).zloc
                && old(self).zloc + old(self).region_size <= MAX_REGION as int,
        ensures
            final(self).children@.len() == 8,
            forall|i: int| 0 <= i < 8 ==> final(self).child_ok(i),
            forall|i: int| 0 <= i < 8 ==> (#[trigger] final(self).children@[i]).count == 0
                && final(self).children@[i].mass == 0
                && final(self).children@[i].bodies() == Seq::<Point>::empty(),
            kids_count(final(self).children@, 8) == 0,
            kids_mass(final(self).children@, 8) == 0,
            kids_wsum(final(self).children@, 8) == v3_zero(),
            kids_msum(final(self).children@, 8) == v3_zero(),
            bodies_upto(final(self).children@, 8) == Seq::<Point>::empty(),
            final(self).theta_num == old(self).theta_num
                && final(self).theta_den == old(self).theta_den,
            final(self).mass == old(self).mass && final(self).wsum == old(self).wsum
                && final(self).msum == old(self).msum,
            final(self).count == old(self).count && final(self).point == old(self).point,
            final(self).region_size == old(self).region_size
                && final(self).xloc == old(self).xloc
                && final(self).yloc == old(self).yloc && final(self).zloc == old(self).zloc,
    {
        proof {
            assert(old(self).region_size as nat % 2 == 0
                && is_pow2((old(self).region_size / 2) as nat));
        }
        let h = self.region_size / 2;
        let tn = self.theta_num;
        let td = self.theta_den;
        let x = self.xloc;
        let y = self.yloc;
        let z = self.zloc;
        let mut kids: Vec<BHNode> = Vec::new();
        kids.push(BHNode::new(tn, td, h, x, y, z));
        kids.push(BHNode::new(tn, td, h, x, y, z + h as i128));
        kids.push(BHNode::new(tn, td, h, x, y + h as i128, z));
        kids.push(BHNode::new(tn, td, h, x, y + h as i128, z + h as i128));
        kids.push(BHNode::new(tn, td, h, x + h as i128, y, z));
        kids.push(BHNode::new(tn, td, h, x + h as i128, y, z + h as i128));
        kids.push(BHNode::new(tn, td, h, x + h as i128, y + h as i128, z));
        kids.push(BHNode::new(tn, td, h, x + h as i128, y + h as i128, z + h as i128));
        self.children = kids;
        proof {
            reveal_with_fuel(kids_count, 9);
            reveal_with_fuel(kids_mass, 9);
            reveal_with_fuel(kids_wsum, 9);
            reveal_with_fuel(kids_msum, 9);
            reveal_with_fuel(bodies_upto, 9);
            assert(bodies_upto(self.children@, 8) =~= Seq::<Point>::empty());
        }
    }

    /// Inserts `p` into this subtree and returns the new subtree. The
    /// aggregate absorbs `p` exactly; a body already within collision range
    /// in the leaf `p` reaches is merged with it instead of subdividing.
    pub fn add_point(self, p: Point) -> (r: BHNode)
        requires
            self.wf(),
            self.in_cube(p@.pos),
            point_fits(p@),
            self.mass + p.mass <= MAX_MASS,
        ensures
            add_result(self, r, p),
        decreases self.region_size, 1int,
    {
        let ghost pre = self;
        let mut node = self;
        proof {
            lemma_scale_in(p@.pos, p@.mass, MAX_COORD as int);
            lemma_scale_in(p@.vel, p@.mass, MAX_VEL as int);
            lemma_sum_scaled_bounds(node.wsum@, node.mass as int,
                v3_scale(p@.pos, p@.mass), p@.mass, MAX_COORD as int);
            lemma_sum_scaled_bounds(node.msum@, node.mass as int,
                v3_scale(p@.vel, p@.mass), p@.mass, MAX_VEL as int);
            lemma_mass_range_products(node.mass as int, p@.mass);
        }
        node.mass = node.mass + p.mass;
        node.wsum = node.wsum.add(Vec3d::new(p.x, p.y, p.z).mul_scalar(p.mass as i128));
        node.msum = node.msum.add(p.vel.mul_scalar(p.mass as i128));
        node.count = node.count + 1;

        if node.count == 1 {
            // The first body of an empty leaf is stored directly.
            node.point = Some(p);
            proof {
                broadcast use vstd::seq_lib::group_to_multiset_ensures;
                assert(pre.children.len() == 0);
                assert(node.bodies() =~= seq![p]);
                assert(pre.bodies() =~= Seq::<Point>::empty());
                assert(seq![p] =~= Seq::<Point>::empty().push(p));
                assert(node.bodies().to_multiset() == pre.bodies().to_multiset().insert(p));
            }
            return node;
        }

        if node.children.len() == 0 && node.count == 2 {
            let s = node.point.unwrap();
            proof {
                assert(pre.count == 1 && pre.point == Some(s));
                assert(pre.bodies() =~= seq![s]);
            }
            if should_merge(s, p) {
                // Collapse the close encounter into one synthetic body.
                proof {
                    assert(node.wsum@ == v3_add(v3_scale(s@.pos, s@.mass),
                        v3_scale(p@.pos, p@.mass)));
                    assert(node.msum@ == v3_add(v3_scale(s@.vel, s@.mass),
                        v3_scale(p@.vel, p@.mass)));
                }
                let m = node.center_of_mass();
                proof {
                    assert(m@ == merged_v(s@, p@));
                    let e = pre.region_size as int;
                    lemma_weighted_avg_range(s@.pos.x, s@.mass, p@.pos.x, p@.mass,
                        pre.xloc as int, pre.xloc + e - 1);
                    lemma_weighted_avg_range(s@.pos.y, s@.mass, p@.pos.y, p@.mass,
                        pre.yloc as int, pre.yloc + e - 1);
                    lemma_weighted_avg_range(s@.pos.z, s@.mass, p@.pos.z, p@.mass,
                        pre.zloc as int, pre.zloc + e - 1);
                    lemma_weighted_avg_range(s@.pos.x, s@.mass, p@.pos.x, p@.mass,
                        -MAX_COORD as int, MAX_COORD as int);
                    lemma_weighted_avg_range(s@.pos.y, s@.mass, p@.pos.y, p@.mass,
                        -MAX_COORD as int, MAX_COORD as int);
                    lemma_weighted_avg_range(s@.pos.z, s@.mass, p@.pos.z, p@.mass,
                        -MAX_COORD as int, MAX_COORD as int);
                    lemma_weighted_avg_range(s@.vel.x, s@.mass, p@.vel.x, p@.mass,
                        -MAX_VEL as int, MAX_VEL as int);
                    lemma_weighted_avg_range(s@.vel.y, s@.mass, p@.vel.y, p@.mass,
                        -MAX_VEL as int, MAX_VEL as int);
                    lemma_weighted_avg_range(s@.vel.z, s@.mass, p@.vel.z, p@.mass,
                        -MAX_VEL as int, MAX_VEL as int);
                    assert(point_fits(m@));
                    lemma_scale_in(m@.pos, m@.mass, MAX_COORD as int);
                    lemma_scale_in(m@.vel, m@.mass, MAX_VEL as int);
                    lemma_mass_range_products(0, node.mass as int);
                }
                node.point = Some(m);
                node.count = 1;
                node.wsum = Vec3d::new(m.x, m.y, m.z).mul_scalar(m.mass as i128);
                node.msum = m.vel.mul_scalar(m.mass as i128);
                proof {
                    broadcast use vstd::seq_lib::group_to_multiset_ensures;
                    broadcast use vstd::multiset::group_multiset_axioms;
                    assert(node.bodies() =~= seq![m]);
                    assert(seq![s] =~= Seq::<Point>::empty().push(s));
                    assert(seq![m] =~= Seq::<Point>::empty().push(m));
                    assert(pre.bodies().to_multiset().count(s) > 0);
                    assert(node.bodies().to_multiset()
                        =~= pre.bodies().to_multiset().remove(s).insert(m));
                    assert(!no_merge_against(p, pre.bodies()));
                    assert(node.wf());
                    assert(pre.bodies().to_multiset().count(s) > 0
                        && should_merge_spec(s@, p@) && m@ == merged_v(s@, p@)
                        && node.bodies().to_multiset()
                            == pre.bodies().to_multiset().remove(s).insert(m));
                }
                return node;
            }
            // Subdivide and push both bodies one level down. A unit cube
            // holds a single integer position, where any second body merges,
            // so here the cube is large enough to subdivide.
            proof {
                if node.region_size == 1 {
                    assert(s@.pos == p@.pos);
                    let dv = v3_sub(p@.pos, s@.pos);
                    assert(dv.x == 0 && dv.y == 0 && dv.z == 0);
                    assert(dv.x * dv.x == 0 && dv.y * dv.y == 0 && dv.z * dv.z == 0)
                        by (nonlinear_arith)
                        requires dv.x == 0, dv.y == 0, dv.z == 0;
                    assert(crate::arith::sqrt_floor(0) == 0);
                    assert(should_merge_spec(s@, p@));
                }
            }
            node.point = None;
            node.split();
            let ghost kids0 = node.children@;
            proof {
                assert(kids_mass(kids0, 8) == 0);
                assert forall|j: int| 0 <= j < 8 implies
                    octant_ok(#[trigger] kids0[j], node.xloc as int, node.yloc as int,
                        node.zloc as int, node.region_size as int, j)
                    && kids0[j].wf()
                    && kids0[j].theta_num == node.theta_num
                    && kids0[j].theta_den == node.theta_den by {
                    assert(node.child_ok(j));
                }
            }
            let ch = node.children;
            let (ch, i1) = add_to_child(ch, s, node.xloc, node.yloc, node.zloc,
                node.region_size);
            let ghost kids1 = ch@;
            proof {
                lemma_kids_update(kids0, kids1, i1 as int, 8);
                lemma_bodies_upto_update(kids0, kids1, i1 as int, 8);
                assert forall|j: int| 0 <= j < 8 implies
                    octant_ok(#[trigger] kids1[j], node.xloc as int, node.yloc as int,
                        node.zloc as int, node.region_size as int, j)
                    && kids1[j].wf()
                    && kids1[j].theta_num == node.theta_num
                    && kids1[j].theta_den == node.theta_den by {
                    if j == i1 as int {
                        assert(add_result(kids0[j], kids1[j], s));
                    } else {
                        assert(kids1[j] == kids0[j]);
                    }
                }
            }
            let (ch, i2) = add_to_child(ch, p, node.xloc, node.yloc, node.zloc,
                node.region_size);
            node.children = ch;
            let ghost kids2 = node.children@;
            proof {
                lemma_kids_update(kids1, kids2, i2 as int, 8);
                lemma_bodies_upto_update(kids1, kids2, i2 as int, 8);
                assert forall|j: int| 0 <= j < 8 implies
                    octant_ok(#[trigger] kids2[j], node.xloc as int, node.yloc as int,
                        node.zloc as int, node.region_size as int, j)
                    && kids2[j].wf()
                    && kids2[j].theta_num == node.theta_num
                    && kids2[j].theta_den == node.theta_den by {
                    if j == i2 as int {
                        assert(add_result(kids1[j], kids2[j], p));
                    } else {
                        assert(kids2[j] == kids1[j]);
                    }
                }
                lemma_kids_wf_sums(kids2, 8);
            }
            let sums = sum_children(&node.children);
            node.mass = sums.0;
            node.wsum = sums.1;
            node.msum = sums.2;
            node.count = sums.3;
            proof {
                broadcast use vstd::seq_lib::group_to_multiset_ensures;
                broadcast use vstd::multiset::group_multiset_axioms;
                let a = i1 as int;
                let b = i2 as int;
                // Neither insertion can merge: the lower leaves hold at most
                // the other of the two bodies, which stay apart.
                assert forall|t: Point| #[trigger] bodies_upto(kids0, 8).to_multiset().count(t)
                    == 0 by {
                    assert(!Seq::<Point>::empty().contains(t));
                }
                assert forall|t: Point| #[trigger] kids0[a].bodies().to_multiset().count(t)
                    == 0 by {
                    assert(kids0[a].bodies() == Seq::<Point>::empty());
                    assert(!Seq::<Point>::empty().contains(t));
                }
                assert(no_merge_against(s, kids0[a].bodies()));
                assert(kids1[a].bodies().to_multiset()
                    == kids0[a].bodies().to_multiset().insert(s));
                assert(kids1[a].count == 1);
                assert(seq![s] =~= Seq::<Point>::empty().push(s));
                assert forall|t: Point| #[trigger] bodies_upto(kids1, 8).to_multiset().count(t)
                    == seq![s].to_multiset().count(t) by {
                    assert(bodies_upto(kids1, 8).to_multiset().count(t)
                        == bodies_upto(kids0, 8).to_multiset().count(t)
                            - kids0[a].bodies().to_multiset().count(t)
                            + kids1[a].bodies().to_multiset().count(t));
                }
                assert forall|t: Point|
                    #[trigger] kids1[b].bodies().to_multiset().count(t) > 0
                    implies !should_merge_spec(t@, p@) by {
                    lemma_bodies_upto_member(kids1, b, 8);
                    assert(bodies_upto(kids1, 8).to_multiset().count(t) > 0);
                    assert(seq![s].to_multiset().count(t) > 0);
                    assert(seq![s].contains(t));
                    assert(t == s);
                }
                assert(no_merge_against(p, kids1[b].bodies()));
                assert(kids2[b].bodies().to_multiset()
                    == kids1[b].bodies().to_multiset().insert(p));
                assert(kids2[b].count == kids1[b].count + 1);
                assert forall|i: int| 0 <= i < 8 implies node.child_ok(i) by {
                    assert(kids2[i].wf());
                }
                assert(node.children_ok());
                assert(node.wf());
                assert(node.bodies() == bodies_upto(kids2, 8));
                assert(pre.bodies() =~= seq![s]);
                assert forall|t: Point| #[trigger] node.bodies().to_multiset().count(t)
                    == pre.bodies().to_multiset().insert(p).count(t) by {
                    assert(bodies_upto(kids2, 8).to_multiset().count(t)
                        == bodies_upto(kids1, 8).to_multiset().count(t)
                            - kids1[b].bodies().to_multiset().count(t)
                            + kids2[b].bodies().to_multiset().count(t));
                }
                assert(node.bodies().to_multiset() =~= pre.bodies().to_multiset().insert(p));
                assert(node.count == 2 && pre.count == 1);
                assert(node.wsum@ == v3_add(pre.wsum@, v3_scale(p@.pos, p@.mass)));
                assert(node.msum@ == v3_add(pre.msum@, v3_scale(p@.vel, p@.mass)));
                assert(add_result(pre, node, p));
            }
            return node;
        }

        // A branch: route the body into the octant that contains it.
        let ghost kids0 = node.children@;
        proof {
            assert(node.children@.len() == 8);
            assert(pre.children@ == kids0);
            assert(pre.wf());
            assert(pre.children@.len() == 8);
            assert(pre.children.len() != 0);
            assert(forall|i: int| 0 <= i < 8 ==> pre.child_ok(i));
            assert forall|j: int| 0 <= j < 8 implies
                octant_ok(#[trigger] kids0[j], node.xloc as int, node.yloc as int,
                    node.zloc as int, node.region_size as int, j)
                && kids0[j].wf()
                && kids0[j].theta_num == node.theta_num
                && kids0[j].theta_den == node.theta_den by {
                assert(pre.child_ok(j));
            }
            assert(pre.child_ok(0));
            assert(node.region_size >= 2);
        }
        let ch = node.children;
        let (ch, i1) = add_to_child(ch, p, node.xloc, node.yloc, node.zloc, node.region_size);
        node.children = ch;
        let ghost kids1 = node.children@;
        proof {
            lemma_kids_update(kids0, kids1, i1 as int, 8);
            lemma_bodies_upto_update(kids0, kids1, i1 as int, 8);
            assert forall|j: int| 0 <= j < 8 implies
                octant_ok(#[trigger] kids1[j], node.xloc as int, node.yloc as int,
                    node.zloc as int, node.region_size as int, j)
                && kids1[j].wf()
                && kids1[j].theta_num == node.theta_num
                && kids1[j].theta_den == node.theta_den by {
                if j == i1 as int {
                    assert(add_result(kids0[j], kids1[j], p));
                } else {
                    assert(kids1[j] == kids0[j]);
                }
            }
            lemma_kids_wf_sums(kids1, 8);
        }
        let sums = sum_children(&node.children);
        node.mass = sums.0;
        node.wsum = sums.1;
        node.msum = sums.2;
        node.count = sums.3;
        proof {
            broadcast use vstd::seq_lib::group_to_multiset_ensures;
            broadcast use vstd::multiset::group_multiset_axioms;
            let i = i1 as int;
            assert forall|j: int| 0 <= j < 8 implies node.child_ok(j) by {
                assert(kids1[j].wf());
            }
            assert(node.children_ok());
            assert(node.wf());
            assert(pre.bodies() == bodies_upto(kids0, 8));
            assert(node.bodies() == bodies_upto(kids1, 8));
            lemma_bodies_upto_member(kids0, i, 8);
            if no_merge_against(p, pre.bodies()) {
                assert forall|t: Point|
                    #[trigger] kids0[i].bodies().to_multiset().count(t) > 0
                    implies !should_merge_spec(t@, p@) by {
                    assert(bodies_upto(kids0, 8).to_multiset().count(t)
                        >= kids0[i].bodies().to_multiset().count(t));
                    assert(pre.bodies().to_multiset().count(t) > 0);
                }
                assert(no_merge_against(p, kids0[i].bodies()));
                assert(node.count == pre.count + 1);
                assert(node.wsum@ == v3_add(pre.wsum@, v3_scale(p@.pos, p@.mass)));
                assert(node.msum@ == v3_add(pre.msum@, v3_scale(p@.vel, p@.mass)));
            }
            if kids1[i].count == kids0[i].count + 1
                && kids1[i].bodies().to_multiset()
                    == kids0[i].bodies().to_multiset().insert(p) {
                assert forall|t: Point| #[trigger] node.bodies().to_multiset().count(t)
                    == pre.bodies().to_multiset().insert(p).count(t) by {
                    assert(bodies_upto(kids1, 8).to_multiset().count(t)
                        == bodies_upto(kids0, 8).to_multiset().count(t)
                            - kids0[i].bodies().to_multiset().count(t)
                            + kids1[i].bodies().to_multiset().count(t));
                }
                assert(node.bodies().to_multiset() =~= pre.bodies().to_multiset().insert(p));
                assert(node.count == pre.count + 1);
            } else {
                let (t, mb) = choose|t: Point, mb: Point|
                    #![trigger kids0[i].bodies().to_multiset().remove(t).insert(mb)]
                    kids0[i].bodies().to_multiset().count(t) > 0
                    && should_merge_spec(t@, p@) && mb@ == merged_v(t@, p@)
                    && kids1[i].bodies().to_multiset()
                        == kids0[i].bodies().to_multiset().remove(t).insert(mb);
                assert(bodies_upto(kids0, 8).to_multiset().count(t)
                    >= kids0[i].bodies().to_multiset().count(t));
                assert(pre.bodies().to_multiset().count(t) > 0);
                assert forall|u: Point| #[trigger] node.bodies().to_multiset().count(u)
                    == pre.bodies().to_multiset().remove(t).insert(mb).count(u) by {
                    assert(bodies_upto(kids1, 8).to_multiset().count(u)
                        == bodies_upto(kids0, 8).to_multiset().count(u)
                            - kids0[i].bodies().to_multiset().count(u)
                            + kids1[i].bodies().to_multiset().count(u));
                }
                assert(node.bodies().to_multiset()
                    =~= pre.bodies().to_multiset().remove(t).insert(mb));
                assert(node.count == pre.count);
            }
            assert(add_result(pre, node, p));
        }
        node
    }
}

/// Both bounds of a weighted mean of two values lie between the values'
/// common bounds, also after flooring.
pub proof fn lemma_weighted_avg_range(x1: int, m1: int, x2: int, m2: int, lo: int, hi: int)
    requires
        lo <= x1 <= hi,
        lo <= x2 <= hi,
        1 <= m1,
        1 <= m2,
    ensures
        lo <= (x1 * m1 + x2 * m2) / (m1 + m2) <= hi,
{
    let m = m1 + m2;
    assert(m * lo <= x1 * m1 + x2 * m2 <= m * hi) by (nonlinear_arith)
        requires lo <= x1 <= hi, lo <= x2 <= hi, 1 <= m1, 1 <= m2, m == m1 + m2;
    vstd::arithmetic::div_mod::lemma_div_multiples_vanish(lo, m);
    vstd::arithmetic::div_mod::lemma_div_multiples_vanish(hi, m);
    vstd::arithmetic::div_mod::lemma_div_is_ordered(m * lo, x1 * m1 + x2 * m2, m);
    vstd::arithmetic::div_mod::lemma_div_is_ordered(x1 * m1 + x2 * m2, m * hi, m);
}

/// Each node's own totals are within the summed totals of any prefix that
/// includes it.
proof fn lemma_kids_member_bound(s: Seq<BHNode>, i: int, n: int)
    requires
        0 <= i < n,
    ensures
        s[i].mass <= kids_mass(s, n),
        s[i].count <= kids_count(s, n),
    decreases n,
{
    lemma_kids_prefix(s, 0, i);
    if i < n - 1 {
        lemma_kids_member_bound(s, i, n - 1);
    } else {
        lemma_kids_prefix(s, 0, n - 1);
    }
}

/// Routes `p` into the unique octant whose cube contains it, and returns the
/// updated children together with that octant's index.
fn add_to_child(children: Vec<BHNode>, p: Point, xloc: i128, yloc: i128, zloc: i128,
    region_size: u64) -> (r: (Vec<BHNode>, usize))
    requires
        children@.len() == 8,
        region_size >= 2,
        is_pow2(region_size as nat),
        -MAX_REGION <= xloc && xloc + region_size <= MAX_REGION as int,
        -MAX_REGION <= yloc && yloc + region_size <= MAX_REGION as int,
        -MAX_REGION <= zloc && zloc + region_size <= MAX_REGION as int,
        forall|i: int| 0 <= i < 8 ==> octant_ok(#[trigger] children@[i], xloc as int,
            yloc as int, zloc as int, region_size as int, i),
        forall|i: int| 0 <= i < 8 ==> (#[trigger] children@[i]).wf(),
        xloc <= p@.pos.x < xloc + region_size,
        yloc <= p@.pos.y < yloc + region_size,
        zloc <= p@.pos.z < zloc + region_size,
        point_fits(p@),
        kids_mass(children@, 8) + p.mass <= MAX_MASS,
    ensures
        r.0@.len() == 8,
        r.1 < 8,
        add_result(children@[r.1 as int], r.0@[r.1 as int], p),
        forall|j: int| 0 <= j < 8 && j != r.1 as int ==> r.0@[j] == children@[j],
    decreases region_size, 0int,
{
    let mut children = children;
    let ghost kids0 = children@;
    let h = region_size / 2;
    proof {
        assert(region_size as nat % 2 == 0);
        assert(2 * (region_size as int / 2) == region_size as int);
    }
    let xi: usize = if p.x >= xloc + h as i128 { 4 } else { 0 };
    let yi: usize = if p.y >= yloc + h as i128 { 2 } else { 0 };
    let zi: usize = if p.z >= zloc + h as i128 { 1 } else { 0 };
    let i = xi + yi + zi;
    proof {
        let ii = i as int;
        assert(ii >= 4 <==> xi == 4);
        assert(ii % 4 >= 2 <==> yi == 2);
        assert(ii % 2 == 1 <==> zi == 1);
        assert(octant_ok(children@[ii], xloc as int, yloc as int, zloc as int,
            region_size as int, ii));
        assert(children@[ii].in_cube(p@.pos));
        lemma_kids_member_bound(children@, ii, 8);
        lemma_kids_prefix(children@, 0, 8);
        lemma_kids_wf_sums(children@, 8);
    }
    let child = children.remove(i);
    let child2 = child.add_point(p);
    children.insert(i, child2);
    proof {
        assert(children@ =~= kids0.update(i as int, child2));
    }
    (children, i)
}

/// Sums count, mass, weighted position and momentum over eight children.
fn sum_children(children: &Vec<BHNode>) -> (r: (u64, Vec3d, Vec3d, u64))
    requires
        children@.len() == 8,
        forall|i: int| 0 <= i < 8 ==> (#[trigger] children@[i]).wf(),
        kids_mass(children@, 8) <= MAX_MASS,
    ensures
        r.0 == kids_mass(children@, 8),
        r.1@ == kids_wsum(children@, 8),
        r.2@ == kids_msum(children@, 8),
        r.3 == kids_count(children@, 8),
{
    let mut mass: u64 = 0;
    let mut cnt: u64 = 0;
    let mut wsum = Vec3d::new_zero();
    let mut msum = Vec3d::new_zero();
    let mut i: usize = 0;
    proof {
        assert(kids_mass(children@, 0) * MAX_COORD == 0
            && kids_mass(children@, 0) * MAX_VEL == 0) by (nonlinear_arith)
            requires kids_mass(children@, 0) == 0;
    }
    while i < 8
        invariant
            0 <= i <= 8,
            children@.len() == 8,
            forall|k: int| 0 <= k < 8 ==> (#[trigger] children@[k]).wf(),
            kids_mass(children@, 8) <= MAX_MASS,
            mass == kids_mass(children@, i as int),
            cnt == kids_count(children@, i as int),
            wsum@ == kids_wsum(children@, i as int),
            msum@ == kids_msum(children@, i as int),
        decreases 8 - i,
    {
        proof {
            lemma_kids_prefix(children@, i + 1, 8);
            lemma_kids_wf_sums(children@, i as int);
            lemma_kids_wf_sums(children@, i as int + 1);
            lemma_kids_wf_sums(children@, 8);
            lemma_mass_range_products(kids_mass(children@, i as int),
                children@[i as int].mass as int);
            lemma_mass_range_products(0, children@[i as int].mass as int);
        }
        let c = &children[i];
        mass = mass + c.mass;
        cnt = cnt + c.count;
        wsum = wsum.add(c.wsum);
        msum = msum.add(c.msum);
        i = i + 1;
    }
    (mass, wsum, msum, cnt)
}

/// A well-formed node holds exactly `count` bodies.
pub proof fn lemma_count_is_len(n: BHNode)
    requires
        n.wf(),
    ensures
        n.bodies().len() == n.count,
    decreases n, 9int,
{
    if n.children.len() != 0 {
        assert forall|i: int| 0 <= i < 8 implies (#[trigger] n.children@[i]).wf() by {
            assert(n.child_ok(i));
        }
        lemma_count_len_upto(n.children@, 8);
    }
}

proof fn lemma_count_len_upto(s: Seq<BHNode>, k: int)
    requires
        k <= s.len(),
        forall|i: int| 0 <= i < k ==> (#[trigger] s[i]).wf(),
    ensures
        bodies_upto(s, k).len() == kids_count(s, k),
    decreases s, k,
{
    if k > 0 {
        lemma_count_len_upto(s, k - 1);
        lemma_count_is_len(s[k - 1]);
    }
}

impl BHNode {
    /// Every body stored in this subtree, in octant order.
    pub fn get_points(&self) -> (r: Vec<Point>)
        requires
            self.wf(),
            self.count >= 1,
        ensures
            r@ == self.bodies(),
        decreases self.region_size,
    {
        proof {
            lemma_count_is_len(*self);
        }
        if self.children.len() == 0 {
            let mut v: Vec<Point> = Vec::new();
            v.push(self.point.unwrap());
            proof {
                assert(v@ =~= self.bodies());
            }
            return v;
        }
        let mut v: Vec<Point> = Vec::new();
        let mut i: usize = 0;
        while i < 8
            invariant
                0 <= i <= 8,
                self.wf(),
                self.children@.len() == 8,
                v@ == bodies_upto(self.children@, i as int),
            decreases 8 - i,
        {
            proof {
                assert(self.children_ok());
                assert(self.child_ok(i as int));
                lemma_count_is_len(self.children@[i as int]);
            }
            let c = &self.children[i];
            if c.count > 0 {
                let mut sub = c.get_points();
                v.append(&mut sub);
            }
            proof {
                assert(v@ =~= bodies_upto(self.children@, i as int + 1));
            }
            i = i + 1;
        }
        v
    }
}

impl BHNode {
    /// The approximate force this subtree exerts on `p`: an empty subtree or
    /// one centered exactly at `p` contributes nothing; a leaf or a subtree
    /// that subtends less than the opening angle acts as one point mass at
    /// its aggregate; otherwise the eight octants contribute in sum.
    pub open spec fn force_spec(self, p: PointV) -> V3
        decreases self, 9int, 0int,
    {
        if self.count == 0 {
            v3_zero()
        } else if self.com_v().pos == p.pos {
            v3_zero()
        } else if self.children.len() == 0 {
            force_between(p.mass, p.pos, self.mass as int, self.com_v().pos)
        } else if (self.region_size as int) * (self.theta_den as int)
            < (self.theta_num as int) * dist(self.com_v().pos, p.pos) {
            force_between(p.mass, p.pos, self.mass as int, self.com_v().pos)
        } else {
            force_sum_upto(self.children@, 8, p)
        }
    }

    /// Evaluates `force_spec` on the completed tree; read-only.
    pub fn calculate_force(&self, p: Point) -> (r: Vec3d)
        requires
            self.wf(),
            self.mass <= MAX_MASS,
            p.mass <= MAX_MASS,
            v3_in(p@.pos, MAX_COORD as int),
        ensures
            r@ == self.force_spec(p@),
            v3_in(r@, p@.mass * self.mass),
        decreases self.region_size,
    {
        proof {
            assert(0 <= p@.mass * self.mass) by (nonlinear_arith)
                requires 0 <= p@.mass, 0 <= self.mass;
        }
        if self.count == 0 {
            return Vec3d::new_zero();
        }
        let com = self.center_of_mass();
        proof {
            lemma_div_in_range(self.wsum@.x, self.mass as int, MAX_COORD as int);
            lemma_div_in_range(self.wsum@.y, self.mass as int, MAX_COORD as int);
            lemma_div_in_range(self.wsum@.z, self.mass as int, MAX_COORD as int);
            assert(v3_in(com@.pos, MAX_COORD as int));
        }
        if com.x == p.x && com.y == p.y && com.z == p.z {
            proof {
                assert(com@.pos == p@.pos);
            }
            return Vec3d::new_zero();
        }
        let d = com.distance_to(p);
        proof {
            lemma_u64_products_fit(self.region_size, self.theta_den, self.theta_num, d);
        }
        let far = (self.region_size as u128) * (self.theta_den as u128)
            < (self.theta_num as u128) * (d as u128);
        if self.children.len() == 0 || far {
            let f = p.force_from(com);
            return f;
        }
        let mut sum = Vec3d::new_zero();
        let mut i: usize = 0;
        proof {
            assert(p@.mass * kids_mass(self.children@, 0) == 0) by (nonlinear_arith)
                requires kids_mass(self.children@, 0) == 0;
        }
        while i < 8
            invariant
                0 <= i <= 8,
                self.wf(),
                self.children@.len() == 8,
                self.mass <= MAX_MASS,
                self.mass == kids_mass(self.children@, 8),
                p.mass <= MAX_MASS,
                v3_in(p@.pos, MAX_COORD as int),
                sum@ == force_sum_upto(self.children@, i as int, p@),
                v3_in(sum@, p@.mass * kids_mass(self.children@, i as int)),
            decreases 8 - i,
        {
            proof {
                assert(self.children_ok());
                assert(self.child_ok(i as int));
                lemma_kids_member_bound(self.children@, i as int, 8);
                lemma_kids_prefix(self.children@, i as int + 1, 8);
                lemma_kids_prefix(self.children@, 0, i as int);
            }
            let f = self.children[i].calculate_force(p);
            proof {
                let km = kids_mass(self.children@, i as int);
                let cm = self.children@[i as int].mass as int;
                let pm = p@.mass;
                assert(0 <= km && 0 <= cm && km + cm <= MAX_MASS);
                assert(pm * km == km * pm && pm * cm == cm * pm
                    && pm * (km + cm) == (km + cm) * pm) by (nonlinear_arith);
                assert(0 <= pm * km && pm * km <= MAX_MASS * MAX_MASS
                    && 0 <= pm * cm && pm * cm <= MAX_MASS * MAX_MASS
                    && pm * (km + cm) <= MAX_MASS * MAX_MASS) by (nonlinear_arith)
                    requires 0 <= pm <= MAX_MASS, 0 <= km, 0 <= cm, km + cm <= MAX_MASS;
                assert(MAX_MASS * MAX_MASS
                    < 0x1000_0000_0000_0000_0000_0000_0000_0000int) by (nonlinear_arith);
                assert(v3_in(sum@, km * pm));
                assert(v3_in(f@, cm * pm));
                lemma_sum_scaled_bounds(sum@, km, f@, cm, pm);
                assert(v3_in(v3_add(sum@, f@), pm * kids_mass(self.children@, i as int + 1)));
            }
            sum = sum.add(f);
            i = i + 1;
        }
        proof {
            assert(sum@ == force_sum_upto(self.children@, 8, p@));
            assert(sum@ == self.force_spec(p@));
        }
        sum
    }
}

/// The approximate forces of the first `n` of the nodes `s`, summed.
pub open spec fn force_sum_upto(s: Seq<BHNode>, n: int, p: PointV) -> V3
    decreases s, n, 1int,
{
    if n <= 0 || n > s.len() {
        v3_zero()
    } else {
        v3_add(force_sum_upto(s, n - 1, p), s[n - 1].force_spec(p))
    }
}

/// A value within `[-m*b, m*b]` lands in `[-b, b]` after flooring division
/// by `m`.
proof fn lemma_div_in_range(w: int, m: int, b: int)
    requires
        1 <= m,
        0 <= b,
        -(m * b) <= w <= m * b,
    ensures
        -b <= w / m <= b,
{
    vstd::arithmetic::div_mod::lemma_div_multiples_vanish(b, m);
    vstd::arithmetic::div_mod::lemma_div_multiples_vanish(-b, m);
    assert(m * (-b) == -(m * b)) by (nonlinear_arith);
    vstd::arithmetic::div_mod::lemma_div_is_ordered(m * (-b), w, m);
    vstd::arithmetic::div_mod::lemma_div_is_ordered(w, m * b, m);
}

/// Products of 64-bit values fit the 128-bit range.
proof fn lemma_u64_products_fit(a: u64, b: u64, c: u64, d: u64)
    ensures
        (a as u128) * (b as u128) <= u128::MAX,
        (c as u128) * (d as u128) <= u128::MAX,
{
    assert((a as int) * (b as int) < 0x1_0000_0000_0000_0000_0000_0000_0000_0000int
        && (c as int) * (d as int) < 0x1_0000_0000_0000_0000_0000_0000_0000_0000int)
        by (nonlinear_arith)
        requires
            0 <= (a as int) && (a as int) < 0x1_0000_0000_0000_0000,
            0 <= (b as int) && (b as int) < 0x1_0000_0000_0000_0000,
            0 <= (c as int) && (c as int) < 0x1_0000_0000_0000_0000,
            0 <= (d as int) && (d as int) < 0x1_0000_0000_0000_0000;
}

/// The spatial tree: a root node covering the simulation region, with the
/// opening angle as an exact rational `theta_num / theta_den`.
pub struct BHTree {
    pub root: BHNode,
    pub theta_num: u64,
    pub theta_den: u64,
    pub graph_size: u64,
}

impl BHTree {
    /// The tree's invariant: a well-formed root over the stated region,
    /// carrying the tree's own opening angle, within the mass budget.
    pub open spec fn wf(self) -> bool {
        &&& self.root.wf()
        &&& self.root.theta_num == self.theta_num
        &&& self.root.theta_den == self.theta_den
        &&& self.root.region_size == self.graph_size
        &&& self.root.mass <= MAX_MASS
    }

    /// An empty tree over the cube at `(x, y, z)` whose edge is `graph_size`
    /// rounded up to a power of two.
    pub fn new(theta_num: u64, theta_den: u64, graph_size: u64, x: i128, y: i128, z: i128)
        -> (t: BHTree)
        requires
            1 <= theta_num <= theta_den,
            1 <= graph_size <= 0x0800_0000_0000_0000u64,
            -MAX_COORD <= x <= MAX_COORD,
            -MAX_COORD <= y <= MAX_COORD,
            -MAX_COORD <= z <= MAX_COORD,
        ensures
            t.wf(),
            t.root.count == 0,
            t.root.mass == 0,
            t.root.bodies() == Seq::<Point>::empty(),
            t.theta_num == theta_num && t.theta_den == theta_den,
            t.root.xloc == x && t.root.yloc == y && t.root.zloc == z,
            graph_size <= t.graph_size < 2 * graph_size,
    {
        let e = crate::arith::pow2_roundup(graph_size);
        let root = BHNode::new(theta_num, theta_den, e, x, y, z);
        BHTree { root, theta_num, theta_den, graph_size: e }
    }

    /// Inserts one body whose position lies in the tree's region.
    pub fn add_point(&mut self, p: Point)
        requires
            old(self).wf(),
            point_fits(p@),
            old(self).root.in_cube(p@.pos),
            old(self).root.mass + p.mass <= MAX_MASS,
        ensures
            final(self).wf(),
            add_result(old(self).root, final(self).root, p),
            final(self).theta_num == old(self).theta_num,
            final(self).theta_den == old(self).theta_den,
            final(self).graph_size == old(self).graph_size,
    {
        let mut tmp = BHNode::new(self.theta_num, self.theta_den, 1, 0, 0, 0);
        core::mem::swap(&mut self.root, &mut tmp);
        let newroot = tmp.add_point(p);
        self.root = newroot;
    }

    /// Evaluates the approximate force of the whole tree on `p`.
    pub fn calculate_force(&self, p: Point) -> (r: Vec3d)
        requires
            self.wf(),
            p.mass <= MAX_MASS,
            v3_in(p@.pos, MAX_COORD as int),
        ensures
            r@ == self.root.force_spec(p@),
            v3_in(r@, p@.mass * self.root.mass),
    {
        self.root.calculate_force(p)
    }

    /// Every body currently resident in the tree.
    pub fn get_points(&self) -> (r: Vec<Point>)
        requires
            self.wf(),
        ensures
            r@ == self.root.bodies(),
    {
        if self.root.count == 0 {
            let v: Vec<Point> = Vec::new();
            proof {
                lemma_count_is_len(self.root);
                assert(v@ =~= self.root.bodies());
            }
            return v;
        }
        self.root.get_points()
    }
}

/// Total mass of a sequence of bodies.
pub open spec fn seq_mass(s: Seq<Point>) -> int
    decreases s.len(),
{
    if s.len() == 0 {
        0
    } else {
        seq_mass(s.drop_last()) + s.last().mass
    }
}

/// Mass-weighted position sum of a sequence of bodies.
pub open spec fn seq_wsum(s: Seq<Point>) -> V3
    decreases s.len(),
{
    if s.len() == 0 {
        v3_zero()
    } else {
        v3_add(seq_wsum(s.drop_last()), v3_scale(s.last()@.pos, s.last()@.mass))
    }
}

/// Momentum sum of a sequence of bodies.
pub open spec fn seq_msum(s: Seq<Point>) -> V3
    decreases s.len(),
{
    if s.len() == 0 {
        v3_zero()
    } else {
        v3_add(seq_msum(s.drop_last()), v3_scale(s.last()@.vel, s.last()@.mass))
    }
}

/// The sums split over a concatenation.
pub proof fn lemma_seq_sums_concat(a: Seq<Point>, b: Seq<Point>)
    ensures
        seq_mass(a + b) == seq_mass(a) + seq_mass(b),
        seq_wsum(a + b) == v3_add(seq_wsum(a), seq_wsum(b)),
        seq_msum(a + b) == v3_add(seq_msum(a), seq_msum(b)),
    decreases b.len(),
{
    if b.len() == 0 {
        assert(a + b =~= a);
    } else {
        assert((a + b).drop_last() =~= a + b.drop_last());
        assert((a + b).last() == b.last());
        lemma_seq_sums_concat(a, b.drop_last());
    }
}

/// A well-formed node's aggregate equals the exact sums over its bodies:
/// total mass, mass-weighted positions, and momenta.
pub proof fn lemma_aggregate_is_sums(n: BHNode)
    requires
        n.wf(),
    ensures
        n.mass == seq_mass(n.bodies()),
        n.wsum@ == seq_wsum(n.bodies()),
        n.msum@ == seq_msum(n.bodies()),
    decreases n, 9int,
{
    if n.children.len() == 0 {
        assert(seq_mass(Seq::<Point>::empty()) == 0);
        assert(seq_wsum(Seq::<Point>::empty()) == v3_zero());
        assert(seq_msum(Seq::<Point>::empty()) == v3_zero());
        if n.count == 1 {
            let b = n.point->Some_0;
            assert(n.bodies() == seq![b]);
            assert(seq![b].drop_last() =~= Seq::<Point>::empty());
            assert(seq![b].last() == b);
            assert(seq_mass(seq![b]) == b.mass);
            assert(seq_wsum(seq![b]) == v3_add(v3_zero(), v3_scale(b@.pos, b@.mass)));
            assert(v3_add(v3_zero(), v3_scale(b@.pos, b@.mass)) == v3_scale(b@.pos, b@.mass));
            assert(v3_add(v3_zero(), v3_scale(b@.vel, b@.mass)) == v3_scale(b@.vel, b@.mass));
        } else {
            assert(n.bodies() == Seq::<Point>::empty());
        }
    } else {
        assert forall|i: int| 0 <= i < 8 implies (#[trigger] n.children@[i]).wf() by {
            assert(n.child_ok(i));
        }
        lemma_agg_sums_upto(n.children@, 8);
    }
}

proof fn lemma_agg_sums_upto(s: Seq<BHNode>, k: int)
    requires
        k <= s.len(),
        forall|i: int| 0 <= i < k ==> (#[trigger] s[i]).wf(),
    ensures
        seq_mass(bodies_upto(s, k)) == kids_mass(s, k),
        seq_wsum(bodies_upto(s, k)) == kids_wsum(s, k),
        seq_msum(bodies_upto(s, k)) == kids_msum(s, k),
    decreases s, k,
{
    if k > 0 {
        lemma_agg_sums_upto(s, k - 1);
        lemma_aggregate_is_sums(s[k - 1]);
        lemma_seq_sums_concat(bodies_upto(s, k - 1), s[k - 1].bodies());
    }
}

/// Every body below a well-formed node is within bounds and inside the
/// node's cube.
pub proof fn lemma_bodies_contained(n: BHNode)
    requires
        n.wf(),
    ensures
        forall|t: Point| #[trigger] n.bodies().contains(t)
            ==> point_fits(t@) && n.in_cube(t@.pos),
    decreases n, 9int,
{
    if n.children.len() != 0 {
        lemma_bodies_contained_upto(n, 8);
    }
    assert forall|t: Point| #[trigger] n.bodies().contains(t)
        implies point_fits(t@) && n.in_cube(t@.pos) by {
        if n.children.len() == 0 {
            let b = n.point->Some_0;
            assert(n.count == 1 ==> n.bodies() == seq![b] && seq![b][0] == b);
            assert(n.count == 0 ==> n.bodies() == Seq::<Point>::empty());
            assert(t == b);
        } else {
            assert(bodies_upto(n.children@, 8).contains(t));
        }
    }
}

proof fn lemma_bodies_contained_upto(n: BHNode, k: int)
    requires
        n.wf(),
        n.children@.len() == 8,
        k <= 8,
    ensures
        forall|t: Point| #[trigger] bodies_upto(n.children@, k).contains(t)
            ==> point_fits(t@) && n.in_cube(t@.pos),
    decreases n, k,
{
    if k > 0 {
        lemma_bodies_contained_upto(n, k - 1);
        assert(n.child_ok(k - 1));
        let c = n.children@[k - 1];
        lemma_bodies_contained(c);
        assert(n.region_size as nat % 2 == 0 && 2 * (n.region_size as int / 2)
            == n.region_size as int);
        assert forall|t: Point| #[trigger] bodies_upto(n.children@, k).contains(t)
            implies point_fits(t@) && n.in_cube(t@.pos) by {
            let s0 = bodies_upto(n.children@, k - 1);
            let i = choose|i: int| 0 <= i < bodies_upto(n.children@, k).len()
                && bodies_upto(n.children@, k)[i] == t;
            if i < s0.len() {
                assert(s0.contains(t));
            } else {
                assert(c.bodies()[i - s0.len()] == t);
                assert(c.bodies().contains(t));
                assert(c.in_cube(t@.pos));
            }
        }
    }
}

/// What one body becomes over a step of size `dt`: symplectic Euler under
/// the tree's approximate force, with its merge radius rederived from the
/// unchanged mass.
pub open spec fn body_in_range(q: PointV) -> bool {
    &&& v3_in(q.pos, MAX_COORD as int)
    &&& v3_in(q.vel, MAX_VEL as int)
}

/// No two of the bodies are within merge range of one another.
pub open spec fn no_pair_merge(s: Seq<Point>) -> bool {
    forall|i: int, j: int| 0 <= i < j < s.len()
        ==> !should_merge_spec((#[trigger] s[i])@, (#[trigger] s[j])@)
}

/// The error a step reports when a body leaves the representable range.
#[derive(Clone, Copy, PartialEq, Eq, Structural, Debug)]
pub struct StepError {
    pub body: Point,
}

impl BHTree {
    /// The state body `q` reaches after one step of size `dt` under this
    /// tree's approximate force.
    pub open spec fn next_body(self, q: PointV, dt: int) -> PointV {
        let st = stepped_point(q, dt, self.root.force_spec(q));
        PointV { mass: q.mass, pos: st.pos, vel: st.vel, radius: merge_radius_of(q.mass) }
    }

    /// Advances one body by one step against this (read-only) tree.
    pub fn step_body(&self, q: Point, dt: u64) -> (r: Point)
        requires
            self.wf(),
            point_fits(q@),
            1 <= dt <= MAX_DT,
        ensures
            r@ == self.next_body(q@, dt as int),
            r.mass == q.mass,
    {
        let f = self.root.calculate_force(q);
        proof {
            assert(0 <= q@.mass * self.root.mass && q@.mass * self.root.mass
                <= MAX_MASS * MAX_MASS) by (nonlinear_arith)
                requires 0 <= q@.mass <= MAX_MASS, 0 <= self.root.mass <= MAX_MASS;
            assert(MAX_MASS * MAX_MASS <= MAX_FORCE) by (nonlinear_arith);
        }
        q.apply_force(dt, f)
    }

    /// Derives the next simulation state: every body moves one step under
    /// the forces of the current tree, the bounding cube is refit with a
    /// one-unit margin, and a fresh tree is built over the moved bodies.
    /// If a body leaves the representable coordinate or velocity range, the
    /// step fails and names that body.
    pub fn next(&self, dt: u64) -> (res: Result<BHTree, StepError>)
        requires
            self.wf(),
            self.root.count >= 1,
            1 <= dt <= MAX_DT,
        ensures
            (res is Err) <==> (exists|i: int| 0 <= i < self.root.bodies().len()
                && !body_in_range(self.next_body(
                    (#[trigger] self.root.bodies()[i])@, dt as int))),
            res matches Err(e) ==> !body_in_range(e.body@)
                && exists|i: int| 0 <= i < self.root.bodies().len()
                    && e.body@ == self.next_body(
                        (#[trigger] self.root.bodies()[i])@, dt as int),
            res matches Ok(t) ==> {
                &&& t.wf()
                &&& t.theta_num == self.theta_num && t.theta_den == self.theta_den
                &&& t.root.mass == self.root.mass
                &&& 1 <= t.root.count <= self.root.count
                &&& exists|sp: Seq<Point>|
                    #![trigger sp.to_multiset()]
                    sp.len() == self.root.bodies().len()
                    && (forall|i: int| 0 <= i < sp.len() ==> (#[trigger] sp[i])@
                        == self.next_body(self.root.bodies()[i]@, dt as int))
                    && (forall|i: int| 0 <= i < sp.len()
                        ==> t.root.in_cube((#[trigger] sp[i])@.pos))
                    && (no_pair_merge(sp)
                        ==> t.root.bodies().to_multiset() == sp.to_multiset()
                            && t.root.count == sp.len())
            },
    {
        proof {
            lemma_count_is_len(self.root);
            lemma_bodies_contained(self.root);
            lemma_aggregate_is_sums(self.root);
        }
        let ghost orig = self.root.bodies();
        let pts = self.root.get_points();
        proof {
            assert forall|i: int| 0 <= i < pts@.len()
                implies point_fits((#[trigger] pts@[i])@) by {
                assert(orig.contains(orig[i]));
            }
        }
        let new_pts = par_step_bodies(self, &pts, dt);
        let ghost spv = new_pts@;
        let n = new_pts.len();

        // Any body outside the representable range fails the step.
        let mut i: usize = 0;
        while i < n
            invariant
                0 <= i <= n,
                n == spv.len(),
                new_pts@ == spv,
                n == orig.len(),
                orig == self.root.bodies(),
                forall|k: int| 0 <= k < n ==> (#[trigger] spv[k])@
                    == self.next_body(orig[k]@, dt as int),
                forall|k: int| 0 <= k < i ==> body_in_range((#[trigger] spv[k])@),
            decreases n - i,
        {
            let q = &new_pts[i];
            if q.x < -MAX_COORD || q.x > MAX_COORD || q.y < -MAX_COORD || q.y > MAX_COORD
                || q.z < -MAX_COORD || q.z > MAX_COORD || q.vel.x < -MAX_VEL
                || q.vel.x > MAX_VEL || q.vel.y < -MAX_VEL || q.vel.y > MAX_VEL
                || q.vel.z < -MAX_VEL || q.vel.z > MAX_VEL {
                proof {
                    assert(!body_in_range(spv[i as int]@));
                    assert(0 <= (i as int) && (i as int) < self.root.bodies().len()
                        && !body_in_range(self.next_body(
                            self.root.bodies()[i as int]@, dt as int)));
                }
                return Err(StepError { body: *q });
            }
            i = i + 1;
        }
        proof {
            assert forall|k: int| 0 <= k < self.root.bodies().len()
                implies body_in_range(self.next_body(
                    (#[trigger] self.root.bodies()[k])@, dt as int)) by {
                assert(body_in_range(spv[k]@));
            }
            assert forall|k: int| 0 <= k < n
                implies 1 <= (#[trigger] spv[k]).mass <= MAX_MASS by {
                assert(orig.contains(orig[k]));
                assert(point_fits(orig[k]@));
                assert(spv[k]@.mass == orig[k]@.mass);
            }
        }

        // Refit the bounding cube with a one-unit margin on both sides.
        let mut lo: i128 = new_pts[0].x;
        let mut hi: i128 = new_pts[0].x;
        let mut i: usize = 0;
        while i < n
            invariant
                0 <= i <= n,
                n == spv.len() && n >= 1,
                new_pts@ == spv,
                forall|k: int| 0 <= k < n ==> body_in_range((#[trigger] spv[k])@),
                -MAX_COORD <= lo <= hi <= MAX_COORD,
                forall|k: int| 0 <= k < i ==> lo <= (#[trigger] spv[k]).x <= hi
                    && lo <= spv[k].y <= hi && lo <= spv[k].z <= hi,
            decreases n - i,
        {
            let q = &new_pts[i];
            if q.x < lo { lo = q.x; }
            if q.x > hi { hi = q.x; }
            if q.y < lo { lo = q.y; }
            if q.y > hi { hi = q.y; }
            if q.z < lo { lo = q.z; }
            if q.z > hi { hi = q.z; }
            i = i + 1;
        }
        let lo1 = lo - 1;
        let span = (hi - lo + 2) as u64;
        let edge = crate::arith::pow2_roundup(span);

        // Rebuild by sequential insertion.
        let root0 = BHNode::new(self.theta_num, self.theta_den, edge, lo1, lo1, lo1);
        let mut t = BHTree {
            root: root0,
            theta_num: self.theta_num,
            theta_den: self.theta_den,
            graph_size: edge,
        };
        proof {
            lemma_seq_mass_pointwise(spv, orig);
            lemma_seq_mass_prefix_total(spv, 0);
            assert(spv.take(0) =~= Seq::<Point>::empty());
            broadcast use vstd::seq_lib::group_to_multiset_ensures;
            broadcast use vstd::multiset::group_multiset_axioms;
            assert(t.root.bodies().to_multiset() =~= spv.take(0).to_multiset());
        }
        let mut i: usize = 0;
        while i < n
            invariant
                0 <= i <= n,
                n == spv.len() && n >= 1,
                new_pts@ == spv,
                n == orig.len(),
                forall|k: int| 0 <= k < n ==> body_in_range((#[trigger] spv[k])@),
                forall|k: int| 0 <= k < n ==> lo <= (#[trigger] spv[k]).x <= hi
                    && lo <= spv[k].y <= hi && lo <= spv[k].z <= hi,
                forall|k: int| 0 <= k < n ==> 1 <= (#[trigger] spv[k]).mass <= MAX_MASS,
                -MAX_COORD <= lo <= hi <= MAX_COORD,
                lo1 == lo - 1,
                span == hi - lo + 2,
                span <= edge < 2 * span,
                t.wf(),
                t.theta_num == self.theta_num && t.theta_den == self.theta_den,
                t.root.xloc == lo1 && t.root.yloc == lo1 && t.root.zloc == lo1,
                t.root.region_size == edge,
                seq_mass(spv) == seq_mass(orig) && seq_mass(orig) == self.root.mass,
                seq_mass(spv) <= MAX_MASS,
                t.root.mass == seq_mass(spv.take(i as int)),
                t.root.count <= i,
                i >= 1 ==> t.root.count >= 1,
                no_pair_merge(spv) ==> t.root.bodies().to_multiset()
                    == spv.take(i as int).to_multiset() && t.root.count == i,
            decreases n - i,
        {
            broadcast use vstd::seq_lib::group_to_multiset_ensures;
            broadcast use vstd::multiset::group_multiset_axioms;
            let p = new_pts[i];
            let ghost told = t;
            proof {
                lemma_seq_mass_take(spv, i as int);
                lemma_seq_mass_prefix_total(spv, i as int + 1);
            }
            t.add_point(p);
            proof {
                assert(spv.take(i as int + 1).drop_last() =~= spv.take(i as int));
                assert(spv.take(i as int + 1) =~= spv.take(i as int).push(p));
                if no_pair_merge(spv) {
                    assert forall|u: Point|
                        #[trigger] told.root.bodies().to_multiset().count(u) > 0
                        implies !should_merge_spec(u@, p@) by {
                        assert(spv.take(i as int).to_multiset().count(u) > 0);
                        assert(spv.take(i as int).contains(u));
                        let j = choose|j: int| 0 <= j < i as int && spv.take(i as int)[j] == u;
                        assert(spv[j] == u);
                        assert(!should_merge_spec(spv[j]@, spv[i as int]@));
                    }
                    assert(no_merge_against(p, told.root.bodies()));
                    assert(t.root.bodies().to_multiset()
                        == told.root.bodies().to_multiset().insert(p));
                    assert(t.root.bodies().to_multiset()
                        =~= spv.take(i as int + 1).to_multiset());
                }
            }
            i = i + 1;
        }
        proof {
            assert(spv.take(n as int) =~= spv);
            assert(spv.to_multiset() == spv.to_multiset());
            assert forall|k: int| 0 <= k < n
                implies t.root.in_cube((#[trigger] spv[k])@.pos) by {
                assert(lo <= spv[k].x <= hi);
            }
            assert(1 <= t.root.count <= n);
            assert(t.root.mass == self.root.mass);
            assert(spv.len() == orig.len()
                && (forall|k: int| 0 <= k < spv.len() ==> (#[trigger] spv[k])@
                    == self.next_body(orig[k]@, dt as int))
                && (no_pair_merge(spv) ==> t.root.bodies().to_multiset() == spv.to_multiset()
                    && t.root.count == spv.len()));
        }
        Ok(t)
    }
}

/// Applies rayon's parallel map to advance every body one step.
///
/// Relies on `rayon::iter::ParallelIterator::map` and `collect`: the closure
/// is applied to each element and collecting into a `Vec` keeps the input
/// order, so the result is elementwise `step_body`.
#[verifier::external_body]
fn par_step_bodies(tree: &BHTree, pts: &Vec<Point>, dt: u64) -> (r: Vec<Point>)
    requires
        tree.wf(),
        1 <= dt <= MAX_DT,
        forall|i: int| 0 <= i < pts@.len() ==> point_fits((#[trigger] pts@[i])@),
    ensures
        r@.len() == pts@.len(),
        forall|i: int| 0 <= i < pts@.len() ==> (#[trigger] r@[i])@
            == tree.next_body(pts@[i]@, dt as int),
{
    pts.par_iter().map(|q: &Point| tree.step_body(*q, dt)).collect()
}

/// Equal masses elementwise give equal mass sums.
proof fn lemma_seq_mass_pointwise(a: Seq<Point>, b: Seq<Point>)
    requires
        a.len() == b.len(),
        forall|i: int| 0 <= i < a.len() ==> (#[trigger] a[i]).mass == b[i].mass,
    ensures
        seq_mass(a) == seq_mass(b),
    decreases a.len(),
{
    if a.len() > 0 {
        lemma_seq_mass_pointwise(a.drop_last(), b.drop_last());
    }
}

/// One more body extends the prefix mass sum by exactly its mass.
proof fn lemma_seq_mass_take(s: Seq<Point>, i: int)
    requires
        0 <= i < s.len(),
    ensures
        seq_mass(s.take(i + 1)) == seq_mass(s.take(i)) + s[i].mass,
{
    assert(s.take(i + 1).drop_last() =~= s.take(i));
    assert(s.take(i + 1).last() == s[i]);
}

/// Prefix mass sums are non-negative and bounded by the total.
proof fn lemma_seq_mass_prefix_total(s: Seq<Point>, i: int)
    requires
        0 <= i <= s.len(),
    ensures
        0 <= seq_mass(s.take(i)) <= seq_mass(s),
    decreases s.len() - i,
{
    lemma_seq_mass_nonneg(s.take(i));
    if i == s.len() {
        assert(s.take(i) =~= s);
    } else {
        lemma_seq_mass_take(s, i);
        lemma_seq_mass_prefix_total(s, i + 1);
    }
}

proof fn lemma_seq_mass_nonneg(s: Seq<Point>)
    ensures
        0 <= seq_mass(s),
    decreases s.len(),
{
    if s.len() > 0 {
        lemma_seq_mass_nonneg(s.drop_last());
    }
}

/// Masses at play keep every weighted sum far from the `i128` limits.
proof fn lemma_mass_range_products(m1: int, m2: int)
    requires
        0 <= m1,
        0 <= m2,
        m1 + m2 <= MAX_MASS,
    ensures
        (m1 + m2) * MAX_COORD < 0x1000_0000_0000_0000_0000_0000_0000_0000,
        (m1 + m2) * MAX_VEL < 0x1000_0000_0000_0000_0000_0000_0000_0000,
{
    assert((m1 + m2) * MAX_COORD <= MAX_MASS * MAX_COORD
        && (m1 + m2) * MAX_VEL <= MAX_MASS * MAX_VEL
        && MAX_MASS * MAX_COORD < 0x1000_0000_0000_0000_0000_0000_0000_0000
        && MAX_MASS * MAX_VEL < 0x1000_0000_0000_0000_0000_0000_0000_0000)
        by (nonlinear_arith)
        requires 0 <= m1 + m2 <= MAX_MASS;
}

} // verus!
