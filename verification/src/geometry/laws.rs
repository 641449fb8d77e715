//! Global laws of the spatial tree: order independence of the aggregates,
//! the structural invariant, containment, antisymmetry of the pair force,
//! and exactness of the traversal for small opening angles.

use vstd::prelude::*;

verus! {

use crate::arith::div_trunc;
use crate::arith::sqrt_floor;
use crate::geometry::vec3d::{Point, V3, v3_zero, v3_add, v3_sub, v3_scale, v3_in, norm_sq};
use crate::geometry::vec3d::{force_between, point_fits, dist, PointV};
use crate::geometry::bh_tree::{BHNode, kids_count, bodies_upto};
use crate::geometry::bh_tree::{seq_mass, seq_wsum, seq_msum, lemma_seq_sums_concat};
use crate::geometry::bh_tree::{lemma_aggregate_is_sums, lemma_count_is_len};
use crate::geometry::bh_tree::{lemma_bodies_contained, lemma_bodies_upto_member};
use vstd::multiset::Multiset;
use crate::MAX_MASS;
use crate::MAX_COORD;

/// Removing one body takes exactly its contribution out of each sum.
proof fn lemma_seq_sums_remove(s: Seq<Point>, j: int)
    requires
        0 <= j < s.len(),
    ensures
        seq_mass(s.remove(j)) == seq_mass(s) - s[j].mass,
        seq_wsum(s.remove(j)) == v3_sub(seq_wsum(s), v3_scale(s[j]@.pos, s[j]@.mass)),
        seq_msum(s.remove(j)) == v3_sub(seq_msum(s), v3_scale(s[j]@.vel, s[j]@.mass)),
{
    let a = s.subrange(0, j);
    let mid = s.subrange(j, j + 1);
    let b = s.subrange(j + 1, s.len() as int);
    assert(s =~= a + (mid + b));
    assert(s.remove(j) =~= a + b);
    assert(mid =~= seq![s[j]]);
    assert(seq![s[j]].drop_last() =~= Seq::<Point>::empty());
    assert(seq_mass(Seq::<Point>::empty()) == 0);
    assert(seq_wsum(Seq::<Point>::empty()) == v3_zero());
    assert(seq_msum(Seq::<Point>::empty()) == v3_zero());
    assert(seq_mass(mid) == s[j].mass);
    assert(seq_wsum(mid) == v3_add(v3_zero(), v3_scale(s[j]@.pos, s[j]@.mass)));
    assert(seq_msum(mid) == v3_add(v3_zero(), v3_scale(s[j]@.vel, s[j]@.mass)));
    lemma_seq_sums_concat(a, mid + b);
    lemma_seq_sums_concat(mid, b);
    lemma_seq_sums_concat(a, b);
}

/// The sums over a sequence of bodies depend only on its multiset.
pub proof fn lemma_sums_permutation(s1: Seq<Point>, s2: Seq<Point>)
    requires
        s1.to_multiset() == s2.to_multiset(),
    ensures
        seq_mass(s1) == seq_mass(s2),
        seq_wsum(s1) == seq_wsum(s2),
        seq_msum(s1) == seq_msum(s2),
    decreases s1.len(),
{
    broadcast use vstd::seq_lib::group_to_multiset_ensures;
    broadcast use vstd::multiset::group_multiset_axioms;

    if s1.len() == 0 {
        s1.to_multiset_ensures();
        s2.to_multiset_ensures();
        assert(s2.len() == 0);
    } else {
        let x = s1.last();
        assert(s1 =~= s1.drop_last().push(x));
        assert(s1.to_multiset().count(x) > 0);
        assert(s2.to_multiset().count(x) > 0);
        assert(s2.contains(x));
        let j = choose|j: int| 0 <= j < s2.len() && s2[j] == x;
        assert(s1.drop_last().to_multiset() =~= s1.to_multiset().remove(x)) by {
            assert(s1.drop_last().push(x).to_multiset()
                =~= s1.drop_last().to_multiset().insert(x));
        }
        assert(s2.remove(j).to_multiset() == s2.to_multiset().remove(x));
        lemma_sums_permutation(s1.drop_last(), s2.remove(j));
        lemma_seq_sums_remove(s2, j);
    }
}

/// Law: the aggregate mass, weighted position sum and momentum sum of a
/// well-formed tree depend only on the multiset of bodies it holds, never on
/// the order in which they were inserted; hence so does the center of mass.
pub proof fn lemma_com_order_independent(n1: BHNode, n2: BHNode)
    requires
        n1.wf(),
        n2.wf(),
        n1.bodies().to_multiset() == n2.bodies().to_multiset(),
    ensures
        n1.mass == n2.mass,
        n1.wsum@ == n2.wsum@,
        n1.msum@ == n2.msum@,
        n1.com_v() == n2.com_v(),
{
    lemma_aggregate_is_sums(n1);
    lemma_aggregate_is_sums(n2);
    lemma_sums_permutation(n1.bodies(), n2.bodies());
}

/// Law: every well-formed node has zero or eight children; a branch's count
/// is the exact sum of its children's counts; a leaf holding one body
/// stores it; and the count always equals the number of bodies below.
pub proof fn lemma_structural_invariant(n: BHNode)
    requires
        n.wf(),
    ensures
        n.children@.len() == 0 || n.children@.len() == 8,
        n.children@.len() != 0 ==> n.count == kids_count(n.children@, 8),
        n.children@.len() == 0 && n.count == 1 ==> n.point is Some,
        n.bodies().len() == n.count,
{
    lemma_count_is_len(n);
}

/// Law: the two-body force is antisymmetric — what `b` exerts on `a` is the
/// exact negation of what `a` exerts on `b`, rounding included.
pub proof fn lemma_force_antisymmetric(m1: int, p1: V3, m2: int, p2: V3)
    requires
        p1 != p2,
    ensures
        force_between(m1, p1, m2, p2) == v3_scale(force_between(m2, p2, m1, p1), -1),
{
    let d2 = norm_sq(v3_sub(p2, p1));
    let d2r = norm_sq(v3_sub(p1, p2));
    assert(d2 == d2r) by (nonlinear_arith)
        requires
            d2 == norm_sq(v3_sub(p2, p1)),
            d2r == norm_sq(v3_sub(p1, p2));
    assert(0 <= v3_sub(p2, p1).x * v3_sub(p2, p1).x
        && 0 <= v3_sub(p2, p1).y * v3_sub(p2, p1).y
        && 0 <= v3_sub(p2, p1).z * v3_sub(p2, p1).z) by (nonlinear_arith);
    if d2 == 0 {
        crate::geometry::vec3d::lemma_norm_sq_zero(v3_sub(p2, p1));
        assert(false);
    }
    assert(d2 >= 1);
    let d = sqrt_floor(d2 as nat) as int;
    crate::arith::lemma_sqrt_floor_at_least(d2 as nat, 1);
    assert(d2 * d > 0) by (nonlinear_arith)
        requires d2 > 0, d > 0;
    assert(dist(p1, p2) == dist(p2, p1));
    lemma_trunc_neg_num(m1 * m2 * v3_sub(p2, p1).x, d2 * d);
    lemma_trunc_neg_num(m1 * m2 * v3_sub(p2, p1).y, d2 * d);
    lemma_trunc_neg_num(m1 * m2 * v3_sub(p2, p1).z, d2 * d);
    assert(m2 * m1 * v3_sub(p1, p2).x == -(m1 * m2 * v3_sub(p2, p1).x)
        && m2 * m1 * v3_sub(p1, p2).y == -(m1 * m2 * v3_sub(p2, p1).y)
        && m2 * m1 * v3_sub(p1, p2).z == -(m1 * m2 * v3_sub(p2, p1).z)) by (nonlinear_arith);
    assert(force_between(m2, p2, m1, p1).x * -1
        == -force_between(m2, p2, m1, p1).x);
}

/// Truncating division is odd in the numerator.
proof fn lemma_trunc_neg_num(a: int, b: int)
    requires
        0 < b,
    ensures
        div_trunc(-a, b) == -div_trunc(a, b),
{
    if a == 0 {
        vstd::arithmetic::div_mod::lemma_div_of0(b);
    }
}

/// The exact pairwise Newtonian force of every body in `s` on `p`, summed.
pub open spec fn pair_force_sum(p: PointV, s: Seq<Point>) -> V3
    decreases s.len(),
{
    if s.len() == 0 {
        v3_zero()
    } else {
        v3_add(
            pair_force_sum(p, s.drop_last()),
            force_between(p.mass, p.pos, s.last()@.mass, s.last()@.pos),
        )
    }
}

/// The pairwise sum splits over concatenation.
proof fn lemma_pair_sum_concat(p: PointV, a: Seq<Point>, b: Seq<Point>)
    ensures
        pair_force_sum(p, a + b) == v3_add(pair_force_sum(p, a), pair_force_sum(p, b)),
    decreases b.len(),
{
    if b.len() == 0 {
        assert(a + b =~= a);
    } else {
        assert((a + b).drop_last() =~= a + b.drop_last());
        assert((a + b).last() == b.last());
        lemma_pair_sum_concat(p, a, b.drop_last());
    }
}

/// No node of the subtree with bodies has its aggregate position exactly at
/// `q`; the self-interaction guard then never erases a contribution.
pub open spec fn no_com_clash(n: BHNode, q: V3) -> bool
    decreases n, 9int,
{
    &&& (n.count >= 1 ==> n.com_v().pos != q)
    &&& (forall|i: int|
        #![trigger n.children@[i]]
        0 <= i < n.children@.len() ==> no_com_clash(n.children@[i], q))
}

/// In a well-formed node, the aggregate position stays within the
/// coordinate range.
proof fn lemma_com_in_coord_range(n: BHNode)
    requires
        n.wf(),
        n.count >= 1,
    ensures
        v3_in(n.com_v().pos, MAX_COORD as int),
{
    lemma_wdiv_in_range(n.wsum@.x, n.mass as int, MAX_COORD as int);
    lemma_wdiv_in_range(n.wsum@.y, n.mass as int, MAX_COORD as int);
    lemma_wdiv_in_range(n.wsum@.z, n.mass as int, MAX_COORD as int);
}

proof fn lemma_wdiv_in_range(w: int, m: int, b: int)
    requires
        1 <= m,
        0 <= b,
        -(m * b) <= w <= m * b,
    ensures
        -b <= w / m <= b,
{
    vstd::arithmetic::div_mod::lemma_div_multiples_vanish(b, m);
    vstd::arithmetic::div_mod::lemma_div_multiples_vanish(-b, m);
    assert(m * (-b) == -(m * b)) by (nonlinear_arith);
    vstd::arithmetic::div_mod::lemma_div_is_ordered(m * (-b), w, m);
    vstd::arithmetic::div_mod::lemma_div_is_ordered(w, m * b, m);
}

/// Law: once the opening angle is below `1 / 2^62`, the opening criterion
/// can never fire, and the approximate traversal returns the exact pairwise
/// force sum over every body in the tree.
pub proof fn lemma_small_theta_exact(n: BHNode, p: PointV)
    requires
        n.wf(),
        n.theta_num * 0x4000_0000_0000_0000 <= n.theta_den,
        v3_in(p.pos, MAX_COORD as int),
        no_com_clash(n, p.pos),
    ensures
        n.force_spec(p) == pair_force_sum(p, n.bodies()),
    decreases n, 9int,
{
    if n.count == 0 {
        lemma_count_is_len(n);
        assert(n.bodies().len() == 0);
    } else if n.children@.len() == 0 {
        let b = n.point->Some_0;
        assert(n.bodies() == seq![b]);
        assert(seq![b].drop_last() =~= Seq::<Point>::empty());
        lemma_com_exact_single(n, b);
        assert(n.com_v().pos != p.pos);
        assert(seq![b].last() == b);
        assert(pair_force_sum(p, Seq::<Point>::empty()) == v3_zero());
        assert(pair_force_sum(p, seq![b])
            == v3_add(v3_zero(), force_between(p.mass, p.pos, b@.mass, b@.pos)));
    } else {
        // The far branch cannot fire: the distance is below 2^62 while the
        // angle threshold demands at least 2^62 region widths.
        lemma_com_in_coord_range(n);
        let com = n.com_v().pos;
        let d2 = norm_sq(v3_sub(p.pos, com));
        crate::geometry::vec3d::lemma_norm_sq_bounds(v3_sub(p.pos, com),
            0x1000_0000_0000_0000);
        crate::arith::lemma_sqrt_floor_bounds(d2 as nat);
        let d = sqrt_floor(d2 as nat) as int;
        assert(d < 0x4000_0000_0000_0000) by (nonlinear_arith)
            requires
                d * d <= d2,
                d2 <= 3 * (0x1000_0000_0000_0000int * 0x1000_0000_0000_0000int),
                d >= 0;
        assert((n.theta_num as int) * d <= (n.theta_num as int) * 0x4000_0000_0000_0000)
            by (nonlinear_arith)
            requires 0 <= n.theta_num as int, 0 <= d <= 0x4000_0000_0000_0000;
        assert((n.region_size as int) * (n.theta_den as int) >= (n.theta_den as int))
            by (nonlinear_arith)
            requires 1 <= n.region_size as int, 0 <= n.theta_den as int;
        assert(!((n.region_size as int) * (n.theta_den as int)
            < (n.theta_num as int) * dist(com, p.pos)));
        lemma_small_theta_exact_upto(n, p, 8);
        assert(n.bodies() == bodies_upto(n.children@, 8));
    }
}

proof fn lemma_small_theta_exact_upto(n: BHNode, p: PointV, k: int)
    requires
        n.wf(),
        n.children@.len() == 8,
        n.theta_num * 0x4000_0000_0000_0000 <= n.theta_den,
        v3_in(p.pos, MAX_COORD as int),
        no_com_clash(n, p.pos),
        k <= 8,
    ensures
        crate::geometry::bh_tree::force_sum_upto(n.children@, k, p)
            == pair_force_sum(p, bodies_upto(n.children@, k)),
    decreases n, k,
{
    if k > 0 {
        lemma_small_theta_exact_upto(n, p, k - 1);
        assert(n.child_ok(k - 1));
        let c = n.children@[k - 1];
        assert(no_com_clash(c, p.pos));
        lemma_small_theta_exact(c, p);
        lemma_pair_sum_concat(p, bodies_upto(n.children@, k - 1), c.bodies());
    }
}

/// A node holding exactly one body has that body's mass and position as its
/// exact aggregate.
pub proof fn lemma_com_exact_single(n: BHNode, b: Point)
    requires
        n.wf(),
        n.bodies().to_multiset() == seq![b].to_multiset(),
        1 <= b.mass,
    ensures
        n.mass == b.mass,
        n.com_v().pos == b@.pos,
        n.com_v().vel == b@.vel,
{
    lemma_aggregate_is_sums(n);
    lemma_sums_permutation(n.bodies(), seq![b]);
    assert(seq![b].drop_last() =~= Seq::<Point>::empty());
    assert(seq_mass(Seq::<Point>::empty()) == 0);
    assert(seq_wsum(Seq::<Point>::empty()) == v3_zero());
    assert(seq_msum(Seq::<Point>::empty()) == v3_zero());
    assert(seq_mass(seq![b]) == b.mass);
    assert(n.wsum@ == v3_add(v3_zero(), v3_scale(b@.pos, b@.mass)));
    assert(n.msum@ == v3_add(v3_zero(), v3_scale(b@.vel, b@.mass)));
    lemma_exact_wdiv(b@.pos.x, b@.mass);
    lemma_exact_wdiv(b@.pos.y, b@.mass);
    lemma_exact_wdiv(b@.pos.z, b@.mass);
    lemma_exact_wdiv(b@.vel.x, b@.mass);
    lemma_exact_wdiv(b@.vel.y, b@.mass);
    lemma_exact_wdiv(b@.vel.z, b@.mass);
}

/// Weighting by the mass and dividing it back out is exact.
proof fn lemma_exact_wdiv(x: int, m: int)
    requires
        1 <= m,
    ensures
        (x * m) / m == x,
{
    vstd::arithmetic::div_mod::lemma_div_multiples_vanish(x, m);
    assert(x * m == m * x) by (nonlinear_arith);
}

/// For distinct values, a sequence has at least as many elements as copies
/// of the two of them together.
proof fn lemma_len_two_support(s: Seq<Point>, a: Point, b: Point)
    requires
        a != b,
        forall|t: Point| #[trigger] s.to_multiset().count(t) > 0 ==> t == a || t == b,
    ensures
        s.len() == s.to_multiset().count(a) + s.to_multiset().count(b),
    decreases s.len(),
{
    broadcast use vstd::seq_lib::group_to_multiset_ensures;
    broadcast use vstd::multiset::group_multiset_axioms;

    if s.len() == 0 {
        assert(!s.contains(a) && !s.contains(b));
    } else {
        let x = s.last();
        assert(s =~= s.drop_last().push(x));
        assert(s.to_multiset() =~= s.drop_last().to_multiset().insert(x));
        assert(s.to_multiset().count(x) > 0);
        assert forall|t: Point| #[trigger] s.drop_last().to_multiset().count(t) > 0
            implies t == a || t == b by {
            assert(s.to_multiset().count(t) > 0);
        }
        lemma_len_two_support(s.drop_last(), a, b);
    }
}

/// Prefix body collections only gain copies as the prefix grows.
proof fn lemma_upto_count_mono(s: Seq<BHNode>, k: int, j: int, x: Point)
    requires
        0 <= k <= j <= s.len(),
    ensures
        bodies_upto(s, k).to_multiset().count(x) <= bodies_upto(s, j).to_multiset().count(x),
    decreases j - k,
{
    broadcast use vstd::multiset::group_multiset_axioms;
    if k < j {
        lemma_upto_count_mono(s, k, j - 1, x);
        if 0 < j <= s.len() {
            vstd::seq_lib::lemma_multiset_commutative(bodies_upto(s, j - 1),
                s[j - 1].bodies());
        }
    }
}

/// The conditions under which the two-body traversal is analysed: the node
/// holds at most one copy each of `a` and `b` and nothing else, positions
/// are distinct and within range, the opening angle is at most `1/sqrt(3)`,
/// and the combined center of mass does not coincide with `a`'s position.
pub open spec fn two_body_setting(n: BHNode, a: Point, b: Point) -> bool {
    &&& n.wf()
    &&& point_fits(a@)
    &&& point_fits(b@)
    &&& a@.pos != b@.pos
    &&& crate::geometry::bh_tree::merged_v(a@, b@).pos != a@.pos
    &&& 3 * (n.theta_num as int) * (n.theta_num as int)
        <= (n.theta_den as int) * (n.theta_den as int)
    &&& n.bodies().to_multiset().count(a) <= 1
    &&& n.bodies().to_multiset().count(b) <= 1
    &&& forall|t: Point| #[trigger] n.bodies().to_multiset().count(t) > 0
        ==> t == a || t == b
}

/// Law: in a tree holding exactly two bodies, the force evaluated for one of
/// them is the exact two-body force from the other, with no approximation.
/// Needs an opening angle of at most `1/sqrt(3)` (else a shared ancestor may
/// legitimately stand in for both bodies) and a combined center of mass away
/// from the queried body's own position (else the self-interaction guard
/// hides the other body).
pub proof fn lemma_two_body_force_exact(n: BHNode, a: Point, b: Point)
    requires
        n.wf(),
        n.bodies().to_multiset() == seq![a, b].to_multiset(),
        point_fits(a@),
        point_fits(b@),
        a@.pos != b@.pos,
        crate::geometry::bh_tree::merged_v(a@, b@).pos != a@.pos,
        3 * (n.theta_num as int) * (n.theta_num as int)
            <= (n.theta_den as int) * (n.theta_den as int),
    ensures
        n.force_spec(a@) == force_between(a@.mass, a@.pos, b@.mass, b@.pos),
{
    broadcast use vstd::seq_lib::group_to_multiset_ensures;
    broadcast use vstd::multiset::group_multiset_axioms;

    assert(seq![a, b] =~= Seq::<Point>::empty().push(a).push(b));
    assert(seq![a, b].to_multiset()
        =~= Multiset::<Point>::empty().insert(a).insert(b));
    assert(a != b);
    assert(n.bodies().to_multiset().count(a) == 1);
    assert(n.bodies().to_multiset().count(b) == 1);
    assert(two_body_setting(n, a, b));
    lemma_two_body_exact_sub(n, a, b);
}

/// The inductive core of the two-body law: any subtree holding a sub-multiset
/// of `{a, b}` contributes `b`'s exact pull on `a` when it holds `b`, and
/// nothing otherwise.
proof fn lemma_two_body_exact_sub(n: BHNode, a: Point, b: Point)
    requires
        two_body_setting(n, a, b),
    ensures
        n.force_spec(a@) == if n.bodies().to_multiset().count(b) == 1 {
            force_between(a@.mass, a@.pos, b@.mass, b@.pos)
        } else {
            v3_zero()
        },
    decreases n, 9int,
{
    broadcast use vstd::seq_lib::group_to_multiset_ensures;
    broadcast use vstd::multiset::group_multiset_axioms;

    let bs = n.bodies();
    let ca = bs.to_multiset().count(a);
    let cb = bs.to_multiset().count(b);
    lemma_count_is_len(n);
    lemma_len_two_support(bs, a, b);
    if n.count == 0 {
        assert(cb == 0);
    } else if n.children@.len() == 0 {
        let s = n.point->Some_0;
        assert(bs == seq![s]);
        assert(bs.contains(s));
        assert(bs.to_multiset().count(s) > 0);
        lemma_com_exact_single(n, s);
        if s == a {
            assert(cb == 0);
            assert(n.com_v().pos == a@.pos);
        } else {
            assert(s == b && cb == 1);
            assert(n.com_v().pos == b@.pos);
            assert(n.com_v().pos != a@.pos);
        }
    } else {
        // A branch. Decide which bodies it holds.
        assert(n.count >= 1 && ca + cb >= 1);
        assert(seq![a] =~= Seq::<Point>::empty().push(a));
        assert(seq![b] =~= Seq::<Point>::empty().push(b));
        assert(seq![a].to_multiset() =~= Multiset::<Point>::empty().insert(a));
        assert(seq![b].to_multiset() =~= Multiset::<Point>::empty().insert(b));
        if cb == 0 {
            // Only `a` lives here: its own aggregate is at its position, and
            // the self-interaction guard yields zero.
            assert(ca == 1);
            assert forall|t: Point| bs.to_multiset().count(t)
                == seq![a].to_multiset().count(t) by {
                if t != a && t != b {
                    assert(bs.to_multiset().count(t) == 0);
                }
            }
            assert(bs.to_multiset() =~= seq![a].to_multiset());
            lemma_com_exact_single(n, a);
        } else if ca == 0 {
            // Only `b` lives here: near or far, the aggregate is exactly
            // `b`, so the contribution is the exact pair force.
            assert forall|t: Point| bs.to_multiset().count(t)
                == seq![b].to_multiset().count(t) by {
                if t != a && t != b {
                    assert(bs.to_multiset().count(t) == 0);
                }
            }
            assert(bs.to_multiset() =~= seq![b].to_multiset());
            lemma_com_exact_single(n, b);
            assert(n.com_v().pos != a@.pos);
            if (n.region_size as int) * (n.theta_den as int)
                < (n.theta_num as int) * dist(n.com_v().pos, a@.pos) {
            } else {
                lemma_two_body_sum_upto(n, a, b, 8);
                assert(bodies_upto(n.children@, 8).to_multiset().count(b) == 1);
            }
        } else {
            // Both bodies live here: the cube is too wide for the opening
            // criterion, so the traversal descends.
            assert(ca == 1 && cb == 1);
            assert(seq![a, b] =~= Seq::<Point>::empty().push(a).push(b));
            assert(seq![a, b].to_multiset()
                =~= Multiset::<Point>::empty().insert(a).insert(b));
            assert forall|t: Point| bs.to_multiset().count(t)
                == seq![a, b].to_multiset().count(t) by {
                if t != a && t != b {
                    assert(bs.to_multiset().count(t) == 0);
                }
            }
            assert(bs.to_multiset() =~= seq![a, b].to_multiset());
            assert(seq![a, b].drop_last() =~= seq![a]);
            assert(seq![a].drop_last() =~= Seq::<Point>::empty());
            lemma_aggregate_is_sums(n);
            lemma_sums_permutation(bs, seq![a, b]);
            assert(seq_mass(Seq::<Point>::empty()) == 0);
            assert(seq_wsum(Seq::<Point>::empty()) == v3_zero());
            assert(seq_mass(seq![a]) == a.mass);
            assert(seq_wsum(seq![a]) == v3_add(v3_zero(), v3_scale(a@.pos, a@.mass)));
            assert(seq![a, b].last() == b);
            assert(seq_mass(seq![a, b]) == a.mass + b.mass);
            assert(seq_wsum(seq![a, b]) == v3_add(v3_add(v3_zero(),
                v3_scale(a@.pos, a@.mass)), v3_scale(b@.pos, b@.mass)));
            assert(n.com_v().pos == crate::geometry::bh_tree::merged_v(a@, b@).pos);
            assert(n.com_v().pos != a@.pos);
            lemma_two_body_never_far(n, a, b);
            lemma_two_body_sum_upto(n, a, b, 8);
        }
    }
}

/// A cube holding both bodies subtends at least the opening angle `1/sqrt(3)`
/// as seen from `a`, so it is never treated as far.
proof fn lemma_two_body_never_far(n: BHNode, a: Point, b: Point)
    requires
        two_body_setting(n, a, b),
        n.count >= 1,
        n.bodies().to_multiset().count(a) == 1,
        n.bodies().to_multiset().count(b) == 1,
        n.com_v().pos == crate::geometry::bh_tree::merged_v(a@, b@).pos,
    ensures
        !((n.region_size as int) * (n.theta_den as int)
            < (n.theta_num as int) * dist(n.com_v().pos, a@.pos)),
{
    broadcast use vstd::seq_lib::group_to_multiset_ensures;
    broadcast use vstd::multiset::group_multiset_axioms;

    lemma_bodies_contained(n);
    assert(n.bodies().contains(a) && n.bodies().contains(b));
    assert(n.in_cube(a@.pos) && n.in_cube(b@.pos));
    let e = n.region_size as int;
    let m = a@.mass + b@.mass;
    crate::geometry::bh_tree::lemma_weighted_avg_range(a@.pos.x, a@.mass, b@.pos.x, b@.mass,
        n.xloc as int, n.xloc + e - 1);
    crate::geometry::bh_tree::lemma_weighted_avg_range(a@.pos.y, a@.mass, b@.pos.y, b@.mass,
        n.yloc as int, n.yloc + e - 1);
    crate::geometry::bh_tree::lemma_weighted_avg_range(a@.pos.z, a@.mass, b@.pos.z, b@.mass,
        n.zloc as int, n.zloc + e - 1);
    let com = n.com_v().pos;
    let delta = v3_sub(a@.pos, com);
    assert(-(e - 1) <= delta.x <= e - 1 && -(e - 1) <= delta.y <= e - 1
        && -(e - 1) <= delta.z <= e - 1);
    let d2 = norm_sq(delta);
    crate::geometry::vec3d::lemma_norm_sq_bounds(delta, e - 1);
    crate::arith::lemma_sqrt_floor_bounds(d2 as nat);
    let d = sqrt_floor(d2 as nat) as int;
    let tn = n.theta_num as int;
    let td = n.theta_den as int;
    assert((tn * d) * (tn * d) <= (e * td) * (e * td)) by (nonlinear_arith)
        requires
            0 <= d,
            d * d <= d2,
            0 <= d2 <= 3 * ((e - 1) * (e - 1)),
            1 <= e,
            1 <= tn,
            1 <= td,
            3 * tn * tn <= td * td;
    assert(tn * d <= e * td) by (nonlinear_arith)
        requires
            (tn * d) * (tn * d) <= (e * td) * (e * td),
            0 <= tn * d,
            0 <= e * td;
    assert(0 <= tn * d) by (nonlinear_arith)
        requires 0 <= tn, 0 <= d;
}

/// Summing the children's contributions yields the pair force exactly when
/// some child holds `b`.
proof fn lemma_two_body_sum_upto(n: BHNode, a: Point, b: Point, k: int)
    requires
        two_body_setting(n, a, b),
        n.children@.len() == 8,
        0 <= k <= 8,
    ensures
        crate::geometry::bh_tree::force_sum_upto(n.children@, k, a@)
            == if bodies_upto(n.children@, k).to_multiset().count(b) == 1 {
                force_between(a@.mass, a@.pos, b@.mass, b@.pos)
            } else {
                v3_zero()
            },
        bodies_upto(n.children@, k).to_multiset().count(b) <= 1,
    decreases n, k,
{
    broadcast use vstd::multiset::group_multiset_axioms;

    if k == 0 {
        assert(!bodies_upto(n.children@, 0).contains(b)) by {
            broadcast use vstd::seq_lib::group_to_multiset_ensures;
        }
        assert(bodies_upto(n.children@, 0).to_multiset().count(b) == 0) by {
            broadcast use vstd::seq_lib::group_to_multiset_ensures;
        }
    } else {
        lemma_two_body_sum_upto(n, a, b, k - 1);
        assert(n.child_ok(k - 1));
        let c = n.children@[k - 1];
        vstd::seq_lib::lemma_multiset_commutative(bodies_upto(n.children@, k - 1),
            c.bodies());
        lemma_bodies_upto_member(n.children@, k - 1, 8);
        lemma_upto_count_mono(n.children@, k, 8, b);
        lemma_upto_count_mono(n.children@, k, 8, a);
        assert forall|t: Point| #[trigger] c.bodies().to_multiset().count(t) > 0
            implies t == a || t == b by {
            lemma_upto_count_mono(n.children@, 8, 8, t);
            assert(bodies_upto(n.children@, 8).to_multiset().count(t) > 0);
        }
        assert(c.bodies().to_multiset().count(a) <= 1);
        assert(c.bodies().to_multiset().count(b) <= 1);
        assert(two_body_setting(c, a, b));
        lemma_two_body_exact_sub(c, a, b);
        assert(bodies_upto(n.children@, k).to_multiset().count(b)
            == bodies_upto(n.children@, k - 1).to_multiset().count(b)
                + c.bodies().to_multiset().count(b));
    }
}

} // verus!
