use barnes_hut::geometry::bh_tree::{BHNode, BHTree};
use barnes_hut::geometry::vec3d::{Point, Vec3d};

fn tree_with(theta_num: u64, theta_den: u64, size: u64, origin: i128, pts: &[Point]) -> BHTree {
    let mut t = BHTree::new(theta_num, theta_den, size, origin, origin, origin);
    for p in pts {
        t.add_point(*p);
    }
    t
}

/// With no close encounters, the root keeps the exact mass total and count.
#[test]
fn conservation_no_merge() {
    let pts = [
        Point::new(3, 0, 0, 0, Vec3d::new_zero()),
        Point::new(5, 40, 0, 0, Vec3d::new_zero()),
        Point::new(7, 0, 40, 0, Vec3d::new_zero()),
        Point::new(11, 0, 0, 40, Vec3d::new_zero()),
        Point::new(13, 40, 40, 40, Vec3d::new_zero()),
    ];
    let t = tree_with(1, 2, 64, 0, &pts);
    assert_eq!(t.root.count, 5);
    assert_eq!(t.root.mass, 3 + 5 + 7 + 11 + 13);
}

/// Two bodies give the exact mass-weighted center, in either order.
#[test]
fn center_of_mass_two_bodies() {
    let a = Point::new(2, 0, 0, 0, Vec3d::new_zero());
    let b = Point::new(6, 4, 4, 4, Vec3d::new_zero());
    let t1 = tree_with(1, 2, 8, 0, &[a, b]);
    let t2 = tree_with(1, 2, 8, 0, &[b, a]);
    let expected = Point::new(8, 3, 3, 3, Vec3d::new_zero());
    assert_eq!(t1.root.center_of_mass(), expected);
    assert_eq!(t2.root.center_of_mass(), expected);
}

fn check_structure(n: &BHNode) {
    assert!(n.children.len() == 0 || n.children.len() == 8);
    if n.children.is_empty() {
        assert!(n.count <= 1);
        if n.count == 1 {
            assert!(n.point.is_some());
        }
    } else {
        assert!(n.point.is_none());
        let total: u64 = n.children.iter().map(|c| c.count).sum();
        assert_eq!(n.count, total);
        for c in n.children.iter() {
            assert_eq!(c.region_size, n.region_size / 2);
            check_structure(c);
        }
    }
}

fn check_containment(n: &BHNode) {
    if n.children.is_empty() {
        if let Some(p) = n.point {
            assert!(n.xloc <= p.x && p.x < n.xloc + n.region_size as i128);
            assert!(n.yloc <= p.y && p.y < n.yloc + n.region_size as i128);
            assert!(n.zloc <= p.z && p.z < n.zloc + n.region_size as i128);
        }
    } else {
        for c in n.children.iter() {
            assert!(c.xloc >= n.xloc && c.yloc >= n.yloc && c.zloc >= n.zloc);
            assert!(c.xloc + c.region_size as i128 <= n.xloc + n.region_size as i128);
            check_containment(c);
        }
    }
}

/// Every node has zero or eight children, branch counts are exact sums, and
/// bodies sit inside their node's cube at every level.
#[test]
fn structural_invariant_and_containment() {
    let pts = [
        Point::new(1, 1, 2, 3, Vec3d::new_zero()),
        Point::new(2, 60, 2, 3, Vec3d::new_zero()),
        Point::new(3, 1, 60, 3, Vec3d::new_zero()),
        Point::new(4, 1, 2, 60, Vec3d::new_zero()),
        Point::new(5, 33, 33, 33, Vec3d::new_zero()),
        Point::new(6, 35, 33, 33, Vec3d::new_zero()),
        Point::new(7, 33, 35, 33, Vec3d::new_zero()),
    ];
    let t = tree_with(1, 2, 64, 0, &pts);
    check_structure(&t.root);
    check_containment(&t.root);
}

/// With exactly two bodies the tree's force is the exact two-body force.
#[test]
fn force_symmetry_two_bodies() {
    let m = 1u64 << 20;
    let a = Point::new(m, 3, 3, 3, Vec3d::new_zero());
    let b = Point::new(m, 50, 40, 30, Vec3d::new_zero());
    let t = tree_with(1, 2, 64, 0, &[a, b]);
    let via_tree = t.calculate_force(a);
    let direct = a.force_from(b);
    assert_eq!(via_tree, direct);

    // Newton's third law holds exactly, rounding included.
    let back = b.force_from(a);
    assert_eq!(direct.x, -back.x);
    assert_eq!(direct.y, -back.y);
    assert_eq!(direct.z, -back.z);
}

/// A step that pushes a body out of the representable range reports that
/// body instead of silently dropping it.
#[test]
fn step_error_names_escaping_body() {
    let max_vel: i128 = barnes_hut::MAX_VEL;
    let mut t = BHTree::new(1, 2, 8, 0, 0, 0);
    t.add_point(Point::new(7, 1, 1, 1, Vec3d::new(max_vel, 0, 0)));
    let res = t.next(2);
    let err = res.err().expect("the body must escape the coordinate range");
    assert_eq!(err.body.mass, 7);
    assert!(err.body.x > barnes_hut::MAX_COORD);
}

/// Two bodies inside either merge radius collapse to a single body whose
/// mass is the exact sum.
#[test]
fn merge_idempotence() {
    let heavy = 1u64 << 32;
    // In the library's units the merge radius is `2 m / c^2`.
    assert_eq!(Point::new(heavy, 0, 0, 0, Vec3d::new_zero()).schwarzchild_radius(), 2);
    let mut t = BHTree::new(1, 2, 8, 0, 0, 0);
    t.add_point(Point::new(heavy, 2, 2, 2, Vec3d::new_zero()));
    t.add_point(Point::new(5, 3, 2, 2, Vec3d::new_zero()));
    assert_eq!(t.root.count, 1);
    assert_eq!(t.root.mass, heavy + 5);
    let pts = t.get_points();
    assert_eq!(pts.len(), 1);
    assert_eq!(pts[0].mass, heavy + 5);
}

fn brute_force(p: Point, pts: &[Point]) -> Vec3d {
    let mut f = Vec3d::new_zero();
    for q in pts {
        let (x, y, z) = q.position();
        let (px, py, pz) = p.position();
        if (x, y, z) != (px, py, pz) {
            f = f.add(p.force_from(*q));
        }
    }
    f
}

fn err_sq(a: Vec3d, b: Vec3d) -> i128 {
    let dx = a.x - b.x;
    let dy = a.y - b.y;
    let dz = a.z - b.z;
    dx * dx + dy * dy + dz * dz
}

/// Tightening the opening angle drives the approximate force toward the
/// exact pairwise sum.
#[test]
fn opening_angle_monotonicity() {
    let m = 1u64 << 24;
    let pts = [
        Point::new(m, 2, 3, 4, Vec3d::new_zero()),
        Point::new(m, 5, 2, 2, Vec3d::new_zero()),
        Point::new(m, 200, 210, 205, Vec3d::new_zero()),
        Point::new(m, 210, 200, 202, Vec3d::new_zero()),
        Point::new(m, 203, 202, 201, Vec3d::new_zero()),
    ];
    let probe = pts[0];
    let exact = brute_force(probe, &pts[1..]);
    let mut errs = Vec::new();
    for (num, den) in [(1u64, 1u64), (1, 2), (1, 10_000_000)] {
        let t = tree_with(num, den, 256, 0, &pts);
        let f = t.calculate_force(probe);
        errs.push(err_sq(f, exact));
    }
    assert!(errs[2] == 0);
    assert!(errs[1] <= errs[0]);
    assert!(errs[2] <= errs[1]);
}

/// Three equal masses attract one another over one step and the total
/// momentum stays exactly zero.
#[test]
fn end_to_end_step() {
    let m = 1000u64;
    let a = Point::new(m, 0, 0, 0, Vec3d::new_zero());
    let b = Point::new(m, 10, 0, 0, Vec3d::new_zero());
    let c = Point::new(m, 0, 10, 0, Vec3d::new_zero());
    let t = tree_with(1, 2, 12, -1, &[a, b, c]);
    let t2 = t.next(1).unwrap();
    let pts = t2.get_points();
    assert_eq!(pts.len(), 3);

    let mut momentum = Vec3d::new_zero();
    for p in pts.iter() {
        momentum = momentum.add(p.velocity().mul_scalar(p.mass as i128));
    }
    assert_eq!(momentum, Vec3d::new_zero());

    // Each body moved strictly toward the other two: the one from the
    // origin up and right, the one from (10, 0) left and up, the one from
    // (0, 10) right and down; all stay in the z = 0 plane.
    let xs: Vec<(i128, i128, i128)> = pts.iter().map(|p| p.position()).collect();
    assert!(xs.contains(&(10, 10, 0)));
    assert!(xs.contains(&(-3, 3, 0)));
    assert!(xs.contains(&(3, -3, 0)));
}
