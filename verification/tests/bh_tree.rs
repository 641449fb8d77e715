use barnes_hut::geometry::bh_tree::BHTree;
use barnes_hut::geometry::vec3d::{Point, Vec3d};
use rand::Rng;

#[test]
fn starts_with_0com() {
    let bht = BHTree::new(1, 2, 1 << 40, 0, 0, 0);
    assert_eq!(bht.root.center_of_mass(), Point::new_zero());
}

#[test]
fn test_add_point() {
    let mut rng = rand::thread_rng();
    for i in 1..100u64 {
        let size: u64 = rng.gen_range(4..1338);
        let mut bht = BHTree::new(1, i, size, 0, 0, 0);
        let pt = Point::new(1, 2, 2, 2, Vec3d::new_zero());
        bht.add_point(pt);
        assert_eq!(bht.root.xloc, 0);
        assert_eq!(bht.root.yloc, 0);
        assert_eq!(bht.root.zloc, 0);
        assert_eq!(bht.root.zloc, 0);
        assert_eq!(bht.root.center_of_mass(), pt);

        let pt2 = Point::new(1, 0, 0, 0, Vec3d::new_zero());
        bht.add_point(pt2);
        let expected = Point::new(2, 1, 1, 1, Vec3d::new_zero());
        assert_eq!(bht.root.center_of_mass(), expected);

        let pt3 = Point::new(2, 3, 3, 3, Vec3d::new_zero());
        bht.add_point(pt3);
        let expected = Point::new(4, 2, 2, 2, Vec3d::new_zero());
        assert_eq!(bht.root.center_of_mass(), expected);
    }
}

#[test]
fn test_step_calculation() {
    let mut bht = BHTree::new(1, 2, 5, 0, 0, 0);
    let pt = Point::new(1_000_000_000, 2, 2, 2, Vec3d::new_zero());
    bht.add_point(pt);
    let pt = Point::new(1_000_000_000, 0, 0, 0, Vec3d::new_zero());
    bht.add_point(pt);

    for _ in 1..100 {
        bht = bht.next(1).unwrap();
    }
}

#[test]
fn merge_test() {
    let mut bht = BHTree::new(1, 2, 5, 0, 0, 0);

    assert_eq!(bht.root.count, 0);
    bht.add_point(Point::new(1, 0, 0, 0, Vec3d::new_zero()));
    assert_eq!(bht.root.count, 1);
    bht.add_point(Point::new(1, 1, 0, 0, Vec3d::new_zero()));
    assert_eq!(bht.root.count, 2);

    let heavy = 1u64 << 32;
    bht.add_point(Point::new(heavy, 1, 1, 0, Vec3d::new_zero()));
    assert_eq!(bht.root.count, 3);

    // A fourth body lands in the heavy body's cell, within its merge
    // radius, and collapses into it.
    bht.add_point(Point::new(1, 1, 1, 0, Vec3d::new_zero()));
    assert_eq!(bht.root.count, 3);
    assert_eq!(bht.root.mass, heavy + 3);
    let pts = bht.get_points();
    assert_eq!(pts.len(), 3);
    assert!(pts.iter().any(|p| p.mass == heavy + 1));
}
