use barnes_hut::geometry::vec3d::{Point, Vec3d};

#[test]
fn test_distance() {
    let origin = Point::new(1, 0, 0, 0, Vec3d::new_zero());
    let p1 = Point::new(1, -1, -2, -2, Vec3d::new(1, 2, 3));
    let p2 = Point::new(1, 1, 2, 2, Vec3d::new(1, 2, 3));

    assert_eq!(origin.distance_to(p2), 3);
    assert_eq!(p1.distance_to(p2), 6);
}

#[test]
fn test_force() {
    let origin = Point::new(1, 0, 0, 0, Vec3d::new_zero());
    let force = Vec3d::new(1, 0, 0);
    let new_pt = origin.apply_force(1, force);
    let (x, y, z) = new_pt.position();
    assert_eq!(x, 1);
    assert_eq!(y, 0);
    assert_eq!(z, 0);
}

#[test]
fn test_magnitude() {
    // The floor of sqrt(1 + 4 + 9) = sqrt(14).
    let v = Vec3d::new(1, 2, 3);
    let m = v.magnitude();
    assert_eq!(m, 3);
}

#[test]
fn test_vec_operations() {
    // Scaling.
    let v = Vec3d::new(1, 2, 3);
    let v2 = v.mul_scalar(2);
    let (x, y, z) = v2.position();
    assert_eq!(x, 2);
    assert_eq!(y, 4);
    assert_eq!(z, 6);
    let v3 = v.mul_scalar(2);
    let (x, y, z) = v3.position();
    assert_eq!(x, 2);
    assert_eq!(y, 4);
    assert_eq!(z, 6);

    // Division.
    let v4 = v3.div_scalar(2);
    let (x, y, z) = v4.position();
    assert_eq!(x, 1);
    assert_eq!(y, 2);
    assert_eq!(z, 3);

    // Add.
    let vs = Vec3d::new(-1, 0, 2);
    let vt = v.add(vs);
    let (x, y, z) = vt.position();
    assert_eq!(x, 0);
    assert_eq!(y, 2);
    assert_eq!(z, 5);
}

#[test]
fn test_close_attraction() {
    let m = 1u64 << 30;
    let p1 = Point::new(m, 2, 2, 2, Vec3d::new_zero());
    let p2 = Point::new(m, 0, 0, 0, Vec3d::new_zero());
    let p3 = Point::new(m, 1, 1, 1, Vec3d::new_zero());
    let f_far = p1.force_from(p2);
    let f_near = p1.force_from(p3);
    // The nearer body pulls harder, toward smaller coordinates.
    assert!(f_near.x < f_far.x && f_far.x < 0);
    assert!(f_near.y < 0 && f_near.z < 0);
}
