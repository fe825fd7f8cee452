use bvh_core::geometry::{compute_bounds_from_triangles, intersect_aabb_triangle,
    triangle_is_in_aabb, Triangle, AABB};
use bvh_core::math::{Dir3, Vec3, COORD_LIMIT};

fn tri(idx: u32, a: (i64, i64, i64), b: (i64, i64, i64), c: (i64, i64, i64)) -> Triangle {
    Triangle {
        tri_idx: idx,
        vertex0: Vec3 { x: a.0, y: a.1, z: a.2 },
        vertex1: Vec3 { x: b.0, y: b.1, z: b.2 },
        vertex2: Vec3 { x: c.0, y: c.1, z: c.2 },
    }
}

fn face_normal(t: &Triangle) -> Dir3 {
    let ax = (t.vertex1.x - t.vertex0.x) as i128;
    let ay = (t.vertex1.y - t.vertex0.y) as i128;
    let az = (t.vertex1.z - t.vertex0.z) as i128;
    let bx = (t.vertex2.x - t.vertex0.x) as i128;
    let by = (t.vertex2.y - t.vertex0.y) as i128;
    let bz = (t.vertex2.z - t.vertex0.z) as i128;
    Dir3 { x: ay * bz - az * by, y: az * bx - ax * bz, z: ax * by - ay * bx }
}

#[test]
fn empty_box_is_identity_for_grow() {
    let mut b = AABB::from_empty();
    assert_eq!(b.min_bound.x, COORD_LIMIT);
    assert_eq!(b.max_bound.x, -COORD_LIMIT);
    b.grow(&Vec3 { x: 3, y: -4, z: 5 });
    assert_eq!((b.min_bound.x, b.min_bound.y, b.min_bound.z), (3, -4, 5));
    assert_eq!((b.max_bound.x, b.max_bound.y, b.max_bound.z), (3, -4, 5));
}

#[test]
fn contains_and_contains2_agree() {
    let b = AABB::from_bounds(&Vec3 { x: -2, y: -2, z: -2 }, &Vec3 { x: 2, y: 2, z: 2 });
    let points = [
        Vec3 { x: 0, y: 0, z: 0 },
        Vec3 { x: 2, y: 2, z: 2 },
        Vec3 { x: -2, y: 1, z: 0 },
        Vec3 { x: 3, y: 0, z: 0 },
        Vec3 { x: 0, y: -3, z: 0 },
    ];
    for p in points.iter() {
        assert_eq!(b.contains(p), b.contains2(p));
    }
    assert!(b.contains(&Vec3 { x: 1, y: 1, z: 1 }));
    assert!(!b.contains(&Vec3 { x: 3, y: 0, z: 0 }));
}

#[test]
fn union_and_intersection_are_componentwise() {
    let a = AABB::from_bounds(&Vec3 { x: 0, y: 0, z: 0 }, &Vec3 { x: 4, y: 4, z: 4 });
    let b = AABB::from_bounds(&Vec3 { x: 2, y: -1, z: 1 }, &Vec3 { x: 6, y: 3, z: 5 });
    let u = a.union(&b);
    assert_eq!((u.min_bound.x, u.min_bound.y, u.min_bound.z), (0, -1, 0));
    assert_eq!((u.max_bound.x, u.max_bound.y, u.max_bound.z), (6, 4, 5));
    let x = a.intersection(&b);
    assert_eq!((x.min_bound.x, x.min_bound.y, x.min_bound.z), (2, 0, 1));
    assert_eq!((x.max_bound.x, x.max_bound.y, x.max_bound.z), (4, 3, 4));
    // disjoint boxes give an inverted (empty) overlap the caller must check
    let far = AABB::from_bounds(&Vec3 { x: 10, y: 10, z: 10 }, &Vec3 { x: 12, y: 12, z: 12 });
    let e = a.intersection(&far);
    assert!(e.min_bound.x > e.max_bound.x);
}

#[test]
fn area_is_clamped_sum_of_extent_products() {
    let b = AABB::from_bounds(&Vec3 { x: 0, y: 0, z: 0 }, &Vec3 { x: 2, y: 3, z: 4 });
    assert_eq!(b.area(), 2 * 3 + 2 * 4 + 3 * 4);
    let flat = AABB::from_bounds(&Vec3 { x: 0, y: 0, z: 0 }, &Vec3 { x: 0, y: 3, z: 4 });
    assert_eq!(flat.area(), 12);
    assert_eq!(AABB::from_bounds(&Vec3 { x: 0, y: 0, z: 0 }, &Vec3 { x: 0, y: 0, z: 0 }).area(), 0);
}

#[test]
fn bounds_of_triangles_cover_all_vertices() {
    let ts = vec![
        tri(0, (0, 0, 0), (1, 0, 0), (0, 1, 0)),
        tri(1, (-3, 2, 1), (0, 5, -2), (1, 1, 1)),
    ];
    let b = compute_bounds_from_triangles(&ts);
    assert_eq!((b.min_bound.x, b.min_bound.y, b.min_bound.z), (-3, 0, -2));
    assert_eq!((b.max_bound.x, b.max_bound.y, b.max_bound.z), (1, 5, 1));
}

#[test]
fn overlap_test_accepts_straddling_triangle() {
    // a large triangle cutting straight through a small box
    let t = tri(0, (-10, -10, 0), (10, -10, 0), (0, 10, 0));
    let n = face_normal(&t);
    let b = AABB::from_bounds(&Vec3 { x: -1, y: -1, z: -1 }, &Vec3 { x: 1, y: 1, z: 1 });
    assert!(intersect_aabb_triangle(&b, &t, &n));
    assert!(triangle_is_in_aabb(&b, &t, &n));
}

#[test]
fn overlap_test_rejects_separated_triangle() {
    // the same triangle, but the box is far above its plane
    let t = tri(0, (-10, -10, 0), (10, -10, 0), (0, 10, 0));
    let n = face_normal(&t);
    let above = AABB::from_bounds(&Vec3 { x: -1, y: -1, z: 5 }, &Vec3 { x: 1, y: 1, z: 7 });
    assert!(!intersect_aabb_triangle(&above, &t, &n));
    assert!(!triangle_is_in_aabb(&above, &t, &n));
    // and a box beside the triangle within its plane's slab
    let beside = AABB::from_bounds(&Vec3 { x: 30, y: 30, z: -1 }, &Vec3 { x: 32, y: 32, z: 1 });
    assert!(!intersect_aabb_triangle(&beside, &t, &n));
}

#[test]
fn vertex_inside_box_counts_as_membership() {
    let t = tri(0, (0, 0, 0), (40, 0, 0), (0, 40, 0));
    let n = face_normal(&t);
    let corner = AABB::from_bounds(&Vec3 { x: -1, y: -1, z: -1 }, &Vec3 { x: 1, y: 1, z: 1 });
    assert!(triangle_is_in_aabb(&corner, &t, &n));
}
