use bvh_core::bvh::{BVH, BVHNode};
use bvh_core::geometry::{compute_bounds_from_triangles, Triangle, AABB};
use bvh_core::math::Vec3;

fn tri(idx: u32, a: (i64, i64, i64), b: (i64, i64, i64), c: (i64, i64, i64)) -> Triangle {
    Triangle {
        tri_idx: idx,
        vertex0: Vec3 { x: a.0, y: a.1, z: a.2 },
        vertex1: Vec3 { x: b.0, y: b.1, z: b.2 },
        vertex2: Vec3 { x: c.0, y: c.1, z: c.2 },
    }
}

/// The twelve triangles of an axis-aligned unit cube with minimum corner
/// `(x, y, z)`, in fixed-point units of `s` per side.
fn cube(tris: &mut Vec<Triangle>, x: i64, y: i64, z: i64, s: i64) {
    let corners = |dx: i64, dy: i64, dz: i64| (x + dx * s, y + dy * s, z + dz * s);
    let faces: [[(i64, i64, i64); 4]; 6] = [
        [corners(0, 0, 0), corners(0, 1, 0), corners(0, 1, 1), corners(0, 0, 1)],
        [corners(1, 0, 0), corners(1, 1, 0), corners(1, 1, 1), corners(1, 0, 1)],
        [corners(0, 0, 0), corners(1, 0, 0), corners(1, 0, 1), corners(0, 0, 1)],
        [corners(0, 1, 0), corners(1, 1, 0), corners(1, 1, 1), corners(0, 1, 1)],
        [corners(0, 0, 0), corners(1, 0, 0), corners(1, 1, 0), corners(0, 1, 0)],
        [corners(0, 0, 1), corners(1, 0, 1), corners(1, 1, 1), corners(0, 1, 1)],
    ];
    for f in faces.iter() {
        let n = tris.len() as u32;
        tris.push(tri(n, f[0], f[1], f[2]));
        tris.push(tri(n + 1, f[0], f[2], f[3]));
    }
}

fn tri_bounds(t: &Triangle) -> (Vec3, Vec3) {
    let mn = Vec3 {
        x: t.vertex0.x.min(t.vertex1.x).min(t.vertex2.x),
        y: t.vertex0.y.min(t.vertex1.y).min(t.vertex2.y),
        z: t.vertex0.z.min(t.vertex1.z).min(t.vertex2.z),
    };
    let mx = Vec3 {
        x: t.vertex0.x.max(t.vertex1.x).max(t.vertex2.x),
        y: t.vertex0.y.max(t.vertex1.y).max(t.vertex2.y),
        z: t.vertex0.z.max(t.vertex1.z).max(t.vertex2.z),
    };
    (mn, mx)
}

fn subtree_count(nodes: &Vec<BVHNode>, i: usize) -> usize {
    let n = nodes[i];
    if n.tri_count > 0 {
        n.tri_count
    } else {
        subtree_count(nodes, n.left_first) + subtree_count(nodes, n.left_first + 1)
    }
}

/// Structural checks on a built tree: the permutation is a bijection on
/// `0..n`, leaves are non-empty and tight, internal bounds are the union of
/// their children's, child indices stay in range, and each internal split's
/// SAH cost never exceeds its leaf cost.
fn check_tree(bvh: &BVH, tris: &Vec<Triangle>) {
    let n = tris.len();
    assert_eq!(bvh.triangle_idx.len(), n);
    let mut seen = vec![false; n];
    for &id in bvh.triangle_idx.iter() {
        assert!(id < n);
        assert!(!seen[id], "triangle listed twice");
        seen[id] = true;
    }
    assert!(seen.iter().all(|&s| s), "triangle missing from the permutation");
    let nodes = &bvh.bvh_nodes;
    assert!(nodes.len() >= 1 && nodes.len() <= 2 * n - 1);
    for (i, node) in nodes.iter().enumerate() {
        if node.is_leaf() {
            assert!(node.tri_count >= 1);
            assert!(node.left_first + node.tri_count <= n);
            for j in node.left_first..node.left_first + node.tri_count {
                let (mn, mx) = tri_bounds(&tris[bvh.triangle_idx[j]]);
                assert!(node.bounds.min_bound.x <= mn.x && mx.x <= node.bounds.max_bound.x);
                assert!(node.bounds.min_bound.y <= mn.y && mx.y <= node.bounds.max_bound.y);
                assert!(node.bounds.min_bound.z <= mn.z && mx.z <= node.bounds.max_bound.z);
            }
        } else {
            let l = node.left_first;
            assert!(l >= i + 1 && l + 1 < nodes.len());
            let u = nodes[l].bounds.union(&nodes[l + 1].bounds);
            assert_eq!(
                (u.min_bound.x, u.min_bound.y, u.min_bound.z),
                (node.bounds.min_bound.x, node.bounds.min_bound.y, node.bounds.min_bound.z)
            );
            assert_eq!(
                (u.max_bound.x, u.max_bound.y, u.max_bound.z),
                (node.bounds.max_bound.x, node.bounds.max_bound.y, node.bounds.max_bound.z)
            );
            let lc = subtree_count(nodes, l) as i128;
            let rc = subtree_count(nodes, l + 1) as i128;
            let split_cost = lc * nodes[l].bounds.area() as i128 + rc * nodes[l + 1].bounds.area() as i128;
            let leaf_cost = (lc + rc) * node.bounds.area() as i128;
            assert!(split_cost <= leaf_cost, "split cost above leaf cost at node {}", i);
        }
    }
}

#[test]
fn single_triangle_yields_one_leaf() {
    let tris = vec![tri(0, (0, 0, 0), (1, 0, 0), (0, 1, 0))];
    let bounds = compute_bounds_from_triangles(&tris);
    let bvh = BVH::from_mesh(&tris, &bounds, 4);
    assert_eq!(bvh.bvh_nodes.len(), 1);
    let root = bvh.bvh_nodes[0];
    assert!(root.is_leaf());
    assert_eq!(root.tri_count, 1);
    assert_eq!((root.bounds.min_bound.x, root.bounds.min_bound.y, root.bounds.min_bound.z), (0, 0, 0));
    assert_eq!((root.bounds.max_bound.x, root.bounds.max_bound.y, root.bounds.max_bound.z), (1, 1, 0));
    check_tree(&bvh, &tris);
}

#[test]
fn voxel_grid_root_covers_whole_grid() {
    // 8 separated unit cubes (side 8 units, spaced 32) in a 2x2x2 grid
    let mut tris: Vec<Triangle> = Vec::new();
    for cx in 0..2 {
        for cy in 0..2 {
            for cz in 0..2 {
                cube(&mut tris, cx * 32, cy * 32, cz * 32, 8);
            }
        }
    }
    assert_eq!(tris.len(), 96);
    let bounds = compute_bounds_from_triangles(&tris);
    let bvh = BVH::from_mesh(&tris, &bounds, 8);
    let root = bvh.bvh_nodes[0];
    // the root's bounds and area are exactly the grid's
    assert_eq!((root.bounds.min_bound.x, root.bounds.min_bound.y, root.bounds.min_bound.z), (0, 0, 0));
    assert_eq!((root.bounds.max_bound.x, root.bounds.max_bound.y, root.bounds.max_bound.z), (40, 40, 40));
    assert_eq!(root.bounds.area(), 3 * 40 * 40);
    // the heuristic separates the cubes: at least one leaf per cube, and
    // no leaf mixes triangles of two cubes
    let leaves: Vec<&BVHNode> = bvh.bvh_nodes.iter().filter(|n| n.is_leaf()).collect();
    assert!(leaves.len() >= 8);
    for leaf in leaves.iter() {
        let home = |id: usize| {
            let t = &tris[id];
            (t.vertex0.x / 32, t.vertex0.y / 32, t.vertex0.z / 32)
        };
        let first = home(bvh.triangle_idx[leaf.left_first]);
        for j in leaf.left_first..leaf.left_first + leaf.tri_count {
            assert_eq!(home(bvh.triangle_idx[j]), first, "leaf spans two cubes");
        }
    }
    check_tree(&bvh, &tris);
}

#[test]
fn permutation_is_bijection_on_flat_fan() {
    // a fan of triangles with coincident vertices and degenerate boxes
    let mut tris: Vec<Triangle> = Vec::new();
    for k in 0..17i64 {
        tris.push(tri(k as u32, (0, 0, 0), (k + 1, 2, 0), (k, 3, 0)));
    }
    let bounds = compute_bounds_from_triangles(&tris);
    let bvh = BVH::from_mesh(&tris, &bounds, 4);
    check_tree(&bvh, &tris);
    let mut ids: Vec<usize> = bvh.triangle_idx.clone();
    ids.sort();
    let expect: Vec<usize> = (0..17).collect();
    assert_eq!(ids, expect);
}

#[test]
fn identical_centroids_stay_one_leaf() {
    // every triangle has the same bounding box, so no split can help
    let mut tris: Vec<Triangle> = Vec::new();
    for k in 0..5 {
        tris.push(tri(k, (0, 0, 0), (4, 0, 0), (0, 4, 4)));
    }
    let bounds = compute_bounds_from_triangles(&tris);
    let bvh = BVH::from_mesh(&tris, &bounds, 4);
    assert_eq!(bvh.bvh_nodes.len(), 1);
    assert_eq!(bvh.bvh_nodes[0].tri_count, 5);
    check_tree(&bvh, &tris);
}
