use bvh_core::material::{convert_color_to_u32, Color, Material};
use bvh_core::math::{Mat4, Uint3, Vec3};
use bvh_core::mesh::{mesh_from_arrays, Mesh};
use bvh_core::renderer::{RenderMode, RenderSettings};
use bvh_core::scene::{Scene, SceneDescription, SceneObject};

fn mat4(seed: u32) -> Mat4 {
    let mut cells = [0u32; 16];
    for (i, c) in cells.iter_mut().enumerate() {
        *c = seed + i as u32;
    }
    Mat4 { cells }
}

fn quad_mesh() -> Mesh {
    // a unit quad of two triangles over four vertices
    let vertices = vec![
        Vec3 { x: 0, y: 0, z: 0 },
        Vec3 { x: 4, y: 0, z: 0 },
        Vec3 { x: 4, y: 4, z: 0 },
        Vec3 { x: 0, y: 4, z: 0 },
    ];
    let ids = vec![Uint3 { x: 0, y: 1, z: 2 }, Uint3 { x: 0, y: 2, z: 3 }];
    mesh_from_arrays(vertices, ids).expect("well-formed quad")
}

fn tri_mesh() -> Mesh {
    let vertices = vec![
        Vec3 { x: -2, y: 0, z: 1 },
        Vec3 { x: 2, y: 0, z: 1 },
        Vec3 { x: 0, y: 3, z: 1 },
    ];
    let ids = vec![Uint3 { x: 0, y: 1, z: 2 }];
    mesh_from_arrays(vertices, ids).expect("well-formed triangle")
}

fn description() -> SceneDescription {
    let objects = vec![
        SceneObject::new(0, 1, mat4(100), mat4(200), vec![]),
        SceneObject::new(1, 0, mat4(300), mat4(400), vec![]),
    ];
    let materials = vec![
        Material {
            colors: vec![Color { red: 255, green: 0, blue: 0 }],
            reflectiveness: vec![0],
            refractive_indices: vec![0],
        },
        Material {
            colors: vec![
                Color { red: 10, green: 20, blue: 30 },
                Color { red: 1, green: 2, blue: 3 },
            ],
            reflectiveness: vec![128, 64],
            refractive_indices: vec![7, 9],
        },
    ];
    SceneDescription { root_objects: objects, meshes: vec![tri_mesh(), quad_mesh()], materials }
}

#[test]
fn color_packs_into_low_24_bits() {
    assert_eq!(convert_color_to_u32(&Color { red: 255, green: 128, blue: 64 }), 0xFF8040);
    assert_eq!(convert_color_to_u32(&Color { red: 0, green: 0, blue: 0 }), 0);
    assert_eq!(convert_color_to_u32(&Color { red: 1, green: 0, blue: 255 }), 0x0100FF);
}

#[test]
fn render_settings_compare_by_fields() {
    let a = RenderSettings { render_mode: RenderMode::Albedo, num_primary_rays: 64, num_bounces: 2 };
    let b = RenderSettings { render_mode: RenderMode::Albedo, num_primary_rays: 64, num_bounces: 2 };
    assert!(a == b);
    let c = RenderSettings { render_mode: RenderMode::Normals, ..a };
    assert!(a != c);
}

#[test]
fn mesh_from_arrays_rejects_malformed_input() {
    // no triangles
    assert!(mesh_from_arrays(vec![Vec3 { x: 0, y: 0, z: 0 }], vec![]).is_none());
    // vertex index out of range
    assert!(mesh_from_arrays(
        vec![Vec3 { x: 0, y: 0, z: 0 }, Vec3 { x: 1, y: 0, z: 0 }],
        vec![Uint3 { x: 0, y: 1, z: 2 }],
    )
    .is_none());
    // a vertex no triangle references
    assert!(mesh_from_arrays(
        vec![
            Vec3 { x: 0, y: 0, z: 0 },
            Vec3 { x: 1, y: 0, z: 0 },
            Vec3 { x: 0, y: 1, z: 0 },
            Vec3 { x: 5, y: 5, z: 5 },
        ],
        vec![Uint3 { x: 0, y: 1, z: 2 }],
    )
    .is_none());
    // a position outside the fixed-point range
    assert!(mesh_from_arrays(
        vec![
            Vec3 { x: 2000000, y: 0, z: 0 },
            Vec3 { x: 1, y: 0, z: 0 },
            Vec3 { x: 0, y: 1, z: 0 },
        ],
        vec![Uint3 { x: 0, y: 1, z: 2 }],
    )
    .is_none());
}

#[test]
fn mesh_from_arrays_builds_exact_normals() {
    let m = tri_mesh();
    assert_eq!(m.triangles.len(), 1);
    assert_eq!(m.triangles[0].tri_idx, 0);
    assert_eq!(m.vertex_uvs.len(), 0);
    // the face normal is the edge cross product: (4,0,0) x (2,3,0) = (0,0,12)
    assert_eq!(m.vertex_normals.len(), 3);
    for n in m.vertex_normals.iter() {
        assert_eq!((n.x, n.y, n.z), (0, 0, 12));
    }
    // in the quad, vertices 0 and 2 are shared by both triangles
    let q = quad_mesh();
    assert_eq!((q.vertex_normals[0].x, q.vertex_normals[0].y, q.vertex_normals[0].z), (0, 0, 32));
    assert_eq!((q.vertex_normals[1].x, q.vertex_normals[1].y, q.vertex_normals[1].z), (0, 0, 16));
}

#[test]
fn flattening_tiles_every_offset_table() {
    let d = description();
    let s = Scene::from_scene_description(&d);
    // object columns copied in order
    assert_eq!(s.obj_mesh_ids, vec![0, 1]);
    assert_eq!(s.obj_mat_ids, vec![1, 0]);
    assert_eq!(s.obj_transforms[0].cells, mat4(100).cells);
    assert_eq!(s.obj_inv_transforms[1].cells, mat4(400).cells);
    // per-mesh node blocks tile the node arrays
    assert_eq!(s.bvhs.len(), 2);
    assert_eq!(s.bvh_offsets[0], 0);
    assert_eq!(s.bvh_offsets[1] as usize, s.bvhs[0].bvh_nodes.len());
    assert_eq!(
        s.bvh_offsets[1] as usize + s.bvhs[1].bvh_nodes.len(),
        s.bvh_min_bounds.len()
    );
    assert_eq!(s.bvh_min_bounds.len(), s.bvh_max_bounds.len());
    assert_eq!(s.bvh_min_bounds.len(), s.bvh_tri_counts.len());
    assert_eq!(s.bvh_min_bounds.len(), s.bvh_left_firsts.len());
    // triangle blocks tile the triangle array (1 + 2 triangles)
    assert_eq!(s.bvh_triangle_offsets[0], 0);
    assert_eq!(s.bvh_triangle_offsets[1], 1);
    assert_eq!(s.bvh_triangles.len(), 3);
    // vertex-id blocks tile their array
    assert_eq!(s.mesh_offsets[0], 0);
    assert_eq!(s.mesh_offsets[1], 1);
    assert_eq!(s.mesh_vertex_ids.len(), 3);
    assert_eq!(s.mesh_vertex_normals.len(), 7);
    // material blocks tile the packed arrays
    assert_eq!(s.mat_offsets[0], 0);
    assert_eq!(s.mat_offsets[1], 1);
    assert_eq!(s.mat_colors.len(), 3);
    assert_eq!(s.mat_colors[0], 0xFF0000);
    assert_eq!(s.mat_colors[1], convert_color_to_u32(&Color { red: 10, green: 20, blue: 30 }));
    assert_eq!(s.mat_reflectiveness, vec![0, 128, 64]);
    assert_eq!(s.mat_refraction_indices, vec![0, 7, 9]);
    // node columns mirror the per-mesh trees
    for (i, node) in s.bvhs[1].bvh_nodes.iter().enumerate() {
        let off = s.bvh_offsets[1] as usize + i;
        assert_eq!(s.bvh_tri_counts[off], node.tri_count as u32);
        assert_eq!(s.bvh_left_firsts[off], node.left_first as u32);
        assert_eq!(s.bvh_min_bounds[off].x, node.bounds.min_bound.x);
        assert_eq!(s.bvh_max_bounds[off].z, node.bounds.max_bound.z);
    }
}

#[test]
fn reflattening_is_byte_identical() {
    let d = description();
    let s1 = Scene::from_scene_description(&d);
    let s2 = Scene::from_scene_description(&d);
    assert_eq!(s1.obj_mesh_ids, s2.obj_mesh_ids);
    assert_eq!(s1.obj_mat_ids, s2.obj_mat_ids);
    assert_eq!(s1.bvh_offsets, s2.bvh_offsets);
    assert_eq!(s1.mesh_offsets, s2.mesh_offsets);
    assert_eq!(s1.bvh_triangle_offsets, s2.bvh_triangle_offsets);
    assert_eq!(s1.mat_offsets, s2.mat_offsets);
    assert_eq!(s1.bvh_tri_counts, s2.bvh_tri_counts);
    assert_eq!(s1.bvh_left_firsts, s2.bvh_left_firsts);
    assert_eq!(s1.mat_colors, s2.mat_colors);
    assert_eq!(s1.mat_reflectiveness, s2.mat_reflectiveness);
    assert_eq!(s1.mat_refraction_indices, s2.mat_refraction_indices);
    for i in 0..s1.bvh_min_bounds.len() {
        assert_eq!(s1.bvh_min_bounds[i].x, s2.bvh_min_bounds[i].x);
        assert_eq!(s1.bvh_min_bounds[i].y, s2.bvh_min_bounds[i].y);
        assert_eq!(s1.bvh_min_bounds[i].z, s2.bvh_min_bounds[i].z);
        assert_eq!(s1.bvh_max_bounds[i].x, s2.bvh_max_bounds[i].x);
        assert_eq!(s1.bvh_max_bounds[i].y, s2.bvh_max_bounds[i].y);
        assert_eq!(s1.bvh_max_bounds[i].z, s2.bvh_max_bounds[i].z);
    }
    for i in 0..s1.bvh_triangles.len() {
        assert_eq!(s1.bvh_triangles[i].tri_idx, s2.bvh_triangles[i].tri_idx);
    }
}
