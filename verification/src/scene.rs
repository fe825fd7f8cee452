//! Scene flattening: turn a hierarchical scene description — objects with
//! transforms referencing meshes and materials — into offset-indexed
//! parallel arrays that a traversal engine can consume by numeric id, with
//! one BVH built per mesh and every offset table tiling its array exactly.

use vstd::prelude::*;

verus! {

use crate::math::{Vec3, Uint3, Dir3, Mat4};
use crate::geometry::{
    AABB,
    Triangle,
    valid_triangles,
    tight_bounds,
    idx_set,
    compute_bounds_from_triangles,
};
use crate::bvh::{BVH, BVHNode, built_from, subtree_nodes, lemma_subtree_node_wf};
use crate::mesh::Mesh;
use crate::material::{Material, Color, material_wf, packed_color, convert_color_to_u32};

/// An instance in the scene: which mesh it draws, with which material, and
/// where. The inverse transform is supplied by the caller (it is computed
/// once, in the caller's precision) and carried along for ray
/// transformation. Children are representational; flattening currently
/// descends a single level.
pub struct SceneObject {
    pub mesh_idx: u32,
    pub mat_idx: u32,
    pub transform: Mat4,
    pub inv_transform: Mat4,
    pub children: Vec<SceneObject>,
}

impl SceneObject {
    /// Bundle up one instance; every field is stored as given.
    pub fn new(
        mesh_idx: u32,
        mat_idx: u32,
        transform: Mat4,
        inv_transform: Mat4,
        children: Vec<SceneObject>,
    ) -> (r: SceneObject)
        ensures
            r.mesh_idx == mesh_idx,
            r.mat_idx == mat_idx,
            r.transform == transform,
            r.inv_transform == inv_transform,
            r.children == children,
    {
        SceneObject { mesh_idx, mat_idx, transform, inv_transform, children }
    }
}

/// The hierarchical scene as loaded: objects, meshes, materials.
pub struct SceneDescription {
    pub root_objects: Vec<SceneObject>,
    pub meshes: Vec<Mesh>,
    pub materials: Vec<Material>,
}

/// The flattened scene: one entry per object, per BVH node, per triangle,
/// per vertex and per sub-material, each block located through an offset
/// table. Immutable once produced; built for lock-free concurrent readers.
pub struct Scene {
    pub obj_mesh_ids: Vec<u32>,
    pub obj_mat_ids: Vec<u32>,
    pub obj_transforms: Vec<Mat4>,
    pub obj_inv_transforms: Vec<Mat4>,
    pub bvh_offsets: Vec<u32>,
    pub mesh_offsets: Vec<u32>,
    pub bvh_min_bounds: Vec<Vec3>,
    pub bvh_max_bounds: Vec<Vec3>,
    pub bvh_tri_counts: Vec<u32>,
    pub bvh_left_firsts: Vec<u32>,
    pub bvh_triangle_offsets: Vec<u32>,
    pub bvh_triangles: Vec<Triangle>,
    pub mesh_vertex_ids: Vec<Uint3>,
    pub mesh_vertex_normals: Vec<Dir3>,
    pub mat_offsets: Vec<u32>,
    pub mat_colors: Vec<u32>,
    pub mat_reflectiveness: Vec<u8>,
    pub mat_refraction_indices: Vec<u32>,
    pub bvhs: Vec<BVH>,
}

/// Sum of a sequence of (non-negative) scalars.
pub open spec fn int_sum(s: Seq<int>) -> int
    decreases s.len(),
{
    if s.len() == 0 {
        0
    } else {
        int_sum(s.drop_last()) + s.last()
    }
}

/// Extending a prefix by one element adds that element to its sum.
pub proof fn lemma_int_sum_prefix_push(s: Seq<int>, i: int)
    requires
        0 <= i < s.len(),
    ensures
        int_sum(s.subrange(0, i + 1)) == int_sum(s.subrange(0, i)) + s[i],
{
    assert(s.subrange(0, i + 1).drop_last() =~= s.subrange(0, i));
    assert(s.subrange(0, i + 1).last() == s[i]);
}

/// Sums of non-negative scalars are non-negative and grow with the prefix.
pub proof fn lemma_int_sum_prefix_le(s: Seq<int>, i: int)
    requires
        0 <= i <= s.len(),
        forall|k: int| 0 <= k < s.len() ==> #[trigger] s[k] >= 0,
    ensures
        0 <= int_sum(s.subrange(0, i)) <= int_sum(s),
    decreases s.len() - i,
{
    if i == s.len() {
        assert(s.subrange(0, i) =~= s);
        lemma_int_sum_nonneg(s);
    } else {
        lemma_int_sum_prefix_push(s, i);
        lemma_int_sum_prefix_le(s, i + 1);
        assert(forall|k: int|
            0 <= k < s.subrange(0, i).len() ==> #[trigger] s.subrange(0, i)[k] >= 0);
        lemma_int_sum_nonneg(s.subrange(0, i));
    }
}

/// A sum of non-negative scalars is non-negative.
pub proof fn lemma_int_sum_nonneg(s: Seq<int>)
    requires
        forall|k: int| 0 <= k < s.len() ==> #[trigger] s[k] >= 0,
    ensures
        int_sum(s) >= 0,
    decreases s.len(),
{
    if s.len() > 0 {
        assert(forall|k: int| 0 <= k < s.drop_last().len() ==> #[trigger] s.drop_last()[k] >= 0);
        lemma_int_sum_nonneg(s.drop_last());
    }
}

/// Every position below the total sum falls inside exactly one block; this
/// finds the block.
pub proof fn lemma_locate(s: Seq<int>, k: int) -> (i: int)
    requires
        forall|q: int| 0 <= q < s.len() ==> #[trigger] s[q] >= 0,
        0 <= k < int_sum(s),
    ensures
        0 <= i < s.len(),
        int_sum(s.subrange(0, i)) <= k < int_sum(s.subrange(0, i)) + s[i],
    decreases s.len(),
{
    assert(s.subrange(0, s.len() as int) =~= s);
    if k < int_sum(s.drop_last()) {
        assert(forall|q: int| 0 <= q < s.drop_last().len() ==> #[trigger] s.drop_last()[q] >= 0);
        let i = lemma_locate(s.drop_last(), k);
        assert(s.drop_last().subrange(0, i) =~= s.subrange(0, i));
        assert(s.drop_last()[i] == s[i]);
        i
    } else {
        lemma_int_sum_nonneg(s.drop_last());
        let i = s.len() - 1;
        assert(s.subrange(0, i) =~= s.drop_last());
        i
    }
}

/// Triangle count of each mesh.
pub open spec fn mesh_tri_lens(meshes: Seq<Mesh>) -> Seq<int> {
    meshes.map_values(|m: Mesh| m.triangles@.len() as int)
}

/// Vertex-index-triple count of each mesh.
pub open spec fn mesh_id_lens(meshes: Seq<Mesh>) -> Seq<int> {
    meshes.map_values(|m: Mesh| m.triangle_vertex_ids@.len() as int)
}

/// Vertex-normal count of each mesh.
pub open spec fn mesh_normal_lens(meshes: Seq<Mesh>) -> Seq<int> {
    meshes.map_values(|m: Mesh| m.vertex_normals@.len() as int)
}

/// Node count of each built hierarchy.
pub open spec fn bvh_node_lens(bvhs: Seq<BVH>) -> Seq<int> {
    bvhs.map_values(|b: BVH| b.bvh_nodes@.len() as int)
}

/// Triangle count of each built hierarchy.
pub open spec fn bvh_tri_lens(bvhs: Seq<BVH>) -> Seq<int> {
    bvhs.map_values(|b: BVH| b.triangle_idx@.len() as int)
}

/// Sub-material count of each material.
pub open spec fn mat_color_lens(mats: Seq<Material>) -> Seq<int> {
    mats.map_values(|m: Material| m.colors@.len() as int)
}

/// The node minima of every hierarchy up to `upto`, concatenated.
pub open spec fn cat_node_mins(bvhs: Seq<BVH>, upto: int) -> Seq<Vec3>
    decreases upto,
{
    if upto <= 0 {
        Seq::empty()
    } else {
        cat_node_mins(bvhs, upto - 1) + bvhs[upto - 1].bvh_nodes@.map_values(
            |n: BVHNode| n.bounds.min_bound,
        )
    }
}

/// The node maxima of every hierarchy up to `upto`, concatenated.
pub open spec fn cat_node_maxs(bvhs: Seq<BVH>, upto: int) -> Seq<Vec3>
    decreases upto,
{
    if upto <= 0 {
        Seq::empty()
    } else {
        cat_node_maxs(bvhs, upto - 1) + bvhs[upto - 1].bvh_nodes@.map_values(
            |n: BVHNode| n.bounds.max_bound,
        )
    }
}

/// The node triangle counts of every hierarchy up to `upto`, concatenated.
pub open spec fn cat_node_counts(bvhs: Seq<BVH>, upto: int) -> Seq<u32>
    decreases upto,
{
    if upto <= 0 {
        Seq::empty()
    } else {
        cat_node_counts(bvhs, upto - 1) + bvhs[upto - 1].bvh_nodes@.map_values(
            |n: BVHNode| n.tri_count as u32,
        )
    }
}

/// The node left-first fields of every hierarchy up to `upto`, concatenated.
pub open spec fn cat_node_lfs(bvhs: Seq<BVH>, upto: int) -> Seq<u32>
    decreases upto,
{
    if upto <= 0 {
        Seq::empty()
    } else {
        cat_node_lfs(bvhs, upto - 1) + bvhs[upto - 1].bvh_nodes@.map_values(
            |n: BVHNode| n.left_first as u32,
        )
    }
}

/// Every mesh's triangles in its hierarchy's leaf order, concatenated.
pub open spec fn cat_bvh_triangles(bvhs: Seq<BVH>, meshes: Seq<Mesh>, upto: int) -> Seq<Triangle>
    decreases upto,
{
    if upto <= 0 {
        Seq::empty()
    } else {
        cat_bvh_triangles(bvhs, meshes, upto - 1) + Seq::new(
            bvhs[upto - 1].triangle_idx@.len(),
            |j: int| meshes[upto - 1].triangles@[bvhs[upto - 1].triangle_idx@[j] as int],
        )
    }
}

/// Every mesh's vertex-index triples, concatenated.
pub open spec fn cat_mesh_ids(meshes: Seq<Mesh>, upto: int) -> Seq<Uint3>
    decreases upto,
{
    if upto <= 0 {
        Seq::empty()
    } else {
        cat_mesh_ids(meshes, upto - 1) + meshes[upto - 1].triangle_vertex_ids@
    }
}

/// Every mesh's vertex normals, concatenated.
pub open spec fn cat_mesh_normals(meshes: Seq<Mesh>, upto: int) -> Seq<Dir3>
    decreases upto,
{
    if upto <= 0 {
        Seq::empty()
    } else {
        cat_mesh_normals(meshes, upto - 1) + meshes[upto - 1].vertex_normals@
    }
}

/// Every material's packed colors, concatenated.
pub open spec fn cat_mat_colors(mats: Seq<Material>, upto: int) -> Seq<u32>
    decreases upto,
{
    if upto <= 0 {
        Seq::empty()
    } else {
        cat_mat_colors(mats, upto - 1) + mats[upto - 1].colors@.map_values(
            |c: Color| packed_color(c) as u32,
        )
    }
}

/// Every material's reflectiveness bytes, concatenated.
pub open spec fn cat_mat_refl(mats: Seq<Material>, upto: int) -> Seq<u8>
    decreases upto,
{
    if upto <= 0 {
        Seq::empty()
    } else {
        cat_mat_refl(mats, upto - 1) + mats[upto - 1].reflectiveness@
    }
}

/// Every material's refraction words, concatenated.
pub open spec fn cat_mat_refr(mats: Seq<Material>, upto: int) -> Seq<u32>
    decreases upto,
{
    if upto <= 0 {
        Seq::empty()
    } else {
        cat_mat_refr(mats, upto - 1) + mats[upto - 1].refractive_indices@
    }
}

/// What a scene description must satisfy to be flattened: every mesh
/// non-empty with in-range triangles, every material's arrays parallel,
/// and totals small enough for the offset tables' word size.
pub open spec fn scene_ok(d: &SceneDescription) -> bool {
    &&& (forall|i: int|
        0 <= i < d.meshes@.len() ==> 1 <= (#[trigger] d.meshes@[i]).triangles@.len()
            && valid_triangles(d.meshes@[i].triangles@))
    &&& int_sum(mesh_tri_lens(d.meshes@)) <= 0x40000000
    &&& int_sum(mesh_id_lens(d.meshes@)) <= 0xFFFFFFFF
    &&& (forall|i: int| 0 <= i < d.materials@.len() ==> material_wf(&#[trigger] d.materials@[i]))
    &&& int_sum(mat_color_lens(d.materials@)) <= 0xFFFFFFFF
}

/// The hierarchy stored for a mesh: built over exactly that mesh's
/// triangles, with the root's stored bounds tight around all of them.
pub open spec fn bvh_of_mesh(b: BVH, m: Mesh) -> bool {
    &&& built_from(b, m.triangles@, b.bvh_nodes@[0].bounds)
    &&& tight_bounds(b.bvh_nodes@[0].bounds, m.triangles@, idx_set(m.triangles@.len() as int))
}

/// The complete relation between a flattened scene and its description:
/// per-object columns copied in order; one well-formed hierarchy per mesh;
/// each offset table entry the sum of the block lengths before it; each
/// array exactly the concatenation of its blocks; material colors packed.
pub open spec fn scene_matches(s: &Scene, d: &SceneDescription) -> bool {
    let objs = d.root_objects@;
    let meshes = d.meshes@;
    let mats = d.materials@;
    let bvhs = s.bvhs@;
    let n = meshes.len() as int;
    let nm = mats.len() as int;
    &&& s.obj_mesh_ids@.len() == objs.len()
    &&& s.obj_mat_ids@.len() == objs.len()
    &&& s.obj_transforms@.len() == objs.len()
    &&& s.obj_inv_transforms@.len() == objs.len()
    &&& (forall|i: int|
        0 <= i < objs.len() ==> s.obj_mesh_ids@[i] == (#[trigger] objs[i]).mesh_idx
            && s.obj_mat_ids@[i] == objs[i].mat_idx && s.obj_transforms@[i] == objs[i].transform
            && s.obj_inv_transforms@[i] == objs[i].inv_transform)
    &&& bvhs.len() == meshes.len()
    &&& (forall|i: int| 0 <= i < meshes.len() ==> bvh_of_mesh(#[trigger] bvhs[i], meshes[i]))
    &&& s.bvh_offsets@.len() == meshes.len()
    &&& (forall|i: int|
        0 <= i < meshes.len() ==> (#[trigger] s.bvh_offsets@[i]) as int == int_sum(
            bvh_node_lens(bvhs).subrange(0, i),
        ))
    &&& s.bvh_min_bounds@ == cat_node_mins(bvhs, n)
    &&& s.bvh_max_bounds@ == cat_node_maxs(bvhs, n)
    &&& s.bvh_tri_counts@ == cat_node_counts(bvhs, n)
    &&& s.bvh_left_firsts@ == cat_node_lfs(bvhs, n)
    &&& s.bvh_min_bounds@.len() == int_sum(bvh_node_lens(bvhs))
    &&& s.bvh_triangle_offsets@.len() == meshes.len()
    &&& (forall|i: int|
        0 <= i < meshes.len() ==> (#[trigger] s.bvh_triangle_offsets@[i]) as int == int_sum(
            bvh_tri_lens(bvhs).subrange(0, i),
        ))
    &&& s.bvh_triangles@ == cat_bvh_triangles(bvhs, meshes, n)
    &&& s.bvh_triangles@.len() == int_sum(bvh_tri_lens(bvhs))
    &&& s.mesh_offsets@.len() == meshes.len()
    &&& (forall|i: int|
        0 <= i < meshes.len() ==> (#[trigger] s.mesh_offsets@[i]) as int == int_sum(
            mesh_id_lens(meshes).subrange(0, i),
        ))
    &&& s.mesh_vertex_ids@ == cat_mesh_ids(meshes, n)
    &&& s.mesh_vertex_ids@.len() == int_sum(mesh_id_lens(meshes))
    &&& s.mesh_vertex_normals@ == cat_mesh_normals(meshes, n)
    &&& s.mat_offsets@.len() == mats.len()
    &&& (forall|i: int|
        0 <= i < mats.len() ==> (#[trigger] s.mat_offsets@[i]) as int == int_sum(
            mat_color_lens(mats).subrange(0, i),
        ))
    &&& s.mat_colors@ == cat_mat_colors(mats, nm)
    &&& s.mat_reflectiveness@ == cat_mat_refl(mats, nm)
    &&& s.mat_refraction_indices@ == cat_mat_refr(mats, nm)
    &&& s.mat_colors@.len() == int_sum(mat_color_lens(mats))
}

impl Scene {
    /// Flatten a validated scene description: build one BVH per mesh with
    /// four bins per axis, serialize every mesh's nodes, reordered
    /// triangles, vertex ids and normals into shared arrays, pack every
    /// material, and record each block's starting offset. The result
    /// satisfies [`scene_matches`]: every array equals the concatenation of
    /// its blocks, and every offset the sum of the block lengths before it.
    #[verifier::rlimit(100)]
    pub fn from_scene_description(scene: &SceneDescription) -> (s: Scene)
        requires
            scene_ok(scene),
        ensures
            scene_matches(&s, scene),
    {
        let ghost meshes = scene.meshes@;
        let ghost mats = scene.materials@;
        // per-object columns
        let mut obj_mesh_ids: Vec<u32> = Vec::new();
        let mut obj_mat_ids: Vec<u32> = Vec::new();
        let mut obj_transforms: Vec<Mat4> = Vec::new();
        let mut obj_inv_transforms: Vec<Mat4> = Vec::new();
        let num_objects: usize = scene.root_objects.len();
        for i in 0..num_objects
            invariant
                num_objects == scene.root_objects@.len(),
                obj_mesh_ids@.len() == i,
                obj_mat_ids@.len() == i,
                obj_transforms@.len() == i,
                obj_inv_transforms@.len() == i,
                forall|k: int|
                    0 <= k < i ==> obj_mesh_ids@[k] == (#[trigger] scene.root_objects@[k]).mesh_idx
                        && obj_mat_ids@[k] == scene.root_objects@[k].mat_idx && obj_transforms@[k]
                        == scene.root_objects@[k].transform && obj_inv_transforms@[k]
                        == scene.root_objects@[k].inv_transform,
        {
            let object = &scene.root_objects[i];
            obj_mesh_ids.push(object.mesh_idx);
            obj_mat_ids.push(object.mat_idx);
            obj_transforms.push(object.transform);
            obj_inv_transforms.push(object.inv_transform);
        }
        // one hierarchy per mesh
        let num_meshes: usize = scene.meshes.len();
        let mut bvhs: Vec<BVH> = Vec::new();
        for i in 0..num_meshes
            invariant
                num_meshes == meshes.len(),
                meshes == scene.meshes@,
                scene_ok(scene),
                bvhs@.len() == i,
                forall|k: int| 0 <= k < i ==> bvh_of_mesh(#[trigger] bvhs@[k], meshes[k]),
        {
            let mesh = &scene.meshes[i];
            let bounds: AABB = compute_bounds_from_triangles(&mesh.triangles);
            let bvh: BVH = BVH::from_mesh(&mesh.triangles, &bounds, 4);
            bvhs.push(bvh);
        }
        proof {
            lemma_lens_facts(bvhs@, meshes);
        }
        // offset tables
        let mut bvh_offsets: Vec<u32> = Vec::new();
        let mut bvh_offset: u32 = 0;
        for i in 0..num_meshes
            invariant
                num_meshes == meshes.len(),
                meshes == scene.meshes@,
                scene_ok(scene),
                bvhs@.len() == meshes.len(),
                forall|k: int|
                    0 <= k < meshes.len() ==> 0 <= (#[trigger] bvh_node_lens(bvhs@)[k]) <= 2
                        * mesh_tri_lens(meshes)[k],
                bvh_offsets@.len() == i,
                forall|k: int|
                    0 <= k < i ==> (#[trigger] bvh_offsets@[k]) as int == int_sum(
                        bvh_node_lens(bvhs@).subrange(0, k),
                    ),
                bvh_offset as int == int_sum(bvh_node_lens(bvhs@).subrange(0, i as int)),
                bvh_offset as int <= 2 * int_sum(mesh_tri_lens(meshes).subrange(0, i as int)),
        {
            proof {
                lemma_nonneg_lens(bvhs@, meshes);
                lemma_int_sum_prefix_push(bvh_node_lens(bvhs@), i as int);
                lemma_int_sum_prefix_push(mesh_tri_lens(meshes), i as int);
                lemma_int_sum_prefix_le(mesh_tri_lens(meshes), i + 1);
            }
            bvh_offsets.push(bvh_offset);
            bvh_offset = bvh_offset + (bvhs[i].bvh_nodes.len() as u32);
        }
        let mut bvh_triangle_offsets: Vec<u32> = Vec::new();
        let mut triangle_offset: u32 = 0;
        for i in 0..num_meshes
            invariant
                num_meshes == meshes.len(),
                meshes == scene.meshes@,
                scene_ok(scene),
                bvhs@.len() == meshes.len(),
                forall|k: int|
                    0 <= k < meshes.len() ==> (#[trigger] bvh_tri_lens(bvhs@)[k]) == mesh_tri_lens(
                        meshes,
                    )[k],
                bvh_triangle_offsets@.len() == i,
                forall|k: int|
                    0 <= k < i ==> (#[trigger] bvh_triangle_offsets@[k]) as int == int_sum(
                        bvh_tri_lens(bvhs@).subrange(0, k),
                    ),
                triangle_offset as int == int_sum(bvh_tri_lens(bvhs@).subrange(0, i as int)),
        {
            proof {
                lemma_nonneg_lens(bvhs@, meshes);
                assert(bvh_tri_lens(bvhs@) =~= mesh_tri_lens(meshes));
                lemma_int_sum_prefix_push(bvh_tri_lens(bvhs@), i as int);
                lemma_int_sum_prefix_le(bvh_tri_lens(bvhs@), i + 1);
            }
            bvh_triangle_offsets.push(triangle_offset);
            triangle_offset = triangle_offset + (bvhs[i].triangle_idx.len() as u32);
        }
        let mut mesh_offsets: Vec<u32> = Vec::new();
        let mut mesh_offset: u32 = 0;
        for i in 0..num_meshes
            invariant
                num_meshes == meshes.len(),
                meshes == scene.meshes@,
                scene_ok(scene),
                mesh_offsets@.len() == i,
                forall|k: int|
                    0 <= k < i ==> (#[trigger] mesh_offsets@[k]) as int == int_sum(
                        mesh_id_lens(meshes).subrange(0, k),
                    ),
                mesh_offset as int == int_sum(mesh_id_lens(meshes).subrange(0, i as int)),
        {
            proof {
                lemma_nonneg_lens(bvhs@, meshes);
                lemma_int_sum_prefix_push(mesh_id_lens(meshes), i as int);
                lemma_int_sum_prefix_le(mesh_id_lens(meshes), i + 1);
            }
            mesh_offsets.push(mesh_offset);
            mesh_offset = mesh_offset + (scene.meshes[i].triangle_vertex_ids.len() as u32);
        }
        // node columns, concatenated across meshes
        let mut bvh_min_bounds: Vec<Vec3> = Vec::new();
        let mut bvh_max_bounds: Vec<Vec3> = Vec::new();
        let mut bvh_tri_counts: Vec<u32> = Vec::new();
        let mut bvh_left_firsts: Vec<u32> = Vec::new();
        for i in 0..num_meshes
            invariant
                num_meshes == meshes.len(),
                meshes == scene.meshes@,
                scene_ok(scene),
                bvhs@.len() == meshes.len(),
                forall|k: int| 0 <= k < meshes.len() ==> bvh_of_mesh(#[trigger] bvhs@[k], meshes[k]),
                bvh_min_bounds@ == cat_node_mins(bvhs@, i as int),
                bvh_max_bounds@ == cat_node_maxs(bvhs@, i as int),
                bvh_tri_counts@ == cat_node_counts(bvhs@, i as int),
                bvh_left_firsts@ == cat_node_lfs(bvhs@, i as int),
        {
            let ghost base = bvh_min_bounds@.len() as int;
            let ghost pre_min = bvh_min_bounds@;
            let ghost pre_max = bvh_max_bounds@;
            let ghost pre_cnt = bvh_tri_counts@;
            let ghost pre_lf = bvh_left_firsts@;
            let bvh = &bvhs[i];
            let mesh = &scene.meshes[i];
            proof {
                assert(bvh_of_mesh(bvhs@[i as int], meshes[i as int]));
                lemma_nonneg_lens(bvhs@, meshes);
                lemma_int_sum_prefix_le(mesh_tri_lens(meshes), i as int);
                lemma_int_sum_prefix_push(mesh_tri_lens(meshes), i as int);
                lemma_int_sum_prefix_le(mesh_tri_lens(meshes), i + 1);
            }
            let node_count: usize = bvh.bvh_nodes.len();
            for j in 0..node_count
                invariant
                    node_count == bvh.bvh_nodes@.len(),
                    bvh_of_mesh(*bvh, *mesh),
                    mesh.triangles@.len() <= 0x40000000,
                    bvh_min_bounds@.len() == pre_min.len() + j,
                    bvh_max_bounds@.len() == pre_max.len() + j,
                    bvh_tri_counts@.len() == pre_cnt.len() + j,
                    bvh_left_firsts@.len() == pre_lf.len() + j,
                    bvh_min_bounds@ == pre_min + bvh.bvh_nodes@.subrange(0, j as int).map_values(
                        |n: BVHNode| n.bounds.min_bound,
                    ),
                    bvh_max_bounds@ == pre_max + bvh.bvh_nodes@.subrange(0, j as int).map_values(
                        |n: BVHNode| n.bounds.max_bound,
                    ),
                    bvh_tri_counts@ == pre_cnt + bvh.bvh_nodes@.subrange(0, j as int).map_values(
                        |n: BVHNode| n.tri_count as u32,
                    ),
                    bvh_left_firsts@ == pre_lf + bvh.bvh_nodes@.subrange(0, j as int).map_values(
                        |n: BVHNode| n.left_first as u32,
                    ),
            {
                let node: BVHNode = bvh.bvh_nodes[j];
                proof {
                    assert(subtree_nodes(bvh.bvh_nodes@, 0).contains(j as int));
                    lemma_subtree_node_wf(
                        bvh.bvh_nodes@,
                        bvh.triangle_idx@,
                        mesh.triangles@,
                        0,
                        j as int,
                    );
                }
                bvh_min_bounds.push(node.bounds.min_bound);
                bvh_max_bounds.push(node.bounds.max_bound);
                bvh_tri_counts.push(node.tri_count as u32);
                bvh_left_firsts.push(node.left_first as u32);
                proof {
                    assert(bvh.bvh_nodes@.subrange(0, j + 1) =~= bvh.bvh_nodes@.subrange(
                        0,
                        j as int,
                    ).push(bvh.bvh_nodes@[j as int]));
                    assert(bvh_min_bounds@ =~= pre_min + bvh.bvh_nodes@.subrange(
                        0,
                        j + 1,
                    ).map_values(|n: BVHNode| n.bounds.min_bound));
                    assert(bvh_max_bounds@ =~= pre_max + bvh.bvh_nodes@.subrange(
                        0,
                        j + 1,
                    ).map_values(|n: BVHNode| n.bounds.max_bound));
                    assert(bvh_tri_counts@ =~= pre_cnt + bvh.bvh_nodes@.subrange(
                        0,
                        j + 1,
                    ).map_values(|n: BVHNode| n.tri_count as u32));
                    assert(bvh_left_firsts@ =~= pre_lf + bvh.bvh_nodes@.subrange(
                        0,
                        j + 1,
                    ).map_values(|n: BVHNode| n.left_first as u32));
                }
            }
            proof {
                assert(bvh.bvh_nodes@.subrange(0, bvh.bvh_nodes@.len() as int) =~= bvh.bvh_nodes@);
                assert(bvh_min_bounds@ =~= cat_node_mins(bvhs@, i + 1));
                assert(bvh_max_bounds@ =~= cat_node_maxs(bvhs@, i + 1));
                assert(bvh_tri_counts@ =~= cat_node_counts(bvhs@, i + 1));
                assert(bvh_left_firsts@ =~= cat_node_lfs(bvhs@, i + 1));
            }
        }
        // triangles in leaf order
        let mut bvh_triangles: Vec<Triangle> = Vec::new();
        for i in 0..num_meshes
            invariant
                num_meshes == meshes.len(),
                meshes == scene.meshes@,
                scene_ok(scene),
                bvhs@.len() == meshes.len(),
                forall|k: int| 0 <= k < meshes.len() ==> bvh_of_mesh(#[trigger] bvhs@[k], meshes[k]),
                bvh_triangles@ == cat_bvh_triangles(bvhs@, meshes, i as int),
        {
            let ghost pre_tris = bvh_triangles@;
            let bvh = &bvhs[i];
            let mesh = &scene.meshes[i];
            proof {
                assert(bvh_of_mesh(bvhs@[i as int], meshes[i as int]));
            }
            let tri_count: usize = bvh.triangle_idx.len();
            for j in 0..tri_count
                invariant
                    tri_count == bvh.triangle_idx@.len(),
                    bvh_of_mesh(*bvh, *mesh),
                    bvh_triangles@.len() == pre_tris.len() + j,
                    bvh_triangles@ == pre_tris + Seq::new(
                        j as nat,
                        |q: int| mesh.triangles@[bvh.triangle_idx@[q] as int],
                    ),
            {
                let id: usize = bvh.triangle_idx[j];
                bvh_triangles.push(mesh.triangles[id]);
                proof {
                    assert(bvh_triangles@ =~= pre_tris + Seq::new(
                        (j + 1) as nat,
                        |q: int| mesh.triangles@[bvh.triangle_idx@[q] as int],
                    ));
                }
            }
            proof {
                assert(Seq::new(
                    bvh.triangle_idx@.len(),
                    |q: int| mesh.triangles@[bvh.triangle_idx@[q] as int],
                ) =~= Seq::new(
                    bvhs@[i as int].triangle_idx@.len(),
                    |q: int| meshes[i as int].triangles@[bvhs@[i as int].triangle_idx@[q] as int],
                ));
                assert(bvh_triangles@ =~= cat_bvh_triangles(bvhs@, meshes, i + 1));
            }
        }
        // vertex-index triples and vertex normals, mesh order
        let mut mesh_vertex_ids: Vec<Uint3> = Vec::new();
        let mut mesh_vertex_normals: Vec<Dir3> = Vec::new();
        for i in 0..num_meshes
            invariant
                num_meshes == meshes.len(),
                meshes == scene.meshes@,
                mesh_vertex_ids@ == cat_mesh_ids(meshes, i as int),
                mesh_vertex_normals@ == cat_mesh_normals(meshes, i as int),
        {
            let ghost pre_ids = mesh_vertex_ids@;
            let ghost pre_norms = mesh_vertex_normals@;
            let mesh = &scene.meshes[i];
            let id_count: usize = mesh.triangle_vertex_ids.len();
            for j in 0..id_count
                invariant
                    id_count == mesh.triangle_vertex_ids@.len(),
                    mesh_vertex_ids@.len() == pre_ids.len() + j,
                    mesh_vertex_ids@ == pre_ids + mesh.triangle_vertex_ids@.subrange(0, j as int),
            {
                mesh_vertex_ids.push(mesh.triangle_vertex_ids[j]);
                proof {
                    assert(mesh_vertex_ids@ =~= pre_ids + mesh.triangle_vertex_ids@.subrange(
                        0,
                        j + 1,
                    ));
                }
            }
            let normal_count: usize = mesh.vertex_normals.len();
            for j in 0..normal_count
                invariant
                    normal_count == mesh.vertex_normals@.len(),
                    mesh_vertex_normals@.len() == pre_norms.len() + j,
                    mesh_vertex_normals@ == pre_norms + mesh.vertex_normals@.subrange(0, j as int),
            {
                mesh_vertex_normals.push(mesh.vertex_normals[j]);
                proof {
                    assert(mesh_vertex_normals@ =~= pre_norms + mesh.vertex_normals@.subrange(
                        0,
                        j + 1,
                    ));
                }
            }
            proof {
                assert(mesh.triangle_vertex_ids@.subrange(
                    0,
                    mesh.triangle_vertex_ids@.len() as int,
                ) =~= mesh.triangle_vertex_ids@);
                assert(mesh.vertex_normals@.subrange(0, mesh.vertex_normals@.len() as int)
                    =~= mesh.vertex_normals@);
                assert(mesh_vertex_ids@ =~= cat_mesh_ids(meshes, i + 1));
                assert(mesh_vertex_normals@ =~= cat_mesh_normals(meshes, i + 1));
            }
        }
        // materials: offsets and packed columns
        let num_materials: usize = scene.materials.len();
        let mut mat_offsets: Vec<u32> = Vec::new();
        let mut mat_offset: u32 = 0;
        for i in 0..num_materials
            invariant
                num_materials == mats.len(),
                mats == scene.materials@,
                scene_ok(scene),
                mat_offsets@.len() == i,
                forall|k: int|
                    0 <= k < i ==> (#[trigger] mat_offsets@[k]) as int == int_sum(
                        mat_color_lens(mats).subrange(0, k),
                    ),
                mat_offset as int == int_sum(mat_color_lens(mats).subrange(0, i as int)),
        {
            proof {
                lemma_nonneg_mats(mats);
                lemma_int_sum_prefix_push(mat_color_lens(mats), i as int);
                lemma_int_sum_prefix_le(mat_color_lens(mats), i + 1);
            }
            mat_offsets.push(mat_offset);
            mat_offset = mat_offset + (scene.materials[i].colors.len() as u32);
        }
        let mut mat_colors: Vec<u32> = Vec::new();
        let mut mat_reflectiveness: Vec<u8> = Vec::new();
        let mut mat_refraction_indices: Vec<u32> = Vec::new();
        for i in 0..num_materials
            invariant
                num_materials == mats.len(),
                mats == scene.materials@,
                scene_ok(scene),
                mat_colors@ == cat_mat_colors(mats, i as int),
                mat_reflectiveness@ == cat_mat_refl(mats, i as int),
                mat_refraction_indices@ == cat_mat_refr(mats, i as int),
        {
            let ghost pre_mc = mat_colors@;
            let ghost pre_mr = mat_reflectiveness@;
            let ghost pre_mf = mat_refraction_indices@;
            let material = &scene.materials[i];
            proof {
                assert(material_wf(&mats[i as int]));
            }
            let color_count: usize = material.colors.len();
            for j in 0..color_count
                invariant
                    color_count == material.colors@.len(),
                    material_wf(material),
                    mat_colors@.len() == pre_mc.len() + j,
                    mat_reflectiveness@.len() == pre_mr.len() + j,
                    mat_refraction_indices@.len() == pre_mf.len() + j,
                    mat_colors@ == pre_mc + material.colors@.subrange(0, j as int).map_values(
                        |c: Color| packed_color(c) as u32,
                    ),
                    mat_reflectiveness@ == pre_mr + material.reflectiveness@.subrange(0, j as int),
                    mat_refraction_indices@ == pre_mf + material.refractive_indices@.subrange(
                        0,
                        j as int,
                    ),
            {
                mat_colors.push(convert_color_to_u32(&material.colors[j]));
                mat_reflectiveness.push(material.reflectiveness[j]);
                mat_refraction_indices.push(material.refractive_indices[j]);
                proof {
                    assert(material.colors@.subrange(0, j + 1) =~= material.colors@.subrange(
                        0,
                        j as int,
                    ).push(material.colors@[j as int]));
                    assert(mat_colors@ =~= pre_mc + material.colors@.subrange(0, j + 1).map_values(
                        |c: Color| packed_color(c) as u32,
                    ));
                    assert(mat_reflectiveness@ =~= pre_mr + material.reflectiveness@.subrange(
                        0,
                        j + 1,
                    ));
                    assert(mat_refraction_indices@ =~= pre_mf
                        + material.refractive_indices@.subrange(0, j + 1));
                }
            }
            proof {
                assert(material.colors@.subrange(0, material.colors@.len() as int)
                    =~= material.colors@);
                assert(material.reflectiveness@.subrange(0, material.reflectiveness@.len() as int)
                    =~= material.reflectiveness@);
                assert(material.refractive_indices@.subrange(
                    0,
                    material.refractive_indices@.len() as int,
                ) =~= material.refractive_indices@);
                assert(mat_colors@ =~= cat_mat_colors(mats, i + 1));
                assert(mat_reflectiveness@ =~= cat_mat_refl(mats, i + 1));
                assert(mat_refraction_indices@ =~= cat_mat_refr(mats, i + 1));
            }
        }
        proof {
            lemma_cat_lens(bvhs@, meshes, mats);
        }
        Scene {
            obj_mesh_ids,
            obj_mat_ids,
            obj_transforms,
            obj_inv_transforms,
            bvh_offsets,
            mesh_offsets,
            bvh_min_bounds,
            bvh_max_bounds,
            bvh_tri_counts,
            bvh_left_firsts,
            bvh_triangle_offsets,
            bvh_triangles,
            mesh_vertex_ids,
            mesh_vertex_normals,
            mat_offsets,
            mat_colors,
            mat_reflectiveness,
            mat_refraction_indices,
            bvhs,
        }
    }
}

/// The concatenated arrays have the summed lengths.
proof fn lemma_cat_lens(bvhs: Seq<BVH>, meshes: Seq<Mesh>, mats: Seq<Material>)
    ensures
        cat_node_mins(bvhs, bvhs.len() as int).len() == int_sum(bvh_node_lens(bvhs)),
        cat_bvh_triangles(bvhs, meshes, bvhs.len() as int).len() == int_sum(bvh_tri_lens(bvhs)),
        cat_mesh_ids(meshes, meshes.len() as int).len() == int_sum(mesh_id_lens(meshes)),
        cat_mat_colors(mats, mats.len() as int).len() == int_sum(mat_color_lens(mats)),
{
    lemma_cat_node_mins_len(bvhs, bvhs.len() as int);
    lemma_cat_bvh_triangles_len(bvhs, meshes, bvhs.len() as int);
    lemma_cat_mesh_ids_len(meshes, meshes.len() as int);
    lemma_cat_mat_colors_len(mats, mats.len() as int);
    assert(bvh_node_lens(bvhs).subrange(0, bvhs.len() as int) =~= bvh_node_lens(bvhs));
    assert(bvh_tri_lens(bvhs).subrange(0, bvhs.len() as int) =~= bvh_tri_lens(bvhs));
    assert(mesh_id_lens(meshes).subrange(0, meshes.len() as int) =~= mesh_id_lens(meshes));
    assert(mat_color_lens(mats).subrange(0, mats.len() as int) =~= mat_color_lens(mats));
}

proof fn lemma_cat_node_mins_len(bvhs: Seq<BVH>, upto: int)
    requires
        0 <= upto <= bvhs.len(),
    ensures
        cat_node_mins(bvhs, upto).len() == int_sum(bvh_node_lens(bvhs).subrange(0, upto)),
    decreases upto,
{
    if upto == 0 {
        assert(bvh_node_lens(bvhs).subrange(0, 0) =~= Seq::<int>::empty());
    } else {
        lemma_cat_node_mins_len(bvhs, upto - 1);
        lemma_int_sum_prefix_push(bvh_node_lens(bvhs), upto - 1);
    }
}

proof fn lemma_cat_bvh_triangles_len(bvhs: Seq<BVH>, meshes: Seq<Mesh>, upto: int)
    requires
        0 <= upto <= bvhs.len(),
    ensures
        cat_bvh_triangles(bvhs, meshes, upto).len() == int_sum(bvh_tri_lens(bvhs).subrange(0, upto)),
    decreases upto,
{
    if upto == 0 {
        assert(bvh_tri_lens(bvhs).subrange(0, 0) =~= Seq::<int>::empty());
    } else {
        lemma_cat_bvh_triangles_len(bvhs, meshes, upto - 1);
        lemma_int_sum_prefix_push(bvh_tri_lens(bvhs), upto - 1);
    }
}

proof fn lemma_cat_mesh_ids_len(meshes: Seq<Mesh>, upto: int)
    requires
        0 <= upto <= meshes.len(),
    ensures
        cat_mesh_ids(meshes, upto).len() == int_sum(mesh_id_lens(meshes).subrange(0, upto)),
    decreases upto,
{
    if upto == 0 {
        assert(mesh_id_lens(meshes).subrange(0, 0) =~= Seq::<int>::empty());
    } else {
        lemma_cat_mesh_ids_len(meshes, upto - 1);
        lemma_int_sum_prefix_push(mesh_id_lens(meshes), upto - 1);
    }
}

proof fn lemma_cat_mat_colors_len(mats: Seq<Material>, upto: int)
    requires
        0 <= upto <= mats.len(),
    ensures
        cat_mat_colors(mats, upto).len() == int_sum(mat_color_lens(mats).subrange(0, upto)),
    decreases upto,
{
    if upto == 0 {
        assert(mat_color_lens(mats).subrange(0, 0) =~= Seq::<int>::empty());
    } else {
        lemma_cat_mat_colors_len(mats, upto - 1);
        lemma_int_sum_prefix_push(mat_color_lens(mats), upto - 1);
    }
}

/// Length views of built hierarchies are consistent with their meshes:
/// node counts are non-negative and at most `2n`, and permutation lengths
/// equal triangle counts.
proof fn lemma_lens_facts(bvhs: Seq<BVH>, meshes: Seq<Mesh>)
    requires
        bvhs.len() == meshes.len(),
        forall|k: int| 0 <= k < meshes.len() ==> bvh_of_mesh(#[trigger] bvhs[k], meshes[k]),
    ensures
        forall|k: int|
            0 <= k < meshes.len() ==> 0 <= (#[trigger] bvh_node_lens(bvhs)[k]) <= 2
                * mesh_tri_lens(meshes)[k],
        forall|k: int|
            0 <= k < meshes.len() ==> (#[trigger] bvh_tri_lens(bvhs)[k]) == mesh_tri_lens(
                meshes,
            )[k],
{
    assert forall|k: int| 0 <= k < meshes.len() implies 0 <= (#[trigger] bvh_node_lens(bvhs)[k])
        <= 2 * mesh_tri_lens(meshes)[k] && bvh_tri_lens(bvhs)[k] == mesh_tri_lens(meshes)[k] by {
        assert(bvh_of_mesh(bvhs[k], meshes[k]));
    }
}

/// The element bounds needed for offset arithmetic, in one bundle.
proof fn lemma_nonneg_lens(bvhs: Seq<BVH>, meshes: Seq<Mesh>)
    ensures
        forall|q: int| 0 <= q < bvh_node_lens(bvhs).len() ==> (#[trigger] bvh_node_lens(bvhs)[q]) >= 0,
        forall|q: int| 0 <= q < bvh_tri_lens(bvhs).len() ==> (#[trigger] bvh_tri_lens(bvhs)[q]) >= 0,
        forall|q: int| 0 <= q < mesh_tri_lens(meshes).len() ==> (#[trigger] mesh_tri_lens(meshes)[q]) >= 0,
        forall|q: int| 0 <= q < mesh_id_lens(meshes).len() ==> (#[trigger] mesh_id_lens(meshes)[q]) >= 0,
        forall|q: int|
            0 <= q < mesh_normal_lens(meshes).len() ==> (#[trigger] mesh_normal_lens(meshes)[q]) >= 0,
{
}

/// Sub-material counts are non-negative.
proof fn lemma_nonneg_mats(mats: Seq<Material>)
    ensures
        forall|q: int| 0 <= q < mat_color_lens(mats).len() ==> (#[trigger] mat_color_lens(mats)[q]) >= 0,
{
}

/// Law: every offset table tiles its array exactly — each entry plus its
/// block's length gives the next entry, and the last entry plus its block's
/// length gives the array's total length; no gaps, no overlap.
pub proof fn lemma_offsets_tile(s: &Scene, d: &SceneDescription)
    requires
        scene_matches(s, d),
    ensures
        forall|i: int|
            0 <= i < d.meshes@.len() - 1 ==> (#[trigger] s.bvh_offsets@[i]) as int
                + s.bvhs@[i].bvh_nodes@.len() == s.bvh_offsets@[i + 1] as int,
        d.meshes@.len() > 0 ==> s.bvh_offsets@[d.meshes@.len() - 1] as int + s.bvhs@[d.meshes@.len()
            - 1].bvh_nodes@.len() == s.bvh_min_bounds@.len(),
        forall|i: int|
            0 <= i < d.meshes@.len() - 1 ==> (#[trigger] s.bvh_triangle_offsets@[i]) as int
                + s.bvhs@[i].triangle_idx@.len() == s.bvh_triangle_offsets@[i + 1] as int,
        d.meshes@.len() > 0 ==> s.bvh_triangle_offsets@[d.meshes@.len() - 1] as int
            + s.bvhs@[d.meshes@.len() - 1].triangle_idx@.len() == s.bvh_triangles@.len(),
        forall|i: int|
            0 <= i < d.meshes@.len() - 1 ==> (#[trigger] s.mesh_offsets@[i]) as int
                + d.meshes@[i].triangle_vertex_ids@.len() == s.mesh_offsets@[i + 1] as int,
        d.meshes@.len() > 0 ==> s.mesh_offsets@[d.meshes@.len() - 1] as int
            + d.meshes@[d.meshes@.len() - 1].triangle_vertex_ids@.len()
            == s.mesh_vertex_ids@.len(),
        forall|i: int|
            0 <= i < d.materials@.len() - 1 ==> (#[trigger] s.mat_offsets@[i]) as int
                + d.materials@[i].colors@.len() == s.mat_offsets@[i + 1] as int,
        d.materials@.len() > 0 ==> s.mat_offsets@[d.materials@.len() - 1] as int
            + d.materials@[d.materials@.len() - 1].colors@.len() == s.mat_colors@.len(),
{
    let n = d.meshes@.len() as int;
    let nm = d.materials@.len() as int;
    assert forall|i: int| 0 <= i < n - 1 implies (#[trigger] s.bvh_offsets@[i]) as int
        + s.bvhs@[i].bvh_nodes@.len() == s.bvh_offsets@[i + 1] as int by {
        lemma_int_sum_prefix_push(bvh_node_lens(s.bvhs@), i);
    }
    assert forall|i: int| 0 <= i < n - 1 implies (#[trigger] s.bvh_triangle_offsets@[i]) as int
        + s.bvhs@[i].triangle_idx@.len() == s.bvh_triangle_offsets@[i + 1] as int by {
        lemma_int_sum_prefix_push(bvh_tri_lens(s.bvhs@), i);
    }
    assert forall|i: int| 0 <= i < n - 1 implies (#[trigger] s.mesh_offsets@[i]) as int
        + d.meshes@[i].triangle_vertex_ids@.len() == s.mesh_offsets@[i + 1] as int by {
        lemma_int_sum_prefix_push(mesh_id_lens(d.meshes@), i);
    }
    assert forall|i: int| 0 <= i < nm - 1 implies (#[trigger] s.mat_offsets@[i]) as int
        + d.materials@[i].colors@.len() == s.mat_offsets@[i + 1] as int by {
        lemma_int_sum_prefix_push(mat_color_lens(d.materials@), i);
    }
    if n > 0 {
        lemma_int_sum_prefix_push(bvh_node_lens(s.bvhs@), n - 1);
        lemma_int_sum_prefix_push(bvh_tri_lens(s.bvhs@), n - 1);
        lemma_int_sum_prefix_push(mesh_id_lens(d.meshes@), n - 1);
        assert(bvh_node_lens(s.bvhs@).subrange(0, n) =~= bvh_node_lens(s.bvhs@));
        assert(bvh_tri_lens(s.bvhs@).subrange(0, n) =~= bvh_tri_lens(s.bvhs@));
        assert(mesh_id_lens(d.meshes@).subrange(0, n) =~= mesh_id_lens(d.meshes@));
    }
    if nm > 0 {
        lemma_int_sum_prefix_push(mat_color_lens(d.materials@), nm - 1);
        assert(mat_color_lens(d.materials@).subrange(0, nm) =~= mat_color_lens(d.materials@));
    }
}

/// Law: flattening is a function of the description and the built
/// hierarchies — two flattened scenes of the same description holding the
/// same hierarchies agree on every offset table and every array. No
/// unordered iteration leaks into the output.
pub proof fn lemma_flatten_deterministic(s1: &Scene, s2: &Scene, d: &SceneDescription)
    requires
        scene_matches(s1, d),
        scene_matches(s2, d),
        s1.bvhs@ == s2.bvhs@,
    ensures
        s1.obj_mesh_ids@ == s2.obj_mesh_ids@,
        s1.obj_mat_ids@ == s2.obj_mat_ids@,
        s1.obj_transforms@ == s2.obj_transforms@,
        s1.obj_inv_transforms@ == s2.obj_inv_transforms@,
        s1.bvh_offsets@ == s2.bvh_offsets@,
        s1.mesh_offsets@ == s2.mesh_offsets@,
        s1.bvh_min_bounds@ == s2.bvh_min_bounds@,
        s1.bvh_max_bounds@ == s2.bvh_max_bounds@,
        s1.bvh_tri_counts@ == s2.bvh_tri_counts@,
        s1.bvh_left_firsts@ == s2.bvh_left_firsts@,
        s1.bvh_triangle_offsets@ == s2.bvh_triangle_offsets@,
        s1.bvh_triangles@ == s2.bvh_triangles@,
        s1.mesh_vertex_ids@ == s2.mesh_vertex_ids@,
        s1.mesh_vertex_normals@ == s2.mesh_vertex_normals@,
        s1.mat_offsets@ == s2.mat_offsets@,
        s1.mat_colors@ == s2.mat_colors@,
        s1.mat_reflectiveness@ == s2.mat_reflectiveness@,
        s1.mat_refraction_indices@ == s2.mat_refraction_indices@,
{
    let objs = d.root_objects@;
    assert forall|i: int| 0 <= i < objs.len() implies s1.obj_mesh_ids@[i] == s2.obj_mesh_ids@[i]
        && s1.obj_mat_ids@[i] == s2.obj_mat_ids@[i] && s1.obj_transforms@[i]
        == s2.obj_transforms@[i] && s1.obj_inv_transforms@[i] == s2.obj_inv_transforms@[i] by {
        assert(s1.obj_mesh_ids@[i] == objs[i].mesh_idx && s2.obj_mesh_ids@[i] == objs[i].mesh_idx);
        assert(s1.obj_transforms@[i] == objs[i].transform && s2.obj_transforms@[i]
            == objs[i].transform);
        assert(s1.obj_inv_transforms@[i] == objs[i].inv_transform && s2.obj_inv_transforms@[i]
            == objs[i].inv_transform);
    }
    assert(s1.obj_mesh_ids@ =~= s2.obj_mesh_ids@);
    assert(s1.obj_mat_ids@ =~= s2.obj_mat_ids@);
    assert(s1.obj_transforms@ =~= s2.obj_transforms@);
    assert(s1.obj_inv_transforms@ =~= s2.obj_inv_transforms@);
    assert forall|i: int| 0 <= i < d.meshes@.len() implies s1.bvh_offsets@[i]
        == s2.bvh_offsets@[i] && s1.mesh_offsets@[i] == s2.mesh_offsets@[i]
        && s1.bvh_triangle_offsets@[i] == s2.bvh_triangle_offsets@[i] by {
        assert(s1.bvh_offsets@[i] as int == int_sum(bvh_node_lens(s1.bvhs@).subrange(0, i)));
        assert(s2.bvh_offsets@[i] as int == int_sum(bvh_node_lens(s2.bvhs@).subrange(0, i)));
        assert(s1.mesh_offsets@[i] as int == int_sum(mesh_id_lens(d.meshes@).subrange(0, i)));
        assert(s2.mesh_offsets@[i] as int == int_sum(mesh_id_lens(d.meshes@).subrange(0, i)));
        assert(s1.bvh_triangle_offsets@[i] as int == int_sum(
            bvh_tri_lens(s1.bvhs@).subrange(0, i),
        ));
        assert(s2.bvh_triangle_offsets@[i] as int == int_sum(
            bvh_tri_lens(s2.bvhs@).subrange(0, i),
        ));
    }
    assert(s1.bvh_offsets@ =~= s2.bvh_offsets@);
    assert(s1.mesh_offsets@ =~= s2.mesh_offsets@);
    assert(s1.bvh_triangle_offsets@ =~= s2.bvh_triangle_offsets@);
    assert forall|i: int| 0 <= i < d.materials@.len() implies s1.mat_offsets@[i]
        == s2.mat_offsets@[i] by {
        assert(s1.mat_offsets@[i] as int == int_sum(mat_color_lens(d.materials@).subrange(0, i)));
        assert(s2.mat_offsets@[i] as int == int_sum(mat_color_lens(d.materials@).subrange(0, i)));
    }
    assert(s1.mat_offsets@ =~= s2.mat_offsets@);
}

} // verus!
