//! Meshes as the loader hands them over: triangles, per-triangle vertex
//! index triples, and per-vertex normals. The loading-side computations —
//! assembling triangles from a vertex table and averaging face normals per
//! vertex — live here, verified; reading a model file and converting its
//! floating-point positions to fixed point is the caller's edge.

use vstd::prelude::*;

verus! {

use crate::math::{Vec3, Uint3, Dir3, TexCoord, valid_point, cross_of};
use crate::geometry::{Triangle, valid_triangles, lemma_mul_bound};

/// A triangle mesh: world-space triangles, the vertex-index triple of each
/// triangle, one averaged (unnormalized) normal per vertex, and optional
/// texture coordinates.
pub struct Mesh {
    pub triangles: Vec<Triangle>,
    pub triangle_vertex_ids: Vec<Uint3>,
    pub vertex_normals: Vec<Dir3>,
    pub vertex_uvs: Vec<TexCoord>,
}

/// The (unnormalized) face normal of a triangle: the cross product of its
/// two edges out of the first vertex. Consumers that need unit normals
/// normalize after the fact; the direction is exact here.
pub open spec fn face_normal(t: Triangle) -> Dir3 {
    cross_of(
        Vec3 {
            x: (t.vertex1.x - t.vertex0.x) as i64,
            y: (t.vertex1.y - t.vertex0.y) as i64,
            z: (t.vertex1.z - t.vertex0.z) as i64,
        },
        Vec3 {
            x: (t.vertex2.x - t.vertex0.x) as i64,
            y: (t.vertex2.y - t.vertex0.y) as i64,
            z: (t.vertex2.z - t.vertex0.z) as i64,
        },
    )
}

/// How often the vertex occurs in one triangle's index triple.
pub open spec fn occurrences(ids: Uint3, v: int) -> int {
    (if ids.x as int == v {
        1int
    } else {
        0int
    }) + (if ids.y as int == v {
        1int
    } else {
        0int
    }) + (if ids.z as int == v {
        1int
    } else {
        0int
    })
}

/// The sum, over the first `upto` triangles, of each triangle's face
/// normal counted once per occurrence of vertex `v` in its index triple.
pub open spec fn normal_sum(normals: Seq<Dir3>, ids: Seq<Uint3>, v: int, upto: int) -> Dir3
    decreases upto,
{
    if upto <= 0 {
        Dir3 { x: 0, y: 0, z: 0 }
    } else {
        let prev = normal_sum(normals, ids, v, upto - 1);
        let nrm = normals[upto - 1];
        let id3 = ids[upto - 1];
        Dir3 {
            x: (prev.x + (if id3.x as int == v {
                nrm.x as int
            } else {
                0int
            }) + (if id3.y as int == v {
                nrm.x as int
            } else {
                0int
            }) + (if id3.z as int == v {
                nrm.x as int
            } else {
                0int
            })) as i128,
            y: (prev.y + (if id3.x as int == v {
                nrm.y as int
            } else {
                0int
            }) + (if id3.y as int == v {
                nrm.y as int
            } else {
                0int
            }) + (if id3.z as int == v {
                nrm.y as int
            } else {
                0int
            })) as i128,
            z: (prev.z + (if id3.x as int == v {
                nrm.z as int
            } else {
                0int
            }) + (if id3.y as int == v {
                nrm.z as int
            } else {
                0int
            }) + (if id3.z as int == v {
                nrm.z as int
            } else {
                0int
            })) as i128,
        }
    }
}

/// The components of every normal in the sequence are bounded by `m`.
pub open spec fn normals_bounded(normals: Seq<Dir3>, m: int) -> bool {
    forall|k: int|
        0 <= k < normals.len() ==> -m <= (#[trigger] normals[k]).x <= m && -m <= normals[k].y <= m
            && -m <= normals[k].z <= m
}

/// Componentwise bound on a partial normal sum: at most `upto` triangles
/// contribute, each at most three times.
pub proof fn lemma_normal_sum_bounded(normals: Seq<Dir3>, ids: Seq<Uint3>, v: int, upto: int)
    requires
        0 <= upto <= normals.len(),
        normals_bounded(normals, 0x100000000000),
    ensures
        -(upto * 0x300000000000) <= normal_sum(normals, ids, v, upto).x <= upto * 0x300000000000,
        -(upto * 0x300000000000) <= normal_sum(normals, ids, v, upto).y <= upto * 0x300000000000,
        -(upto * 0x300000000000) <= normal_sum(normals, ids, v, upto).z <= upto * 0x300000000000,
    decreases upto,
{
    if upto > 0 {
        lemma_normal_sum_bounded(normals, ids, v, upto - 1);
    }
}

/// The exact (unnormalized) face normal of every triangle, in order.
pub fn compute_triangle_normals(triangles: &Vec<Triangle>) -> (r: Vec<Dir3>)
    requires
        valid_triangles(triangles@),
    ensures
        r@.len() == triangles@.len(),
        forall|k: int| 0 <= k < triangles@.len() ==> #[trigger] r@[k] == face_normal(triangles@[k]),
        normals_bounded(r@, 0x100000000000),
{
    let mut out: Vec<Dir3> = Vec::new();
    let n: usize = triangles.len();
    for t in 0..n
        invariant
            n == triangles@.len(),
            valid_triangles(triangles@),
            out@.len() == t,
            forall|k: int| 0 <= k < t ==> #[trigger] out@[k] == face_normal(triangles@[k]),
            normals_bounded(out@, 0x100000000000),
    {
        let tri = &triangles[t];
        let ax: i64 = tri.vertex1.x - tri.vertex0.x;
        let ay: i64 = tri.vertex1.y - tri.vertex0.y;
        let az: i64 = tri.vertex1.z - tri.vertex0.z;
        let bx: i64 = tri.vertex2.x - tri.vertex0.x;
        let by: i64 = tri.vertex2.y - tri.vertex0.y;
        let bz: i64 = tri.vertex2.z - tri.vertex0.z;
        proof {
            lemma_mul_bound(ay as int, bz as int, 0x200000, 0x200000);
            lemma_mul_bound(az as int, by as int, 0x200000, 0x200000);
            lemma_mul_bound(az as int, bx as int, 0x200000, 0x200000);
            lemma_mul_bound(ax as int, bz as int, 0x200000, 0x200000);
            lemma_mul_bound(ax as int, by as int, 0x200000, 0x200000);
            lemma_mul_bound(ay as int, bx as int, 0x200000, 0x200000);
        }
        let nx: i128 = (ay as i128) * (bz as i128) - (az as i128) * (by as i128);
        let ny: i128 = (az as i128) * (bx as i128) - (ax as i128) * (bz as i128);
        let nz: i128 = (ax as i128) * (by as i128) - (ay as i128) * (bx as i128);
        let ghost prev_out = out@;
        out.push(Dir3 { x: nx, y: ny, z: nz });
        proof {
            assert forall|k: int|
                0 <= k < out@.len() implies -0x100000000000 <= (#[trigger] out@[k]).x
                <= 0x100000000000 && -0x100000000000 <= out@[k].y <= 0x100000000000
                && -0x100000000000 <= out@[k].z <= 0x100000000000 by {
                if k == t as int {
                    assert(out@[k] == (Dir3 { x: nx, y: ny, z: nz }));
                } else {
                    assert(out@[k] == prev_out[k]);
                    assert(-0x100000000000 <= prev_out[k].x <= 0x100000000000 && -0x100000000000
                        <= prev_out[k].y <= 0x100000000000 && -0x100000000000 <= prev_out[k].z
                        <= 0x100000000000);
                }
            }
        }
    }
    out
}

/// One vertex's accumulator grown by one normal; other vertices untouched.
pub open spec fn touch_once(s: Seq<Dir3>, v: int, normal: Dir3) -> Seq<Dir3> {
    if 0 <= v < s.len() {
        s.update(
            v,
            Dir3 {
                x: (s[v].x + normal.x) as i128,
                y: (s[v].y + normal.y) as i128,
                z: (s[v].z + normal.z) as i128,
            },
        )
    } else {
        s
    }
}

/// Add one normal into the accumulator of vertex `v`.
fn add_touch(out: &mut Vec<Dir3>, v: u32, normal: &Dir3, num_vertices: usize)
    requires
        old(out)@.len() == num_vertices,
        (v as int) < num_vertices,
        -0x10000000000000000000000000000 <= old(out)@[v as int].x <= 0x10000000000000000000000000000,
        -0x10000000000000000000000000000 <= old(out)@[v as int].y <= 0x10000000000000000000000000000,
        -0x10000000000000000000000000000 <= old(out)@[v as int].z <= 0x10000000000000000000000000000,
        -0x300000000000 <= normal.x <= 0x300000000000,
        -0x300000000000 <= normal.y <= 0x300000000000,
        -0x300000000000 <= normal.z <= 0x300000000000,
    ensures
        final(out)@ == touch_once(old(out)@, v as int, *normal),
{
    let idx: usize = v as usize;
    let cur: Dir3 = out[idx];
    out.set(idx, Dir3 { x: cur.x + normal.x, y: cur.y + normal.y, z: cur.z + normal.z });
}

/// For each vertex, the sum of the face normals of every triangle touching
/// it, counted once per occurrence in the triangle's index triple. The
/// direction of this sum is the averaged vertex normal; consumers divide
/// and normalize in their own precision.
#[verifier::rlimit(80)]
pub fn compute_vertex_normals(
    triangle_normals: &Vec<Dir3>,
    triangle_vertex_ids: &Vec<Uint3>,
    num_vertices: usize,
) -> (r: Vec<Dir3>)
    requires
        triangle_normals@.len() == triangle_vertex_ids@.len(),
        normals_bounded(triangle_normals@, 0x100000000000),
        forall|t: int|
            0 <= t < triangle_vertex_ids@.len() ==> (#[trigger] triangle_vertex_ids@[t]).x
                < num_vertices && triangle_vertex_ids@[t].y < num_vertices
                && triangle_vertex_ids@[t].z < num_vertices,
    ensures
        r@.len() == num_vertices,
        forall|v: int|
            0 <= v < num_vertices ==> #[trigger] r@[v] == normal_sum(
                triangle_normals@,
                triangle_vertex_ids@,
                v,
                triangle_normals@.len() as int,
            ),
{
    let mut out: Vec<Dir3> = Vec::new();
    let num_triangles: usize = triangle_normals.len();
    for v in 0..num_vertices
        invariant
            out@.len() == v,
            forall|k: int| 0 <= k < v ==> #[trigger] out@[k] == (Dir3 { x: 0, y: 0, z: 0 }),
    {
        out.push(Dir3 { x: 0, y: 0, z: 0 });
    }
    for t in 0..num_triangles
        invariant
            num_triangles == triangle_normals@.len(),
            triangle_normals@.len() == triangle_vertex_ids@.len(),
            normals_bounded(triangle_normals@, 0x100000000000),
            forall|q: int|
                0 <= q < triangle_vertex_ids@.len() ==> (#[trigger] triangle_vertex_ids@[q]).x
                    < num_vertices && triangle_vertex_ids@[q].y < num_vertices
                    && triangle_vertex_ids@[q].z < num_vertices,
            out@.len() == num_vertices,
            forall|k: int|
                0 <= k < num_vertices ==> #[trigger] out@[k] == normal_sum(
                    triangle_normals@,
                    triangle_vertex_ids@,
                    k,
                    t as int,
                ),
    {
        let ids: Uint3 = triangle_vertex_ids[t];
        let normal: Dir3 = triangle_normals[t];
        let ghost o0 = out@;
        proof {
            lemma_normal_sum_bounded(triangle_normals@, triangle_vertex_ids@, ids.x as int, t as int);
            lemma_normal_sum_bounded(triangle_normals@, triangle_vertex_ids@, ids.y as int, t as int);
            lemma_normal_sum_bounded(triangle_normals@, triangle_vertex_ids@, ids.z as int, t as int);
        }
        add_touch(&mut out, ids.x, &normal, num_vertices);
        let ghost o1 = out@;
        add_touch(&mut out, ids.y, &normal, num_vertices);
        let ghost o2 = out@;
        add_touch(&mut out, ids.z, &normal, num_vertices);
        proof {
            assert forall|k: int| 0 <= k < num_vertices implies #[trigger] out@[k] == normal_sum(
                triangle_normals@,
                triangle_vertex_ids@,
                k,
                t + 1,
            ) by {
                lemma_normal_sum_bounded(triangle_normals@, triangle_vertex_ids@, k, t as int);
                assert(o1 == touch_once(o0, ids.x as int, normal));
                assert(o2 == touch_once(o1, ids.y as int, normal));
                assert(out@ == touch_once(o2, ids.z as int, normal));
            }
        }
    }
    out
}

/// Some triangle's index triple mentions the vertex.
pub open spec fn vertex_referenced(ids: Seq<Uint3>, v: int) -> bool {
    exists|t: int| 0 <= t < ids.len() && occurrences(#[trigger] ids[t], v) > 0
}

/// What the loader must hand over for a mesh to be accepted: at least one
/// triangle, triangle indices that fit the id type, every vertex index in
/// range, every vertex position in fixed-point range, and no vertex left
/// unreferenced (its averaged normal would be meaningless).
pub open spec fn mesh_arrays_ok(vertices: Seq<Vec3>, ids: Seq<Uint3>) -> bool {
    &&& 1 <= ids.len() <= 0xFFFFFFFF
    &&& (forall|t: int|
        0 <= t < ids.len() ==> (#[trigger] ids[t]).x < vertices.len() && ids[t].y
            < vertices.len() && ids[t].z < vertices.len())
    &&& (forall|v: int| 0 <= v < vertices.len() ==> valid_point(#[trigger] vertices[v]))
    &&& (forall|v: int| 0 <= v < vertices.len() ==> #[trigger] vertex_referenced(ids, v))
}

/// The triangle a vertex table and an index triple describe.
pub open spec fn triangle_at(vertices: Seq<Vec3>, ids: Seq<Uint3>, t: int) -> Triangle {
    Triangle {
        tri_idx: t as u32,
        vertex0: vertices[ids[t].x as int],
        vertex1: vertices[ids[t].y as int],
        vertex2: vertices[ids[t].z as int],
    }
}

/// Assemble a mesh from a loader's vertex table and index triples,
/// rejecting malformed input: an empty triangle list, an out-of-range or
/// unreferenced vertex, or a position outside the fixed-point range. On
/// success the triangles, index triples and averaged (unnormalized) vertex
/// normals are exactly as specified; texture coordinates start empty.
pub fn mesh_from_arrays(vertices: Vec<Vec3>, vertex_ids: Vec<Uint3>) -> (r: Option<Mesh>)
    ensures
        (r is Some) <==> mesh_arrays_ok(vertices@, vertex_ids@),
        r matches Some(m) ==> {
            &&& m.triangles@.len() == vertex_ids@.len()
            &&& m.triangle_vertex_ids@ == vertex_ids@
            &&& (forall|t: int|
                0 <= t < vertex_ids@.len() ==> #[trigger] m.triangles@[t] == triangle_at(
                    vertices@,
                    vertex_ids@,
                    t,
                ))
            &&& valid_triangles(m.triangles@)
            &&& m.vertex_normals@.len() == vertices@.len()
            &&& (forall|v: int|
                0 <= v < vertices@.len() ==> #[trigger] m.vertex_normals@[v] == normal_sum(
                    m.triangles@.map_values(|tr: Triangle| face_normal(tr)),
                    vertex_ids@,
                    v,
                    vertex_ids@.len() as int,
                ))
            &&& m.vertex_uvs@.len() == 0
        },
{
    let n: usize = vertex_ids.len();
    let nv: usize = vertices.len();
    if n == 0 || n > 0xFFFFFFFF {
        return None;
    }
    // every vertex index must point into the vertex table
    for t in 0..n
        invariant
            n == vertex_ids@.len(),
            nv == vertices@.len(),
            forall|q: int|
                0 <= q < t ==> (#[trigger] vertex_ids@[q]).x < nv && vertex_ids@[q].y < nv
                    && vertex_ids@[q].z < nv,
    {
        let ids: Uint3 = vertex_ids[t];
        if ids.x as usize >= nv || ids.y as usize >= nv || ids.z as usize >= nv {
            return None;
        }
    }
    // every position must be in fixed-point range
    for v in 0..nv
        invariant
            nv == vertices@.len(),
            forall|q: int| 0 <= q < v ==> valid_point(#[trigger] vertices@[q]),
    {
        let p: Vec3 = vertices[v];
        if p.x < -crate::math::COORD_LIMIT || p.x > crate::math::COORD_LIMIT || p.y
            < -crate::math::COORD_LIMIT || p.y > crate::math::COORD_LIMIT || p.z
            < -crate::math::COORD_LIMIT || p.z > crate::math::COORD_LIMIT {
            return None;
        }
    }
    // every vertex must be referenced by some triangle
    let mut touched: Vec<bool> = Vec::new();
    for v in 0..nv
        invariant
            touched@.len() == v,
            forall|q: int| 0 <= q < v ==> #[trigger] touched@[q] == false,
    {
        touched.push(false);
    }
    for t in 0..n
        invariant
            n == vertex_ids@.len(),
            nv == vertices@.len(),
            touched@.len() == nv,
            forall|q: int|
                0 <= q < n ==> (#[trigger] vertex_ids@[q]).x < nv && vertex_ids@[q].y < nv
                    && vertex_ids@[q].z < nv,
            forall|q: int|
                0 <= q < nv ==> (#[trigger] touched@[q] == true <==> exists|t2: int|
                    0 <= t2 < t && occurrences(#[trigger] vertex_ids@[t2], q) > 0),
    {
        let ids: Uint3 = vertex_ids[t];
        let ghost before = touched@;
        touched.set(ids.x as usize, true);
        touched.set(ids.y as usize, true);
        touched.set(ids.z as usize, true);
        proof {
            assert forall|q: int| 0 <= q < nv implies (#[trigger] touched@[q] == true
                <==> exists|t2: int|
                    0 <= t2 < t + 1 && occurrences(#[trigger] vertex_ids@[t2], q) > 0) by {
                if q == ids.x as int || q == ids.y as int || q == ids.z as int {
                    assert(occurrences(vertex_ids@[t as int], q) > 0);
                } else {
                    assert(touched@[q] == before[q]);
                    assert(occurrences(vertex_ids@[t as int], q) == 0);
                }
            }
        }
    }
    for v in 0..nv
        invariant
            n == vertex_ids@.len(),
            nv == vertices@.len(),
            touched@.len() == nv,
            forall|q: int|
                0 <= q < nv ==> (#[trigger] touched@[q] == true <==> exists|t2: int|
                    0 <= t2 < n && occurrences(#[trigger] vertex_ids@[t2], q) > 0),
            forall|q: int| 0 <= q < v ==> #[trigger] vertex_referenced(vertex_ids@, q),
    {
        if !touched[v] {
            proof {
                if vertex_referenced(vertex_ids@, v as int) {
                    let t2: int = choose|t2: int|
                        0 <= t2 < vertex_ids@.len() && occurrences(
                            #[trigger] vertex_ids@[t2],
                            v as int,
                        ) > 0;
                    assert(touched@[v as int] == true);
                }
            }
            return None;
        }
        proof {
            assert(touched@[v as int] == true);
            let t2: int = choose|t2: int|
                0 <= t2 < n && occurrences(#[trigger] vertex_ids@[t2], v as int) > 0;
            assert(vertex_referenced(vertex_ids@, v as int));
        }
    }
    // assemble the triangles
    let mut triangles: Vec<Triangle> = Vec::new();
    for t in 0..n
        invariant
            n == vertex_ids@.len(),
            nv == vertices@.len(),
            n <= 0xFFFFFFFF,
            forall|q: int|
                0 <= q < n ==> (#[trigger] vertex_ids@[q]).x < nv && vertex_ids@[q].y < nv
                    && vertex_ids@[q].z < nv,
            forall|q: int| 0 <= q < nv ==> valid_point(#[trigger] vertices@[q]),
            triangles@.len() == t,
            forall|q: int|
                0 <= q < t ==> #[trigger] triangles@[q] == triangle_at(vertices@, vertex_ids@, q),
            valid_triangles(triangles@),
    {
        let ids: Uint3 = vertex_ids[t];
        let tri = Triangle {
            tri_idx: t as u32,
            vertex0: vertices[ids.x as usize],
            vertex1: vertices[ids.y as usize],
            vertex2: vertices[ids.z as usize],
        };
        triangles.push(tri);
    }
    let triangle_normals: Vec<Dir3> = compute_triangle_normals(&triangles);
    proof {
        assert(triangle_normals@ =~= triangles@.map_values(|tr: Triangle| face_normal(tr)));
    }
    let vertex_normals: Vec<Dir3> = compute_vertex_normals(&triangle_normals, &vertex_ids, nv);
    Some(
        Mesh {
            triangles,
            triangle_vertex_ids: vertex_ids,
            vertex_normals,
            vertex_uvs: Vec::new(),
        },
    )
}

} // verus!
