//! The flat bounding-volume hierarchy: node encoding, well-formedness, and
//! the laws every built tree obeys. The builder itself lives in
//! [`crate::builder`].

use vstd::prelude::*;

verus! {

use vstd::set_lib::{set_int_range, lemma_int_range, lemma_subset_equality};
use crate::geometry::{
    AABB,
    Triangle,
    tight_bounds,
    box_union,
    box_in,
    box_in_range,
    area_of,
    tri_box,
    valid_triangles,
    valid_triangle,
    lemma_tight_union,
    lemma_tight_in_range,
    lemma_extent_product_bounded,
};

/// One node of the flat tree. A leaf (`tri_count > 0`) owns the run of
/// `tri_count` entries of the triangle-index permutation that starts at
/// `left_first`; an internal node (`tri_count == 0`) has its left child at
/// node index `left_first` and its right child right after it.
#[derive(Clone, Copy, Debug)]
pub struct BVHNode {
    pub bounds: AABB,
    pub tri_count: usize,
    pub left_first: usize,
}

impl BVHNode {
    /// A node is a leaf exactly when it owns at least one triangle.
    pub fn is_leaf(&self) -> (r: bool)
        ensures
            r == (self.tri_count > 0),
    {
        self.tri_count > 0
    }
}

/// A built hierarchy: the flat node array (node 0 is the root) and the
/// permutation of the original triangle indices, grouped by leaf.
pub struct BVH {
    pub bvh_nodes: Vec<BVHNode>,
    pub triangle_idx: Vec<usize>,
}

/// `ti` is a permutation of `0 .. n`: it has length `n`, every entry is
/// below `n`, and no entry repeats.
pub open spec fn perm_ok(ti: Seq<usize>, n: int) -> bool {
    &&& ti.len() == n
    &&& (forall|j: int| 0 <= j < n ==> (#[trigger] ti[j]) < n)
    &&& (forall|j: int, k: int| 0 <= j < n && 0 <= k < n && j != k ==> #[trigger] ti[j]
        != #[trigger] ti[k])
}

/// The set of triangle indices stored in positions `lo .. hi` of the
/// permutation.
pub open spec fn range_vals(ti: Seq<usize>, lo: int, hi: int) -> Set<int> {
    Set::new(
        |v: int|
            exists|j: int|
                lo <= j < hi && 0 <= j < ti.len() && (#[trigger] ti[j]) as int == v,
    )
}

/// Splitting a position range splits its stored index set.
pub proof fn lemma_range_vals_split(ti: Seq<usize>, lo: int, mid: int, hi: int)
    requires
        lo <= mid <= hi,
    ensures
        range_vals(ti, lo, hi) == range_vals(ti, lo, mid).union(range_vals(ti, mid, hi)),
{
    let a = range_vals(ti, lo, hi);
    let b = range_vals(ti, lo, mid).union(range_vals(ti, mid, hi));
    assert forall|v: int| a.contains(v) implies b.contains(v) by {
        let j: int = choose|j: int|
            lo <= j < hi && 0 <= j < ti.len() && (#[trigger] ti[j]) as int == v;
        if j < mid {
            assert(range_vals(ti, lo, mid).contains(v));
        } else {
            assert(range_vals(ti, mid, hi).contains(v));
        }
    }
    assert forall|v: int| b.contains(v) implies a.contains(v) by {
        if range_vals(ti, lo, mid).contains(v) {
            let j: int = choose|j: int|
                lo <= j < mid && 0 <= j < ti.len() && (#[trigger] ti[j]) as int == v;
            assert(lo <= j < hi && 0 <= j < ti.len() && ti[j] as int == v);
        } else {
            let j: int = choose|j: int|
                mid <= j < hi && 0 <= j < ti.len() && (#[trigger] ti[j]) as int == v;
            assert(lo <= j < hi && 0 <= j < ti.len() && ti[j] as int == v);
        }
    }
    assert(a =~= b);
}

/// Positions outside `lo .. hi` do not affect its stored index set.
pub proof fn lemma_range_vals_frame(ti1: Seq<usize>, ti2: Seq<usize>, lo: int, hi: int)
    requires
        ti1.len() == ti2.len(),
        forall|j: int| lo <= j < hi && 0 <= j < ti1.len() ==> #[trigger] ti2[j] == #[trigger] ti1[j],
    ensures
        range_vals(ti2, lo, hi) == range_vals(ti1, lo, hi),
{
    assert forall|v: int| range_vals(ti1, lo, hi).contains(v) implies range_vals(
        ti2,
        lo,
        hi,
    ).contains(v) by {
        let j: int = choose|j: int|
            lo <= j < hi && 0 <= j < ti1.len() && (#[trigger] ti1[j]) as int == v;
        assert(lo <= j < hi && 0 <= j < ti2.len() && ti2[j] as int == v);
    }
    assert forall|v: int| range_vals(ti2, lo, hi).contains(v) implies range_vals(
        ti1,
        lo,
        hi,
    ).contains(v) by {
        let j: int = choose|j: int|
            lo <= j < hi && 0 <= j < ti2.len() && (#[trigger] ti2[j]) as int == v;
        assert(lo <= j < hi && 0 <= j < ti1.len() && ti1[j] as int == v);
    }
    assert(range_vals(ti2, lo, hi) =~= range_vals(ti1, lo, hi));
}

/// Swapping two positions inside `lo .. hi` keeps the stored index set, the
/// permutation property, and every position outside the range.
pub proof fn lemma_swap_in_range(ti1: Seq<usize>, ti2: Seq<usize>, n: int, lo: int, hi: int, a: int, b: int)
    requires
        perm_ok(ti1, n),
        0 <= lo <= a < hi <= n,
        lo <= b < hi,
        ti2 == ti1.update(a, ti1[b]).update(b, ti1[a]),
    ensures
        perm_ok(ti2, n),
        range_vals(ti2, lo, hi) == range_vals(ti1, lo, hi),
        forall|j: int| 0 <= j < n && j != a && j != b ==> #[trigger] ti2[j] == ti1[j],
{
    assert(perm_ok(ti2, n)) by {
        assert forall|j: int, k: int| 0 <= j < n && 0 <= k < n && j != k implies #[trigger] ti2[j]
            != #[trigger] ti2[k] by {
            let j1: int = if j == a { b } else if j == b { a } else { j };
            let k1: int = if k == a { b } else if k == b { a } else { k };
            assert(ti2[j] == ti1[j1] && ti2[k] == ti1[k1] && j1 != k1);
        }
    }
    assert forall|v: int| range_vals(ti1, lo, hi).contains(v) implies range_vals(
        ti2,
        lo,
        hi,
    ).contains(v) by {
        let j: int = choose|j: int|
            lo <= j < hi && 0 <= j < ti1.len() && (#[trigger] ti1[j]) as int == v;
        let j2: int = if j == a { b } else if j == b { a } else { j };
        assert(lo <= j2 < hi && 0 <= j2 < ti2.len() && ti2[j2] as int == v);
    }
    assert forall|v: int| range_vals(ti2, lo, hi).contains(v) implies range_vals(
        ti1,
        lo,
        hi,
    ).contains(v) by {
        let j: int = choose|j: int|
            lo <= j < hi && 0 <= j < ti2.len() && (#[trigger] ti2[j]) as int == v;
        let j2: int = if j == a { b } else if j == b { a } else { j };
        assert(lo <= j2 < hi && 0 <= j2 < ti1.len() && ti1[j2] as int == v);
    }
    assert(range_vals(ti2, lo, hi) =~= range_vals(ti1, lo, hi));
}

/// A permutation of `0 .. n` hits every value below `n`.
pub proof fn lemma_perm_surjective(ti: Seq<usize>, n: int)
    requires
        perm_ok(ti, n),
    ensures
        forall|v: int| 0 <= v < n ==> range_vals(ti, 0, n).contains(v),
{
    let vals = range_vals(ti, 0, n);
    let rng = set_int_range(0, n);
    lemma_int_range(0, n);
    let f = |j: int| ti[j] as int;
    let positions = set_int_range(0, n);
    assert(vals =~= positions.map(f)) by {
        assert forall|v: int| vals.contains(v) implies positions.map(f).contains(v) by {
            let j: int = choose|j: int|
                0 <= j < n && 0 <= j < ti.len() && (#[trigger] ti[j]) as int == v;
            assert(positions.contains(j) && f(j) == v);
        }
        assert forall|v: int| positions.map(f).contains(v) implies vals.contains(v) by {
            let j: int = choose|j: int| #[trigger] positions.contains(j) && f(j) == v;
            assert(0 <= j < n && 0 <= j < ti.len() && ti[j] as int == v);
        }
    }
    assert(vals.subset_of(rng)) by {
        assert forall|v: int| vals.contains(v) implies rng.contains(v) by {
            let j: int = choose|j: int|
                0 <= j < n && 0 <= j < ti.len() && (#[trigger] ti[j]) as int == v;
            assert(ti[j] < n);
        }
    }
    assert(vals.len() == n) by {
        lemma_map_injective_len(positions, f, n);
    }
    assert(rng.finite() && rng.len() == n);
    lemma_subset_equality(vals, rng);
    assert(vals =~= rng);
}

/// Mapping a finite set of positions through an injective view of the
/// permutation keeps its cardinality.
proof fn lemma_map_injective_len(positions: Set<int>, f: spec_fn(int) -> int, n: int)
    requires
        positions.finite(),
        forall|j: int, k: int|
            positions.contains(j) && positions.contains(k) && j != k ==> #[trigger] f(j)
                != #[trigger] f(k),
    ensures
        positions.map(f).len() == positions.len(),
    decreases positions.len(),
{
    if positions.len() == 0 {
        assert(positions =~= Set::empty());
        assert(positions.map(f) =~= Set::empty());
    } else {
        let j = positions.choose();
        assert(positions.contains(j));
        let rest = positions.remove(j);
        lemma_map_injective_len(rest, f, n);
        assert(positions.map(f) =~= rest.map(f).insert(f(j))) by {
            assert forall|v: int| positions.map(f).contains(v) implies rest.map(f).insert(
                f(j),
            ).contains(v) by {
                let k: int = choose|k: int| #[trigger] positions.contains(k) && f(k) == v;
                if k == j {
                } else {
                    assert(rest.contains(k) && f(k) == v);
                }
            }
            assert forall|v: int| rest.map(f).insert(f(j)).contains(v) implies positions.map(
                f,
            ).contains(v) by {
                if v == f(j) {
                    assert(positions.contains(j) && f(j) == v);
                } else {
                    let k: int = choose|k: int| #[trigger] rest.contains(k) && f(k) == v;
                    assert(positions.contains(k) && f(k) == v);
                }
            }
        }
        assert(!rest.map(f).contains(f(j))) by {
            if rest.map(f).contains(f(j)) {
                let k: int = choose|k: int| #[trigger] rest.contains(k) && f(k) == f(j);
                assert(positions.contains(k) && k != j);
            }
        }
        assert(rest.map(f).finite()) by {
            rest.lemma_map_finite(f);
        }
        vstd::set::axiom_set_insert_len(rest.map(f), f(j));
    }
}

/// First permutation position covered by the subtree rooted at `i`.
pub open spec fn sub_first(ns: Seq<BVHNode>, i: int) -> int
    decreases ns.len() - i,
{
    if 0 <= i < ns.len() {
        if ns[i].tri_count > 0 {
            ns[i].left_first as int
        } else {
            let l = ns[i].left_first as int;
            if i < l && l < ns.len() {
                sub_first(ns, l)
            } else {
                0
            }
        }
    } else {
        0
    }
}

/// Number of permutation positions covered by the subtree rooted at `i`.
pub open spec fn sub_count(ns: Seq<BVHNode>, i: int) -> int
    decreases ns.len() - i,
{
    if 0 <= i < ns.len() {
        if ns[i].tri_count > 0 {
            ns[i].tri_count as int
        } else {
            let l = ns[i].left_first as int;
            if i < l && l + 1 < ns.len() {
                sub_count(ns, l) + sub_count(ns, l + 1)
            } else {
                0
            }
        }
    } else {
        0
    }
}

/// The node indices that make up the subtree rooted at `i`.
pub open spec fn subtree_nodes(ns: Seq<BVHNode>, i: int) -> Set<int>
    decreases ns.len() - i,
{
    if 0 <= i < ns.len() {
        if ns[i].tri_count > 0 {
            Set::new(|v: int| v == i)
        } else {
            let l = ns[i].left_first as int;
            if i < l && l + 1 < ns.len() {
                subtree_nodes(ns, l).union(subtree_nodes(ns, l + 1)).insert(i)
            } else {
                Set::new(|v: int| v == i)
            }
        }
    } else {
        Set::new(|v: int| v == i)
    }
}

/// Well-formedness of the subtree rooted at node `i` of the flat array,
/// with respect to the triangle list and the index permutation:
/// - a leaf owns at least one triangle, its run lies inside the
///   permutation, and its stored bounds are exactly the union of its
///   triangles' bounding boxes;
/// - an internal node's children sit after it in the array, are themselves
///   well-formed, cover adjacent permutation ranges, and its stored bounds
///   are exactly the union of its children's bounds.
pub open spec fn wf_sub(ns: Seq<BVHNode>, ti: Seq<usize>, tris: Seq<Triangle>, i: int) -> bool
    decreases ns.len() - i,
{
    &&& 0 <= i < ns.len()
    &&& if ns[i].tri_count > 0 {
        &&& ns[i].tri_count >= 1
        &&& ns[i].left_first + ns[i].tri_count <= ti.len()
        &&& tight_bounds(
            ns[i].bounds,
            tris,
            range_vals(ti, ns[i].left_first as int, ns[i].left_first + ns[i].tri_count),
        )
    } else {
        let l = ns[i].left_first as int;
        &&& i < l
        &&& l + 1 < ns.len()
        &&& wf_sub(ns, ti, tris, l)
        &&& wf_sub(ns, ti, tris, l + 1)
        &&& sub_first(ns, l + 1) == sub_first(ns, l) + sub_count(ns, l)
        &&& ns[i].bounds == box_union(ns[l].bounds, ns[l + 1].bounds)
    }
}

/// Every well-formed subtree covers a non-empty in-bounds range, its stored
/// bounds are exactly the union of the bounding boxes of the triangles it
/// covers, and its node indices all lie between its root and the end of the
/// array.
pub proof fn lemma_wf_tight(ns: Seq<BVHNode>, ti: Seq<usize>, tris: Seq<Triangle>, i: int)
    requires
        wf_sub(ns, ti, tris, i),
    ensures
        1 <= sub_count(ns, i),
        0 <= sub_first(ns, i),
        sub_first(ns, i) + sub_count(ns, i) <= ti.len(),
        tight_bounds(
            ns[i].bounds,
            tris,
            range_vals(ti, sub_first(ns, i), sub_first(ns, i) + sub_count(ns, i)),
        ),
        forall|v: int| #[trigger] subtree_nodes(ns, i).contains(v) ==> i <= v < ns.len(),
        subtree_nodes(ns, i).contains(i),
    decreases ns.len() - i,
{
    if ns[i].tri_count > 0 {
    } else {
        let l = ns[i].left_first as int;
        let r = l + 1;
        lemma_wf_tight(ns, ti, tris, l);
        lemma_wf_tight(ns, ti, tris, r);
        let fl = sub_first(ns, l);
        let cl = sub_count(ns, l);
        let fr = sub_first(ns, r);
        let cr = sub_count(ns, r);
        assert(sub_first(ns, i) == fl && sub_count(ns, i) == cl + cr);
        lemma_tight_union(
            ns[l].bounds,
            ns[r].bounds,
            tris,
            range_vals(ti, fl, fl + cl),
            range_vals(ti, fr, fr + cr),
        );
        lemma_range_vals_split(ti, fl, fl + cl, fl + cl + cr);
    }
}

/// Changing permutation positions outside a subtree's covered range keeps
/// the subtree well-formed.
pub proof fn lemma_wf_ti_frame(
    ns: Seq<BVHNode>,
    ti1: Seq<usize>,
    ti2: Seq<usize>,
    tris: Seq<Triangle>,
    i: int,
)
    requires
        wf_sub(ns, ti1, tris, i),
        ti2.len() == ti1.len(),
        forall|j: int|
            sub_first(ns, i) <= j < sub_first(ns, i) + sub_count(ns, i) && 0 <= j < ti1.len()
                ==> #[trigger] ti2[j] == #[trigger] ti1[j],
    ensures
        wf_sub(ns, ti2, tris, i),
    decreases ns.len() - i,
{
    if ns[i].tri_count > 0 {
        lemma_range_vals_frame(
            ti1,
            ti2,
            ns[i].left_first as int,
            ns[i].left_first + ns[i].tri_count,
        );
    } else {
        let l = ns[i].left_first as int;
        let r = l + 1;
        lemma_wf_tight(ns, ti1, tris, l);
        lemma_wf_tight(ns, ti1, tris, r);
        lemma_wf_ti_frame(ns, ti1, ti2, tris, l);
        lemma_wf_ti_frame(ns, ti1, ti2, tris, r);
    }
}

/// Extending the node array, or changing nodes outside a subtree, keeps
/// the subtree well-formed and leaves its shape unchanged.
pub proof fn lemma_wf_ns_frame(
    ns1: Seq<BVHNode>,
    ns2: Seq<BVHNode>,
    ti: Seq<usize>,
    tris: Seq<Triangle>,
    i: int,
)
    requires
        wf_sub(ns1, ti, tris, i),
        ns2.len() >= ns1.len(),
        forall|j: int|
            #[trigger] subtree_nodes(ns1, i).contains(j) ==> 0 <= j < ns1.len() && ns2[j] == ns1[j],
    ensures
        wf_sub(ns2, ti, tris, i),
        sub_first(ns2, i) == sub_first(ns1, i),
        sub_count(ns2, i) == sub_count(ns1, i),
        subtree_nodes(ns2, i) == subtree_nodes(ns1, i),
    decreases ns1.len() - i,
{
    lemma_wf_tight(ns1, ti, tris, i);
    assert(subtree_nodes(ns1, i).contains(i));
    assert(ns2[i] == ns1[i]);
    if ns1[i].tri_count > 0 {
        assert(subtree_nodes(ns2, i) =~= subtree_nodes(ns1, i));
    } else {
        let l = ns1[i].left_first as int;
        let r = l + 1;
        lemma_wf_tight(ns1, ti, tris, l);
        lemma_wf_tight(ns1, ti, tris, r);
        assert(subtree_nodes(ns1, l).subset_of(subtree_nodes(ns1, i))) by {
            assert forall|v: int| #[trigger] subtree_nodes(ns1, l).contains(v) implies subtree_nodes(
                ns1,
                i,
            ).contains(v) by {}
        }
        assert(subtree_nodes(ns1, r).subset_of(subtree_nodes(ns1, i))) by {
            assert forall|v: int| #[trigger] subtree_nodes(ns1, r).contains(v) implies subtree_nodes(
                ns1,
                i,
            ).contains(v) by {}
        }
        lemma_wf_ns_frame(ns1, ns2, ti, tris, l);
        lemma_wf_ns_frame(ns1, ns2, ti, tris, r);
        assert(subtree_nodes(ns2, i) =~= subtree_nodes(ns1, i));
    }
}

impl BVH {
    /// Build the hierarchy for a mesh's triangle list. The caller supplies
    /// the exact bounds of the list (what
    /// [`crate::geometry::compute_bounds_from_triangles`] returns for it),
    /// which become the root's stored bounds, and the bin count per axis.
    /// An empty triangle list is rejected before construction and is
    /// excluded here by contract.
    pub fn from_mesh(triangles: &Vec<Triangle>, bounds: &AABB, bin_size: usize) -> (r: BVH)
        requires
            valid_triangles(triangles@),
            1 <= triangles@.len(),
            tight_bounds(
                *bounds,
                triangles@,
                crate::geometry::idx_set(triangles@.len() as int),
            ),
            2 <= bin_size <= crate::builder::MAX_BIN_COUNT,
        ensures
            built_from(r, triangles@, *bounds),
    {
        crate::builder::build_bvh(triangles, bounds, bin_size)
    }
}

/// What the builder guarantees of a finished hierarchy over a non-empty
/// triangle list with root bounds `bounds`: the index array is a
/// permutation, the tree rooted at node 0 is well-formed and covers the
/// whole permutation, the root keeps the exact input bounds, every node of
/// the array belongs to the tree, and the array never exceeds the
/// `2n - 1` nodes a binary tree over `n` triangles can have.
pub open spec fn built_from(b: BVH, tris: Seq<Triangle>, bounds: AABB) -> bool {
    &&& perm_ok(b.triangle_idx@, tris.len() as int)
    &&& wf_sub(b.bvh_nodes@, b.triangle_idx@, tris, 0)
    &&& sub_first(b.bvh_nodes@, 0) == 0
    &&& sub_count(b.bvh_nodes@, 0) == tris.len()
    &&& 1 <= b.bvh_nodes@.len() <= 2 * tris.len() - 1
    &&& b.bvh_nodes@[0].bounds == bounds
    &&& (forall|i: int|
        0 <= i < b.bvh_nodes@.len() ==> subtree_nodes(b.bvh_nodes@, 0).contains(i))
}

/// Every node index of a well-formed subtree roots a well-formed subtree
/// itself.
pub proof fn lemma_subtree_node_wf(
    ns: Seq<BVHNode>,
    ti: Seq<usize>,
    tris: Seq<Triangle>,
    root: int,
    i: int,
)
    requires
        wf_sub(ns, ti, tris, root),
        subtree_nodes(ns, root).contains(i),
    ensures
        wf_sub(ns, ti, tris, i),
    decreases ns.len() - root,
{
    if ns[root].tri_count > 0 {
        assert(i == root);
    } else {
        let l = ns[root].left_first as int;
        let r = l + 1;
        if i == root {
        } else if subtree_nodes(ns, l).contains(i) {
            lemma_subtree_node_wf(ns, ti, tris, l, i);
        } else {
            assert(subtree_nodes(ns, r).contains(i));
            lemma_subtree_node_wf(ns, ti, tris, r, i);
        }
    }
}

/// Law: every leaf owns at least one triangle, and the bounding box of each
/// of its triangles lies inside the leaf's stored bounds. Every internal
/// node has exactly two children, stored after it in the node array, and
/// its stored bounds are exactly the union of its children's bounds.
pub proof fn lemma_node_invariants(ns: Seq<BVHNode>, ti: Seq<usize>, tris: Seq<Triangle>, i: int)
    requires
        wf_sub(ns, ti, tris, i),
    ensures
        ns[i].tri_count > 0 ==> {
            &&& ns[i].tri_count >= 1
            &&& ns[i].left_first + ns[i].tri_count <= ti.len()
            &&& forall|j: int|
                ns[i].left_first <= j < ns[i].left_first + ns[i].tri_count ==> box_in(
                    tri_box(tris[#[trigger] ti[j] as int]),
                    ns[i].bounds,
                )
        },
        ns[i].tri_count == 0 ==> {
            &&& i + 1 <= ns[i].left_first as int
            &&& ns[i].left_first + 1 < ns.len()
            &&& ns[i].bounds == box_union(
                ns[ns[i].left_first as int].bounds,
                ns[ns[i].left_first + 1].bounds,
            )
        },
{
    if ns[i].tri_count > 0 {
        let lo = ns[i].left_first as int;
        let hi = ns[i].left_first + ns[i].tri_count;
        assert forall|j: int| lo <= j < hi implies box_in(
            tri_box(tris[#[trigger] ti[j] as int]),
            ns[i].bounds,
        ) by {
            assert(range_vals(ti, lo, hi).contains(ti[j] as int));
        }
    }
}

/// Two scalars, each at most its own bound, multiply to at most the product
/// of the bounds; used for the SAH cost comparison.
proof fn lemma_mul_mono(c: int, a: int, b: int)
    requires
        0 <= c,
        0 <= a <= b,
    ensures
        c * a <= c * b,
{
    assert(c * a <= c * b) by (nonlinear_arith)
        requires
            0 <= c,
            0 <= a <= b,
    ;
}

/// A box inside another box with non-negative extents has no larger area.
proof fn lemma_area_monotone(a: AABB, b: AABB)
    requires
        box_in(a, b),
        a.min_bound.x <= a.max_bound.x,
        a.min_bound.y <= a.max_bound.y,
        a.min_bound.z <= a.max_bound.z,
    ensures
        0 <= area_of(a) <= area_of(b),
{
    let exa = a.max_bound.x - a.min_bound.x;
    let eya = a.max_bound.y - a.min_bound.y;
    let eza = a.max_bound.z - a.min_bound.z;
    let exb = b.max_bound.x - b.min_bound.x;
    let eyb = b.max_bound.y - b.min_bound.y;
    let ezb = b.max_bound.z - b.min_bound.z;
    assert(exa * eya + exa * eza + eya * eza <= exb * eyb + exb * ezb + eyb * ezb && 0 <= exa * eya
        + exa * eza + eya * eza) by (nonlinear_arith)
        requires
            0 <= exa <= exb,
            0 <= eya <= eyb,
            0 <= eza <= ezb,
    ;
}

/// Law: for every internal node of a well-formed tree over valid triangles,
/// the SAH cost of its split — each child's triangle count times that
/// child's area, summed — is at most the cost of leaving the node a leaf,
/// its own triangle count times its own area.
pub proof fn lemma_split_cost_bounded(ns: Seq<BVHNode>, ti: Seq<usize>, tris: Seq<Triangle>, i: int)
    requires
        wf_sub(ns, ti, tris, i),
        valid_triangles(tris),
        ns[i].tri_count == 0,
    ensures
        sub_count(ns, ns[i].left_first as int) * area_of(ns[ns[i].left_first as int].bounds)
            + sub_count(ns, ns[i].left_first + 1) * area_of(ns[ns[i].left_first + 1].bounds)
            <= sub_count(ns, i) * area_of(ns[i].bounds),
{
    let l = ns[i].left_first as int;
    let r = l + 1;
    lemma_wf_tight(ns, ti, tris, l);
    lemma_wf_tight(ns, ti, tris, r);
    lemma_tight_in_range(
        ns[l].bounds,
        tris,
        range_vals(ti, sub_first(ns, l), sub_first(ns, l) + sub_count(ns, l)),
    );
    lemma_tight_in_range(
        ns[r].bounds,
        tris,
        range_vals(ti, sub_first(ns, r), sub_first(ns, r) + sub_count(ns, r)),
    );
    let cl = sub_count(ns, l);
    let cr = sub_count(ns, r);
    let al = area_of(ns[l].bounds);
    let ar = area_of(ns[r].bounds);
    let ap = area_of(ns[i].bounds);
    assert(box_in(ns[l].bounds, ns[i].bounds) && box_in(ns[r].bounds, ns[i].bounds));
    lemma_area_monotone(ns[l].bounds, ns[i].bounds);
    lemma_area_monotone(ns[r].bounds, ns[i].bounds);
    lemma_mul_mono(cl, al, ap);
    lemma_mul_mono(cr, ar, ap);
    assert(cl * ap + cr * ap == (cl + cr) * ap) by (nonlinear_arith);
    assert(sub_count(ns, i) == cl + cr);
}

} // verus!
