//! The binned-SAH builder: top-down, one node at a time, partitioning an
//! explicit triangle-index array in place and appending child nodes to the
//! flat array. Every tree it produces satisfies [`crate::bvh::wf_sub`] at
//! the root, and the index array stays a permutation throughout.

use vstd::prelude::*;

verus! {

use vstd::pervasive::VecAdditionalExecFns;
use crate::math::{COORD_LIMIT, vec3_axis};
use crate::geometry::{
    AABB,
    Triangle,
    tri_box,
    tight_bounds,
    box_in_range,
    valid_triangle,
    valid_triangles,
    empty_box,
    triangle_bounds,
    lemma_tri_box_in_range,
    lemma_area_bounded,
    lemma_tight_union,
    lemma_tight_in_range,
    lemma_tight_unique,
    lemma_mul_bound,
};
use crate::bvh::{
    BVH,
    BVHNode,
    perm_ok,
    range_vals,
    sub_first,
    sub_count,
    subtree_nodes,
    wf_sub,
    lemma_range_vals_split,
    lemma_range_vals_frame,
    lemma_swap_in_range,
    lemma_wf_ti_frame,
    lemma_wf_ns_frame,
};

/// Upper bound accepted for the bin count; keeps the bin-index arithmetic
/// far from overflow.
pub const MAX_BIN_COUNT: usize = 1048576;

/// Nodes with this many triangles or fewer are always kept as leaves.
pub const LEAF_THRESHOLD: usize = 1;

/// Sum of a sequence of machine counters.
pub open spec fn seq_sum(s: Seq<usize>) -> int
    decreases s.len(),
{
    if s.len() == 0 {
        0
    } else {
        seq_sum(s.drop_last()) + s.last()
    }
}

/// A sum of counters is never negative.
proof fn lemma_seq_sum_nonneg(s: Seq<usize>)
    ensures
        seq_sum(s) >= 0,
    decreases s.len(),
{
    if s.len() > 0 {
        lemma_seq_sum_nonneg(s.drop_last());
    }
}

/// Extending a prefix by one element adds that element to its sum.
proof fn lemma_seq_sum_prefix_push(s: Seq<usize>, i: int)
    requires
        0 <= i < s.len(),
    ensures
        seq_sum(s.subrange(0, i + 1)) == seq_sum(s.subrange(0, i)) + s[i],
{
    assert(s.subrange(0, i + 1).drop_last() =~= s.subrange(0, i));
    assert(s.subrange(0, i + 1).last() == s[i]);
}

/// A prefix sum never exceeds the whole sum.
proof fn lemma_seq_sum_prefix_le(s: Seq<usize>, i: int)
    requires
        0 <= i <= s.len(),
    ensures
        seq_sum(s.subrange(0, i)) <= seq_sum(s),
    decreases s.len() - i,
{
    if i == s.len() {
        assert(s.subrange(0, i) =~= s);
    } else {
        lemma_seq_sum_prefix_push(s, i);
        lemma_seq_sum_prefix_le(s, i + 1);
        assert(s[i] >= 0);
    }
}

/// Bumping one counter bumps the sum by the same amount.
proof fn lemma_seq_sum_update(s: Seq<usize>, i: int, v: usize)
    requires
        0 <= i < s.len(),
    ensures
        seq_sum(s.update(i, v)) == seq_sum(s) - s[i] + v,
    decreases s.len(),
{
    if i == s.len() - 1 {
        assert(s.update(i, v).drop_last() =~= s.drop_last());
        assert(s.update(i, v).last() == v);
    } else {
        assert(s.update(i, v).drop_last() =~= s.drop_last().update(i, v));
        lemma_seq_sum_update(s.drop_last(), i, v);
        assert(s.update(i, v).last() == s.last());
        assert(s.drop_last()[i] == s[i]);
    }
}

/// Twice the centroid coordinate of a triangle's bounding box on an axis:
/// the sum of its minimum and maximum there, exact in fixed point.
pub open spec fn centroid2(t: Triangle, axis: int) -> int {
    vec3_axis(tri_box(t).min_bound, axis) + vec3_axis(tri_box(t).max_bound, axis)
}

/// Twice the centroid of the triangle's bounding box on the given axis.
fn tri_centroid2(t: &Triangle, axis: usize) -> (r: i64)
    requires
        valid_triangle(*t),
        axis < 3,
    ensures
        r as int == centroid2(*t, axis as int),
        -2 * COORD_LIMIT <= r <= 2 * COORD_LIMIT,
{
    proof {
        lemma_tri_box_in_range(*t);
    }
    let tb = triangle_bounds(t);
    tb.min_bound.axis(axis) + tb.max_bound.axis(axis)
}

/// The bin a triangle falls into when the doubled-centroid range
/// `cmin2 .. cmax2` is cut into `bin_count` equal-width bins on `axis`.
/// Centroids at or past the top edge land in the last bin.
fn bin_index_of(t: &Triangle, axis: usize, cmin2: i64, cmax2: i64, bin_count: usize) -> (b: usize)
    requires
        valid_triangle(*t),
        axis < 3,
        -2 * COORD_LIMIT <= cmin2 < cmax2 <= 2 * COORD_LIMIT,
        2 <= bin_count <= MAX_BIN_COUNT,
    ensures
        b < bin_count,
{
    let c2: i64 = tri_centroid2(t, axis);
    if c2 <= cmin2 {
        return 0;
    }
    let num: u64 = (c2 - cmin2) as u64;
    let den: u64 = (cmax2 - cmin2) as u64;
    proof {
        lemma_mul_bound(num as int, bin_count as int, 0x400000, 0x100000);
    }
    let q: u64 = (num * (bin_count as u64)) / den;
    let top: u64 = (bin_count - 1) as u64;
    let qb: u64 = if q > top {
        top
    } else {
        q
    };
    qb as usize
}

/// In-place partition of the positions `first .. first + count` of the
/// index array: triangles whose bin on the chosen axis lies below
/// `split_bin` move to the front. Returns the first position of the right
/// part. The stored index set of the range, every position outside it, and
/// the permutation property are all preserved.
fn partition_range(
    tris: &Vec<Triangle>,
    ti: &mut Vec<usize>,
    first: usize,
    count: usize,
    axis: usize,
    cmin2: i64,
    cmax2: i64,
    split_bin: usize,
    bin_count: usize,
) -> (mid: usize)
    requires
        valid_triangles(tris@),
        perm_ok(old(ti)@, tris@.len() as int),
        first + count <= old(ti)@.len(),
        axis < 3,
        -2 * COORD_LIMIT <= cmin2 < cmax2 <= 2 * COORD_LIMIT,
        2 <= bin_count <= MAX_BIN_COUNT,
    ensures
        first <= mid <= first + count,
        final(ti)@.len() == old(ti)@.len(),
        perm_ok(final(ti)@, tris@.len() as int),
        forall|j: int|
            0 <= j < old(ti)@.len() && !(first <= j < first + count) ==> final(ti)@[j] == old(
                ti,
            )@[j],
        range_vals(final(ti)@, first as int, first + count) == range_vals(
            old(ti)@,
            first as int,
            first + count,
        ),
{
    let n: usize = ti.len();
    let mut lo: usize = first;
    let hi: usize = first + count;
    for j in iter: first..hi
        invariant
            n == ti@.len(),
            ti@.len() == tris@.len(),
            valid_triangles(tris@),
            perm_ok(ti@, tris@.len() as int),
            first <= lo <= j <= hi <= n,
            axis < 3,
            -2 * COORD_LIMIT <= cmin2 < cmax2 <= 2 * COORD_LIMIT,
            2 <= bin_count <= MAX_BIN_COUNT,
            forall|k: int|
                0 <= k < n && !(first <= k < hi) ==> ti@[k] == old(ti)@[k],
            range_vals(ti@, first as int, hi as int) == range_vals(
                old(ti)@,
                first as int,
                hi as int,
            ),
    {
        let t: usize = ti[j];
        let b: usize = bin_index_of(&tris[t], axis, cmin2, cmax2, bin_count);
        if b < split_bin {
            let ghost before = ti@;
            let va: usize = ti[lo];
            let vb: usize = ti[j];
            ti.set(lo, vb);
            ti.set(j, va);
            proof {
                lemma_swap_in_range(
                    before,
                    ti@,
                    tris@.len() as int,
                    first as int,
                    hi as int,
                    lo as int,
                    j as int,
                );
            }
            lo = lo + 1;
        }
    }
    lo
}

/// The exact bounding box of the triangles stored in positions
/// `lo .. hi` of the index array.
fn range_bounds(tris: &Vec<Triangle>, ti: &Vec<usize>, lo: usize, hi: usize) -> (b: AABB)
    requires
        valid_triangles(tris@),
        perm_ok(ti@, tris@.len() as int),
        lo < hi <= ti@.len(),
    ensures
        tight_bounds(b, tris@, range_vals(ti@, lo as int, hi as int)),
{
    let mut bounds = AABB::from_empty();
    for j in iter: lo..hi
        invariant
            valid_triangles(tris@),
            perm_ok(ti@, tris@.len() as int),
            lo <= j <= hi <= ti@.len(),
            j == lo ==> bounds == empty_box(),
            j > lo ==> tight_bounds(bounds, tris@, range_vals(ti@, lo as int, j as int)),
    {
        let t: usize = ti[j];
        let tb = triangle_bounds(&tris[t]);
        let ghost prev = bounds;
        bounds.grow_aabb(&tb);
        proof {
            lemma_tri_box_in_range(tris@[t as int]);
            let sing = Set::new(|v: int| v == t as int);
            assert(sing.contains(t as int));
            assert(tight_bounds(tb, tris@, sing));
            assert(range_vals(ti@, lo as int, j + 1) =~= range_vals(ti@, lo as int, j as int).union(
                sing,
            )) by {
                lemma_range_vals_split(ti@, lo as int, j as int, j + 1);
                assert(range_vals(ti@, j as int, j + 1) =~= sing) by {
                    assert(ti@[j as int] == t);
                    assert(range_vals(ti@, j as int, j + 1).contains(t as int));
                }
            }
            if j == lo {
                assert(range_vals(ti@, lo as int, j + 1) =~= sing) by {
                    assert(ti@[j as int] == t);
                    assert(range_vals(ti@, lo as int, j + 1).contains(t as int));
                    assert forall|v: int| range_vals(ti@, lo as int, j + 1).contains(v) implies sing.contains(v) by {
                        let j2: int = choose|j2: int|
                            lo <= j2 < j + 1 && 0 <= j2 < ti@.len() && (#[trigger] ti@[j2]) as int == v;
                        assert(j2 == j as int);
                    }
                }
                assert(bounds == tb);
                assert(tight_bounds(bounds, tris@, sing));
            } else {
                lemma_tight_union(prev, tb, tris@, range_vals(ti@, lo as int, j as int), sing);
            }
        }
    }
    bounds
}

/// The best (axis, boundary) pair by binned SAH cost, or nothing when no
/// candidate split beats the cost of keeping the node a leaf. A returned
/// pair carries the doubled-centroid range of the winning axis so that the
/// partition step can re-derive each triangle's bin.
fn choose_split(
    tris: &Vec<Triangle>,
    ti: &Vec<usize>,
    first: usize,
    count: usize,
    node_bounds: &AABB,
    bin_size: usize,
) -> (r: Option<(usize, usize, i64, i64)>)
    requires
        valid_triangles(tris@),
        perm_ok(ti@, tris@.len() as int),
        1 <= count,
        first + count <= ti@.len(),
        box_in_range(*node_bounds),
        2 <= bin_size <= MAX_BIN_COUNT,
    ensures
        r matches Some((axis, split_bin, cmin2, cmax2)) ==> {
            &&& axis < 3
            &&& 1 <= split_bin < bin_size
            &&& -2 * COORD_LIMIT <= cmin2 < cmax2 <= 2 * COORD_LIMIT
        },
{
    let n: usize = ti.len();
    proof {
        lemma_area_bounded(*node_bounds);
    }
    let leaf_area: i64 = node_bounds.area();
    proof {
        lemma_mul_bound(count as int, leaf_area as int, 0xFFFFFFFFFFFFFFFF, 0xC0000000000);
    }
    let mut best_cost: i128 = (count as i128) * (leaf_area as i128);
    let mut best: Option<(usize, usize, i64, i64)> = None;
    let hi: usize = first + count;
    for axis in 0..3usize
        invariant
            valid_triangles(tris@),
            perm_ok(ti@, tris@.len() as int),
            1 <= count,
            first + count <= ti@.len(),
            hi == first + count,
            2 <= bin_size <= MAX_BIN_COUNT,
            best matches Some((a, sb, c0, c1)) ==> {
                &&& a < 3
                &&& 1 <= sb < bin_size
                &&& -2 * COORD_LIMIT <= c0 < c1 <= 2 * COORD_LIMIT
            },
    {
        // centroid range of this node on this axis
        let mut cmin2: i64 = tri_centroid2(&tris[ti[first]], axis);
        let mut cmax2: i64 = cmin2;
        for j in iter: first..hi
            invariant
                valid_triangles(tris@),
                perm_ok(ti@, tris@.len() as int),
                first < hi <= ti@.len(),
                axis < 3,
                -2 * COORD_LIMIT <= cmin2 <= cmax2 <= 2 * COORD_LIMIT,
        {
            let c2: i64 = tri_centroid2(&tris[ti[j]], axis);
            if c2 < cmin2 {
                cmin2 = c2;
            }
            if c2 > cmax2 {
                cmax2 = c2;
            }
        }
        if cmax2 > cmin2 {
            // fill the bins
            let mut bin_boxes: Vec<AABB> = Vec::new();
            let mut bin_counts: Vec<usize> = Vec::new();
            for _k in 0..bin_size
                invariant
                    bin_boxes@.len() == _k,
                    bin_counts@.len() == _k,
                    forall|q: int| 0 <= q < _k ==> box_in_range(#[trigger] bin_boxes@[q]),
                    forall|q: int| 0 <= q < _k ==> #[trigger] bin_counts@[q] == 0usize,
            {
                bin_boxes.push(AABB::from_empty());
                bin_counts.push(0);
            }
            proof {
                lemma_seq_sum_zero(bin_counts@);
            }
            for j in iter: first..hi
                invariant
                    valid_triangles(tris@),
                    perm_ok(ti@, tris@.len() as int),
                    first < hi <= ti@.len(),
                    axis < 3,
                    -2 * COORD_LIMIT <= cmin2 < cmax2 <= 2 * COORD_LIMIT,
                    2 <= bin_size <= MAX_BIN_COUNT,
                    bin_boxes@.len() == bin_size,
                    bin_counts@.len() == bin_size,
                    forall|q: int| 0 <= q < bin_size ==> box_in_range(#[trigger] bin_boxes@[q]),
                    seq_sum(bin_counts@) == j - first,
            {
                let t: usize = ti[j];
                let b: usize = bin_index_of(&tris[t], axis, cmin2, cmax2, bin_size);
                let tb = triangle_bounds(&tris[t]);
                proof {
                    lemma_tri_box_in_range(tris@[t as int]);
                    lemma_seq_sum_prefix_le_all(bin_counts@, b as int);
                    lemma_seq_sum_update(bin_counts@, b as int, (bin_counts@[b as int] + 1) as usize);
                }
                let grown = bin_boxes[b].union(&tb);
                bin_boxes.set(b, grown);
                let bumped: usize = bin_counts[b] + 1;
                bin_counts.set(b, bumped);
            }
            // prefix (left) aggregates per boundary
            let mut left_boxes: Vec<AABB> = Vec::new();
            let mut left_counts: Vec<usize> = Vec::new();
            let mut acc_box = AABB::from_empty();
            let mut acc_cnt: usize = 0;
            for k in 0..bin_size
                invariant
                    bin_boxes@.len() == bin_size,
                    bin_counts@.len() == bin_size,
                    forall|q: int| 0 <= q < bin_size ==> box_in_range(#[trigger] bin_boxes@[q]),
                    seq_sum(bin_counts@) == count,
                    first + count <= ti@.len(),
                    left_boxes@.len() == k,
                    left_counts@.len() == k,
                    box_in_range(acc_box),
                    acc_cnt as int == seq_sum(bin_counts@.subrange(0, k as int)),
                    acc_cnt <= count,
                    forall|q: int| 0 <= q < k ==> box_in_range(#[trigger] left_boxes@[q]),
                    forall|q: int| 0 <= q < k ==> #[trigger] left_counts@[q] <= count,
            {
                proof {
                    lemma_seq_sum_prefix_push(bin_counts@, k as int);
                    lemma_seq_sum_prefix_le(bin_counts@, k + 1);
                }
                acc_box = acc_box.union(&bin_boxes[k]);
                acc_cnt = acc_cnt + bin_counts[k];
                left_boxes.push(acc_box);
                left_counts.push(acc_cnt);
            }
            // suffix (right) aggregates per boundary
            let mut right_boxes: Vec<AABB> = Vec::new();
            let mut right_counts: Vec<usize> = Vec::new();
            for _k in 0..bin_size
                invariant
                    right_boxes@.len() == _k,
                    right_counts@.len() == _k,
            {
                right_boxes.push(AABB::from_empty());
                right_counts.push(0);
            }
            let mut acc_box_r = AABB::from_empty();
            let mut acc_cnt_r: usize = 0;
            let mut idx: usize = bin_size;
            proof {
                assert(bin_counts@.subrange(0, bin_size as int) =~= bin_counts@);
            }
            while idx > 0
                invariant
                    bin_boxes@.len() == bin_size,
                    bin_counts@.len() == bin_size,
                    forall|q: int| 0 <= q < bin_size ==> box_in_range(#[trigger] bin_boxes@[q]),
                    seq_sum(bin_counts@) == count,
                    first + count <= ti@.len(),
                    right_boxes@.len() == bin_size,
                    right_counts@.len() == bin_size,
                    idx <= bin_size,
                    box_in_range(acc_box_r),
                    acc_cnt_r as int == seq_sum(bin_counts@) - seq_sum(
                        bin_counts@.subrange(0, idx as int),
                    ),
                    acc_cnt_r <= count,
                    forall|q: int|
                        idx <= q < bin_size ==> box_in_range(#[trigger] right_boxes@[q]),
                    forall|q: int| idx <= q < bin_size ==> #[trigger] right_counts@[q] <= count,
                decreases idx,
            {
                idx = idx - 1;
                proof {
                    lemma_seq_sum_prefix_push(bin_counts@, idx as int);
                    lemma_seq_sum_prefix_le(bin_counts@, idx as int);
                    lemma_seq_sum_nonneg(bin_counts@.subrange(0, idx as int));
                }
                acc_box_r = acc_box_r.union(&bin_boxes[idx]);
                acc_cnt_r = acc_cnt_r + bin_counts[idx];
                right_boxes.set(idx, acc_box_r);
                right_counts.set(idx, acc_cnt_r);
            }
            // evaluate every interior boundary
            for sb in 1..bin_size
                invariant
                    bin_size <= MAX_BIN_COUNT,
                    left_boxes@.len() == bin_size,
                    left_counts@.len() == bin_size,
                    right_boxes@.len() == bin_size,
                    right_counts@.len() == bin_size,
                    forall|q: int| 0 <= q < bin_size ==> box_in_range(#[trigger] left_boxes@[q]),
                    forall|q: int| 0 <= q < bin_size ==> #[trigger] left_counts@[q] <= count,
                    forall|q: int| 0 <= q < bin_size ==> box_in_range(#[trigger] right_boxes@[q]),
                    forall|q: int| 0 <= q < bin_size ==> #[trigger] right_counts@[q] <= count,
                    axis < 3,
                    -2 * COORD_LIMIT <= cmin2 < cmax2 <= 2 * COORD_LIMIT,
                    best matches Some((a, s, c0, c1)) ==> {
                        &&& a < 3
                        &&& 1 <= s < bin_size
                        &&& -2 * COORD_LIMIT <= c0 < c1 <= 2 * COORD_LIMIT
                    },
            {
                proof {
                    lemma_area_bounded(left_boxes@[sb - 1]);
                    lemma_area_bounded(right_boxes@[sb as int]);
                    lemma_mul_bound(
                        left_counts@[sb - 1] as int,
                        crate::geometry::area_of(left_boxes@[sb - 1]),
                        0xFFFFFFFFFFFFFFFF,
                        0xC0000000000,
                    );
                    lemma_mul_bound(
                        right_counts@[sb as int] as int,
                        crate::geometry::area_of(right_boxes@[sb as int]),
                        0xFFFFFFFFFFFFFFFF,
                        0xC0000000000,
                    );
                }
                let la: i64 = left_boxes[sb - 1].area();
                let ra: i64 = right_boxes[sb].area();
                let lc: usize = left_counts[sb - 1];
                let rc: usize = right_counts[sb];
                let cost: i128 = (lc as i128) * (la as i128) + (rc as i128) * (ra as i128);
                if cost < best_cost {
                    best_cost = cost;
                    best = Some((axis, sb, cmin2, cmax2));
                }
            }
        }
    }
    best
}

/// Stitch a split node back together: given the facts the partition, the
/// child-bounds computation and the two recursive builds leave behind, the
/// parent is well-formed, covers its original range with its original
/// bounds, and its subtree owns exactly the appended nodes.
proof fn lemma_assemble_split(
    tris: Seq<Triangle>,
    ti0: Seq<usize>,
    ti1: Seq<usize>,
    ti2: Seq<usize>,
    tif: Seq<usize>,
    ns_old: Seq<BVHNode>,
    ns0: Seq<BVHNode>,
    ns1: Seq<BVHNode>,
    nsf: Seq<BVHNode>,
    i: int,
    first: int,
    mid: int,
    hi: int,
    lbox: AABB,
    rbox: AABB,
    parent_bounds: AABB,
)
    requires
        0 <= i < ns_old.len(),
        first < mid < hi <= ti0.len(),
        ti0.len() == ti1.len() && ti1.len() == ti2.len() && ti2.len() == tif.len(),
        ns0.len() == ns_old.len() + 2,
        ({
            let l = ns_old.len() as int;
            let r = l + 1;
            &&& (forall|j: int| 0 <= j < l && j != i ==> #[trigger] ns0[j] == ns_old[j])
            &&& ns0[i].tri_count == 0
            &&& ns0[i].left_first == l
            &&& ns0[i].bounds == parent_bounds
            &&& ns0[l].tri_count == mid - first
            &&& ns0[l].left_first == first
            &&& ns0[l].bounds == lbox
            &&& ns0[r].tri_count == hi - mid
            &&& ns0[r].left_first == mid
            &&& ns0[r].bounds == rbox
            // partition
            &&& (forall|j: int| 0 <= j < ti0.len() && !(first <= j < hi) ==> #[trigger] ti1[j] == ti0[j])
            &&& range_vals(ti1, first, hi) == range_vals(ti0, first, hi)
            &&& tight_bounds(parent_bounds, tris, range_vals(ti0, first, hi))
            &&& tight_bounds(lbox, tris, range_vals(ti1, first, mid))
            &&& tight_bounds(rbox, tris, range_vals(ti1, mid, hi))
            // left build
            &&& ns1.len() >= ns0.len()
            &&& (forall|j: int| 0 <= j < ns0.len() && j != l ==> #[trigger] ns1[j] == ns0[j])
            &&& ns1[l].bounds == lbox
            &&& (forall|j: int| 0 <= j < ti1.len() && !(first <= j < mid) ==> #[trigger] ti2[j] == ti1[j])
            &&& range_vals(ti2, first, mid) == range_vals(ti1, first, mid)
            &&& wf_sub(ns1, ti2, tris, l)
            &&& sub_first(ns1, l) == first
            &&& sub_count(ns1, l) == mid - first
            &&& subtree_nodes(ns1, l) == Set::new(|v: int| v == l || ns0.len() <= v < ns1.len())
            // right build
            &&& nsf.len() >= ns1.len()
            &&& (forall|j: int| 0 <= j < ns1.len() && j != r ==> #[trigger] nsf[j] == ns1[j])
            &&& nsf[r].bounds == rbox
            &&& (forall|j: int| 0 <= j < ti2.len() && !(mid <= j < hi) ==> #[trigger] tif[j] == ti2[j])
            &&& range_vals(tif, mid, hi) == range_vals(ti2, mid, hi)
            &&& wf_sub(nsf, tif, tris, r)
            &&& sub_first(nsf, r) == mid
            &&& sub_count(nsf, r) == hi - mid
            &&& subtree_nodes(nsf, r) == Set::new(|v: int| v == r || ns1.len() <= v < nsf.len())
        }),
    ensures
        wf_sub(nsf, tif, tris, i),
        sub_first(nsf, i) == first,
        sub_count(nsf, i) == hi - first,
        range_vals(tif, first, hi) == range_vals(ti0, first, hi),
        forall|j: int| 0 <= j < ti0.len() && !(first <= j < hi) ==> #[trigger] tif[j] == ti0[j],
        subtree_nodes(nsf, i) == Set::new(|v: int| v == i || ns_old.len() <= v < nsf.len()),
        forall|j: int| 0 <= j < ns_old.len() && j != i ==> #[trigger] nsf[j] == ns_old[j],
        nsf[i].bounds == parent_bounds,
{
    let l = ns_old.len() as int;
    let r = l + 1;
    // the parent's stored bounds equal the union of the children's
    lemma_range_vals_split(ti1, first, mid, hi);
    lemma_tight_union(lbox, rbox, tris, range_vals(ti1, first, mid), range_vals(ti1, mid, hi));
    lemma_tight_unique(
        parent_bounds,
        crate::geometry::box_union(lbox, rbox),
        tris,
        range_vals(ti1, first, hi),
    );
    // the left subtree survives the right build untouched
    lemma_wf_ti_frame(ns1, ti2, tif, tris, l);
    assert forall|j: int| #[trigger] subtree_nodes(ns1, l).contains(j) implies 0 <= j < ns1.len()
        && nsf[j] == ns1[j] by {
        assert(j != r);
    }
    lemma_wf_ns_frame(ns1, nsf, tif, tris, l);
    assert(nsf[i] == ns0[i]);
    assert(wf_sub(nsf, tif, tris, i));
    // the covered range is unchanged as a set
    lemma_range_vals_frame(ti2, tif, first, mid);
    lemma_range_vals_split(tif, first, mid, hi);
    lemma_range_vals_frame(ti1, ti2, mid, hi);
    assert(range_vals(tif, first, hi) == range_vals(ti0, first, hi));
    // the subtree owns the root plus everything appended
    assert(subtree_nodes(nsf, i) =~= Set::new(|v: int| v == i || ns_old.len() <= v < nsf.len()))
        by {
        assert(subtree_nodes(nsf, i) == subtree_nodes(nsf, l).union(subtree_nodes(nsf, r)).insert(
            i,
        ));
        assert(subtree_nodes(nsf, l) == Set::new(|v: int| v == l || ns0.len() <= v < ns1.len()));
    }
}

/// Recursively subdivide the leaf at `node_i`, which covers positions
/// `first .. first + count` of the index array. On return the subtree
/// rooted there is well-formed, covers exactly that range, keeps the node's
/// stored bounds, and everything outside the range — other nodes, other
/// positions — is untouched. New nodes are only ever appended.
#[verifier::rlimit(100)]
#[verifier::spinoff_prover]
fn subdivide(
    tris: &Vec<Triangle>,
    nodes: &mut Vec<BVHNode>,
    ti: &mut Vec<usize>,
    node_i: usize,
    first: usize,
    count: usize,
    bin_size: usize,
)
    requires
        valid_triangles(tris@),
        perm_ok(old(ti)@, tris@.len() as int),
        node_i < old(nodes)@.len(),
        old(nodes)@[node_i as int].tri_count == count,
        old(nodes)@[node_i as int].left_first == first,
        1 <= count,
        first + count <= old(ti)@.len(),
        tight_bounds(
            old(nodes)@[node_i as int].bounds,
            tris@,
            range_vals(old(ti)@, first as int, first + count),
        ),
        2 <= bin_size <= MAX_BIN_COUNT,
    ensures
        final(nodes)@.len() >= old(nodes)@.len(),
        final(nodes)@.len() - old(nodes)@.len() <= 2 * (count - 1),
        forall|j: int|
            0 <= j < old(nodes)@.len() && j != node_i ==> final(nodes)@[j] == old(nodes)@[j],
        final(nodes)@[node_i as int].bounds == old(nodes)@[node_i as int].bounds,
        final(ti)@.len() == old(ti)@.len(),
        perm_ok(final(ti)@, tris@.len() as int),
        forall|j: int|
            0 <= j < old(ti)@.len() && !(first <= j < first + count) ==> final(ti)@[j] == old(
                ti,
            )@[j],
        range_vals(final(ti)@, first as int, first + count) == range_vals(
            old(ti)@,
            first as int,
            first + count,
        ),
        wf_sub(final(nodes)@, final(ti)@, tris@, node_i as int),
        sub_first(final(nodes)@, node_i as int) == first,
        sub_count(final(nodes)@, node_i as int) == count,
        subtree_nodes(final(nodes)@, node_i as int) == Set::new(
            |v: int| v == node_i as int || old(nodes)@.len() <= v < final(nodes)@.len(),
        ),
    decreases count,
{
    let n_positions: usize = ti.len();
    let node: BVHNode = nodes[node_i];
    proof {
        lemma_tight_in_range(
            node.bounds,
            tris@,
            range_vals(ti@, first as int, first + count),
        );
    }
    if count <= LEAF_THRESHOLD {
        proof {
            assert(subtree_nodes(nodes@, node_i as int) =~= Set::new(
                |v: int| v == node_i as int || old(nodes)@.len() <= v < nodes@.len(),
            ));
        }
        return ;
    }
    let choice: Option<(usize, usize, i64, i64)> = choose_split(
        tris,
        ti,
        first,
        count,
        &node.bounds,
        bin_size,
    );
    match choice {
        None => {
            proof {
                assert(subtree_nodes(nodes@, node_i as int) =~= Set::new(
                    |v: int| v == node_i as int || old(nodes)@.len() <= v < nodes@.len(),
                ));
            }
            return ;
        },
        Some((axis, split_bin, cmin2, cmax2)) => {
            let hi: usize = first + count;
            let mut mid: usize = partition_range(
                tris,
                ti,
                first,
                count,
                axis,
                cmin2,
                cmax2,
                split_bin,
                bin_size,
            );
            if mid == first || mid == hi {
                mid = first + count / 2;
            }
            let ghost ti1 = ti@;
            let lcount: usize = mid - first;
            let rcount: usize = count - lcount;
            let lbox: AABB = range_bounds(tris, ti, first, mid);
            let rbox: AABB = range_bounds(tris, ti, mid, hi);
            let l: usize = nodes.len();
            nodes.push(BVHNode { bounds: lbox, tri_count: lcount, left_first: first });
            nodes.push(BVHNode { bounds: rbox, tri_count: rcount, left_first: mid });
            let lnext: usize = nodes.len();
            let ridx: usize = lnext - 1;
            nodes.set(node_i, BVHNode { bounds: node.bounds, tri_count: 0, left_first: l });
            let ghost ns0 = nodes@;
            subdivide(tris, nodes, ti, l, first, lcount, bin_size);
            let ghost ns1 = nodes@;
            let ghost ti2 = ti@;
            proof {
                lemma_range_vals_frame(ti1, ti2, mid as int, hi as int);
            }
            subdivide(tris, nodes, ti, ridx, mid, rcount, bin_size);
            proof {
                lemma_assemble_split(
                    tris@,
                    old(ti)@,
                    ti1,
                    ti2,
                    ti@,
                    old(nodes)@,
                    ns0,
                    ns1,
                    nodes@,
                    node_i as int,
                    first as int,
                    mid as int,
                    hi as int,
                    lbox,
                    rbox,
                    node.bounds,
                );
            }
        },
    }
}

/// Build the hierarchy for a non-empty list of valid triangles whose exact
/// bounds the caller has already computed (see
/// [`crate::geometry::compute_bounds_from_triangles`]).
pub fn build_bvh(triangles: &Vec<Triangle>, bounds: &AABB, bin_size: usize) -> (r: BVH)
    requires
        valid_triangles(triangles@),
        1 <= triangles@.len(),
        tight_bounds(
            *bounds,
            triangles@,
            crate::geometry::idx_set(triangles@.len() as int),
        ),
        2 <= bin_size <= MAX_BIN_COUNT,
    ensures
        crate::bvh::built_from(r, triangles@, *bounds),
{
    let n: usize = triangles.len();
    let mut nodes: Vec<BVHNode> = Vec::new();
    nodes.push(BVHNode { bounds: *bounds, tri_count: n, left_first: 0 });
    let mut ti: Vec<usize> = Vec::new();
    for j in 0..n
        invariant
            ti@.len() == j,
            forall|k: int| 0 <= k < j ==> #[trigger] ti@[k] == k,
    {
        ti.push(j);
    }
    proof {
        assert(perm_ok(ti@, n as int));
        assert(range_vals(ti@, 0, n as int) =~= crate::geometry::idx_set(n as int)) by {
            assert forall|v: int| range_vals(ti@, 0, n as int).contains(v) implies crate::geometry::idx_set(
                n as int,
            ).contains(v) by {
                let j: int = choose|j: int|
                    0 <= j < n && 0 <= j < ti@.len() && (#[trigger] ti@[j]) as int == v;
            }
            assert forall|v: int| crate::geometry::idx_set(n as int).contains(v) implies range_vals(
                ti@,
                0,
                n as int,
            ).contains(v) by {
                assert(0 <= v < n && ti@[v] as int == v);
            }
        }
    }
    subdivide(triangles, &mut nodes, &mut ti, 0, 0, n, bin_size);
    proof {
        assert forall|i: int| 0 <= i < nodes@.len() implies subtree_nodes(nodes@, 0).contains(
            i,
        ) by {
            assert(subtree_nodes(nodes@, 0) == Set::new(
                |v: int| v == 0 || 1 <= v < nodes@.len(),
            ));
        }
    }
    BVH { bvh_nodes: nodes, triangle_idx: ti }
}

/// A fresh vector of zero counters sums to zero.
proof fn lemma_seq_sum_zero(s: Seq<usize>)
    requires
        forall|q: int| 0 <= q < s.len() ==> #[trigger] s[q] == 0usize,
    ensures
        seq_sum(s) == 0,
    decreases s.len(),
{
    if s.len() > 0 {
        lemma_seq_sum_zero(s.drop_last());
    }
}

/// One counter never exceeds the whole sum.
proof fn lemma_seq_sum_prefix_le_all(s: Seq<usize>, i: int)
    requires
        0 <= i < s.len(),
    ensures
        s[i] <= seq_sum(s),
{
    lemma_seq_sum_prefix_push(s, i);
    lemma_seq_sum_prefix_le(s, i + 1);
    lemma_seq_sum_nonneg(s.subrange(0, i));
}

} // verus!
