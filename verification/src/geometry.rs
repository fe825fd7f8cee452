//! Axis-aligned bounding boxes and triangles, with the exact (fixed-point)
//! growth, union, intersection and area operations the builder relies on,
//! and the conservative triangle/box overlap test.

use vstd::prelude::*;

verus! {

use crate::math::{
    Vec3,
    Dir3,
    COORD_LIMIT,
    valid_point,
    vec3_min,
    vec3_max,
    vec3_axis,
    imin,
    imax,
    min_i64,
    max_i64,
};

/// A triangle in world space, remembering its index in the mesh it came from.
#[derive(Clone, Copy, Debug)]
pub struct Triangle {
    pub tri_idx: u32,
    pub vertex0: Vec3,
    pub vertex1: Vec3,
    pub vertex2: Vec3,
}

/// An axis-aligned box. A valid box has `min_bound <= max_bound`
/// componentwise; the empty box keeps `min_bound` at `+COORD_LIMIT` and
/// `max_bound` at `-COORD_LIMIT` so that growing it with any in-range point
/// yields that point's box.
#[derive(Clone, Copy, Debug)]
pub struct AABB {
    pub min_bound: Vec3,
    pub max_bound: Vec3,
}

/// The identity element for `grow`: a box that contains nothing.
pub open spec fn empty_box() -> AABB {
    AABB {
        min_bound: Vec3 { x: COORD_LIMIT, y: COORD_LIMIT, z: COORD_LIMIT },
        max_bound: Vec3 { x: (-COORD_LIMIT) as i64, y: (-COORD_LIMIT) as i64, z: (-COORD_LIMIT) as i64 },
    }
}

/// Both corners of the box are in-range points.
pub open spec fn box_in_range(b: AABB) -> bool {
    valid_point(b.min_bound) && valid_point(b.max_bound)
}

/// A triangle whose three vertices are in-range points.
pub open spec fn valid_triangle(t: Triangle) -> bool {
    valid_point(t.vertex0) && valid_point(t.vertex1) && valid_point(t.vertex2)
}

/// Every triangle of the sequence is valid.
pub open spec fn valid_triangles(s: Seq<Triangle>) -> bool {
    forall|k: int| 0 <= k < s.len() ==> valid_triangle(#[trigger] s[k])
}

/// The point lies inside the closed box.
pub open spec fn point_in_box(p: Vec3, b: AABB) -> bool {
    &&& b.min_bound.x <= p.x <= b.max_bound.x
    &&& b.min_bound.y <= p.y <= b.max_bound.y
    &&& b.min_bound.z <= p.z <= b.max_bound.z
}

/// Box `inner` lies inside box `outer` (componentwise interval containment).
pub open spec fn box_in(inner: AABB, outer: AABB) -> bool {
    &&& outer.min_bound.x <= inner.min_bound.x
    &&& outer.min_bound.y <= inner.min_bound.y
    &&& outer.min_bound.z <= inner.min_bound.z
    &&& inner.max_bound.x <= outer.max_bound.x
    &&& inner.max_bound.y <= outer.max_bound.y
    &&& inner.max_bound.z <= outer.max_bound.z
}

/// The smallest box around both arguments.
pub open spec fn box_union(a: AABB, b: AABB) -> AABB {
    AABB { min_bound: vec3_min(a.min_bound, b.min_bound), max_bound: vec3_max(
        a.max_bound,
        b.max_bound,
    ) }
}

/// The (possibly empty, `min > max`) overlap of two boxes.
pub open spec fn box_intersection(a: AABB, b: AABB) -> AABB {
    AABB { min_bound: vec3_max(a.min_bound, b.min_bound), max_bound: vec3_min(
        a.max_bound,
        b.max_bound,
    ) }
}

/// The bounding box of a single triangle.
pub open spec fn tri_box(t: Triangle) -> AABB {
    AABB { min_bound: vec3_min(t.vertex0, vec3_min(t.vertex1, t.vertex2)), max_bound: vec3_max(
        t.vertex0,
        vec3_max(t.vertex1, t.vertex2),
    ) }
}

/// Surface-area metric of a box: twice the half-area `xy + xz + yz` of its
/// extents would be proportional to this; only ratios matter to the SAH, so
/// the factor two is dropped, and the result is floored at zero so that
/// degenerate boxes never contribute a negative area.
pub open spec fn area_of(b: AABB) -> int {
    let ex = b.max_bound.x - b.min_bound.x;
    let ey = b.max_bound.y - b.min_bound.y;
    let ez = b.max_bound.z - b.min_bound.z;
    imax(0, ex * ey + ex * ez + ey * ez)
}

/// The box encloses the bounding box of triangle `tris[k]` for every index
/// `k` in the set.
pub open spec fn encloses(b: AABB, tris: Seq<Triangle>, s: Set<int>) -> bool {
    forall|k: int| #[trigger] s.contains(k) ==> box_in(tri_box(tris[k]), b)
}

/// Each of the six faces of the box is touched by the bounding box of some
/// triangle whose index lies in the set.
pub open spec fn faces_touched(b: AABB, tris: Seq<Triangle>, s: Set<int>) -> bool {
    &&& exists|k: int| #[trigger] s.contains(k) && tri_box(tris[k]).min_bound.x == b.min_bound.x
    &&& exists|k: int| #[trigger] s.contains(k) && tri_box(tris[k]).min_bound.y == b.min_bound.y
    &&& exists|k: int| #[trigger] s.contains(k) && tri_box(tris[k]).min_bound.z == b.min_bound.z
    &&& exists|k: int| #[trigger] s.contains(k) && tri_box(tris[k]).max_bound.x == b.max_bound.x
    &&& exists|k: int| #[trigger] s.contains(k) && tri_box(tris[k]).max_bound.y == b.max_bound.y
    &&& exists|k: int| #[trigger] s.contains(k) && tri_box(tris[k]).max_bound.z == b.max_bound.z
}

/// `b` is exactly the union of the bounding boxes of the triangles whose
/// indices lie in `s`: it encloses each of them, and every face is achieved.
/// For a non-empty set this pins `b` down uniquely.
pub open spec fn tight_bounds(b: AABB, tris: Seq<Triangle>, s: Set<int>) -> bool {
    &&& (forall|k: int| #[trigger] s.contains(k) ==> 0 <= k < tris.len())
    &&& encloses(b, tris, s)
    &&& faces_touched(b, tris, s)
}

/// The index set `{0, ..., n-1}`.
pub open spec fn idx_set(n: int) -> Set<int> {
    Set::new(|v: int| 0 <= v < n)
}

/// Two boxes that are both tight over the same non-empty index set are the
/// same box.
pub proof fn lemma_tight_unique(b1: AABB, b2: AABB, tris: Seq<Triangle>, s: Set<int>)
    requires
        tight_bounds(b1, tris, s),
        tight_bounds(b2, tris, s),
    ensures
        b1 == b2,
{
    assert(b1.min_bound.x == b2.min_bound.x) by {
        let k1: int = choose|k: int|
            #[trigger] s.contains(k) && tri_box(tris[k]).min_bound.x == b1.min_bound.x;
        let k2: int = choose|k: int|
            #[trigger] s.contains(k) && tri_box(tris[k]).min_bound.x == b2.min_bound.x;
        assert(box_in(tri_box(tris[k1]), b2));
        assert(box_in(tri_box(tris[k2]), b1));
    }
    assert(b1.min_bound.y == b2.min_bound.y) by {
        let k1: int = choose|k: int|
            #[trigger] s.contains(k) && tri_box(tris[k]).min_bound.y == b1.min_bound.y;
        let k2: int = choose|k: int|
            #[trigger] s.contains(k) && tri_box(tris[k]).min_bound.y == b2.min_bound.y;
        assert(box_in(tri_box(tris[k1]), b2));
        assert(box_in(tri_box(tris[k2]), b1));
    }
    assert(b1.min_bound.z == b2.min_bound.z) by {
        let k1: int = choose|k: int|
            #[trigger] s.contains(k) && tri_box(tris[k]).min_bound.z == b1.min_bound.z;
        let k2: int = choose|k: int|
            #[trigger] s.contains(k) && tri_box(tris[k]).min_bound.z == b2.min_bound.z;
        assert(box_in(tri_box(tris[k1]), b2));
        assert(box_in(tri_box(tris[k2]), b1));
    }
    assert(b1.max_bound.x == b2.max_bound.x) by {
        let k1: int = choose|k: int|
            #[trigger] s.contains(k) && tri_box(tris[k]).max_bound.x == b1.max_bound.x;
        let k2: int = choose|k: int|
            #[trigger] s.contains(k) && tri_box(tris[k]).max_bound.x == b2.max_bound.x;
        assert(box_in(tri_box(tris[k1]), b2));
        assert(box_in(tri_box(tris[k2]), b1));
    }
    assert(b1.max_bound.y == b2.max_bound.y) by {
        let k1: int = choose|k: int|
            #[trigger] s.contains(k) && tri_box(tris[k]).max_bound.y == b1.max_bound.y;
        let k2: int = choose|k: int|
            #[trigger] s.contains(k) && tri_box(tris[k]).max_bound.y == b2.max_bound.y;
        assert(box_in(tri_box(tris[k1]), b2));
        assert(box_in(tri_box(tris[k2]), b1));
    }
    assert(b1.max_bound.z == b2.max_bound.z) by {
        let k1: int = choose|k: int|
            #[trigger] s.contains(k) && tri_box(tris[k]).max_bound.z == b1.max_bound.z;
        let k2: int = choose|k: int|
            #[trigger] s.contains(k) && tri_box(tris[k]).max_bound.z == b2.max_bound.z;
        assert(box_in(tri_box(tris[k1]), b2));
        assert(box_in(tri_box(tris[k2]), b1));
    }
    assert(b1.min_bound == b2.min_bound);
    assert(b1.max_bound == b2.max_bound);
}

/// The union of two tight boxes is tight over the union of their index sets.
pub proof fn lemma_tight_union(
    bl: AABB,
    br: AABB,
    tris: Seq<Triangle>,
    sl: Set<int>,
    sr: Set<int>,
)
    requires
        tight_bounds(bl, tris, sl),
        tight_bounds(br, tris, sr),
    ensures
        tight_bounds(box_union(bl, br), tris, sl.union(sr)),
{
    let u = box_union(bl, br);
    assert forall|k: int| #[trigger] sl.union(sr).contains(k) implies box_in(tri_box(tris[k]), u)
        && 0 <= k < tris.len() by {
        if sl.contains(k) {
            assert(box_in(tri_box(tris[k]), bl));
        } else {
            assert(sr.contains(k));
            assert(box_in(tri_box(tris[k]), br));
        }
    }
    assert(faces_touched(u, tris, sl.union(sr))) by {
        let side_minx = if bl.min_bound.x <= br.min_bound.x { sl } else { sr };
        let wit_minx = if bl.min_bound.x <= br.min_bound.x { bl } else { br };
        let k1: int = choose|k: int|
            #[trigger] side_minx.contains(k) && tri_box(tris[k]).min_bound.x == wit_minx.min_bound.x;
        assert(sl.union(sr).contains(k1) && tri_box(tris[k1]).min_bound.x == u.min_bound.x);
        let side_miny = if bl.min_bound.y <= br.min_bound.y { sl } else { sr };
        let wit_miny = if bl.min_bound.y <= br.min_bound.y { bl } else { br };
        let k2: int = choose|k: int|
            #[trigger] side_miny.contains(k) && tri_box(tris[k]).min_bound.y == wit_miny.min_bound.y;
        assert(sl.union(sr).contains(k2) && tri_box(tris[k2]).min_bound.y == u.min_bound.y);
        let side_minz = if bl.min_bound.z <= br.min_bound.z { sl } else { sr };
        let wit_minz = if bl.min_bound.z <= br.min_bound.z { bl } else { br };
        let k3: int = choose|k: int|
            #[trigger] side_minz.contains(k) && tri_box(tris[k]).min_bound.z == wit_minz.min_bound.z;
        assert(sl.union(sr).contains(k3) && tri_box(tris[k3]).min_bound.z == u.min_bound.z);
        let side_maxx = if bl.max_bound.x >= br.max_bound.x { sl } else { sr };
        let wit_maxx = if bl.max_bound.x >= br.max_bound.x { bl } else { br };
        let k4: int = choose|k: int|
            #[trigger] side_maxx.contains(k) && tri_box(tris[k]).max_bound.x == wit_maxx.max_bound.x;
        assert(sl.union(sr).contains(k4) && tri_box(tris[k4]).max_bound.x == u.max_bound.x);
        let side_maxy = if bl.max_bound.y >= br.max_bound.y { sl } else { sr };
        let wit_maxy = if bl.max_bound.y >= br.max_bound.y { bl } else { br };
        let k5: int = choose|k: int|
            #[trigger] side_maxy.contains(k) && tri_box(tris[k]).max_bound.y == wit_maxy.max_bound.y;
        assert(sl.union(sr).contains(k5) && tri_box(tris[k5]).max_bound.y == u.max_bound.y);
        let side_maxz = if bl.max_bound.z >= br.max_bound.z { sl } else { sr };
        let wit_maxz = if bl.max_bound.z >= br.max_bound.z { bl } else { br };
        let k6: int = choose|k: int|
            #[trigger] side_maxz.contains(k) && tri_box(tris[k]).max_bound.z == wit_maxz.max_bound.z;
        assert(sl.union(sr).contains(k6) && tri_box(tris[k6]).max_bound.z == u.max_bound.z);
    }
}

/// A tight box over a set of valid triangles has in-range corners and
/// nothing below its minima or above its maxima.
pub proof fn lemma_tight_in_range(b: AABB, tris: Seq<Triangle>, s: Set<int>)
    requires
        tight_bounds(b, tris, s),
        valid_triangles(tris),
    ensures
        box_in_range(b),
        b.min_bound.x <= b.max_bound.x,
        b.min_bound.y <= b.max_bound.y,
        b.min_bound.z <= b.max_bound.z,
{
    let k1: int = choose|k: int|
        #[trigger] s.contains(k) && tri_box(tris[k]).min_bound.x == b.min_bound.x;
    assert(valid_triangle(tris[k1]) && box_in(tri_box(tris[k1]), b));
    let k2: int = choose|k: int|
        #[trigger] s.contains(k) && tri_box(tris[k]).min_bound.y == b.min_bound.y;
    assert(valid_triangle(tris[k2]) && box_in(tri_box(tris[k2]), b));
    let k3: int = choose|k: int|
        #[trigger] s.contains(k) && tri_box(tris[k]).min_bound.z == b.min_bound.z;
    assert(valid_triangle(tris[k3]) && box_in(tri_box(tris[k3]), b));
    let k4: int = choose|k: int|
        #[trigger] s.contains(k) && tri_box(tris[k]).max_bound.x == b.max_bound.x;
    assert(valid_triangle(tris[k4]) && box_in(tri_box(tris[k4]), b));
    let k5: int = choose|k: int|
        #[trigger] s.contains(k) && tri_box(tris[k]).max_bound.y == b.max_bound.y;
    assert(valid_triangle(tris[k5]) && box_in(tri_box(tris[k5]), b));
    let k6: int = choose|k: int|
        #[trigger] s.contains(k) && tri_box(tris[k]).max_bound.z == b.max_bound.z;
    assert(valid_triangle(tris[k6]) && box_in(tri_box(tris[k6]), b));
}

impl AABB {
    /// The box that contains nothing, ready to be grown.
    pub fn from_empty() -> (r: AABB)
        ensures
            r == empty_box(),
    {
        AABB { min_bound: Vec3::from_a(COORD_LIMIT), max_bound: Vec3::from_a(-COORD_LIMIT) }
    }

    /// A box with the given corners.
    pub fn from_bounds(min_bound: &Vec3, max_bound: &Vec3) -> (r: AABB)
        ensures
            r.min_bound == *min_bound,
            r.max_bound == *max_bound,
    {
        AABB { min_bound: *min_bound, max_bound: *max_bound }
    }

    /// Forget the contents: back to the empty box.
    pub fn reset(&mut self)
        ensures
            *final(self) == empty_box(),
    {
        self.min_bound = Vec3::from_a(COORD_LIMIT);
        self.max_bound = Vec3::from_a(-COORD_LIMIT);
    }

    /// Closed-box membership, phrased over the differences to the corners.
    pub fn contains(&self, vector: &Vec3) -> (r: bool)
        requires
            box_in_range(*self),
            valid_point(*vector),
        ensures
            r == point_in_box(*vector, *self),
    {
        let p = *vector;
        let vax: i64 = p.x - self.min_bound.x;
        let vay: i64 = p.y - self.min_bound.y;
        let vaz: i64 = p.z - self.min_bound.z;
        let vbx: i64 = self.max_bound.x - p.x;
        let vby: i64 = self.max_bound.y - p.y;
        let vbz: i64 = self.max_bound.z - p.z;
        vax >= 0 && vay >= 0 && vaz >= 0 && vbx >= 0 && vby >= 0 && vbz >= 0
    }

    /// Closed-box membership, phrased over direct comparisons. Agrees with
    /// `contains` wherever both apply.
    pub fn contains2(&self, vector: &Vec3) -> (r: bool)
        ensures
            r == point_in_box(*vector, *self),
    {
        self.min_bound.x <= vector.x && self.min_bound.y <= vector.y && self.min_bound.z
            <= vector.z && self.max_bound.x >= vector.x && self.max_bound.y >= vector.y
            && self.max_bound.z >= vector.z
    }

    /// Extend this box to cover another box as well.
    pub fn grow_aabb(&mut self, bb: &AABB)
        ensures
            *final(self) == box_union(*old(self), *bb),
    {
        self.min_bound = self.min_bound.min(&bb.min_bound);
        self.max_bound = self.max_bound.max(&bb.max_bound);
    }

    /// Extend this box to cover a point as well.
    pub fn grow(&mut self, vector: &Vec3)
        ensures
            final(self).min_bound == vec3_min(old(self).min_bound, *vector),
            final(self).max_bound == vec3_max(old(self).max_bound, *vector),
    {
        self.min_bound = self.min_bound.min(vector);
        self.max_bound = self.max_bound.max(vector);
    }

    /// The smallest box around this box and another; neither argument moves.
    pub fn union(&self, other: &AABB) -> (r: AABB)
        ensures
            r == box_union(*self, *other),
    {
        let min_bound = self.min_bound.min(&other.min_bound);
        let max_bound = self.max_bound.max(&other.max_bound);
        AABB { min_bound, max_bound }
    }

    /// The overlap of this box and another; the result may have `min > max`
    /// on any axis, which signals an empty overlap and is for the caller to
    /// check.
    pub fn intersection(&self, other: &AABB) -> (r: AABB)
        ensures
            r == box_intersection(*self, *other),
    {
        let min_bound = self.min_bound.max(&other.min_bound);
        let max_bound = self.max_bound.min(&other.max_bound);
        AABB { min_bound, max_bound }
    }

    /// Extent along the x axis.
    pub fn extend_x(&self) -> (r: i64)
        requires
            box_in_range(*self),
        ensures
            r as int == self.max_bound.x - self.min_bound.x,
    {
        self.max_bound.x - self.min_bound.x
    }

    /// Extent along the y axis.
    pub fn extend_y(&self) -> (r: i64)
        requires
            box_in_range(*self),
        ensures
            r as int == self.max_bound.y - self.min_bound.y,
    {
        self.max_bound.y - self.min_bound.y
    }

    /// Extent along the z axis.
    pub fn extend_z(&self) -> (r: i64)
        requires
            box_in_range(*self),
        ensures
            r as int == self.max_bound.z - self.min_bound.z,
    {
        self.max_bound.z - self.min_bound.z
    }

    /// The SAH area metric, floored at zero.
    pub fn area(&self) -> (r: i64)
        requires
            box_in_range(*self),
        ensures
            r as int == area_of(*self),
    {
        let ex: i64 = self.max_bound.x - self.min_bound.x;
        let ey: i64 = self.max_bound.y - self.min_bound.y;
        let ez: i64 = self.max_bound.z - self.min_bound.z;
        proof {
            lemma_extent_product_bounded(ex as int, ey as int);
            lemma_extent_product_bounded(ex as int, ez as int);
            lemma_extent_product_bounded(ey as int, ez as int);
        }
        max_i64(0, ex * ey + ex * ez + ey * ez)
    }

    /// Replace both corners.
    pub fn set_bounds(&mut self, max_bound: &Vec3, min_bound: &Vec3)
        ensures
            final(self).min_bound == *min_bound,
            final(self).max_bound == *max_bound,
    {
        self.min_bound = *min_bound;
        self.max_bound = *max_bound;
    }

    /// Twice the center coordinate on the given axis: exact where halving
    /// would round. Any axis other than 0, 1, 2 is a usage error and is
    /// excluded by the contract.
    pub fn center2(&self, axis: usize) -> (r: i64)
        requires
            axis < 3,
            box_in_range(*self),
        ensures
            r as int == vec3_axis(self.min_bound, axis as int) + vec3_axis(
                self.max_bound,
                axis as int,
            ),
    {
        self.min_bound.axis(axis) + self.max_bound.axis(axis)
    }

    /// The center coordinate on the given axis, rounded toward zero.
    pub fn center(&self, axis: usize) -> (r: i64)
        requires
            axis < 3,
            box_in_range(*self),
        ensures
            r as int == half_toward_zero(
                vec3_axis(self.min_bound, axis as int) + vec3_axis(self.max_bound, axis as int),
            ),
    {
        let s: i64 = self.min_bound.axis(axis) + self.max_bound.axis(axis);
        if s >= 0 {
            ((s as u64) / 2u64) as i64
        } else {
            -((((-s) as u64) / 2u64) as i64)
        }
    }

    /// The minimum coordinate on the given axis; other axes are a usage
    /// error excluded by the contract.
    pub fn minimal(&self, axis: usize) -> (r: i64)
        requires
            axis < 3,
        ensures
            r as int == vec3_axis(self.min_bound, axis as int),
    {
        self.min_bound.axis(axis)
    }

    /// The maximum coordinate on the given axis; other axes are a usage
    /// error excluded by the contract.
    pub fn maximal(&self, axis: usize) -> (r: i64)
        requires
            axis < 3,
        ensures
            r as int == vec3_axis(self.max_bound, axis as int),
    {
        self.max_bound.axis(axis)
    }
}

/// The product of two in-range box extents stays far inside the machine
/// range.
pub proof fn lemma_extent_product_bounded(a: int, b: int)
    requires
        -2 * COORD_LIMIT <= a <= 2 * COORD_LIMIT,
        -2 * COORD_LIMIT <= b <= 2 * COORD_LIMIT,
    ensures
        -0x40000000000 <= a * b <= 0x40000000000,
{
    assert(-0x40000000000 <= a * b <= 0x40000000000) by (nonlinear_arith)
        requires
            -0x200000 <= a <= 0x200000,
            -0x200000 <= b <= 0x200000,
    ;
}

/// The bounding box of a valid triangle is in range and properly ordered.
pub proof fn lemma_tri_box_in_range(t: Triangle)
    requires
        valid_triangle(t),
    ensures
        box_in_range(tri_box(t)),
        tri_box(t).min_bound.x <= tri_box(t).max_bound.x,
        tri_box(t).min_bound.y <= tri_box(t).max_bound.y,
        tri_box(t).min_bound.z <= tri_box(t).max_bound.z,
{
}

/// The area metric of an in-range box stays well below the machine range.
pub proof fn lemma_area_bounded(b: AABB)
    requires
        box_in_range(b),
    ensures
        0 <= area_of(b) <= 0xC0000000000,
{
    let ex = b.max_bound.x - b.min_bound.x;
    let ey = b.max_bound.y - b.min_bound.y;
    let ez = b.max_bound.z - b.min_bound.z;
    lemma_extent_product_bounded(ex, ey);
    lemma_extent_product_bounded(ex, ez);
    lemma_extent_product_bounded(ey, ez);
}

/// Half of `s`, rounded toward zero.
pub open spec fn half_toward_zero(s: int) -> int {
    if s >= 0 {
        s / 2
    } else {
        -((-s) / 2)
    }
}

/// The bounding box of a triangle, as a value.
pub fn triangle_bounds(t: &Triangle) -> (b: AABB)
    ensures
        b == tri_box(*t),
{
    let lo = t.vertex0.min(&t.vertex1.min(&t.vertex2));
    let hi = t.vertex0.max(&t.vertex1.max(&t.vertex2));
    AABB { min_bound: lo, max_bound: hi }
}

/// The exact union of all the triangles' bounding boxes; the empty box if
/// there are none.
pub fn compute_bounds_from_triangles(triangles: &Vec<Triangle>) -> (b: AABB)
    requires
        valid_triangles(triangles@),
    ensures
        triangles.len() == 0 ==> b == empty_box(),
        triangles.len() > 0 ==> tight_bounds(b, triangles@, idx_set(triangles.len() as int)),
{
    let mut bounds = AABB::from_empty();
    let n: usize = triangles.len();
    for t in 0..n
        invariant
            n == triangles.len(),
            valid_triangles(triangles@),
            t == 0 ==> bounds == empty_box(),
            t > 0 ==> tight_bounds(bounds, triangles@, idx_set(t as int)),
    {
        let tb = triangle_bounds(&triangles[t]);
        let ghost prev = bounds;
        bounds.grow_aabb(&tb);
        proof {
            let s_new = idx_set(t + 1);
            assert(s_new.contains(t as int));
            if t == 0 {
                assert forall|k: int| #[trigger] s_new.contains(k) implies box_in(
                    tri_box(triangles@[k]),
                    bounds,
                ) && 0 <= k < triangles@.len() by {
                    assert(k == 0);
                    assert(valid_triangle(triangles@[0]));
                }
                assert(tri_box(triangles@[0]).min_bound.x == bounds.min_bound.x);
                assert(tri_box(triangles@[0]).min_bound.y == bounds.min_bound.y);
                assert(tri_box(triangles@[0]).min_bound.z == bounds.min_bound.z);
                assert(tri_box(triangles@[0]).max_bound.x == bounds.max_bound.x);
                assert(tri_box(triangles@[0]).max_bound.y == bounds.max_bound.y);
                assert(tri_box(triangles@[0]).max_bound.z == bounds.max_bound.z);
            } else {
                let s_tri = Set::new(|v: int| v == t as int);
                assert(s_tri.contains(t as int));
                assert(tight_bounds(tb, triangles@, s_tri)) by {
                    assert(valid_triangle(triangles@[t as int]));
                    assert forall|k: int| #[trigger] s_tri.contains(k) implies box_in(
                        tri_box(triangles@[k]),
                        tb,
                    ) && 0 <= k < triangles@.len() by {
                        assert(k == t as int);
                    }
                }
                lemma_tight_union(prev, tb, triangles@, idx_set(t as int), s_tri);
                assert(idx_set(t as int).union(s_tri) =~= s_new);
            }
        }
    }
    bounds
}

/// Largest component magnitude accepted for the (unnormalized) triangle
/// normals handed to the overlap test. Cross products of valid positions
/// stay far below this.
pub const DIR_LIMIT: i128 = 0x20000000000000;

/// The normal's components are all within `DIR_LIMIT`.
pub open spec fn dir_in_range(d: Dir3) -> bool {
    &&& -DIR_LIMIT <= d.x <= DIR_LIMIT
    &&& -DIR_LIMIT <= d.y <= DIR_LIMIT
    &&& -DIR_LIMIT <= d.z <= DIR_LIMIT
}

/// A product of two scalars is bounded by the product of their bounds.
pub proof fn lemma_mul_bound(a: int, b: int, ma: int, mb: int)
    requires
        -ma <= a <= ma,
        -mb <= b <= mb,
        0 <= ma,
        0 <= mb,
    ensures
        -(ma * mb) <= a * b <= ma * mb,
{
    assert(-(ma * mb) <= a * b <= ma * mb) by (nonlinear_arith)
        requires
            -ma <= a <= ma,
            -mb <= b <= mb,
            0 <= ma,
            0 <= mb,
    ;
}

/// A product is positive exactly when its factors share a strict sign.
pub proof fn lemma_mul_pos(a: int, b: int)
    ensures
        (a * b > 0) <==> ((a > 0 && b > 0) || (a < 0 && b < 0)),
{
    assert((a * b > 0) <==> ((a > 0 && b > 0) || (a < 0 && b < 0))) by (nonlinear_arith);
}

/// One of the three principal-plane edge-function tests of the conservative
/// triangle/box overlap predicate, over exact scalars. The triangle's
/// projected edges are turned into inward edge normals (flipped when the
/// triangle normal's out-of-plane component is negative), each offset by the
/// positive part of the box diagonal's contribution; the projected box
/// corner must be on the non-negative side of all three edge functions.
pub open spec fn plane_edge_test(
    normal_axis: int,
    e0x: int,
    e0y: int,
    e1x: int,
    e1y: int,
    e2x: int,
    e2y: int,
    v0x: int,
    v0y: int,
    v1x: int,
    v1y: int,
    v2x: int,
    v2y: int,
    dpx: int,
    dpy: int,
    px: int,
    py: int,
) -> bool {
    let m = if normal_axis < 0 {
        -1
    } else {
        1
    };
    let ne0x = -e0y * m;
    let ne0y = e0x * m;
    let ne1x = -e1y * m;
    let ne1y = e1x * m;
    let ne2x = -e2y * m;
    let ne2y = e2x * m;
    let de0 = -(ne0x * v0x + ne0y * v0y) + imax(0, dpx * ne0x) + imax(0, dpy * ne0y);
    let de1 = -(ne1x * v1x + ne1y * v1y) + imax(0, dpx * ne1x) + imax(0, dpy * ne1y);
    let de2 = -(ne2x * v2x + ne2y * v2y) + imax(0, dpx * ne2x) + imax(0, dpy * ne2y);
    !((ne0x * px + ne0y * py + de0) < 0 || (ne1x * px + ne1y * py + de1) < 0 || (ne2x * px + ne2y
        * py + de2) < 0)
}

/// The conservative overlap predicate between a box and a triangle with the
/// given (unnormalized) normal: reject boxes entirely on one side of the
/// triangle's plane, then require all three projected edge tests to pass.
pub open spec fn overlaps_aabb_triangle(aabb: AABB, t: Triangle, n: Dir3) -> bool {
    let p = aabb.min_bound;
    let dpx = aabb.max_bound.x - p.x;
    let dpy = aabb.max_bound.y - p.y;
    let dpz = aabb.max_bound.z - p.z;
    let cx: int = if n.x > 0 {
        dpx
    } else {
        0
    };
    let cy: int = if n.y > 0 {
        dpy
    } else {
        0
    };
    let cz: int = if n.z > 0 {
        dpz
    } else {
        0
    };
    let d1 = n.x * (cx - t.vertex0.x) + n.y * (cy - t.vertex0.y) + n.z * (cz - t.vertex0.z);
    let d2 = n.x * (dpx - cx - t.vertex0.x) + n.y * (dpy - cy - t.vertex0.y) + n.z * (dpz - cz
        - t.vertex0.z);
    let np = n.x * p.x + n.y * p.y + n.z * p.z;
    if (np + d1) * (np + d2) > 0 {
        false
    } else {
        let e0x = t.vertex1.x - t.vertex0.x;
        let e0y = t.vertex1.y - t.vertex0.y;
        let e0z = t.vertex1.z - t.vertex0.z;
        let e1x = t.vertex2.x - t.vertex0.x;
        let e1y = t.vertex2.y - t.vertex0.y;
        let e1z = t.vertex2.z - t.vertex0.z;
        let e2x = t.vertex2.x - t.vertex1.x;
        let e2y = t.vertex2.y - t.vertex1.y;
        let e2z = t.vertex2.z - t.vertex1.z;
        plane_edge_test(
            n.z as int,
            e0x,
            e0y,
            e1x,
            e1y,
            e2x,
            e2y,
            t.vertex0.x as int,
            t.vertex0.y as int,
            t.vertex1.x as int,
            t.vertex1.y as int,
            t.vertex2.x as int,
            t.vertex2.y as int,
            dpx,
            dpy,
            p.x as int,
            p.y as int,
        ) && plane_edge_test(
            n.x as int,
            e0y,
            e0z,
            e1y,
            e1z,
            e2y,
            e2z,
            t.vertex0.y as int,
            t.vertex0.z as int,
            t.vertex1.y as int,
            t.vertex1.z as int,
            t.vertex2.y as int,
            t.vertex2.z as int,
            dpy,
            dpz,
            p.y as int,
            p.z as int,
        ) && plane_edge_test(
            n.y as int,
            e0z,
            e0x,
            e1z,
            e1x,
            e2z,
            e2x,
            t.vertex0.z as int,
            t.vertex0.x as int,
            t.vertex1.z as int,
            t.vertex1.x as int,
            t.vertex2.z as int,
            t.vertex2.x as int,
            dpz,
            dpx,
            p.z as int,
            p.x as int,
        )
    }
}

/// One projected edge-function test, exactly as `plane_edge_test` states it.
fn test_plane_intersection(
    normal_axis: i128,
    e0x: i64,
    e0y: i64,
    e1x: i64,
    e1y: i64,
    e2x: i64,
    e2y: i64,
    v0x: i64,
    v0y: i64,
    v1x: i64,
    v1y: i64,
    v2x: i64,
    v2y: i64,
    dpx: i64,
    dpy: i64,
    px: i64,
    py: i64,
) -> (r: bool)
    requires
        -4 * COORD_LIMIT <= e0x <= 4 * COORD_LIMIT,
        -4 * COORD_LIMIT <= e0y <= 4 * COORD_LIMIT,
        -4 * COORD_LIMIT <= e1x <= 4 * COORD_LIMIT,
        -4 * COORD_LIMIT <= e1y <= 4 * COORD_LIMIT,
        -4 * COORD_LIMIT <= e2x <= 4 * COORD_LIMIT,
        -4 * COORD_LIMIT <= e2y <= 4 * COORD_LIMIT,
        -4 * COORD_LIMIT <= v0x <= 4 * COORD_LIMIT,
        -4 * COORD_LIMIT <= v0y <= 4 * COORD_LIMIT,
        -4 * COORD_LIMIT <= v1x <= 4 * COORD_LIMIT,
        -4 * COORD_LIMIT <= v1y <= 4 * COORD_LIMIT,
        -4 * COORD_LIMIT <= v2x <= 4 * COORD_LIMIT,
        -4 * COORD_LIMIT <= v2y <= 4 * COORD_LIMIT,
        -4 * COORD_LIMIT <= dpx <= 4 * COORD_LIMIT,
        -4 * COORD_LIMIT <= dpy <= 4 * COORD_LIMIT,
        -4 * COORD_LIMIT <= px <= 4 * COORD_LIMIT,
        -4 * COORD_LIMIT <= py <= 4 * COORD_LIMIT,
    ensures
        r == plane_edge_test(
            normal_axis as int,
            e0x as int,
            e0y as int,
            e1x as int,
            e1y as int,
            e2x as int,
            e2y as int,
            v0x as int,
            v0y as int,
            v1x as int,
            v1y as int,
            v2x as int,
            v2y as int,
            dpx as int,
            dpy as int,
            px as int,
            py as int,
        ),
{
    let neg: bool = normal_axis < 0;
    let ne0x: i128 = if neg {
        e0y as i128
    } else {
        -(e0y as i128)
    };
    let ne0y: i128 = if neg {
        -(e0x as i128)
    } else {
        e0x as i128
    };
    let ne1x: i128 = if neg {
        e1y as i128
    } else {
        -(e1y as i128)
    };
    let ne1y: i128 = if neg {
        -(e1x as i128)
    } else {
        e1x as i128
    };
    let ne2x: i128 = if neg {
        e2y as i128
    } else {
        -(e2y as i128)
    };
    let ne2y: i128 = if neg {
        -(e2x as i128)
    } else {
        e2x as i128
    };
    proof {
        let m: int = if neg {
            -1
        } else {
            1
        };
        assert(ne0x as int == -(e0y as int) * m && ne0y as int == (e0x as int) * m && ne1x as int
            == -(e1y as int) * m && ne1y as int == (e1x as int) * m && ne2x as int == -(e2y as int) * m && ne2y as int == (
        e2x as int) * m) by (nonlinear_arith)
            requires
                m == (if neg { -1int } else { 1int }),
                ne0x as int == (if neg { e0y as int } else { -(e0y as int) }),
                ne0y as int == (if neg { -(e0x as int) } else { e0x as int }),
                ne1x as int == (if neg { e1y as int } else { -(e1y as int) }),
                ne1y as int == (if neg { -(e1x as int) } else { e1x as int }),
                ne2x as int == (if neg { e2y as int } else { -(e2y as int) }),
                ne2y as int == (if neg { -(e2x as int) } else { e2x as int }),
        ;
        lemma_mul_bound(ne0x as int, v0x as int, 0x400000, 0x400000);
        lemma_mul_bound(ne0y as int, v0y as int, 0x400000, 0x400000);
        lemma_mul_bound(ne1x as int, v1x as int, 0x400000, 0x400000);
        lemma_mul_bound(ne1y as int, v1y as int, 0x400000, 0x400000);
        lemma_mul_bound(ne2x as int, v2x as int, 0x400000, 0x400000);
        lemma_mul_bound(ne2y as int, v2y as int, 0x400000, 0x400000);
        lemma_mul_bound(dpx as int, ne0x as int, 0x400000, 0x400000);
        lemma_mul_bound(dpy as int, ne0y as int, 0x400000, 0x400000);
        lemma_mul_bound(dpx as int, ne1x as int, 0x400000, 0x400000);
        lemma_mul_bound(dpy as int, ne1y as int, 0x400000, 0x400000);
        lemma_mul_bound(dpx as int, ne2x as int, 0x400000, 0x400000);
        lemma_mul_bound(dpy as int, ne2y as int, 0x400000, 0x400000);
        lemma_mul_bound(ne0x as int, px as int, 0x400000, 0x400000);
        lemma_mul_bound(ne0y as int, py as int, 0x400000, 0x400000);
        lemma_mul_bound(ne1x as int, px as int, 0x400000, 0x400000);
        lemma_mul_bound(ne1y as int, py as int, 0x400000, 0x400000);
        lemma_mul_bound(ne2x as int, px as int, 0x400000, 0x400000);
        lemma_mul_bound(ne2y as int, py as int, 0x400000, 0x400000);
    }
    let de0: i128 = -(ne0x * (v0x as i128) + ne0y * (v0y as i128)) + pos_part(
        (dpx as i128) * ne0x,
    ) + pos_part((dpy as i128) * ne0y);
    let de1: i128 = -(ne1x * (v1x as i128) + ne1y * (v1y as i128)) + pos_part(
        (dpx as i128) * ne1x,
    ) + pos_part((dpy as i128) * ne1y);
    let de2: i128 = -(ne2x * (v2x as i128) + ne2y * (v2y as i128)) + pos_part(
        (dpx as i128) * ne2x,
    ) + pos_part((dpy as i128) * ne2y);
    if (ne0x * (px as i128) + ne0y * (py as i128) + de0) < 0 || (ne1x * (px as i128) + ne1y * (py
        as i128) + de1) < 0 || (ne2x * (px as i128) + ne2y * (py as i128) + de2) < 0 {
        return false;
    }
    true
}

/// The non-negative part of a scalar: `max(0, v)`.
fn pos_part(v: i128) -> (r: i128)
    ensures
        r as int == imax(0, v as int),
{
    if v > 0 {
        v
    } else {
        0
    }
}

/// Conservative overlap between a box and a triangle, given the triangle's
/// (unnormalized) normal. The predicate is exact: the result equals
/// `overlaps_aabb_triangle` on the same arguments.
pub fn intersect_aabb_triangle(aabb: &AABB, triangle: &Triangle, triangle_normal: &Dir3) -> (r:
    bool)
    requires
        box_in_range(*aabb),
        valid_triangle(*triangle),
        dir_in_range(*triangle_normal),
    ensures
        r == overlaps_aabb_triangle(*aabb, *triangle, *triangle_normal),
{
    let n = triangle_normal;
    let p = aabb.min_bound;
    let dpx: i64 = aabb.max_bound.x - p.x;
    let dpy: i64 = aabb.max_bound.y - p.y;
    let dpz: i64 = aabb.max_bound.z - p.z;
    let cx: i64 = if n.x > 0 {
        dpx
    } else {
        0
    };
    let cy: i64 = if n.y > 0 {
        dpy
    } else {
        0
    };
    let cz: i64 = if n.z > 0 {
        dpz
    } else {
        0
    };
    proof {
        lemma_mul_bound(n.x as int, (cx - triangle.vertex0.x) as int, 0x20000000000000, 0x400000);
        lemma_mul_bound(n.y as int, (cy - triangle.vertex0.y) as int, 0x20000000000000, 0x400000);
        lemma_mul_bound(n.z as int, (cz - triangle.vertex0.z) as int, 0x20000000000000, 0x400000);
        lemma_mul_bound(n.x as int, (dpx - cx - triangle.vertex0.x) as int, 0x20000000000000, 0x400000);
        lemma_mul_bound(n.y as int, (dpy - cy - triangle.vertex0.y) as int, 0x20000000000000, 0x400000);
        lemma_mul_bound(n.z as int, (dpz - cz - triangle.vertex0.z) as int, 0x20000000000000, 0x400000);
        lemma_mul_bound(n.x as int, p.x as int, 0x20000000000000, 0x400000);
        lemma_mul_bound(n.y as int, p.y as int, 0x20000000000000, 0x400000);
        lemma_mul_bound(n.z as int, p.z as int, 0x20000000000000, 0x400000);
    }
    let d1: i128 = n.x * ((cx as i128) - (triangle.vertex0.x as i128)) + n.y * ((cy as i128) - (
    triangle.vertex0.y as i128)) + n.z * ((cz as i128) - (triangle.vertex0.z as i128));
    let d2: i128 = n.x * ((dpx as i128) - (cx as i128) - (triangle.vertex0.x as i128)) + n.y * ((
    dpy as i128) - (cy as i128) - (triangle.vertex0.y as i128)) + n.z * ((dpz as i128) - (cz
        as i128) - (triangle.vertex0.z as i128));
    let np: i128 = n.x * (p.x as i128) + n.y * (p.y as i128) + n.z * (p.z as i128);
    let s1: i128 = np + d1;
    let s2: i128 = np + d2;
    proof {
        lemma_mul_pos(s1 as int, s2 as int);
    }
    if (s1 > 0 && s2 > 0) || (s1 < 0 && s2 < 0) {
        return false;
    }
    let e0x: i64 = triangle.vertex1.x - triangle.vertex0.x;
    let e0y: i64 = triangle.vertex1.y - triangle.vertex0.y;
    let e0z: i64 = triangle.vertex1.z - triangle.vertex0.z;
    let e1x: i64 = triangle.vertex2.x - triangle.vertex0.x;
    let e1y: i64 = triangle.vertex2.y - triangle.vertex0.y;
    let e1z: i64 = triangle.vertex2.z - triangle.vertex0.z;
    let e2x: i64 = triangle.vertex2.x - triangle.vertex1.x;
    let e2y: i64 = triangle.vertex2.y - triangle.vertex1.y;
    let e2z: i64 = triangle.vertex2.z - triangle.vertex1.z;
    if !(test_plane_intersection(
        n.z,
        e0x,
        e0y,
        e1x,
        e1y,
        e2x,
        e2y,
        triangle.vertex0.x,
        triangle.vertex0.y,
        triangle.vertex1.x,
        triangle.vertex1.y,
        triangle.vertex2.x,
        triangle.vertex2.y,
        dpx,
        dpy,
        p.x,
        p.y,
    )) {
        return false;
    }
    if !(test_plane_intersection(
        n.x,
        e0y,
        e0z,
        e1y,
        e1z,
        e2y,
        e2z,
        triangle.vertex0.y,
        triangle.vertex0.z,
        triangle.vertex1.y,
        triangle.vertex1.z,
        triangle.vertex2.y,
        triangle.vertex2.z,
        dpy,
        dpz,
        p.y,
        p.z,
    )) {
        return false;
    }
    if !(test_plane_intersection(
        n.y,
        e0z,
        e0x,
        e1z,
        e1x,
        e2z,
        e2x,
        triangle.vertex0.z,
        triangle.vertex0.x,
        triangle.vertex1.z,
        triangle.vertex1.x,
        triangle.vertex2.z,
        triangle.vertex2.x,
        dpz,
        dpx,
        p.z,
        p.x,
    )) {
        return false;
    }
    true
}

/// A triangle belongs to a box when one of its vertices lies inside, or the
/// conservative overlap test passes.
pub fn triangle_is_in_aabb(aabb: &AABB, triangle: &Triangle, triangle_normal: &Dir3) -> (r: bool)
    requires
        box_in_range(*aabb),
        valid_triangle(*triangle),
        dir_in_range(*triangle_normal),
    ensures
        r == (point_in_box(triangle.vertex0, *aabb) || point_in_box(triangle.vertex1, *aabb)
            || point_in_box(triangle.vertex2, *aabb) || overlaps_aabb_triangle(
            *aabb,
            *triangle,
            *triangle_normal,
        )),
{
    aabb.contains2(&triangle.vertex0) || aabb.contains2(&triangle.vertex1) || aabb.contains2(
        &triangle.vertex2,
    ) || intersect_aabb_triangle(aabb, triangle, triangle_normal)
}

} // verus!
