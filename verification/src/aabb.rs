//! Axis-aligned bounding boxes.

use vstd::prelude::*;
use crate::scalar::Scalar;
use crate::scalar::MAX_BITS;
use crate::scalar::INFINITY_BITS;
use crate::vec3::Vec3;
use crate::ray::Ray;

verus! {

/// An axis-aligned box, given by its least and its greatest corner. A box may
/// have no thickness along an axis.
#[derive(Clone, Copy, Debug, PartialEq, Eq, Structural)]
pub struct Aabb {
    pub min: Vec3,
    pub max: Vec3,
}

/// Where a ray's line meets the two planes that bound a box along one axis:
/// `t0` is the ray parameter at the plane through the least corner, `t1` the
/// one at the plane through the greatest corner. Along an axis on which the
/// ray does not move the two are never read.
#[derive(Clone, Copy, Debug, PartialEq, Eq, Structural)]
pub struct Crossing {
    pub t0: Scalar,
    pub t1: Scalar,
}

/// Whether the ray runs parallel to the planes of `axis`.
pub open spec fn parallel(ray: Ray, axis: int) -> bool {
    ray.direction.axis(axis).rank() == 0
}

/// The parameter at which the ray enters the slab of an axis.
pub open spec fn entry(ray: Ray, c: Crossing, axis: int) -> Scalar {
    if ray.direction.axis(axis).below(Scalar { bits: 0 }) {
        c.t1
    } else {
        c.t0
    }
}

/// The parameter at which the ray leaves the slab of an axis.
pub open spec fn exit(ray: Ray, c: Crossing, axis: int) -> Scalar {
    if ray.direction.axis(axis).below(Scalar { bits: 0 }) {
        c.t0
    } else {
        c.t1
    }
}

/// The interval `(lo, hi)` cut down to the slab of one axis, or `None` where
/// nothing of it is left. An axis to which the ray is parallel cuts nothing.
pub open spec fn narrowed(ray: Ray, c: Crossing, axis: int, lo: Scalar, hi: Scalar) -> Option<
    (Scalar, Scalar),
> {
    if parallel(ray, axis) {
        Some((lo, hi))
    } else {
        let e = entry(ray, c, axis);
        let x = exit(ray, c, axis);
        let mn = if lo.below(e) { e } else { lo };
        let mx = if x.below(hi) { x } else { hi };
        if mx.at_most(mn) {
            None
        } else {
            Some((mn, mx))
        }
    }
}

/// The interval that is left of `(lo, hi)` after the slabs of the axes from
/// `axis` on have cut it, or `None` where one of them leaves nothing.
pub open spec fn narrowed_from(
    ray: Ray,
    crossings: Seq<Crossing>,
    axis: int,
    lo: Scalar,
    hi: Scalar,
) -> Option<(Scalar, Scalar)>
    decreases 3 - axis,
{
    if axis >= 3 {
        Some((lo, hi))
    } else {
        match narrowed(ray, crossings[axis], axis, lo, hi) {
            None => None,
            Some((mn, mx)) => narrowed_from(ray, crossings, axis + 1, mn, mx),
        }
    }
}

/// The crossings that the box test reads are numbers: those of the axes
/// along which the ray moves. Along an axis without motion nothing is read.
pub open spec fn read_as_numbers(ray: Ray, crossings: Seq<Crossing>) -> bool {
    forall|a: int|
        0 <= a < 3 && !parallel(ray, a) ==> !(#[trigger] crossings[a]).t0.nan() && !crossings[a].t1.nan()
}

/// Whether every bound from below lies strictly under every bound from above,
/// the bounds being `t_min`, `t_max` and the entries and exits of the axes
/// along which the ray moves.
pub open spec fn bounds_apart(ray: Ray, crossings: Seq<Crossing>, t_min: Scalar, t_max: Scalar) -> bool {
    &&& forall|a: int, b: int|
        0 <= a < 3 && 0 <= b < 3 && !parallel(ray, a) && !parallel(ray, b) ==> entry(
            ray,
            #[trigger] crossings[a],
            a,
        ).rank() < exit(ray, #[trigger] crossings[b], b).rank()
    &&& forall|a: int|
        0 <= a < 3 && !parallel(ray, a) ==> {
            &&& entry(ray, #[trigger] crossings[a], a).rank() < t_max.rank()
            &&& t_min.rank() < exit(ray, crossings[a], a).rank()
            &&& t_min.rank() < t_max.rank()
        }
}

impl Aabb {
    /// The corners are numbers and the least is at most the greatest on every
    /// axis.
    pub open spec fn wf(self) -> bool {
        self.min.all_at_most(self.max)
    }

    /// Whether `other` lies within `self`.
    pub open spec fn contains(self, other: Aabb) -> bool {
        self.min.all_at_most(other.min) && other.max.all_at_most(self.max)
    }

    /// Whether the point lies within `self`.
    pub open spec fn holds(self, p: Vec3) -> bool {
        self.min.all_at_most(p) && p.all_at_most(self.max)
    }

    /// The smallest box around two boxes.
    pub open spec fn join(self, other: Aabb) -> Aabb {
        Aabb { min: self.min.lesser(other.min), max: self.max.greater(other.max) }
    }

    /// The corner that takes, on each axis, the greatest coordinate where the
    /// flag is set and the least where it is not.
    pub open spec fn corner(self, i: bool, j: bool, k: bool) -> Vec3 {
        Vec3 {
            x: if i { self.max.x } else { self.min.x },
            y: if j { self.max.y } else { self.min.y },
            z: if k { self.max.z } else { self.min.z },
        }
    }

    /// The box between two corners. It is well formed if the corners are
    /// numbers and the first is at most the second on every axis.
    pub fn new(min: Vec3, max: Vec3) -> (r: Aabb)
        ensures
            r == (Aabb { min, max }),
            r.wf() <==> min.all_at_most(max),
    {
        Aabb { min, max }
    }

    /// Whether the box is well formed.
    pub fn is_wf(&self) -> (r: bool)
        ensures
            r == self.wf(),
    {
        self.min.x.le(self.max.x) && self.min.y.le(self.max.y) && self.min.z.le(self.max.z)
    }

    /// The smallest box around `a` and `b`.
    pub fn surrounding_box(a: &Aabb, b: &Aabb) -> (r: Aabb)
        ensures
            r == a.join(*b),
            a.wf() && b.wf() ==> r.wf() && r.contains(*a) && r.contains(*b),
    {
        Aabb { min: a.min.min(&b.min), max: a.max.max(&b.max) }
    }

    /// Whether the ray meets the box at a parameter strictly between `t_min`
    /// and `t_max`, decided from the ray's crossings of the three pairs of
    /// bounding planes.
    pub fn hit(&self, ray: &Ray, crossings: &[Crossing; 3], t_min: Scalar, t_max: Scalar) -> (r:
        bool)
        ensures
            r == narrowed_from(*ray, crossings@, 0, t_min, t_max).is_some(),
    {
        let mut lo: Scalar = t_min;
        let mut hi: Scalar = t_max;
        let mut a: usize = 0;
        while a < 3
            invariant
                a <= 3,
                narrowed_from(*ray, crossings@, 0, t_min, t_max) == narrowed_from(
                    *ray,
                    crossings@,
                    a as int,
                    lo,
                    hi,
                ),
            decreases 3 - a,
        {
            let d: Scalar = ray.direction.index(a);
            if !d.is_zero() {
                let c: Crossing = crossings[a];
                let swap: bool = d.lt(Scalar::zero());
                let e: Scalar = if swap { c.t1 } else { c.t0 };
                let x: Scalar = if swap { c.t0 } else { c.t1 };
                let mn: Scalar = if e.gt(lo) { e } else { lo };
                let mx: Scalar = if x.lt(hi) { x } else { hi };
                if mx.le(mn) {
                    return false;
                }
                lo = mn;
                hi = mx;
            }
            a += 1;
        }
        true
    }

    /// The eight corners, the x axis varying slowest and the z axis fastest.
    pub fn corners(&self) -> (r: [Vec3; 8])
        ensures
            forall|i: bool, j: bool, k: bool|
                r@[(if i { 4int } else { 0 }) + (if j { 2int } else { 0 }) + (if k { 1int } else { 0 })]
                    == #[trigger] self.corner(i, j, k),
    {
        let n: Vec3 = self.min;
        let m: Vec3 = self.max;
        [
            Vec3::new(n.x, n.y, n.z),
            Vec3::new(n.x, n.y, m.z),
            Vec3::new(n.x, m.y, n.z),
            Vec3::new(n.x, m.y, m.z),
            Vec3::new(m.x, n.y, n.z),
            Vec3::new(m.x, n.y, m.z),
            Vec3::new(m.x, m.y, n.z),
            Vec3::new(m.x, m.y, m.z),
        ]
    }

    /// The box that grows from the emptiest box to take in the first `n` of
    /// the points, one after the other.
    pub open spec fn around(points: Seq<Vec3>, n: int) -> Aabb
        decreases n,
    {
        if n <= 0 {
            Aabb {
                min: Vec3 { x: Scalar { bits: MAX_BITS }, y: Scalar { bits: MAX_BITS }, z: Scalar {
                    bits: MAX_BITS,
                } },
                max: Vec3 {
                    x: Scalar { bits: MAX_BITS }.opposite(),
                    y: Scalar { bits: MAX_BITS }.opposite(),
                    z: Scalar { bits: MAX_BITS }.opposite(),
                },
            }
        } else {
            let b = Self::around(points, n - 1);
            Aabb { min: b.min.lesser(points[n - 1]), max: b.max.greater(points[n - 1]) }
        }
    }

    /// Every component of every point is a finite number.
    pub open spec fn finite(points: Seq<Vec3>) -> bool {
        forall|i: int|
            0 <= i < points.len() ==> (#[trigger] points[i]).x.magnitude() < INFINITY_BITS
                && points[i].y.magnitude() < INFINITY_BITS && points[i].z.magnitude()
                < INFINITY_BITS
    }

    /// The smallest box around the given points. Around one or more points
    /// that are finite numbers it is well formed and holds each of them.
    pub fn enclosing(points: &Vec<Vec3>) -> (r: Aabb)
        ensures
            r == Self::around(points@, points@.len() as int),
            points@.len() > 0 && Self::finite(points@) ==> r.wf() && forall|i: int|
                0 <= i < points@.len() ==> r.holds(#[trigger] points@[i]),
    {
        proof {
            if points@.len() > 0 && Self::finite(points@) {
                assert forall|i: int| 0 <= i < points@.len() implies Self::around(
                    points@,
                    points@.len() as int,
                ).holds(#[trigger] points@[i]) by {
                    lemma_around_holds(points@, points@.len() as int, i);
                }
                lemma_around_holds(points@, points@.len() as int, 0);
            }
        }
        let m: Scalar = Scalar::max_value();
        let mut minb: Vec3 = Vec3::new(m, m, m);
        let mut maxb: Vec3 = minb.neg();
        let mut i: usize = 0;
        while i < points.len()
            invariant
                i <= points.len(),
                (Aabb { min: minb, max: maxb }) == Self::around(points@, i as int),
            decreases points.len() - i,
        {
            minb = minb.min(&points[i]);
            maxb = maxb.max(&points[i]);
            i += 1;
        }
        Aabb { min: minb, max: maxb }
    }
}

/// Joining boxes gives the least box around both: it does not depend on the
/// order of the two, up to the sign of a zero, and lies within every box that
/// contains both.
pub proof fn lemma_join_least(a: Aabb, b: Aabb, c: Aabb)
    requires
        a.wf(),
        b.wf(),
        c.contains(a),
        c.contains(b),
    ensures
        a.join(b).wf(),
        c.contains(a.join(b)),
        a.join(b).contains(b.join(a)),
        b.join(a).contains(a.join(b)),
{
}

/// The box around a list of points holds each of them that is a finite
/// number.
pub proof fn lemma_around_holds(points: Seq<Vec3>, n: int, i: int)
    requires
        0 <= i < n <= points.len(),
        points[i].x.magnitude() < INFINITY_BITS,
        points[i].y.magnitude() < INFINITY_BITS,
        points[i].z.magnitude() < INFINITY_BITS,
        forall|j: int| 0 <= j < n ==> !(#[trigger] points[j]).nan(),
    ensures
        Aabb::around(points, n).holds(points[i]),
    decreases n,
{
    lemma_around_numbers(points, n);
    if i < n - 1 {
        lemma_around_holds(points, n - 1, i);
        lemma_around_numbers(points, n - 1);
    } else {
        lemma_around_numbers(points, n - 1);
    }
}

/// The corners of the box around points that are numbers are numbers.
pub proof fn lemma_around_numbers(points: Seq<Vec3>, n: int)
    requires
        n <= points.len(),
        forall|j: int| 0 <= j < n ==> !(#[trigger] points[j]).nan(),
    ensures
        !Aabb::around(points, n).min.nan(),
        !Aabb::around(points, n).max.nan(),
    decreases n,
{
    if n > 0 {
        lemma_around_numbers(points, n - 1);
    }
}

/// What one axis does to an interval between two ranks: nothing where the
/// ray is parallel to its planes; else it raises the lower end to the entry
/// and lowers the upper end to the exit, and nothing is left unless the new
/// lower end lies strictly under the new upper end.
pub open spec fn cut(skip: bool, e: int, x: int, lo: int, hi: int) -> Option<(int, int)> {
    if skip {
        Some((lo, hi))
    } else {
        let mn = if lo < e { e } else { lo };
        let mx = if x < hi { x } else { hi };
        if mx <= mn {
            None
        } else {
            Some((mn, mx))
        }
    }
}

/// Between numbers, narrowing an interval by one axis is cutting the
/// interval of the ranks.
pub proof fn lemma_narrowed(ray: Ray, c: Crossing, axis: int, lo: Scalar, hi: Scalar)
    requires
        !lo.nan(),
        !hi.nan(),
        !parallel(ray, axis) ==> !c.t0.nan() && !c.t1.nan(),
    ensures
        match narrowed(ray, c, axis, lo, hi) {
            None => cut(
                parallel(ray, axis),
                entry(ray, c, axis).rank(),
                exit(ray, c, axis).rank(),
                lo.rank(),
                hi.rank(),
            ) is None,
            Some((mn, mx)) => !mn.nan() && !mx.nan() && cut(
                parallel(ray, axis),
                entry(ray, c, axis).rank(),
                exit(ray, c, axis).rank(),
                lo.rank(),
                hi.rank(),
            ) == Some((mn.rank(), mx.rank())),
        },
{
}

/// Every lower bound lies strictly under every upper bound, the bounds being
/// `lo`, `hi` and the entries `e` and exits `x` of the axes that are not
/// skipped.
spec fn apart(
    s0: bool,
    e0: int,
    x0: int,
    s1: bool,
    e1: int,
    x1: int,
    s2: bool,
    e2: int,
    x2: int,
    lo: int,
    hi: int,
) -> bool {
    &&& lo < hi
    &&& !s0 ==> e0 < x0 && e0 < hi && lo < x0
    &&& !s1 ==> e1 < x1 && e1 < hi && lo < x1
    &&& !s2 ==> e2 < x2 && e2 < hi && lo < x2
    &&& !s0 && !s1 ==> e0 < x1 && e1 < x0
    &&& !s0 && !s2 ==> e0 < x2 && e2 < x0
    &&& !s1 && !s2 ==> e1 < x2 && e2 < x1
}

/// Three cuts in a row leave something exactly if all three are skipped or
/// the bounds lie apart.
proof fn lemma_three_cuts(
    s0: bool,
    e0: int,
    x0: int,
    s1: bool,
    e1: int,
    x1: int,
    s2: bool,
    e2: int,
    x2: int,
    lo: int,
    hi: int,
)
    ensures
        ({
            match cut(s0, e0, x0, lo, hi) {
                None => false,
                Some((l1, h1)) => match cut(s1, e1, x1, l1, h1) {
                    None => false,
                    Some((l2, h2)) => cut(s2, e2, x2, l2, h2) is Some,
                },
            }
        }) <==> (s0 && s1 && s2) || apart(s0, e0, x0, s1, e1, x1, s2, e2, x2, lo, hi),
{
}

/// The bounds of a ray and a box, axis by axis, lie apart.
spec fn apart_of(ray: Ray, crossings: Seq<Crossing>, t_min: Scalar, t_max: Scalar) -> bool {
    apart(
        parallel(ray, 0),
        entry(ray, crossings[0], 0).rank(),
        exit(ray, crossings[0], 0).rank(),
        parallel(ray, 1),
        entry(ray, crossings[1], 1).rank(),
        exit(ray, crossings[1], 1).rank(),
        parallel(ray, 2),
        entry(ray, crossings[2], 2).rank(),
        exit(ray, crossings[2], 2).rank(),
        t_min.rank(),
        t_max.rank(),
    )
}

/// With numbers wherever the test reads, a ray meets a box exactly if it is parallel to
/// all three pairs of planes or the bounds, axis by axis, lie apart.
proof fn lemma_hit_apart(ray: Ray, crossings: Seq<Crossing>, t_min: Scalar, t_max: Scalar)
    requires
        crossings.len() == 3,
        !t_min.nan(),
        !t_max.nan(),
        read_as_numbers(ray, crossings),
    ensures
        narrowed_from(ray, crossings, 0, t_min, t_max).is_some() <==> (parallel(ray, 0) && parallel(
            ray,
            1,
        ) && parallel(ray, 2)) || apart_of(ray, crossings, t_min, t_max),
{
    reveal_with_fuel(narrowed_from, 4);
    let c0 = crossings[0];
    let c1 = crossings[1];
    let c2 = crossings[2];
    lemma_three_cuts(
        parallel(ray, 0),
        entry(ray, c0, 0).rank(),
        exit(ray, c0, 0).rank(),
        parallel(ray, 1),
        entry(ray, c1, 1).rank(),
        exit(ray, c1, 1).rank(),
        parallel(ray, 2),
        entry(ray, c2, 2).rank(),
        exit(ray, c2, 2).rank(),
        t_min.rank(),
        t_max.rank(),
    );
    lemma_narrowed(ray, c0, 0, t_min, t_max);
    match narrowed(ray, c0, 0, t_min, t_max) {
        None => {},
        Some((l1, h1)) => {
            lemma_narrowed(ray, c1, 1, l1, h1);
            match narrowed(ray, c1, 1, l1, h1) {
                None => {},
                Some((l2, h2)) => {
                    lemma_narrowed(ray, c2, 2, l2, h2);
                },
            }
        },
    }
}

/// That every bound from below lies under every bound from above can be
/// said axis by axis.
proof fn lemma_apart_of(ray: Ray, crossings: Seq<Crossing>, t_min: Scalar, t_max: Scalar)
    requires
        crossings.len() == 3,
    ensures
        !(parallel(ray, 0) && parallel(ray, 1) && parallel(ray, 2)) ==> (bounds_apart(
            ray,
            crossings,
            t_min,
            t_max,
        ) <==> apart_of(ray, crossings, t_min, t_max)),
{
    let c0 = crossings[0];
    let c1 = crossings[1];
    let c2 = crossings[2];
    if !(parallel(ray, 0) && parallel(ray, 1) && parallel(ray, 2)) {
        if apart_of(ray, crossings, t_min, t_max) {
            assert forall|a: int, b: int|
                0 <= a < 3 && 0 <= b < 3 && !parallel(ray, a) && !parallel(ray, b) implies entry(
                ray,
                #[trigger] crossings[a],
                a,
            ).rank() < exit(ray, #[trigger] crossings[b], b).rank() by {
                assert(a == 0 || a == 1 || a == 2);
                assert(b == 0 || b == 1 || b == 2);
            }
            assert forall|a: int| 0 <= a < 3 && !parallel(ray, a) implies ({
                &&& entry(ray, #[trigger] crossings[a], a).rank() < t_max.rank()
                &&& t_min.rank() < exit(ray, crossings[a], a).rank()
                &&& t_min.rank() < t_max.rank()
            }) by {
                assert(a == 0 || a == 1 || a == 2);
            }
        }
        if bounds_apart(ray, crossings, t_min, t_max) {
            assert(crossings[0] == c0 && crossings[1] == c1 && crossings[2] == c2);
        }
    }
}

/// With numbers wherever the test reads, a ray meets a box exactly if it is parallel to
/// all three pairs of planes or every bound from below lies strictly under
/// every bound from above. So the result does not depend on the order in
/// which the axes are taken.
pub proof fn lemma_hit_bounds(ray: Ray, crossings: Seq<Crossing>, t_min: Scalar, t_max: Scalar)
    requires
        crossings.len() == 3,
        !t_min.nan(),
        !t_max.nan(),
        read_as_numbers(ray, crossings),
    ensures
        narrowed_from(ray, crossings, 0, t_min, t_max).is_some() <==> (parallel(ray, 0) && parallel(
            ray,
            1,
        ) && parallel(ray, 2)) || bounds_apart(ray, crossings, t_min, t_max),
{
    lemma_hit_apart(ray, crossings, t_min, t_max);
    lemma_apart_of(ray, crossings, t_min, t_max);
}

/// Whether the parameter `t` lies strictly inside: strictly between `t_min`
/// and `t_max` and, on every axis along which the ray moves, strictly
/// between the entry into the slab and the exit from it.
pub open spec fn inside(ray: Ray, crossings: Seq<Crossing>, t: Scalar, t_min: Scalar, t_max: Scalar) -> bool {
    &&& t_min.rank() < t.rank() < t_max.rank()
    &&& forall|a: int|
        0 <= a < 3 && !parallel(ray, a) ==> entry(ray, #[trigger] crossings[a], a).rank() < t.rank()
            < exit(ray, crossings[a], a).rank()
}

/// A ray that is strictly inside the box at some parameter between the
/// bounds hits the box. Where the ray moves along some axis and hits the
/// box, the bounds from below lie strictly under the bounds from above, so
/// that every parameter between them is strictly inside.
pub proof fn lemma_hit_through_interior(
    ray: Ray,
    crossings: Seq<Crossing>,
    t_min: Scalar,
    t_max: Scalar,
    t: Scalar,
)
    requires
        crossings.len() == 3,
        !t_min.nan(),
        !t_max.nan(),
        read_as_numbers(ray, crossings),
    ensures
        inside(ray, crossings, t, t_min, t_max) ==> narrowed_from(
            ray,
            crossings,
            0,
            t_min,
            t_max,
        ).is_some(),
        narrowed_from(ray, crossings, 0, t_min, t_max).is_some() && !(parallel(ray, 0) && parallel(
            ray,
            1,
        ) && parallel(ray, 2)) ==> bounds_apart(ray, crossings, t_min, t_max),
{
    lemma_hit_bounds(ray, crossings, t_min, t_max);
    if inside(ray, crossings, t, t_min, t_max) {
        assert(bounds_apart(ray, crossings, t_min, t_max));
    }
}

/// The ray with its direction's components taken in another order of the
/// axes.
pub open spec fn reordered(ray: Ray, i0: int, i1: int, i2: int) -> Ray {
    Ray {
        direction: Vec3 {
            x: ray.direction.axis(i0),
            y: ray.direction.axis(i1),
            z: ray.direction.axis(i2),
        },
        ..ray
    }
}

/// Taking the axes in another order does not change whether the bounds lie
/// apart.
proof fn lemma_apart_any_order(
    ray: Ray,
    crossings: Seq<Crossing>,
    t_min: Scalar,
    t_max: Scalar,
    i0: int,
    i1: int,
    i2: int,
)
    requires
        crossings.len() == 3,
        0 <= i0 < 3,
        0 <= i1 < 3,
        0 <= i2 < 3,
        i0 != i1,
        i1 != i2,
        i0 != i2,
    ensures
        apart_of(
            reordered(ray, i0, i1, i2),
            seq![crossings[i0], crossings[i1], crossings[i2]],
            t_min,
            t_max,
        ) == apart_of(ray, crossings, t_min, t_max),
        (parallel(reordered(ray, i0, i1, i2), 0) && parallel(reordered(ray, i0, i1, i2), 1)
            && parallel(reordered(ray, i0, i1, i2), 2)) == (parallel(ray, 0) && parallel(ray, 1)
            && parallel(ray, 2)),
{
    let ray2 = reordered(ray, i0, i1, i2);
    let cr2 = seq![crossings[i0], crossings[i1], crossings[i2]];
    assert(cr2[0] == crossings[i0] && cr2[1] == crossings[i1] && cr2[2] == crossings[i2]);
    assert(ray2.direction.axis(0) == ray.direction.axis(i0));
    assert(ray2.direction.axis(1) == ray.direction.axis(i1));
    assert(ray2.direction.axis(2) == ray.direction.axis(i2));
    assert(parallel(ray2, 0) == parallel(ray, i0));
    assert(parallel(ray2, 1) == parallel(ray, i1));
    assert(parallel(ray2, 2) == parallel(ray, i2));
    assert(entry(ray2, cr2[0], 0) == entry(ray, crossings[i0], i0));
    assert(entry(ray2, cr2[1], 1) == entry(ray, crossings[i1], i1));
    assert(entry(ray2, cr2[2], 2) == entry(ray, crossings[i2], i2));
    assert(exit(ray2, cr2[0], 0) == exit(ray, crossings[i0], i0));
    assert(exit(ray2, cr2[1], 1) == exit(ray, crossings[i1], i1));
    assert(exit(ray2, cr2[2], 2) == exit(ray, crossings[i2], i2));
    if i0 == 0 {
        assert(i1 == 1 && i2 == 2 || i1 == 2 && i2 == 1);
    } else if i0 == 1 {
        assert(i1 == 0 && i2 == 2 || i1 == 2 && i2 == 0);
    } else {
        assert(i1 == 0 && i2 == 1 || i1 == 1 && i2 == 0);
    }
}

/// With numbers wherever the test reads, whether a ray meets a box does not depend on
/// the order in which the axes are taken.
pub proof fn lemma_hit_any_order(
    ray: Ray,
    crossings: Seq<Crossing>,
    t_min: Scalar,
    t_max: Scalar,
    i0: int,
    i1: int,
    i2: int,
)
    requires
        crossings.len() == 3,
        !t_min.nan(),
        !t_max.nan(),
        read_as_numbers(ray, crossings),
        0 <= i0 < 3,
        0 <= i1 < 3,
        0 <= i2 < 3,
        i0 != i1,
        i1 != i2,
        i0 != i2,
    ensures
        narrowed_from(
            reordered(ray, i0, i1, i2),
            seq![crossings[i0], crossings[i1], crossings[i2]],
            0,
            t_min,
            t_max,
        ).is_some() == narrowed_from(ray, crossings, 0, t_min, t_max).is_some(),
{
    let ray2 = reordered(ray, i0, i1, i2);
    let cr2 = seq![crossings[i0], crossings[i1], crossings[i2]];
    assert(cr2[0] == crossings[i0] && cr2[1] == crossings[i1] && cr2[2] == crossings[i2]);
    lemma_hit_apart(ray, crossings, t_min, t_max);
    lemma_hit_apart(ray2, cr2, t_min, t_max);
    lemma_apart_any_order(ray, crossings, t_min, t_max, i0, i1, i2);
}

} // verus!
