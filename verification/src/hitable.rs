//! Surfaces: what a ray can hit.

use vstd::prelude::*;
use std::sync::Arc;
use crate::scalar::Scalar;
use crate::scalar::ONE_BITS;
use crate::vec3::Vec3;
use crate::ray::Ray;
use crate::aabb::Aabb;
use crate::material::MaterialPtr;
use crate::constant_medium::ConstantMedium;
use crate::bvh::Bvh;

verus! {

/// Where a ray met a surface: the ray parameter, the point, the surface
/// normal there (not always of unit length), the surface coordinates of the
/// point, and the material of the surface.
#[derive(Clone)]
pub struct HitRecord {
    pub t: Scalar,
    pub p: Vec3,
    pub normal: Vec3,
    pub u: Scalar,
    pub v: Scalar,
    pub material: MaterialPtr,
}

impl HitRecord {
    pub fn new(t: Scalar, p: Vec3, normal: Vec3, u: Scalar, v: Scalar, material: MaterialPtr) -> (r:
        HitRecord)
        ensures
            r == (HitRecord { t, p, normal, u, v, material }),
    {
        HitRecord { t, p, normal, u, v, material }
    }
}

/// Another pointer to a shared value.
///
/// Calls `Arc::clone`, which returns a pointer to the same allocation as the
/// one it is given, so that both show the same value.
#[verifier::external_body]
pub(crate) fn share<T>(p: &Arc<T>) -> (r: Arc<T>)
    ensures
        r == *p,
{
    Arc::clone(p)
}

/// A surface, shared by the composites that hold it.
pub type HitablePtr = Arc<Hitable>;

/// The kinds of surface.
pub enum Hitable {
    Sphere(Sphere),
    Rect(AARect),
    Cuboid(AabbBox),
    Flip(FlipNormals),
    Translate(Translate),
    Rotate(RotateY),
    Medium(ConstantMedium),
    List(HitableList),
    Bvh(Bvh),
}

/// Of two answers to one query the nearer: the left one where it is strictly
/// nearer than the right one, the one that is there where only one is.
pub open spec fn nearer(left: Option<HitRecord>, right: Option<HitRecord>) -> Option<HitRecord> {
    match (left, right) {
        (None, None) => None,
        (Some(l), None) => Some(l),
        (None, Some(r)) => Some(r),
        (Some(l), Some(r)) => if l.t.below(r.t) {
            Some(l)
        } else {
            Some(r)
        },
    }
}

/// Of two answers to one query the nearer.
pub fn closer(left: Option<HitRecord>, right: Option<HitRecord>) -> (r: Option<HitRecord>)
    ensures
        r == nearer(left, right),
{
    match (left, right) {
        (None, None) => None,
        (Some(l), None) => Some(l),
        (None, Some(r)) => Some(r),
        (Some(l), Some(r)) => if l.t.lt(r.t) {
            Some(l)
        } else {
            Some(r)
        },
    }
}

/// Where the centre of a sphere is: at one place, or on its way from one
/// place at one time to another place at a later time.
#[derive(Clone, Copy, Debug)]
pub enum Center {
    Fixed(Vec3),
    Moving { center0: Vec3, center1: Vec3, time0: Scalar, time1: Scalar },
}

/// A sphere, at rest or in even motion.
pub struct Sphere {
    pub radius: Scalar,
    pub material: MaterialPtr,
    pub center: Center,
}

/// The equation of a ray and a sphere, solved: the discriminant, and the
/// roots on the near and on the far side. Where the discriminant is not
/// positive the roots are never read.
#[derive(Clone, Copy, Debug)]
pub struct Roots {
    pub discriminant: Scalar,
    pub near: Scalar,
    pub far: Scalar,
}

/// Whether `t` lies strictly between the two bounds.
pub open spec fn strictly_within(t: Scalar, t_min: Scalar, t_max: Scalar) -> bool {
    t_min.below(t) && t.below(t_max)
}

/// The root at which a ray meets a sphere: the near one where it lies
/// strictly within the bounds, else the far one where that one does, and
/// none without a positive discriminant.
pub open spec fn chosen_root(roots: Roots, t_min: Scalar, t_max: Scalar) -> Option<Scalar> {
    if !(Scalar { bits: 0 }).below(roots.discriminant) {
        None
    } else if strictly_within(roots.near, t_min, t_max) {
        Some(roots.near)
    } else if strictly_within(roots.far, t_min, t_max) {
        Some(roots.far)
    } else {
        None
    }
}

impl Sphere {
    pub fn new(c: Vec3, radius: Scalar, material: MaterialPtr) -> (r: Sphere)
        ensures
            r.radius == radius,
            r.material == material,
            r.center == Center::Fixed(c),
    {
        Sphere { center: Center::Fixed(c), radius, material }
    }

    pub fn hitable_ptr(center: Vec3, radius: Scalar, material: MaterialPtr) -> (r: HitablePtr)
        ensures
            *r matches Hitable::Sphere(s) && s.radius == radius && s.material == material && s.center
                == Center::Fixed(center),
    {
        Arc::new(Hitable::Sphere(Sphere::new(center, radius, material)))
    }

    pub fn boxed(center: Vec3, radius: Scalar, material: MaterialPtr) -> (r: Box<Sphere>)
        ensures
            r.radius == radius,
            r.material == material,
            r.center == Center::Fixed(center),
    {
        Box::new(Sphere::new(center, radius, material))
    }

    pub fn new_moving(
        center0: Vec3,
        center1: Vec3,
        time0: Scalar,
        time1: Scalar,
        radius: Scalar,
        material: MaterialPtr,
    ) -> (r: Sphere)
        ensures
            r.radius == radius,
            r.material == material,
            r.center == (Center::Moving { center0, center1, time0, time1 }),
    {
        Sphere { center: Center::Moving { center0, center1, time0, time1 }, radius, material }
    }

    pub fn hitable_ptr_moving(
        c0: Vec3,
        c1: Vec3,
        time0: Scalar,
        time1: Scalar,
        radius: Scalar,
        material: MaterialPtr,
    ) -> (r: HitablePtr)
        ensures
            *r matches Hitable::Sphere(s) && s.radius == radius && s.material == material && s.center
                == (Center::Moving { center0: c0, center1: c1, time0, time1 }),
    {
        Arc::new(Hitable::Sphere(Sphere::new_moving(c0, c1, time0, time1, radius, material)))
    }

    /// The ray parameter at which a ray hits the sphere between the bounds,
    /// given the solved equation.
    pub fn hit(&self, roots: &Roots, t_min: Scalar, t_max: Scalar) -> (r: Option<Scalar>)
        ensures
            r == chosen_root(*roots, t_min, t_max),
    {
        if roots.discriminant.gt(Scalar::zero()) {
            let t: Scalar = if roots.near.gt(t_min) && roots.near.lt(t_max) {
                roots.near
            } else {
                roots.far
            };
            if t.gt(t_min) && t.lt(t_max) {
                Some(t)
            } else {
                None
            }
        } else {
            None
        }
    }

    /// The box around the sphere over a span of time, given the boxes around
    /// it at the start and at the end of the span: the smallest box around
    /// both.
    pub fn bounding_box(&self, at_start: &Aabb, at_end: &Aabb) -> (r: Aabb)
        ensures
            r == at_start.join(*at_end),
            at_start.wf() && at_end.wf() ==> r.wf() && r.contains(*at_start) && r.contains(*at_end),
    {
        Aabb::surrounding_box(at_start, at_end)
    }

    /// The record of a hit at `t`, given the point, the normal and the
    /// surface coordinates there.
    pub fn record(&self, t: Scalar, p: Vec3, normal: Vec3, u: Scalar, v: Scalar) -> (r: HitRecord)
        ensures
            r == (HitRecord { t, p, normal, u, v, material: self.material }),
    {
        HitRecord::new(t, p, normal, u, v, share(&self.material))
    }
}

/// A rectangle in a plane across one axis: `c_index` is that axis and `c`
/// the place of the plane on it; `a_index` and `b_index` are the two axes in
/// the plane, along which the rectangle reaches from `a0` to `a1` and from
/// `b0` to `b1`.
pub struct AARect {
    pub a_index: usize,
    pub b_index: usize,
    pub c_index: usize,
    pub a0: Scalar,
    pub b0: Scalar,
    pub a1: Scalar,
    pub b1: Scalar,
    pub c: Scalar,
    pub material: MaterialPtr,
}

/// Where a ray's line meets the plane of a rectangle: the ray parameter `t`,
/// the point `p`, its two coordinates `a` and `b` in the plane, and those
/// coordinates as shares `u` and `v` of the rectangle's extent. Where the ray
/// is parallel to the plane none of them is read.
#[derive(Clone, Copy, Debug)]
pub struct PlaneCrossing {
    pub t: Scalar,
    pub a: Scalar,
    pub b: Scalar,
    pub u: Scalar,
    pub v: Scalar,
    pub p: Vec3,
}

/// The unit vector along an axis.
pub open spec fn unit(axis: int) -> Vec3 {
    (Vec3 { x: Scalar { bits: 0 }, y: Scalar { bits: 0 }, z: Scalar { bits: 0 } }).with_axis(
        axis,
        Scalar { bits: ONE_BITS },
    )
}

impl AARect {
    /// The three indices name axes.
    pub open spec fn wf(&self) -> bool {
        self.a_index < 3 && self.b_index < 3 && self.c_index < 3
    }

    /// Whether a ray that crosses the plane as given hits the rectangle
    /// between the bounds: it is not parallel to the plane, `t` is not
    /// outside the bounds, and neither coordinate is outside the rectangle.
    pub open spec fn crossed(&self, ray: Ray, x: PlaneCrossing, t_min: Scalar, t_max: Scalar) -> bool {
        &&& ray.direction.axis(self.c_index as int).rank() != 0
        &&& !x.t.below(t_min) && !t_max.below(x.t)
        &&& !x.a.below(self.a0) && !self.a1.below(x.a)
        &&& !x.b.below(self.b0) && !self.b1.below(x.b)
    }

    pub fn new(
        a_index: usize,
        b_index: usize,
        c_index: usize,
        a0: Scalar,
        b0: Scalar,
        a1: Scalar,
        b1: Scalar,
        c: Scalar,
        material: MaterialPtr,
    ) -> (r: AARect)
        requires
            a_index < 3,
            b_index < 3,
            c_index < 3,
        ensures
            r == (AARect { a_index, b_index, c_index, a0, b0, a1, b1, c, material }),
            r.wf(),
    {
        AARect { a_index, b_index, c_index, a0, b0, a1, b1, c, material }
    }

    pub fn hitable_ptr(
        a_index: usize,
        b_index: usize,
        c_index: usize,
        a0: Scalar,
        b0: Scalar,
        a1: Scalar,
        b1: Scalar,
        c: Scalar,
        material: MaterialPtr,
    ) -> (r: HitablePtr)
        requires
            a_index < 3,
            b_index < 3,
            c_index < 3,
        ensures
            *r == Hitable::Rect(AARect { a_index, b_index, c_index, a0, b0, a1, b1, c, material }),
    {
        Arc::new(Hitable::Rect(AARect::new(a_index, b_index, c_index, a0, b0, a1, b1, c, material)))
    }

    /// The hit of a ray on the rectangle between the bounds, given where the
    /// ray's line crosses the plane. The normal of the hit is the unit vector
    /// along the axis across the plane.
    pub fn hit(&self, ray: &Ray, crossing: &PlaneCrossing, t_min: Scalar, t_max: Scalar) -> (r:
        Option<HitRecord>)
        requires
            self.wf(),
        ensures
            r == if self.crossed(*ray, *crossing, t_min, t_max) {
                Some(
                    HitRecord {
                        t: crossing.t,
                        p: crossing.p,
                        normal: unit(self.c_index as int),
                        u: crossing.u,
                        v: crossing.v,
                        material: self.material,
                    },
                )
            } else {
                None
            },
    {
        if ray.direction.index(self.c_index).is_zero() {
            return None;
        }
        if crossing.t.lt(t_min) || crossing.t.gt(t_max) {
            return None;
        }
        if crossing.a.lt(self.a0) || crossing.a.gt(self.a1) {
            return None;
        }
        if crossing.b.lt(self.b0) || crossing.b.gt(self.b1) {
            return None;
        }
        let mut normal: Vec3 = Vec3::zero();
        normal.set(self.c_index, Scalar::one());
        Some(
            HitRecord::new(
                crossing.t,
                crossing.p,
                normal,
                crossing.u,
                crossing.v,
                share(&self.material),
            ),
        )
    }

    /// The box around the rectangle, which reaches across the plane from
    /// `below` to `above`: the plane's place less and plus a small margin, so
    /// that the box has some thickness. With the plane strictly between the
    /// two the box holds the plane strictly inside; with three different axes
    /// and bounds in order it is well formed.
    pub fn bounding_box(&self, below: Scalar, above: Scalar) -> (r: Aabb)
        requires
            self.wf(),
        ensures
            r.min == (Vec3 { x: Scalar { bits: 0 }, y: Scalar { bits: 0 }, z: Scalar { bits: 0 } }).with_axis(
                self.a_index as int,
                self.a0,
            ).with_axis(self.b_index as int, self.b0).with_axis(self.c_index as int, below),
            r.max == (Vec3 { x: Scalar { bits: 0 }, y: Scalar { bits: 0 }, z: Scalar { bits: 0 } }).with_axis(
                self.a_index as int,
                self.a1,
            ).with_axis(self.b_index as int, self.b1).with_axis(self.c_index as int, above),
            r.min.axis(self.c_index as int) == below,
            r.max.axis(self.c_index as int) == above,
            below.below(self.c) && self.c.below(above) ==> r.min.axis(self.c_index as int).below(
                self.c,
            ) && self.c.below(r.max.axis(self.c_index as int)),
            self.a_index != self.b_index && self.b_index != self.c_index && self.a_index
                != self.c_index && self.a0.at_most(self.a1) && self.b0.at_most(self.b1)
                && below.at_most(above) ==> r.wf() && r.min.axis(self.a_index as int) == self.a0
                && r.max.axis(self.a_index as int) == self.a1 && r.min.axis(self.b_index as int)
                == self.b0 && r.max.axis(self.b_index as int) == self.b1,
    {
        let mut b_min: Vec3 = Vec3::zero();
        b_min.set(self.a_index, self.a0);
        b_min.set(self.b_index, self.b0);
        b_min.set(self.c_index, below);
        let mut b_max: Vec3 = Vec3::zero();
        b_max.set(self.a_index, self.a1);
        b_max.set(self.b_index, self.b1);
        b_max.set(self.c_index, above);
        Aabb::new(b_min, b_max)
    }
}

/// The three families of rectangles, by the plane they lie in.
pub struct Rect {}

impl Rect {
    /// A rectangle in the plane `z = k`.
    pub fn xyrect(x0: Scalar, y0: Scalar, x1: Scalar, y1: Scalar, k: Scalar, material: MaterialPtr) -> (r:
        HitablePtr)
        ensures
            *r == Hitable::Rect(
                AARect {
                    a_index: 0,
                    b_index: 1,
                    c_index: 2,
                    a0: x0,
                    b0: y0,
                    a1: x1,
                    b1: y1,
                    c: k,
                    material,
                },
            ),
    {
        AARect::hitable_ptr(0, 1, 2, x0, y0, x1, y1, k, material)
    }

    /// A rectangle in the plane `y = k`.
    pub fn xzrect(x0: Scalar, z0: Scalar, x1: Scalar, z1: Scalar, k: Scalar, material: MaterialPtr) -> (r:
        HitablePtr)
        ensures
            *r == Hitable::Rect(
                AARect {
                    a_index: 0,
                    b_index: 2,
                    c_index: 1,
                    a0: x0,
                    b0: z0,
                    a1: x1,
                    b1: z1,
                    c: k,
                    material,
                },
            ),
    {
        AARect::hitable_ptr(0, 2, 1, x0, z0, x1, z1, k, material)
    }

    /// A rectangle in the plane `x = k`.
    pub fn yzrect(y0: Scalar, z0: Scalar, y1: Scalar, z1: Scalar, k: Scalar, material: MaterialPtr) -> (r:
        HitablePtr)
        ensures
            *r == Hitable::Rect(
                AARect {
                    a_index: 1,
                    b_index: 2,
                    c_index: 0,
                    a0: y0,
                    b0: z0,
                    a1: y1,
                    b1: z1,
                    c: k,
                    material,
                },
            ),
    {
        AARect::hitable_ptr(1, 2, 0, y0, z0, y1, z1, k, material)
    }
}

/// A surface seen from the other side: its normals point the other way.
pub struct FlipNormals {
    pub hitable: HitablePtr,
}

/// A hit with its normal turned round.
pub open spec fn flipped(hit: Option<HitRecord>) -> Option<HitRecord> {
    match hit {
        Some(h) => Some(HitRecord { normal: h.normal.opposite(), ..h }),
        None => None,
    }
}

impl FlipNormals {
    pub fn new(hitable: HitablePtr) -> (r: FlipNormals)
        ensures
            r.hitable == hitable,
    {
        FlipNormals { hitable }
    }

    pub fn hitable_ptr(hitable: HitablePtr) -> (r: HitablePtr)
        ensures
            *r == Hitable::Flip(FlipNormals { hitable }),
    {
        Arc::new(Hitable::Flip(FlipNormals::new(hitable)))
    }

    /// The hit on the flipped surface, given the hit on the surface itself:
    /// the same but for the normal, which points the other way.
    pub fn hit(&self, inner: Option<HitRecord>) -> (r: Option<HitRecord>)
        ensures
            r == flipped(inner),
    {
        match inner {
            Some(mut ret) => {
                ret.normal = ret.normal.neg();
                Some(ret)
            },
            None => None,
        }
    }

    /// The box around the flipped surface, given the box around the surface
    /// itself: the same.
    pub fn bounding_box(&self, inner: Aabb) -> (r: Aabb)
        ensures
            r == inner,
    {
        inner
    }
}

/// A hit with its point replaced.
pub open spec fn moved(hit: Option<HitRecord>, p: Vec3) -> Option<HitRecord> {
    match hit {
        Some(h) => Some(HitRecord { p, ..h }),
        None => None,
    }
}

/// A hit with its point and its normal replaced.
pub open spec fn turned(hit: Option<HitRecord>, p: Vec3, normal: Vec3) -> Option<HitRecord> {
    match hit {
        Some(h) => Some(HitRecord { p, normal, ..h }),
        None => None,
    }
}

/// Turning the normal of a hit round twice gives the hit back.
pub proof fn lemma_flip_twice(hit: Option<HitRecord>)
    ensures
        flipped(flipped(hit)) == hit,
{
    match hit {
        Some(h) => {
            crate::scalar::lemma_opposite(h.normal.x, h.normal.x);
            crate::scalar::lemma_opposite(h.normal.y, h.normal.y);
            crate::scalar::lemma_opposite(h.normal.z, h.normal.z);
        },
        None => {},
    }
}

/// Moving a surface changes nothing of a hit but its point: the hit on the
/// moved surface, with its point moved back to where it was, is the hit on
/// the surface itself.
pub proof fn lemma_translate_back(hit: Option<HitRecord>, p: Vec3)
    ensures
        moved(hit, p) is Some <==> hit is Some,
        hit matches Some(h) ==> moved(moved(hit, p), h.p) == hit,
{
}

/// Turning a surface changes nothing of a hit but its point and its normal:
/// the hit on the turned surface, with the two turned back to what they were,
/// is the hit on the surface itself.
pub proof fn lemma_rotate_back(hit: Option<HitRecord>, p: Vec3, normal: Vec3)
    ensures
        turned(hit, p, normal) is Some <==> hit is Some,
        hit matches Some(h) ==> turned(turned(hit, p, normal), h.p, h.normal) == hit,
{
}

/// A surface moved by an offset.
pub struct Translate {
    pub hitable: HitablePtr,
    pub offset: Vec3,
}

impl Translate {
    pub fn new(hitable: HitablePtr, offset: Vec3) -> (r: Translate)
        ensures
            r.hitable == hitable,
            r.offset == offset,
    {
        Translate { hitable, offset }
    }

    pub fn hitable_ptr(hitable: HitablePtr, offset: Vec3) -> (r: HitablePtr)
        ensures
            *r == Hitable::Translate(Translate { hitable, offset }),
    {
        Arc::new(Hitable::Translate(Translate::new(hitable, offset)))
    }

    /// The hit on the moved surface, given the hit of the ray, moved back by
    /// the offset, on the surface itself, and the point of that hit moved
    /// forth by the offset: the same hit at the moved point.
    pub fn hit(&self, inner: Option<HitRecord>, p: Vec3) -> (r: Option<HitRecord>)
        ensures
            r == moved(inner, p),
    {
        match inner {
            Some(mut ret) => {
                ret.p = p;
                Some(ret)
            },
            None => None,
        }
    }

    /// The box around the moved surface, given the corners of the box around
    /// the surface itself, each moved by the offset.
    pub fn bounding_box(&self, min: Vec3, max: Vec3) -> (r: Aabb)
        ensures
            r == (Aabb { min, max }),
    {
        Aabb::new(min, max)
    }
}

/// A surface turned about the vertical axis: the sine and cosine of the
/// angle, and an axis-aligned box around the turned surface.
pub struct RotateY {
    pub hitable: HitablePtr,
    pub sin_theta: Scalar,
    pub cos_theta: Scalar,
    pub aabb: Aabb,
}

impl RotateY {
    /// The surface turned by the angle whose sine and cosine are given;
    /// `turned` are the corners of the box around the surface, each turned by
    /// that angle. The box of the turned surface is the box around them.
    pub fn new(hitable: HitablePtr, sin_theta: Scalar, cos_theta: Scalar, turned: &Vec<Vec3>) -> (r:
        RotateY)
        ensures
            r.hitable == hitable,
            r.sin_theta == sin_theta,
            r.cos_theta == cos_theta,
            r.aabb == Aabb::around(turned@, turned@.len() as int),
            turned@.len() > 0 && Aabb::finite(turned@) ==> r.aabb.wf() && forall|i: int|
                0 <= i < turned@.len() ==> r.aabb.holds(#[trigger] turned@[i]),
    {
        RotateY { hitable, sin_theta, cos_theta, aabb: Aabb::enclosing(turned) }
    }

    pub fn hitable_ptr(hitable: HitablePtr, sin_theta: Scalar, cos_theta: Scalar, turned: &Vec<Vec3>) -> (r:
        HitablePtr)
        ensures
            *r matches Hitable::Rotate(t) && t.hitable == hitable && t.sin_theta == sin_theta
                && t.cos_theta == cos_theta && t.aabb == Aabb::around(turned@, turned@.len() as int),
    {
        Arc::new(Hitable::Rotate(RotateY::new(hitable, sin_theta, cos_theta, turned)))
    }

    /// The hit on the turned surface, given the hit of the ray, turned into
    /// the frame of the surface, on the surface itself, and the point and the
    /// normal of that hit turned back: the same hit with these two.
    pub fn hit(&self, inner: Option<HitRecord>, p: Vec3, normal: Vec3) -> (r: Option<HitRecord>)
        ensures
            r == turned(inner, p, normal),
    {
        match inner {
            Some(mut ret) => {
                ret.p = p;
                ret.normal = normal;
                Some(ret)
            },
            None => None,
        }
    }

    /// The box around the turned surface, whatever the time.
    pub fn bounding_box(&self) -> (r: Aabb)
        ensures
            r == self.aabb,
    {
        self.aabb
    }
}

/// A flat list of surfaces.
pub struct HitableList {
    pub list: Vec<HitablePtr>,
}

/// What a probe may answer: `(i, lo, hi, r)` stands for "asked for a hit on
/// surface `i` between `lo` and `hi`, the probe may return `r`".
pub open spec fn answers<P: Fn(&Hitable, Scalar, Scalar) -> Option<HitRecord>>(
    list: Seq<HitablePtr>,
    probe: &P,
) -> spec_fn(int, Scalar, Scalar, Option<HitRecord>) -> bool {
    |i: int, lo: Scalar, hi: Scalar, r: Option<HitRecord>| probe.ensures((&*list[i], lo, hi), r)
}

/// What a scan holds after one more answer: the new hit, where there is one,
/// else the hit it held.
pub open spec fn kept(held: Option<HitRecord>, found: Option<HitRecord>) -> Option<HitRecord> {
    if found is Some {
        found
    } else {
        held
    }
}

/// How far a scan looks after one more answer: up to the new hit, where there
/// is one, else as far as before.
pub open spec fn reach(closest: Scalar, found: Option<HitRecord>) -> Scalar {
    match found {
        Some(h) => h.t,
        None => closest,
    }
}

/// `hit` and `closest` are what a scan of the first `n` surfaces may hold:
/// the scan starts without a hit and looks up to `t_max`; it asks each
/// surface in turn for a hit between `t_min` and where it looks up to, and
/// where there is one, keeps it and looks no further than that.
pub open spec fn scanned(
    rel: spec_fn(int, Scalar, Scalar, Option<HitRecord>) -> bool,
    t_min: Scalar,
    t_max: Scalar,
    n: int,
    hit: Option<HitRecord>,
    closest: Scalar,
) -> bool
    decreases n,
{
    if n <= 0 {
        hit is None && closest == t_max
    } else {
        exists|held: Option<HitRecord>, c0: Scalar, found: Option<HitRecord>|
            #![trigger kept(held, found), reach(c0, found)]
            scanned(rel, t_min, t_max, n - 1, held, c0) && rel(n - 1, t_min, c0, found) && hit
                == kept(held, found) && closest == reach(c0, found)
    }
}

impl HitableList {
    pub fn new() -> (r: HitableList)
        ensures
            r.list@.len() == 0,
    {
        HitableList { list: Vec::new() }
    }

    pub fn add_hitable(&mut self, hitable: HitablePtr)
        ensures
            final(self).list@ == old(self).list@.push(hitable),
    {
        self.list.push(hitable);
    }

    /// The nearest hit on the surfaces of the list between `t_min` and
    /// `t_max`, where `probe` finds the hit on one surface. Each surface is
    /// asked only for a hit nearer than the nearest found before it.
    pub fn hit<P: Fn(&Hitable, Scalar, Scalar) -> Option<HitRecord>>(
        &self,
        probe: &P,
        t_min: Scalar,
        t_max: Scalar,
    ) -> (r: Option<HitRecord>)
        requires
            forall|i: int, lo: Scalar, hi: Scalar|
                0 <= i < self.list@.len() ==> probe.requires((&*self.list@[i], lo, hi)),
        ensures
            exists|closest: Scalar|
                scanned(
                    answers(self.list@, probe),
                    t_min,
                    t_max,
                    self.list@.len() as int,
                    r,
                    closest,
                ),
    {
        let mut hit: Option<HitRecord> = None;
        let mut closest: Scalar = t_max;
        let mut i: usize = 0;
        while i < self.list.len()
            invariant
                i <= self.list@.len(),
                forall|i: int, lo: Scalar, hi: Scalar|
                    0 <= i < self.list@.len() ==> probe.requires((&*self.list@[i], lo, hi)),
                scanned(answers(self.list@, probe), t_min, t_max, i as int, hit, closest),
            decreases self.list@.len() - i,
        {
            let ghost held = hit;
            let ghost c0 = closest;
            let result: Option<HitRecord> = probe(&*self.list[i], t_min, closest);
            let ghost found = result;
            if let Some(hit_record) = result {
                closest = hit_record.t;
                hit = Some(hit_record);
            }
            proof {
                let rel = answers(self.list@, probe);
                let n = i as int + 1;
                assert(rel(n - 1, t_min, c0, found));
                assert(scanned(rel, t_min, t_max, n - 1, held, c0));
                assert(hit == kept(held, found));
                assert(closest == reach(c0, found));
                assert(scanned(rel, t_min, t_max, n, hit, closest));
            }
            i += 1;
        }
        hit
    }
}

/// A box-shaped solid, made of its six faces.
pub struct AabbBox {
    pub aabb: Aabb,
    pub faces: HitableList,
}

/// The six faces of a box: for each axis, the face at the greatest
/// coordinate, and the face at the least one with its normal turned outward.
pub open spec fn box_faces(b: Aabb, material: MaterialPtr) -> Seq<Hitable> {
    let xy = |k: Scalar|
        Hitable::Rect(
            AARect {
                a_index: 0,
                b_index: 1,
                c_index: 2,
                a0: b.min.x,
                b0: b.min.y,
                a1: b.max.x,
                b1: b.max.y,
                c: k,
                material,
            },
        );
    let xz = |k: Scalar|
        Hitable::Rect(
            AARect {
                a_index: 0,
                b_index: 2,
                c_index: 1,
                a0: b.min.x,
                b0: b.min.z,
                a1: b.max.x,
                b1: b.max.z,
                c: k,
                material,
            },
        );
    let yz = |k: Scalar|
        Hitable::Rect(
            AARect {
                a_index: 1,
                b_index: 2,
                c_index: 0,
                a0: b.min.y,
                b0: b.min.z,
                a1: b.max.y,
                b1: b.max.z,
                c: k,
                material,
            },
        );
    seq![
        xy(b.max.z),
        Hitable::Flip(FlipNormals { hitable: Arc::new(xy(b.min.z)) }),
        xz(b.max.y),
        Hitable::Flip(FlipNormals { hitable: Arc::new(xz(b.min.y)) }),
        yz(b.max.x),
        Hitable::Flip(FlipNormals { hitable: Arc::new(yz(b.min.x)) }),
    ]
}

impl AabbBox {
    pub fn new(aabb: Aabb, material: MaterialPtr) -> (r: AabbBox)
        ensures
            r.aabb == aabb,
            r.faces.list@.len() == 6,
            forall|i: int| 0 <= i < 6 ==> *(#[trigger] r.faces.list@[i]) == box_faces(aabb, material)[i],
    {
        let n: Vec3 = aabb.min;
        let m: Vec3 = aabb.max;
        let mut faces: HitableList = HitableList::new();
        faces.add_hitable(Rect::xyrect(n.x, n.y, m.x, m.y, m.z, share(&material)));
        faces.add_hitable(
            FlipNormals::hitable_ptr(Rect::xyrect(n.x, n.y, m.x, m.y, n.z, share(&material))),
        );
        faces.add_hitable(Rect::xzrect(n.x, n.z, m.x, m.z, m.y, share(&material)));
        faces.add_hitable(
            FlipNormals::hitable_ptr(Rect::xzrect(n.x, n.z, m.x, m.z, n.y, share(&material))),
        );
        faces.add_hitable(Rect::yzrect(n.y, n.z, m.y, m.z, m.x, share(&material)));
        faces.add_hitable(
            FlipNormals::hitable_ptr(Rect::yzrect(n.y, n.z, m.y, m.z, n.x, share(&material))),
        );
        AabbBox { aabb, faces }
    }

    pub fn hitable_ptr(aabb: Aabb, material: MaterialPtr) -> (r: HitablePtr)
        ensures
            *r matches Hitable::Cuboid(b) && b.aabb == aabb && b.faces.list@.len() == 6 && forall|
                i: int,
            |
                0 <= i < 6 ==> *(#[trigger] b.faces.list@[i]) == box_faces(aabb, material)[i],
    {
        Arc::new(Hitable::Cuboid(AabbBox::new(aabb, material)))
    }

    /// The nearest hit on the faces of the box.
    pub fn hit<P: Fn(&Hitable, Scalar, Scalar) -> Option<HitRecord>>(
        &self,
        probe: &P,
        t_min: Scalar,
        t_max: Scalar,
    ) -> (r: Option<HitRecord>)
        requires
            forall|i: int, lo: Scalar, hi: Scalar|
                0 <= i < self.faces.list@.len() ==> probe.requires((&*self.faces.list@[i], lo, hi)),
        ensures
            exists|closest: Scalar|
                scanned(
                    answers(self.faces.list@, probe),
                    t_min,
                    t_max,
                    self.faces.list@.len() as int,
                    r,
                    closest,
                ),
    {
        self.faces.hit(probe, t_min, t_max)
    }

    /// The box itself, whatever the time.
    pub fn bounding_box(&self) -> (r: Aabb)
        ensures
            r == self.aabb,
    {
        self.aabb
    }
}

} // verus!
