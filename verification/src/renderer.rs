//! The integrator: how a ray is followed from bounce to bounce.

use vstd::prelude::*;
use crate::scalar::Scalar;
use crate::vec3::Vec3;
use crate::ray::Ray;
use crate::hitable::HitablePtr;
use crate::material::ScatterInfo;

verus! {

/// The number of bounces after which a path is cut off.
pub const MAX_DEPTH: u32 = 50;

/// The code of the least ray parameter at which a hit counts, one
/// thousandth: a scattered ray must not hit the surface it starts from.
pub const NEAR_BITS: u64 = 0x3F50_624D_D2F1_A9FC;

/// What a surface does to a ray that hits it: the light it sends out, and
/// the ray it scatters, if it scatters one.
#[derive(Clone, Copy, Debug)]
pub struct Bounce {
    pub emitted: Vec3,
    pub scatter: Option<ScatterInfo>,
}

/// One bounce of a path: the ray that arrived, the light that the surface
/// sent out, and the share of each colour that it passed on.
#[derive(Clone, Copy, Debug, PartialEq, Eq, Structural)]
pub struct Segment {
    pub ray: Ray,
    pub emitted: Vec3,
    pub attenuation: Vec3,
}

/// How a path ends: cut off at the ceiling, gone without a hit, or absorbed
/// by a surface that sent out the given light.
#[derive(Clone, Copy, Debug, PartialEq, Eq, Structural)]
pub enum PathEnd {
    Ceiling,
    Escaped,
    Absorbed(Vec3),
}

/// The path of one ray through the scene: its bounces in order, the last ray,
/// which was not scattered on, and how the path ended.
pub struct LightPath {
    pub segments: Vec<Segment>,
    pub last: Ray,
    pub end: PathEnd,
}

/// What the scene may do to a ray: `(ray, b)` stands for "followed to its
/// nearest hit, `ray` may meet with `b`", `None` being no hit at all.
pub open spec fn meets<F: Fn(&Ray) -> Option<Bounce>>(interact: &F) -> spec_fn(
    Ray,
    Option<Bounce>,
) -> bool {
    |ray: Ray, b: Option<Bounce>| interact.ensures((&ray, ), b)
}

/// The number of bounces that a path may still take when it starts at the
/// given depth.
pub open spec fn room(depth: int) -> int {
    if depth >= MAX_DEPTH {
        0
    } else {
        MAX_DEPTH - depth
    }
}

impl LightPath {
    /// The ray that leaves bounce `i`.
    pub open spec fn ray_after(&self, i: int) -> Ray {
        if i + 1 < self.segments@.len() {
            self.segments@[i + 1].ray
        } else {
            self.last
        }
    }

    /// The ray that the path starts with.
    pub open spec fn first_ray(&self) -> Ray {
        if self.segments@.len() > 0 {
            self.segments@[0].ray
        } else {
            self.last
        }
    }

    /// The path is one that the scene allows to a ray that starts at the
    /// given depth: at each bounce the ray met a surface that sent out the
    /// light recorded and scattered the next ray with the attenuation
    /// recorded; the path has no more bounces than lead from its depth to
    /// depth 50; and it ends at the ceiling exactly if it has that many, else
    /// because the last ray hit nothing, or hit a surface that scattered
    /// nothing. A path that starts at depth 50 or deeper has no bounce and
    /// ends at the ceiling.
    pub open spec fn follows(&self, rel: spec_fn(Ray, Option<Bounce>) -> bool, depth: int) -> bool {
        &&& self.segments@.len() <= room(depth)
        &&& forall|i: int|
            0 <= i < self.segments@.len() ==> rel(
                (#[trigger] self.segments@[i]).ray,
                Some(
                    Bounce {
                        emitted: self.segments@[i].emitted,
                        scatter: Some(
                            ScatterInfo {
                                attenuation: self.segments@[i].attenuation,
                                scattered: self.ray_after(i),
                            },
                        ),
                    },
                ),
            )
        &&& match self.end {
            PathEnd::Ceiling => self.segments@.len() == room(depth),
            PathEnd::Escaped => self.segments@.len() < room(depth) && rel(self.last, None),
            PathEnd::Absorbed(e) => self.segments@.len() < room(depth) && rel(
                self.last,
                Some(Bounce { emitted: e, scatter: None }),
            ),
        }
    }
}

/// The settings of a rendering: the scene, the size of the picture, the
/// number of samples for each pixel, and whether rays that hit nothing see a
/// sky or darkness.
pub struct Renderer {
    pub scene: HitablePtr,
    pub nx: u32,
    pub ny: u32,
    pub num_samples: u32,
    pub default_sky: bool,
}

impl Renderer {
    pub fn new(scene: HitablePtr, nx: u32, ny: u32, ns: u32, default_sky: bool) -> (r: Renderer)
        ensures
            r.scene == scene,
            r.nx == nx,
            r.ny == ny,
            r.num_samples == ns,
            r.default_sky == default_sky,
    {
        Renderer { scene, nx, ny, num_samples: ns, default_sky }
    }

    /// Follows a ray that has `depth` bounces behind it through the scene,
    /// where `interact` finds the nearest hit of a ray and what the surface
    /// there does to it. The path ends where a ray hits nothing, where a
    /// surface scatters nothing, or at depth 50; at depth 50 or deeper the
    /// scene is not asked at all, and the path brings back nothing.
    pub fn color<F: Fn(&Ray) -> Option<Bounce>>(&self, r: &Ray, depth: u32, interact: &F) -> (path:
        LightPath)
        requires
            forall|ray: Ray| interact.requires((&ray, )),
        ensures
            path.first_ray() == *r,
            path.follows(meets(interact), depth as int),
            depth >= MAX_DEPTH ==> path.segments@.len() == 0 && path.end == PathEnd::Ceiling
                && path.last == *r,
    {
        let mut segments: Vec<Segment> = Vec::new();
        let mut ray: Ray = *r;
        let mut d: u32 = depth;
        while d < MAX_DEPTH
            invariant
                depth <= d,
                d <= MAX_DEPTH || d == depth,
                segments@.len() == d - depth,
                forall|ray: Ray| interact.requires((&ray, )),
                d == depth ==> ray == *r,
                d > depth ==> segments@[0].ray == *r,
                forall|i: int|
                    0 <= i < segments@.len() ==> meets(interact)(
                        (#[trigger] segments@[i]).ray,
                        Some(
                            Bounce {
                                emitted: segments@[i].emitted,
                                scatter: Some(
                                    ScatterInfo {
                                        attenuation: segments@[i].attenuation,
                                        scattered: if i + 1 < segments@.len() {
                                            segments@[i + 1].ray
                                        } else {
                                            ray
                                        },
                                    },
                                ),
                            },
                        ),
                    ),
            decreases MAX_DEPTH - d,
        {
            let met: Option<Bounce> = interact(&ray);
            match met {
                None => {
                    return LightPath { segments, last: ray, end: PathEnd::Escaped };
                },
                Some(b) => {
                    match b.scatter {
                        None => {
                            return LightPath { segments, last: ray, end: PathEnd::Absorbed(b.emitted) };
                        },
                        Some(s) => {
                            segments.push(
                                Segment { ray, emitted: b.emitted, attenuation: s.attenuation },
                            );
                            ray = s.scattered;
                            d += 1;
                        },
                    }
                },
            }
        }
        LightPath { segments, last: ray, end: PathEnd::Ceiling }
    }

    /// The range of ray parameters in which the scene is asked for hits: from
    /// a little beyond the ray's origin to the largest finite number.
    pub fn range() -> (r: (Scalar, Scalar))
        ensures
            r.0.bits == NEAR_BITS,
            r.1.bits == crate::scalar::MAX_BITS,
            r.0.below(r.1),
            (Scalar { bits: 0 }).below(r.0),
    {
        (Scalar { bits: NEAR_BITS }, Scalar::max_value())
    }

    /// What the end of a path brings back, before the bounces add to it and
    /// take from it: nothing where the path was cut off at the ceiling, the
    /// background where the last ray hit nothing, and the light that the last
    /// surface sent out where it scattered nothing.
    pub fn terminal(&self, end: PathEnd, sky: Vec3) -> (r: Vec3)
        ensures
            r == match end {
                PathEnd::Ceiling => Vec3 {
                    x: Scalar { bits: 0 },
                    y: Scalar { bits: 0 },
                    z: Scalar { bits: 0 },
                },
                PathEnd::Escaped => if self.default_sky {
                    sky
                } else {
                    Vec3 { x: Scalar { bits: 0 }, y: Scalar { bits: 0 }, z: Scalar { bits: 0 } }
                },
                PathEnd::Absorbed(e) => e,
            },
    {
        match end {
            PathEnd::Ceiling => Vec3::zero(),
            PathEnd::Escaped => self.background(sky),
            PathEnd::Absorbed(e) => e,
        }
    }

    /// What a ray that hits nothing sees: the sky where the scene has one,
    /// else nothing at all.
    pub fn background(&self, sky: Vec3) -> (r: Vec3)
        ensures
            r == if self.default_sky {
                sky
            } else {
                Vec3 { x: Scalar { bits: 0 }, y: Scalar { bits: 0 }, z: Scalar { bits: 0 } }
            },
    {
        if !self.default_sky {
            Vec3::zero()
        } else {
            sky
        }
    }
}

} // verus!
