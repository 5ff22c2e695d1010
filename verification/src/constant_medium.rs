//! Participating media: volumes in which a ray may scatter anywhere.

use vstd::prelude::*;
use std::sync::Arc;
use crate::scalar::Scalar;
use crate::scalar::MAX_BITS;
use crate::vec3::Vec3;
use crate::ray::Ray;
use crate::aabb::Aabb;
use crate::hitable::HitRecord;
use crate::hitable::Hitable;
use crate::hitable::HitablePtr;
use crate::hitable::share;
use crate::material::Material;
use crate::material::MaterialPtr;
use crate::material::ScatterInfo;
use crate::material::onward;
use crate::texture::TexturePtr;

verus! {

/// What fills a medium: it scatters the same in every direction.
pub struct Isotropic {
    pub albedo: TexturePtr,
}

impl Isotropic {
    pub fn new(albedo: TexturePtr) -> (r: Isotropic)
        ensures
            r.albedo == albedo,
    {
        Isotropic { albedo }
    }

    pub fn rc(albedo: TexturePtr) -> (r: MaterialPtr)
        ensures
            *r == Material::Isotropic(Isotropic { albedo }),
    {
        Arc::new(Material::Isotropic(Isotropic::new(albedo)))
    }

    /// A medium always scatters: in the direction given, with the colour of
    /// its texture.
    pub fn scatter(&self, ray: &Ray, hit: &HitRecord, direction: Vec3, attenuation: Vec3) -> (r:
        Option<ScatterInfo>)
        ensures
            r == Some(ScatterInfo { attenuation, scattered: onward(*ray, *hit, direction) }),
    {
        Some(ScatterInfo { attenuation, scattered: Ray::new(hit.p, direction, ray.time) })
    }
}

/// A medium of even density within a boundary surface.
pub struct ConstantMedium {
    pub boundary: HitablePtr,
    pub density: Scalar,
    pub material: MaterialPtr,
}

/// The stretch of a ray inside a medium: from where it enters the boundary,
/// but not before `t_min`, to where it leaves, but not after `t_max`; none
/// where the stretch would start behind the ray's origin.
pub open spec fn stretch(entry: Scalar, exit: Scalar, t_min: Scalar, t_max: Scalar) -> Option<
    (Scalar, Scalar),
> {
    if entry.greater(t_min).below(Scalar { bits: 0 }) {
        None
    } else {
        Some((entry.greater(t_min), exit.lesser(t_max)))
    }
}

impl ConstantMedium {
    /// A medium within `boundary` that scatters like the texture given.
    pub fn new(boundary: &HitablePtr, density: Scalar, phase_texture: TexturePtr) -> (r:
        ConstantMedium)
        ensures
            r.boundary == *boundary,
            r.density == density,
            *r.material == Material::Isotropic(Isotropic { albedo: phase_texture }),
    {
        let material: MaterialPtr = Isotropic::rc(phase_texture);
        ConstantMedium { boundary: share(boundary), density, material }
    }

    pub fn hitable_ptr(boundary: &HitablePtr, density: Scalar, phase_texture: TexturePtr) -> (r:
        HitablePtr)
        ensures
            *r matches Hitable::Medium(m) && m.boundary == *boundary && m.density == density
                && *m.material == Material::Isotropic(Isotropic { albedo: phase_texture }),
    {
        Arc::new(Hitable::Medium(ConstantMedium::new(boundary, density, phase_texture)))
    }

    /// The range in which the entry of a ray into the boundary is searched:
    /// the whole line of the ray, behind its origin as well as before it.
    pub fn entry_range() -> (r: (Scalar, Scalar))
        ensures
            r.0 == (Scalar { bits: MAX_BITS }).opposite(),
            r.1 == (Scalar { bits: MAX_BITS }),
            r.0.below(r.1),
    {
        (Scalar::max_value().neg(), Scalar::max_value())
    }

    /// The range in which the exit of a ray from the boundary is searched:
    /// from `past`, a little past the entry, to the end of the line.
    pub fn exit_range(past: Scalar) -> (r: (Scalar, Scalar))
        ensures
            r.0 == past,
            r.1 == (Scalar { bits: MAX_BITS }),
    {
        (past, Scalar::max_value())
    }

    /// The stretch of the ray inside the medium, given what the two searches
    /// found: none where the ray's line does not enter the boundary or does
    /// not leave it again, else the stretch between entry and exit.
    pub fn between(
        &self,
        entry: &Option<HitRecord>,
        exit: &Option<HitRecord>,
        t_min: Scalar,
        t_max: Scalar,
    ) -> (r: Option<(Scalar, Scalar)>)
        ensures
            r == match (*entry, *exit) {
                (Some(e), Some(x)) => stretch(e.t, x.t, t_min, t_max),
                _ => None,
            },
    {
        match entry {
            Some(e) => match exit {
                Some(x) => self.span(e.t, x.t, t_min, t_max),
                None => None,
            },
            None => None,
        }
    }

    /// The stretch of the ray inside the medium, given where the ray's line
    /// enters and leaves the boundary.
    pub fn span(&self, entry: Scalar, exit: Scalar, t_min: Scalar, t_max: Scalar) -> (r: Option<
        (Scalar, Scalar),
    >)
        ensures
            r == stretch(entry, exit, t_min, t_max),
    {
        let t1: Scalar = entry.max(t_min);
        let t2: Scalar = exit.min(t_max);
        if t1.lt(Scalar::zero()) {
            None
        } else {
            Some((t1, t2))
        }
    }

    /// The scattering of a ray inside the medium: it happens if the free path
    /// drawn for the ray is shorter than the ray's way through the medium,
    /// and then at the parameter `t` and the point `p` that the caller worked
    /// out from the free path. A medium has no surface, so the record has no
    /// normal and no surface coordinates.
    pub fn hit(&self, free_path: Scalar, inside: Scalar, t: Scalar, p: Vec3) -> (r: Option<HitRecord>)
        ensures
            r == if free_path.below(inside) {
                Some(
                    HitRecord {
                        t,
                        p,
                        normal: Vec3 { x: Scalar { bits: 0 }, y: Scalar { bits: 0 }, z: Scalar { bits: 0 } },
                        u: Scalar { bits: 0 },
                        v: Scalar { bits: 0 },
                        material: self.material,
                    },
                )
            } else {
                None
            },
    {
        if free_path.lt(inside) {
            Some(
                HitRecord::new(
                    t,
                    p,
                    Vec3::zero(),
                    Scalar::zero(),
                    Scalar::zero(),
                    share(&self.material),
                ),
            )
        } else {
            None
        }
    }

    /// The box around the medium, given the box around its boundary: the
    /// same.
    pub fn bounding_box(&self, boundary: Aabb) -> (r: Aabb)
        ensures
            r == boundary,
    {
        boundary
    }
}

} // verus!
