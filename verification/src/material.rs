//! Materials: what a surface does to the light that reaches it.

use vstd::prelude::*;
use std::sync::Arc;
use crate::scalar::Scalar;
use crate::scalar::ONE_BITS;
use crate::vec3::Vec3;
use crate::ray::Ray;
use crate::hitable::HitRecord;
use crate::texture::TexturePtr;
use crate::constant_medium::Isotropic;

verus! {

/// A scattered ray and the share of each colour that it carries on.
#[derive(Clone, Copy, Debug, PartialEq, Eq, Structural)]
pub struct ScatterInfo {
    pub attenuation: Vec3,
    pub scattered: Ray,
}

/// A material, shared by the surfaces made of it.
pub type MaterialPtr = Arc<Material>;

/// The kinds of material.
pub enum Material {
    Lambertian(Lambertian),
    Metal(Metal),
    Dielectric(Dielectric),
    Isotropic(Isotropic),
    DiffuseLight(DiffuseLight),
}

/// The quantities that one scattering event rests on, worked out by the
/// caller for the material at hand.
#[derive(Clone, Copy, Debug)]
pub struct Sample {
    /// The value of the material's texture at the hit.
    pub attenuation: Vec3,
    /// The direction in which the material would send the ray on: for a
    /// diffuse surface the normal plus a random point of the unit ball, for a
    /// metal the mirror direction plus the roughness times such a point, for
    /// a medium such a point alone, for a dielectric the mirror direction.
    pub direction: Vec3,
    /// The dot product of `direction` with the surface normal.
    pub facing: Scalar,
    /// The direction of the refracted ray, where refraction is possible.
    pub refracted: Option<Vec3>,
    /// The share of the light that a dielectric reflects at this angle.
    pub reflectance: Scalar,
    /// A number drawn uniformly from 0 up to, not including, 1.
    pub draw: Scalar,
}

/// The ray that leaves a hit in the given direction, at the time of the ray
/// that arrived.
pub open spec fn onward(ray: Ray, hit: HitRecord, direction: Vec3) -> Ray {
    Ray { origin: hit.p, direction, time: ray.time }
}

/// A diffuse surface.
pub struct Lambertian {
    pub texture: TexturePtr,
}

impl Lambertian {
    pub fn new(texture: TexturePtr) -> (r: Lambertian)
        ensures
            r.texture == texture,
    {
        Lambertian { texture }
    }

    pub fn rc(texture: TexturePtr) -> (r: MaterialPtr)
        ensures
            *r == Material::Lambertian(Lambertian { texture }),
    {
        Arc::new(Material::Lambertian(Lambertian::new(texture)))
    }

    /// A diffuse surface always scatters: in the direction given, with the
    /// colour of its texture.
    pub fn scatter(&self, ray: &Ray, hit: &HitRecord, direction: Vec3, attenuation: Vec3) -> (r:
        Option<ScatterInfo>)
        ensures
            r == Some(ScatterInfo { attenuation, scattered: onward(*ray, *hit, direction) }),
    {
        Some(ScatterInfo { attenuation, scattered: Ray::new(hit.p, direction, ray.time) })
    }
}

/// A mirror, more or less rough.
pub struct Metal {
    pub texture: TexturePtr,
    pub fuzz: Scalar,
}

impl Metal {
    pub fn new(texture: TexturePtr, fuzz: Scalar) -> (r: Metal)
        ensures
            r.texture == texture,
            r.fuzz == fuzz,
    {
        Metal { texture, fuzz }
    }

    pub fn rc(texture: TexturePtr, fuzz: Scalar) -> (r: MaterialPtr)
        ensures
            *r == Material::Metal(Metal { texture, fuzz }),
    {
        Arc::new(Material::Metal(Metal::new(texture, fuzz)))
    }

    /// A metal scatters in the direction given if that direction leaves the
    /// surface on the side of the normal, that is if `facing`, its dot
    /// product with the normal, is positive. Else it absorbs the ray.
    pub fn scatter(
        &self,
        ray: &Ray,
        hit: &HitRecord,
        direction: Vec3,
        facing: Scalar,
        attenuation: Vec3,
    ) -> (r: Option<ScatterInfo>)
        ensures
            r == if (Scalar { bits: 0 }).below(facing) {
                Some(ScatterInfo { attenuation, scattered: onward(*ray, *hit, direction) })
            } else {
                None
            },
    {
        if facing.gt(Scalar::zero()) {
            Some(ScatterInfo { attenuation, scattered: Ray::new(hit.p, direction, ray.time) })
        } else {
            None
        }
    }
}

/// Glass and the like.
pub struct Dielectric {
    pub ref_index: Scalar,
}

/// The chance that a dielectric reflects: the reflectance at this angle, or
/// certainty where refraction is impossible.
pub open spec fn reflect_prob(refracted: Option<Vec3>, reflectance: Scalar) -> Scalar {
    if refracted is Some {
        reflectance
    } else {
        Scalar { bits: ONE_BITS }
    }
}

/// The direction in which a dielectric sends a ray on: the mirror direction
/// where the draw falls under the chance of reflection, else the refracted
/// direction.
pub open spec fn dielectric_direction(
    reflected: Vec3,
    refracted: Option<Vec3>,
    reflectance: Scalar,
    draw: Scalar,
) -> Vec3 {
    if draw.below(reflect_prob(refracted, reflectance)) {
        reflected
    } else {
        match refracted {
            Some(d) => d,
            None => Vec3 { x: Scalar { bits: 0 }, y: Scalar { bits: 0 }, z: Scalar { bits: 0 } },
        }
    }
}

impl Dielectric {
    pub fn new(ref_index: Scalar) -> (r: Dielectric)
        ensures
            r.ref_index == ref_index,
    {
        Dielectric { ref_index }
    }

    pub fn rc(ref_index: Scalar) -> (r: MaterialPtr)
        ensures
            *r == Material::Dielectric(Dielectric { ref_index }),
    {
        Arc::new(Material::Dielectric(Dielectric::new(ref_index)))
    }

    /// Whether the ray arrives from outside: it does unless it runs along
    /// with the surface normal, that is unless `facing`, the dot product of
    /// its direction with the normal, is positive.
    pub fn entering(&self, facing: Scalar) -> (r: bool)
        ensures
            r == !(Scalar { bits: 0 }).below(facing),
    {
        !facing.gt(Scalar::zero())
    }

    /// The cosine on the far side of the surface for a ray that leaves the
    /// solid: the root that the caller took of `under_root` where that is
    /// positive, and zero where there is no such root.
    pub fn cosine(&self, under_root: Scalar, root: Scalar) -> (r: Scalar)
        ensures
            r == if (Scalar { bits: 0 }).below(under_root) {
                root
            } else {
                Scalar { bits: 0 }
            },
    {
        if under_root.gt(Scalar::zero()) {
            root
        } else {
            Scalar::zero()
        }
    }

    /// A dielectric always scatters, and takes no colour away. One draw
    /// decides between reflection and refraction; where refraction is
    /// impossible the chance of reflection is 1.
    pub fn scatter(
        &self,
        ray: &Ray,
        hit: &HitRecord,
        reflected: Vec3,
        refracted: Option<Vec3>,
        reflectance: Scalar,
        draw: Scalar,
    ) -> (r: Option<ScatterInfo>)
        ensures
            r matches Some(s) && s.attenuation.x.bits == ONE_BITS && s.attenuation.y.bits == ONE_BITS
                && s.attenuation.z.bits == ONE_BITS && s.scattered == onward(
                *ray,
                *hit,
                dielectric_direction(reflected, refracted, reflectance, draw),
            ),
    {
        let mut direction: Vec3 = Vec3::zero();
        let chance: Scalar;
        if let Some(d) = refracted {
            chance = reflectance;
            direction = d;
        } else {
            chance = Scalar::one();
        }
        if draw.lt(chance) {
            Some(
                ScatterInfo { attenuation: Vec3::one(), scattered: Ray::new(hit.p, reflected, ray.time) },
            )
        } else {
            Some(
                ScatterInfo { attenuation: Vec3::one(), scattered: Ray::new(hit.p, direction, ray.time) },
            )
        }
    }
}

/// A light: it sends out the colour of its texture and scatters nothing.
pub struct DiffuseLight {
    pub texture: TexturePtr,
}

impl DiffuseLight {
    pub fn new(texture: TexturePtr) -> (r: DiffuseLight)
        ensures
            r.texture == texture,
    {
        DiffuseLight { texture }
    }

    pub fn rc(tex: TexturePtr) -> (r: MaterialPtr)
        ensures
            *r == Material::DiffuseLight(DiffuseLight { texture: tex }),
    {
        Arc::new(Material::DiffuseLight(DiffuseLight::new(tex)))
    }

    /// A light absorbs every ray.
    pub fn scatter(&self, ray: &Ray, hit: &HitRecord) -> (r: Option<ScatterInfo>)
        ensures
            r is None,
    {
        None
    }

    /// A light sends out the value of its texture.
    pub fn emit(&self, glow: Vec3) -> (r: Vec3)
        ensures
            r == glow,
    {
        glow
    }
}

impl Material {
    /// The texture whose value the material sends out, if it is a light.
    pub open spec fn glows(&self) -> Option<TexturePtr> {
        match self {
            Material::DiffuseLight(l) => Some(l.texture),
            _ => None,
        }
    }

    /// The texture whose value colours what the material scatters.
    pub open spec fn colour(&self) -> Option<TexturePtr> {
        match self {
            Material::Lambertian(m) => Some(m.texture),
            Material::Metal(m) => Some(m.texture),
            Material::Isotropic(m) => Some(m.albedo),
            _ => None,
        }
    }

    /// What `scatter` returns.
    pub open spec fn scattering(&self, ray: Ray, hit: HitRecord, sample: Sample) -> Option<ScatterInfo> {
        match self {
            Material::Lambertian(_) | Material::Isotropic(_) => Some(
                ScatterInfo {
                    attenuation: sample.attenuation,
                    scattered: onward(ray, hit, sample.direction),
                },
            ),
            Material::Metal(_) => if (Scalar { bits: 0 }).below(sample.facing) {
                Some(
                    ScatterInfo {
                        attenuation: sample.attenuation,
                        scattered: onward(ray, hit, sample.direction),
                    },
                )
            } else {
                None
            },
            Material::Dielectric(_) => Some(
                ScatterInfo {
                    attenuation: Vec3 {
                        x: Scalar { bits: ONE_BITS },
                        y: Scalar { bits: ONE_BITS },
                        z: Scalar { bits: ONE_BITS },
                    },
                    scattered: onward(
                        ray,
                        hit,
                        dielectric_direction(
                            sample.direction,
                            sample.refracted,
                            sample.reflectance,
                            sample.draw,
                        ),
                    ),
                },
            ),
            Material::DiffuseLight(_) => None,
        }
    }

    /// The texture whose value the material sends out, if it is a light.
    pub fn emitter(&self) -> (r: Option<&TexturePtr>)
        ensures
            r matches Some(t) ==> self.glows() == Some(*t),
            r is None ==> self.glows() is None,
    {
        match self {
            Material::DiffuseLight(l) => Some(&l.texture),
            _ => None,
        }
    }

    /// The texture whose value colours what the material scatters, if it has
    /// one.
    pub fn albedo(&self) -> (r: Option<&TexturePtr>)
        ensures
            r matches Some(t) ==> self.colour() == Some(*t),
            r is None ==> self.colour() is None,
    {
        match self {
            Material::Lambertian(m) => Some(&m.texture),
            Material::Metal(m) => Some(&m.texture),
            Material::Isotropic(m) => Some(&m.albedo),
            _ => None,
        }
    }

    /// The light that the material sends out, given the value of its texture
    /// at the point: that value for a light, nothing for any other material.
    pub fn emit(&self, glow: Vec3) -> (r: Vec3)
        ensures
            r == if self is DiffuseLight {
                glow
            } else {
                Vec3 { x: Scalar { bits: 0 }, y: Scalar { bits: 0 }, z: Scalar { bits: 0 } }
            },
    {
        match self {
            Material::DiffuseLight(l) => l.emit(glow),
            _ => Vec3::zero(),
        }
    }

    /// Whether the material sends the ray on, and how.
    pub fn scatter(&self, ray: &Ray, hit: &HitRecord, sample: &Sample) -> (r: Option<ScatterInfo>)
        ensures
            r == self.scattering(*ray, *hit, *sample),
    {
        match self {
            Material::Lambertian(m) => m.scatter(ray, hit, sample.direction, sample.attenuation),
            Material::Metal(m) => m.scatter(
                ray,
                hit,
                sample.direction,
                sample.facing,
                sample.attenuation,
            ),
            Material::Dielectric(m) => m.scatter(
                ray,
                hit,
                sample.direction,
                sample.refracted,
                sample.reflectance,
                sample.draw,
            ),
            Material::Isotropic(m) => m.scatter(ray, hit, sample.direction, sample.attenuation),
            Material::DiffuseLight(m) => m.scatter(ray, hit),
        }
    }
}

} // verus!
