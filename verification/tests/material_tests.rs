use std::sync::Arc;

use raytrace::constant_medium::Isotropic;
use raytrace::hitable::HitRecord;
use raytrace::material::{
    Dielectric, DiffuseLight, Lambertian, Material, MaterialPtr, Metal, Sample, ScatterInfo,
};
use raytrace::ray::Ray;
use raytrace::scalar::Scalar;
use raytrace::texture::{ConstantTexture, TexturePtr};
use raytrace::vec3::Vec3;

fn s(x: f64) -> Scalar {
    Scalar::from_bits(x.to_bits())
}

fn v(x: f64, y: f64, z: f64) -> Vec3 {
    Vec3::new(s(x), s(y), s(z))
}

fn grey() -> TexturePtr {
    ConstantTexture::rc(v(0.5, 0.5, 0.5))
}

fn straight_on() -> (Ray, HitRecord) {
    let m: MaterialPtr = Dielectric::rc(s(1.5));
    let ray = Ray::new(v(0.0, 0.0, 5.0), v(0.0, 0.0, -1.0), s(0.25));
    let hit = HitRecord::new(s(4.0), v(0.0, 0.0, 1.0), v(0.0, 0.0, 1.0), s(0.5), s(0.5), m);
    (ray, hit)
}

fn sample(direction: Vec3, facing: f64) -> Sample {
    Sample {
        attenuation: v(0.8, 0.6, 0.2),
        direction,
        facing: s(facing),
        refracted: None,
        reflectance: s(0.0),
        draw: s(0.0),
    }
}

#[test]
fn dielectric_takes_no_colour_away_whichever_way_the_ray_goes() {
    let (ray, hit) = straight_on();
    let glass = Dielectric::new(s(1.5));
    let reflected = v(0.0, 0.0, 1.0);
    let refracted = v(0.0, 0.0, -1.0);
    // At normal incidence glass of index 1.5 reflects 4 % of the light.
    let reflectance = 0.04;
    let back = glass
        .scatter(&ray, &hit, reflected, Some(refracted), s(reflectance), s(0.01))
        .unwrap();
    assert_eq!(back.attenuation, v(1.0, 1.0, 1.0));
    assert_eq!(back.scattered, Ray::new(v(0.0, 0.0, 1.0), reflected, s(0.25)));
    let through = glass
        .scatter(&ray, &hit, reflected, Some(refracted), s(reflectance), s(0.5))
        .unwrap();
    assert_eq!(through.attenuation, v(1.0, 1.0, 1.0));
    assert_eq!(through.scattered, Ray::new(v(0.0, 0.0, 1.0), refracted, s(0.25)));
    let edge = glass
        .scatter(&ray, &hit, reflected, Some(refracted), s(reflectance), s(reflectance))
        .unwrap();
    assert_eq!(edge.scattered.direction, refracted);
}

#[test]
fn dielectric_reflects_for_certain_where_it_cannot_refract() {
    let (ray, hit) = straight_on();
    let glass = Dielectric::new(s(1.5));
    let reflected = v(0.0, 1.0, 1.0);
    for draw in [0.0, 0.3, 0.999999] {
        let out = glass.scatter(&ray, &hit, reflected, None, s(0.04), s(draw)).unwrap();
        assert_eq!(out.scattered.direction, reflected);
        assert_eq!(out.attenuation, v(1.0, 1.0, 1.0));
    }
}

#[test]
fn lambertian_always_scatters_with_its_colour() {
    let (ray, hit) = straight_on();
    let matte = Lambertian::new(grey());
    let out = matte.scatter(&ray, &hit, v(0.1, 0.2, 1.3), v(0.5, 0.5, 0.5)).unwrap();
    assert_eq!(
        out,
        ScatterInfo { attenuation: v(0.5, 0.5, 0.5), scattered: Ray::new(hit.p, v(0.1, 0.2, 1.3), s(0.25)) }
    );
}

#[test]
fn metal_scatters_only_to_the_side_of_the_normal() {
    let (ray, hit) = straight_on();
    let metal = Metal::new(grey(), s(0.03));
    assert_eq!(metal.fuzz, s(0.03));
    let out = metal.scatter(&ray, &hit, v(0.0, 0.1, 1.0), s(1.0), v(0.8, 0.6, 0.2)).unwrap();
    assert_eq!(out.attenuation, v(0.8, 0.6, 0.2));
    assert_eq!(out.scattered, Ray::new(hit.p, v(0.0, 0.1, 1.0), s(0.25)));
    assert!(metal.scatter(&ray, &hit, v(0.0, 0.1, -1.0), s(-1.0), v(0.8, 0.6, 0.2)).is_none());
    assert!(metal.scatter(&ray, &hit, v(0.0, 1.0, 0.0), s(0.0), v(0.8, 0.6, 0.2)).is_none());
    assert!(metal.scatter(&ray, &hit, v(0.0, 1.0, 0.0), s(f64::NAN), v(0.8, 0.6, 0.2)).is_none());
}

#[test]
fn isotropic_always_scatters_with_its_colour() {
    let (ray, hit) = straight_on();
    let mist = Isotropic::new(grey());
    let out = mist.scatter(&ray, &hit, v(0.3, -0.2, 0.1), v(0.2, 0.4, 0.9)).unwrap();
    assert_eq!(out.attenuation, v(0.2, 0.4, 0.9));
    assert_eq!(out.scattered, Ray::new(hit.p, v(0.3, -0.2, 0.1), s(0.25)));
}

#[test]
fn diffuse_light_glows_and_never_scatters() {
    let (ray, hit) = straight_on();
    let lamp = DiffuseLight::new(ConstantTexture::rc(v(7.0, 7.0, 7.0)));
    assert!(lamp.scatter(&ray, &hit).is_none());
    assert_eq!(lamp.emit(v(7.0, 7.0, 7.0)), v(7.0, 7.0, 7.0));
}

#[test]
fn only_lights_emit() {
    let glow = v(4.0, 4.0, 4.0);
    assert_eq!(DiffuseLight::rc(grey()).emit(glow), glow);
    assert_eq!(Lambertian::rc(grey()).emit(glow), Vec3::zero());
    assert_eq!(Metal::rc(grey(), s(0.1)).emit(glow), Vec3::zero());
    assert_eq!(Dielectric::rc(s(1.5)).emit(glow), Vec3::zero());
    assert_eq!(Isotropic::rc(grey()).emit(glow), Vec3::zero());
}

#[test]
fn materials_name_their_textures() {
    let t = grey();
    assert!(Arc::ptr_eq(DiffuseLight::rc(Arc::clone(&t)).emitter().unwrap(), &t));
    assert!(Lambertian::rc(Arc::clone(&t)).emitter().is_none());
    assert!(Arc::ptr_eq(Lambertian::rc(Arc::clone(&t)).albedo().unwrap(), &t));
    assert!(Arc::ptr_eq(Metal::rc(Arc::clone(&t), s(0.0)).albedo().unwrap(), &t));
    assert!(Arc::ptr_eq(Isotropic::rc(Arc::clone(&t)).albedo().unwrap(), &t));
    assert!(Dielectric::rc(s(1.5)).albedo().is_none());
    assert!(DiffuseLight::rc(Arc::clone(&t)).albedo().is_none());
}

#[test]
fn material_scatter_goes_by_the_kind() {
    let (ray, hit) = straight_on();
    let d = v(0.0, 0.6, 0.8);
    let on = Ray::new(hit.p, d, s(0.25));
    let out = Lambertian::rc(grey()).scatter(&ray, &hit, &sample(d, -1.0)).unwrap();
    assert_eq!(out, ScatterInfo { attenuation: v(0.8, 0.6, 0.2), scattered: on });
    let out = Isotropic::rc(grey()).scatter(&ray, &hit, &sample(d, -1.0)).unwrap();
    assert_eq!(out, ScatterInfo { attenuation: v(0.8, 0.6, 0.2), scattered: on });
    assert!(Metal::rc(grey(), s(0.5)).scatter(&ray, &hit, &sample(d, -1.0)).is_none());
    let out = Metal::rc(grey(), s(0.5)).scatter(&ray, &hit, &sample(d, 0.8)).unwrap();
    assert_eq!(out, ScatterInfo { attenuation: v(0.8, 0.6, 0.2), scattered: on });
    assert!(DiffuseLight::rc(grey()).scatter(&ray, &hit, &sample(d, 0.8)).is_none());
    let glass: MaterialPtr = Dielectric::rc(s(1.5));
    let mut both = sample(d, 0.8);
    both.refracted = Some(v(0.0, 0.0, -1.0));
    both.reflectance = s(0.04);
    both.draw = s(0.5);
    let out = glass.scatter(&ray, &hit, &both).unwrap();
    assert_eq!(out.attenuation, v(1.0, 1.0, 1.0));
    assert_eq!(out.scattered.direction, v(0.0, 0.0, -1.0));
    both.draw = s(0.03);
    let out = glass.scatter(&ray, &hit, &both).unwrap();
    assert_eq!(out.scattered.direction, d);
    assert!(matches!(&*glass, Material::Dielectric(g) if g.ref_index == s(1.5)));
}

#[test]
fn dielectric_tells_a_ray_that_enters_from_one_that_leaves() {
    let glass = Dielectric::new(s(1.5));
    assert!(glass.entering(s(-0.8)));
    assert!(glass.entering(s(0.0)));
    assert!(glass.entering(s(-0.0)));
    assert!(glass.entering(s(f64::NAN)));
    assert!(!glass.entering(s(0.8)));
    assert!(!glass.entering(s(5.0e-324)));
}

#[test]
fn dielectric_cosine_is_the_root_where_there_is_one() {
    let glass = Dielectric::new(s(1.5));
    assert_eq!(glass.cosine(s(0.25), s(0.5)), s(0.5));
    assert_eq!(glass.cosine(s(0.0), s(0.0)), s(0.0));
    assert_eq!(glass.cosine(s(-1.25), s(f64::NAN)), s(0.0));
    assert_eq!(glass.cosine(s(f64::NAN), s(f64::NAN)), s(0.0));
}
