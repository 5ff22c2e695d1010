use raytrace::chunker::{Chunker, Tiling, WorkChunk};
use raytrace::hitable::HitableList;
use raytrace::hitable::{Hitable, HitablePtr, Rect};
use raytrace::material::{DiffuseLight, ScatterInfo};
use raytrace::ray::Ray;
use raytrace::renderer::{Bounce, PathEnd, Renderer, MAX_DEPTH};
use raytrace::scalar::Scalar;
use raytrace::texture::ConstantTexture;
use raytrace::vec3::Vec3;
use std::sync::Arc;

fn s(x: f64) -> Scalar {
    Scalar::from_bits(x.to_bits())
}

fn f(x: Scalar) -> f64 {
    f64::from_bits(x.to_bits())
}

fn v(x: f64, y: f64, z: f64) -> Vec3 {
    Vec3::new(s(x), s(y), s(z))
}

fn lit_scene() -> HitablePtr {
    let light = DiffuseLight::rc(ConstantTexture::rc(v(4.0, 4.0, 4.0)));
    let mut list = HitableList::new();
    list.add_hitable(Rect::xyrect(s(3.0), s(1.0), s(5.0), s(3.0), s(-2.0), light));
    Arc::new(Hitable::List(list))
}

/// The light that a path brings back: each bounce adds what its surface
/// sent out to its share of what came after it.
fn radiance(renderer: &Renderer, path: &raytrace::renderer::LightPath) -> [f64; 3] {
    let arr = |c: Vec3| [f(c.x), f(c.y), f(c.z)];
    let mut l = arr(renderer.terminal(path.end, v(0.5, 0.7, 1.0)));
    for seg in path.segments.iter().rev() {
        let (e, a) = (arr(seg.emitted), arr(seg.attenuation));
        l = [e[0] + a[0] * l[0], e[1] + a[1] * l[1], e[2] + a[2] * l[2]];
    }
    l
}

#[test]
fn ray_that_hits_nothing_in_a_dark_scene_brings_back_nothing() {
    let renderer = Renderer::new(lit_scene(), 100, 100, 10, false);
    let ray = Ray::new(v(13.0, 20.0, 22.0), v(0.0, 1.0, 0.0), s(0.0));
    let path = renderer.color(&ray, 0, &|_r: &Ray| None);
    assert!(path.segments.is_empty());
    assert_eq!(path.end, PathEnd::Escaped);
    assert_eq!(path.last, ray);
    assert_eq!(renderer.background(v(0.5, 0.7, 1.0)), v(0.0, 0.0, 0.0));
    assert_eq!(radiance(&renderer, &path), [0.0, 0.0, 0.0]);
}

#[test]
fn ray_that_hits_nothing_under_a_sky_sees_the_sky() {
    let renderer = Renderer::new(lit_scene(), 100, 100, 10, true);
    let ray = Ray::new(v(13.0, 20.0, 22.0), v(0.0, 1.0, 0.0), s(0.0));
    let path = renderer.color(&ray, 0, &|_r: &Ray| None);
    assert_eq!(path.end, PathEnd::Escaped);
    assert_eq!(renderer.background(v(0.5, 0.7, 1.0)), v(0.5, 0.7, 1.0));
    assert_eq!(radiance(&renderer, &path), [0.5, 0.7, 1.0]);
}

#[test]
fn path_is_cut_off_after_fifty_bounces() {
    let renderer = Renderer::new(lit_scene(), 100, 100, 10, true);
    let ray = Ray::new(v(0.0, 0.0, 0.0), v(0.0, 1.0, 0.0), s(0.0));
    let calls = std::cell::Cell::new(0usize);
    let mirror_room = |r: &Ray| {
        calls.set(calls.get() + 1);
        Some(Bounce {
            emitted: v(0.0, 0.0, 0.0),
            scatter: Some(ScatterInfo {
                attenuation: v(1.0, 1.0, 1.0),
                scattered: Ray::new(r.origin, r.direction.neg(), r.time),
            }),
        })
    };
    let path = renderer.color(&ray, 0, &mirror_room);
    assert_eq!(MAX_DEPTH, 50);
    assert_eq!(path.segments.len(), 50);
    assert_eq!(calls.get(), 50);
    assert_eq!(path.end, PathEnd::Ceiling);
    assert_eq!(path.segments[0].ray, ray);
    assert_eq!(path.segments[1].ray.direction, v(-0.0, -1.0, -0.0));
    assert_eq!(radiance(&renderer, &path), [0.0, 0.0, 0.0]);
}

#[test]
fn path_adds_what_each_surface_sends_out() {
    let renderer = Renderer::new(lit_scene(), 100, 100, 10, false);
    let ray = Ray::new(v(0.0, 0.0, 0.0), v(0.0, 1.0, 0.0), s(0.0));
    // A grey wall at the first bounce, a lamp at the second.
    let scene = |r: &Ray| {
        if f(r.origin.y) == 0.0 {
            Some(Bounce {
                emitted: v(0.25, 0.0, 0.0),
                scatter: Some(ScatterInfo {
                    attenuation: v(0.5, 0.5, 0.5),
                    scattered: Ray::new(v(0.0, 1.0, 0.0), v(1.0, 0.0, 0.0), r.time),
                }),
            })
        } else {
            Some(Bounce { emitted: v(4.0, 4.0, 4.0), scatter: None })
        }
    };
    let path = renderer.color(&ray, 0, &scene);
    assert_eq!(path.segments.len(), 1);
    assert_eq!(path.segments[0].ray, ray);
    assert_eq!(path.segments[0].emitted, v(0.25, 0.0, 0.0));
    assert_eq!(path.segments[0].attenuation, v(0.5, 0.5, 0.5));
    assert_eq!(path.last, Ray::new(v(0.0, 1.0, 0.0), v(1.0, 0.0, 0.0), s(0.0)));
    assert_eq!(path.end, PathEnd::Absorbed(v(4.0, 4.0, 4.0)));
    assert_eq!(radiance(&renderer, &path), [2.25, 2.0, 2.0]);
}

#[test]
fn renderer_keeps_its_settings() {
    let r = Renderer::new(lit_scene(), 1000, 500, 5000, false);
    assert_eq!((r.nx, r.ny, r.num_samples, r.default_sky), (1000, 500, 5000, false));
    assert!(matches!(&*r.scene, Hitable::List(l) if l.list.len() == 1));
}

#[test]
fn chunker_hands_out_tiles_row_by_row() {
    let mut c = Chunker::new(40, 20, 16);
    let mut tiles = Vec::new();
    while let Some(t) = c.next() {
        tiles.push(t);
    }
    assert_eq!(
        tiles,
        vec![
            WorkChunk::new(0, 0, 16, 16),
            WorkChunk::new(16, 0, 16, 16),
            WorkChunk::new(32, 0, 8, 16),
            WorkChunk::new(0, 16, 16, 4),
            WorkChunk::new(16, 16, 16, 4),
            WorkChunk::new(32, 16, 8, 4),
        ]
    );
    assert_eq!(c.next(), None);
    assert_eq!(c.next(), None);
}

#[test]
fn chunker_ends_a_full_row_with_an_empty_tile() {
    let mut c = Chunker::new(32, 16, 16);
    assert_eq!(c.next(), Some(WorkChunk::new(0, 0, 16, 16)));
    assert_eq!(c.next(), Some(WorkChunk::new(16, 0, 16, 16)));
    assert_eq!(c.next(), Some(WorkChunk::new(32, 0, 0, 16)));
    assert_eq!(c.next(), None);
}

#[test]
fn chunker_of_an_empty_picture_hands_out_nothing() {
    assert_eq!(Chunker::new(100, 0, 16).next(), None);
    let mut flat = Chunker::new(0, 5, 16);
    assert_eq!(flat.next(), Some(WorkChunk::new(0, 0, 0, 5)));
    assert_eq!(flat.next(), None);
}

#[test]
fn chunker_covers_every_pixel_once() {
    let (w, h) = (1000usize, 1000usize);
    let mut seen = vec![0u8; w * h];
    let mut c = Chunker::new(w, h, 16);
    while let Some(t) = c.next() {
        for y in t.y..t.y + t.h {
            for x in t.x..t.x + t.w {
                seen[y * w + x] += 1;
                assert_eq!((x / 16, y / 16), (t.x / 16, t.y / 16));
            }
        }
    }
    assert!(seen.iter().all(|&n| n == 1));
}

#[test]
fn renderer_asks_for_hits_a_little_beyond_the_origin() {
    let (near, far) = Renderer::range();
    assert_eq!(f(near), 0.001);
    assert_eq!(f(far), f64::MAX);
}

#[test]
fn chunk_offsets_lay_the_rows_out_top_down() {
    let t = WorkChunk::new(16, 32, 8, 4);
    assert_eq!(t.local_offset(0, 0), 0);
    assert_eq!(t.local_offset(7, 0), 21);
    assert_eq!(t.local_offset(0, 1), 24);
    assert_eq!(t.local_offset(7, 3), 93);
    // In a picture of 40 by 36 the pixel (16, 32) stands in row 3 from the top.
    assert_eq!(t.picture_offset(40, 36, 0, 0), (3 * 40 + 16) * 3);
    assert_eq!(t.picture_offset(40, 36, 7, 3), (0 * 40 + 23) * 3);
}

#[test]
fn chunk_offsets_fill_the_picture_once() {
    let (w, h) = (50usize, 30usize);
    let mut seen = vec![0u8; w * h * 3];
    let mut c = Chunker::new(w, h, 16);
    while let Some(t) = c.next() {
        for y in 0..t.h {
            for x in 0..t.w {
                let to = t.picture_offset(w, h, x, y);
                assert_eq!(to, ((h - 1 - (t.y + y)) * w + t.x + x) * 3);
                for k in 0..3 {
                    seen[to + k] += 1;
                }
            }
        }
    }
    assert!(seen.iter().all(|&n| n == 1));
}

#[test]
fn chunker_state_tells_the_next_tile() {
    let mut c = Chunker::new(40, 20, 16);
    assert_eq!(c.state(), Tiling { width: 40, height: 20, chunk_size: 16, chunk_x: 0, chunk_y: 0 });
    c.next();
    c.next();
    assert_eq!(c.state(), Tiling { width: 40, height: 20, chunk_size: 16, chunk_x: 2, chunk_y: 0 });
    c.next();
    assert_eq!(c.state(), Tiling { width: 40, height: 20, chunk_size: 16, chunk_x: 0, chunk_y: 1 });
}

#[test]
fn ray_at_the_ceiling_brings_back_nothing_and_asks_nothing() {
    for sky in [false, true] {
        let renderer = Renderer::new(lit_scene(), 100, 100, 10, sky);
        let ray = Ray::new(v(0.0, 0.0, 0.0), v(0.0, 1.0, 0.0), s(0.0));
        for depth in [50u32, 51, 1000, u32::MAX] {
            let calls = std::cell::Cell::new(0usize);
            let lamp = |_r: &Ray| {
                calls.set(calls.get() + 1);
                Some(Bounce { emitted: v(4.0, 4.0, 4.0), scatter: None })
            };
            let path = renderer.color(&ray, depth, &lamp);
            assert_eq!(calls.get(), 0);
            assert!(path.segments.is_empty());
            assert_eq!(path.end, PathEnd::Ceiling);
            assert_eq!(path.last, ray);
            assert_eq!(renderer.terminal(path.end, v(0.5, 0.7, 1.0)), Vec3::zero());
            assert_eq!(radiance(&renderer, &path), [0.0, 0.0, 0.0]);
        }
    }
}

#[test]
fn path_that_starts_deep_has_fewer_bounces_left() {
    let renderer = Renderer::new(lit_scene(), 100, 100, 10, true);
    let ray = Ray::new(v(0.0, 0.0, 0.0), v(0.0, 1.0, 0.0), s(0.0));
    let mirror_room = |r: &Ray| {
        Some(Bounce {
            emitted: v(0.0, 0.0, 0.0),
            scatter: Some(ScatterInfo { attenuation: v(1.0, 1.0, 1.0), scattered: *r }),
        })
    };
    assert_eq!(renderer.color(&ray, 47, &mirror_room).segments.len(), 3);
    assert_eq!(renderer.color(&ray, 49, &mirror_room).segments.len(), 1);
    assert_eq!(renderer.color(&ray, 49, &mirror_room).end, PathEnd::Ceiling);
    let lamp = |_r: &Ray| Some(Bounce { emitted: v(4.0, 4.0, 4.0), scatter: None });
    let path = renderer.color(&ray, 49, &lamp);
    assert_eq!(path.end, PathEnd::Absorbed(v(4.0, 4.0, 4.0)));
}

#[test]
fn terminal_goes_by_the_end_of_the_path() {
    let dark = Renderer::new(lit_scene(), 100, 100, 10, false);
    let bright = Renderer::new(lit_scene(), 100, 100, 10, true);
    let sky = v(0.5, 0.7, 1.0);
    assert_eq!(dark.terminal(PathEnd::Ceiling, sky), Vec3::zero());
    assert_eq!(bright.terminal(PathEnd::Ceiling, sky), Vec3::zero());
    assert_eq!(dark.terminal(PathEnd::Escaped, sky), Vec3::zero());
    assert_eq!(bright.terminal(PathEnd::Escaped, sky), sky);
    assert_eq!(dark.terminal(PathEnd::Absorbed(v(7.0, 7.0, 7.0)), sky), v(7.0, 7.0, 7.0));
    assert_eq!(bright.terminal(PathEnd::Absorbed(v(7.0, 7.0, 7.0)), sky), v(7.0, 7.0, 7.0));
}
