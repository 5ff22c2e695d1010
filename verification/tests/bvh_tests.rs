use std::sync::Arc;

use raytrace::aabb::{Aabb, Crossing};
use raytrace::bvh::{boxes_wf, build, sort_by_min, Bvh, BvhNode, Child};
use raytrace::hitable::{Center, HitRecord, Hitable, HitableList, HitablePtr, Roots, Sphere};
use raytrace::material::{Lambertian, MaterialPtr};
use raytrace::ray::Ray;
use raytrace::scalar::Scalar;
use raytrace::texture::ConstantTexture;
use raytrace::vec3::Vec3;

fn s(x: f64) -> Scalar {
    Scalar::from_bits(x.to_bits())
}

fn f(x: Scalar) -> f64 {
    f64::from_bits(x.to_bits())
}

fn v(x: f64, y: f64, z: f64) -> Vec3 {
    Vec3::new(s(x), s(y), s(z))
}

fn white() -> MaterialPtr {
    Lambertian::rc(ConstantTexture::rc(v(1.0, 1.0, 1.0)))
}

/// A stream of numbers between 0 and 1 that is the same in every run.
struct Stream(u64);

impl Stream {
    fn next(&mut self) -> f64 {
        self.0 = self.0.wrapping_mul(6364136223846793005).wrapping_add(1442695040888963407);
        ((self.0 >> 11) as f64) / ((1u64 << 53) as f64)
    }
}

fn cube(x: f64, y: f64, z: f64, half: f64) -> Aabb {
    Aabb::new(v(x - half, y - half, z - half), v(x + half, y + half, z + half))
}

fn hit_sphere(sphere: &Sphere, ray: &Ray, t_min: Scalar, t_max: Scalar) -> Option<HitRecord> {
    let c = match sphere.center {
        Center::Fixed(c) => c,
        Center::Moving { center0, .. } => center0,
    };
    let o = [f(ray.origin.x) - f(c.x), f(ray.origin.y) - f(c.y), f(ray.origin.z) - f(c.z)];
    let d = [f(ray.direction.x), f(ray.direction.y), f(ray.direction.z)];
    let r = f(sphere.radius);
    let a = d[0] * d[0] + d[1] * d[1] + d[2] * d[2];
    let b = o[0] * d[0] + o[1] * d[1] + o[2] * d[2];
    let cc = o[0] * o[0] + o[1] * o[1] + o[2] * o[2] - r * r;
    let disc = b * b - a * cc;
    let roots = Roots { discriminant: s(disc), near: s((-b - disc.sqrt()) / a), far: s((-b + disc.sqrt()) / a) };
    let t = f(sphere.hit(&roots, t_min, t_max)?);
    let p = [f(ray.origin.x) + d[0] * t, f(ray.origin.y) + d[1] * t, f(ray.origin.z) + d[2] * t];
    let n = v((p[0] - f(c.x)) / r, (p[1] - f(c.y)) / r, (p[2] - f(c.z)) / r);
    Some(sphere.record(s(t), v(p[0], p[1], p[2]), n, s(0.0), s(0.0)))
}

fn box_test(b: &Aabb, ray: &Ray, t_min: Scalar, t_max: Scalar) -> bool {
    let mut c = [Crossing { t0: s(0.0), t1: s(0.0) }; 3];
    for a in 0..3 {
        let inv_d = 1.0 / f(ray.direction.index(a));
        c[a] = Crossing {
            t0: s((f(b.min.index(a)) - f(ray.origin.index(a))) * inv_d),
            t1: s((f(b.max.index(a)) - f(ray.origin.index(a))) * inv_d),
        };
    }
    b.hit(ray, &c, t_min, t_max)
}

fn leaves_of(nodes: &Vec<BvhNode>, k: usize, out: &mut Vec<usize>) {
    let mut child = |c: Child, out: &mut Vec<usize>| match c {
        Child::Prim(i) => out.push(i),
        Child::Node(j) => {
            assert!(j < k);
            leaves_of(nodes, j, out)
        }
    };
    child(nodes[k].left, out);
    if let Some(r) = nodes[k].right {
        child(r, out);
    }
}

fn box_of(nodes: &Vec<BvhNode>, boxes: &Vec<Aabb>, c: Child) -> Aabb {
    match c {
        Child::Prim(i) => boxes[i],
        Child::Node(j) => nodes[j].bbox,
    }
}

fn scene(n: usize, seed: u64) -> (Vec<HitablePtr>, Vec<Aabb>) {
    let m = white();
    let mut rnd = Stream(seed);
    let mut prims: Vec<HitablePtr> = Vec::new();
    let mut boxes = Vec::new();
    for _ in 0..n {
        let (x, y, z) = (rnd.next() * 165.0, rnd.next() * 165.0, rnd.next() * 165.0);
        prims.push(Sphere::hitable_ptr(v(x, y, z), s(10.0), Arc::clone(&m)));
        boxes.push(cube(x, y, z, 10.0));
    }
    (prims, boxes)
}

#[test]
fn bvh_sort_orders_by_the_least_corner_and_keeps_ties_in_place() {
    let boxes = vec![
        cube(5.0, 0.0, 0.0, 1.0),
        cube(2.0, 9.0, 0.0, 1.0),
        cube(5.0, 3.0, 0.0, 1.0),
        cube(-1.0, 3.0, 0.0, 1.0),
        cube(2.0, 1.0, 0.0, 1.0),
    ];
    let mut by_x = vec![0, 1, 2, 3, 4];
    sort_by_min(&mut by_x, &boxes, 0);
    assert_eq!(by_x, vec![3, 1, 4, 0, 2]);
    let mut by_y = vec![4, 3, 2, 1, 0];
    sort_by_min(&mut by_y, &boxes, 1);
    assert_eq!(by_y, vec![0, 4, 3, 2, 1]);
    let mut by_z = vec![2, 0, 4, 1, 3];
    sort_by_min(&mut by_z, &boxes, 2);
    assert_eq!(by_z, vec![2, 0, 4, 1, 3]);
    let mut none: Vec<usize> = Vec::new();
    sort_by_min(&mut none, &boxes, 0);
    assert!(none.is_empty());
}

#[test]
fn bvh_of_one_surface_is_a_single_child() {
    let (prims, boxes) = scene(1, 7);
    let bvh = Bvh::new(prims, boxes.clone());
    assert_eq!(bvh.nodes().len(), 1);
    assert_eq!(bvh.root(), 0);
    assert!(matches!(bvh.nodes()[0].left, Child::Prim(0)));
    assert!(bvh.nodes()[0].right.is_none());
    assert_eq!(bvh.nodes()[0].bbox, boxes[0]);
    assert_eq!(bvh.bounding_box(), boxes[0]);
}

#[test]
fn bvh_of_two_surfaces_holds_both_in_one_node() {
    let (prims, boxes) = scene(2, 7);
    let bvh = Bvh::new(prims, boxes.clone());
    assert_eq!(bvh.nodes().len(), 1);
    assert!(matches!(bvh.nodes()[0].left, Child::Prim(0)));
    assert!(matches!(bvh.nodes()[0].right, Some(Child::Prim(1))));
    assert_eq!(bvh.nodes()[0].bbox, Aabb::surrounding_box(&boxes[0], &boxes[1]));
}

#[test]
fn bvh_of_three_surfaces_splits_one_and_two() {
    let (prims, boxes) = scene(3, 11);
    let bvh = Bvh::new(prims, boxes.clone());
    assert_eq!(bvh.nodes().len(), 3);
    assert_eq!(bvh.root(), 2);
    let (l, r) = match (bvh.nodes()[2].left, bvh.nodes()[2].right) {
        (Child::Node(l), Some(Child::Node(r))) => (l, r),
        _ => panic!("the root should hold two subtrees"),
    };
    assert_eq!((l, r), (0, 1));
    assert!(matches!(bvh.nodes()[0].left, Child::Prim(_)));
    assert!(bvh.nodes()[0].right.is_none());
    assert!(matches!(bvh.nodes()[1].left, Child::Prim(_)));
    assert!(matches!(bvh.nodes()[1].right, Some(Child::Prim(_))));
}

#[test]
fn bvh_holds_each_surface_once_and_every_box_is_the_join_of_its_children() {
    for n in [1usize, 2, 3, 4, 5, 8, 13, 100] {
        let (prims, boxes) = scene(n, n as u64);
        let bvh = Bvh::new(prims, boxes.clone());
        let mut found = Vec::new();
        leaves_of(bvh.nodes(), bvh.root(), &mut found);
        found.sort();
        assert_eq!(found, (0..n).collect::<Vec<usize>>());
        for node in bvh.nodes().iter() {
            let left = box_of(bvh.nodes(), &boxes, node.left);
            match node.right {
                None => assert_eq!(node.bbox, left),
                Some(r) => {
                    assert_eq!(node.bbox, Aabb::surrounding_box(&left, &box_of(bvh.nodes(), &boxes, r)))
                }
            }
        }
        let around = bvh.bounding_box();
        for b in boxes.iter() {
            assert_eq!(Aabb::surrounding_box(&around, b), around);
        }
    }
}

#[test]
fn bvh_splits_in_the_middle_along_some_axis() {
    let (prims, boxes) = scene(37, 5);
    let bvh = Bvh::new(prims, boxes.clone());
    for (k, node) in bvh.nodes().iter().enumerate() {
        if let (Child::Node(l), Some(Child::Node(r))) = (node.left, node.right) {
            let mut left = Vec::new();
            let mut right = Vec::new();
            leaves_of(bvh.nodes(), l, &mut left);
            leaves_of(bvh.nodes(), r, &mut right);
            assert!(left.len() + right.len() >= 3);
            assert_eq!(left.len(), (left.len() + right.len()) / 2);
            let split = (0..3).any(|axis| {
                left.iter().all(|&i| {
                    right
                        .iter()
                        .all(|&j| f(boxes[i].min.index(axis)) <= f(boxes[j].min.index(axis)))
                })
            });
            assert!(split, "node {} is split along no axis", k);
        }
    }
}

#[test]
fn bvh_build_adds_to_an_arena_and_leaves_the_rest_alone() {
    let (_, boxes) = scene(5, 3);
    let mut nodes: Vec<BvhNode> = Vec::new();
    let first = build(&boxes, vec![0, 1], &mut nodes);
    assert_eq!(first, 0);
    let kept = nodes[0];
    let second = build(&boxes, vec![2, 3, 4], &mut nodes);
    assert_eq!(second, nodes.len() - 1);
    assert_eq!(nodes.len(), 4);
    assert_eq!(nodes[0].bbox, kept.bbox);
    let mut found = Vec::new();
    leaves_of(&nodes, second, &mut found);
    found.sort();
    assert_eq!(found, vec![2, 3, 4]);
}

#[test]
fn bvh_finds_what_a_flat_list_finds() {
    let (prims, boxes) = scene(200, 2084);
    let mut list = HitableList::new();
    for p in prims.iter() {
        list.add_hitable(Arc::clone(p));
    }
    let bvh = Bvh::new(prims, boxes);
    let mut rnd = Stream(99);
    let mut hits = 0;
    for i in 0..2000 {
        let origin = v(rnd.next() * 400.0 - 100.0, rnd.next() * 400.0 - 100.0, -200.0);
        let target = [rnd.next() * 165.0, rnd.next() * 165.0, rnd.next() * 165.0];
        let dir = v(target[0] - f(origin.x), target[1] - f(origin.y), target[2] + 200.0);
        let ray = Ray::new(origin, dir, s(0.0));
        let (t_min, t_max) = if i % 3 == 0 { (0.001, f64::MAX) } else { (rnd.next(), 1.0 + rnd.next()) };
        let probe = |h: &Hitable, lo: Scalar, hi: Scalar| match h {
            Hitable::Sphere(sp) => hit_sphere(sp, &ray, lo, hi),
            _ => None,
        };
        let test = |b: &Aabb, lo: Scalar, hi: Scalar| box_test(b, &ray, lo, hi);
        let flat = list.hit(&probe, s(t_min), s(t_max));
        let tree = bvh.hit(&test, &probe, s(t_min), s(t_max));
        assert_eq!(flat.is_some(), tree.is_some());
        if let (Some(a), Some(b)) = (flat, tree) {
            assert_eq!(f(a.t), f(b.t));
            assert_eq!(a.p, b.p);
            hits += 1;
        }
    }
    assert!(hits > 100);
}

#[test]
fn bvh_leaves_out_what_hangs_under_a_missed_box() {
    let (prims, boxes) = scene(64, 1);
    let bvh = Bvh::new(prims, boxes);
    let ray = Ray::new(v(-500.0, -500.0, -500.0), v(-1.0, -1.0, -1.0), s(0.0));
    let probed = std::cell::Cell::new(0);
    let probe = |h: &Hitable, lo: Scalar, hi: Scalar| {
        probed.set(probed.get() + 1);
        match h {
            Hitable::Sphere(sp) => hit_sphere(sp, &ray, lo, hi),
            _ => None,
        }
    };
    let test = |b: &Aabb, lo: Scalar, hi: Scalar| box_test(b, &ray, lo, hi);
    assert!(bvh.hit(&test, &probe, s(0.001), s(f64::MAX)).is_none());
    assert_eq!(probed.get(), 0);
}

#[test]
fn bvh_boxes_wf_wants_every_box_in_order() {
    let (_, mut boxes) = scene(10, 4);
    assert!(boxes_wf(&boxes));
    assert!(boxes_wf(&Vec::new()));
    boxes[7] = Aabb::new(v(0.0, f64::NAN, 0.0), v(1.0, 1.0, 1.0));
    assert!(!boxes_wf(&boxes));
    boxes[7] = Aabb::new(v(2.0, 0.0, 0.0), v(1.0, 1.0, 1.0));
    assert!(!boxes_wf(&boxes));
}

#[test]
fn sphere_hit_point_lies_on_the_sphere() {
    let (prims, _) = scene(50, 17);
    let mut rnd = Stream(5);
    let mut hits = 0;
    for _ in 0..500 {
        let origin = v(rnd.next() * 400.0 - 100.0, rnd.next() * 400.0 - 100.0, -200.0);
        let dir = v(rnd.next() * 165.0 - f(origin.x), rnd.next() * 165.0 - f(origin.y), rnd.next() * 165.0 + 200.0);
        let ray = Ray::new(origin, dir, s(0.0));
        for p in prims.iter() {
            if let Hitable::Sphere(sp) = &**p {
                if let Some(h) = hit_sphere(sp, &ray, s(0.001), s(f64::MAX)) {
                    let c = match sp.center {
                        Center::Fixed(c) => c,
                        Center::Moving { center0, .. } => center0,
                    };
                    let d = [f(h.p.x) - f(c.x), f(h.p.y) - f(c.y), f(h.p.z) - f(c.z)];
                    let dist = (d[0] * d[0] + d[1] * d[1] + d[2] * d[2]).sqrt();
                    assert!((dist - f(sp.radius)).abs() < 1.0e-9);
                    assert!(f(h.t) > 0.001);
                    hits += 1;
                }
            }
        }
    }
    assert!(hits > 10);
}
