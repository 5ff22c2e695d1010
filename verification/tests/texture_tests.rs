use std::sync::Arc;

use image::{DynamicImage, GenericImage, ImageBuffer, Rgb, Rgba};
use raytrace::perlin::{generate_perm, permute, Perlin};
use raytrace::rt_rand::rand_usize;
use raytrace::scalar::Scalar;
use raytrace::texture::{CheckerTexture, ConstantTexture, ImageTexture, NoiseTexture, Texture};
use raytrace::vec3::Vec3;

fn s(x: f64) -> Scalar {
    Scalar::from_bits(x.to_bits())
}

fn v(x: f64, y: f64, z: f64) -> Vec3 {
    Vec3::new(s(x), s(y), s(z))
}

fn gradients() -> Vec<Vec3> {
    (0..256).map(|i| v(i as f64, 0.25, -(i as f64))).collect()
}

fn picture() -> DynamicImage {
    let mut img = DynamicImage::new_rgba8(3, 2);
    for y in 0..2u32 {
        for x in 0..3u32 {
            img.put_pixel(x, y, Rgba([(10 * x + y) as u8, (100 + x) as u8, (200 + y) as u8, 255]));
        }
    }
    img
}

#[test]
fn constant_texture_has_one_colour_everywhere() {
    let t = ConstantTexture::new(v(0.2, 0.3, 0.1));
    assert_eq!(t.value(s(0.0), s(0.0), &v(0.0, 0.0, 0.0)), v(0.2, 0.3, 0.1));
    assert_eq!(t.value(s(0.7), s(0.1), &v(5.0, -3.0, 9.0)), v(0.2, 0.3, 0.1));
    assert!(matches!(&*ConstantTexture::rc(v(0.2, 0.3, 0.1)), Texture::Constant(c) if c.color == v(0.2, 0.3, 0.1)));
}

#[test]
fn checker_shows_the_odd_texture_where_the_sines_are_negative() {
    let odd = ConstantTexture::rc(v(0.2, 0.3, 0.1));
    let even = ConstantTexture::rc(v(0.9, 0.9, 0.9));
    let checker = CheckerTexture::new(Arc::clone(&odd), Arc::clone(&even));
    assert!(Arc::ptr_eq(checker.value(s(-0.5)), &odd));
    assert!(Arc::ptr_eq(checker.value(s(0.5)), &even));
    assert!(Arc::ptr_eq(checker.value(s(0.0)), &even));
    assert!(Arc::ptr_eq(checker.value(s(-0.0)), &even));
    assert!(Arc::ptr_eq(checker.value(s(f64::NAN)), &even));
    assert!(matches!(&*CheckerTexture::rc(odd, even), Texture::Checker(_)));
}

#[test]
fn image_texture_reads_the_pixels_of_the_picture() {
    let t = ImageTexture::new(picture());
    assert_eq!(t.size(), (3, 2));
    assert_eq!(t.texel(0, 0), (0, 100, 200));
    assert_eq!(t.texel(2, 0), (20, 102, 200));
    assert_eq!(t.texel(1, 1), (11, 101, 201));
    assert_eq!(t.value(2, 1), Some((21, 102, 201)));
    assert!(matches!(&*ImageTexture::rc(picture()), Texture::Image(_)));
}

#[test]
fn image_texture_has_no_pixel_outside_the_picture() {
    let t = ImageTexture::new(picture());
    assert_eq!(t.value(3, 0), None);
    assert_eq!(t.value(0, 2), None);
    assert_eq!(t.value(u32::MAX, u32::MAX), None);
}

#[test]
fn generate_perm_holds_each_code_once() {
    for _ in 0..20 {
        let mut perm = generate_perm();
        assert_eq!(perm.len(), 256);
        perm.sort();
        assert_eq!(perm, (0..256).collect::<Vec<usize>>());
    }
}

#[test]
fn generate_perm_shuffles() {
    let identity: Vec<usize> = (0..256).collect();
    let moved = (0..5).any(|_| generate_perm() != identity);
    assert!(moved);
}

#[test]
fn rand_usize_varies() {
    let first = rand_usize();
    let varies = (0..64).any(|_| rand_usize() != first);
    assert!(varies);
}

#[test]
fn perlin_gradient_is_found_through_the_three_tables() {
    let p = Perlin::new(gradients());
    for (i, j, k) in [(0usize, 0usize, 0usize), (1, 2, 3), (255, 256, 257), (usize::MAX, 77, 1000)] {
        let code = p.perm_x()[i & 255] ^ p.perm_y()[j & 255] ^ p.perm_z()[k & 255];
        assert!(code < 256);
        assert_eq!(p.gradient(i, j, k), v(code as f64, 0.25, -(code as f64)));
    }
}

#[test]
fn perlin_cell_holds_the_eight_corners() {
    let p = Perlin::new(gradients());
    for (i, j, k) in [(4usize, 5usize, 6usize), (255, 255, 255), (usize::MAX, 0, usize::MAX)] {
        let c = p.cell(i, j, k);
        for di in 0..2usize {
            for dj in 0..2usize {
                for dk in 0..2usize {
                    let expected = p.gradient(i.wrapping_add(di), j.wrapping_add(dj), k.wrapping_add(dk));
                    assert_eq!(c[di][dj][dk], expected);
                }
            }
        }
    }
}

#[test]
fn noise_texture_keeps_scale_and_gradients() {
    let n = NoiseTexture::new(s(4.0), gradients());
    assert_eq!(n.scale, s(4.0));
    assert_eq!(*n.perlin.ran_vec(), gradients());
    assert_eq!(n.perlin.perm_x().len(), 256);
    assert!(matches!(&*NoiseTexture::rc(s(0.1), gradients()), Texture::Noise(t) if t.scale == s(0.1)));
}

/// The exchanges done one after the other, as a table of any length shows them.
fn exchange_all(draws: &[usize]) -> Vec<usize> {
    let mut t: Vec<usize> = (0..draws.len()).collect();
    for i in 0..draws.len() {
        t.swap(i, draws[i]);
    }
    t
}

#[test]
fn permute_with_each_place_drawn_for_itself_changes_nothing() {
    let draws: Vec<usize> = (0..256).collect();
    assert_eq!(permute(&draws), (0..256).collect::<Vec<usize>>());
}

#[test]
fn permute_with_the_next_place_drawn_turns_the_table_round() {
    let draws: Vec<usize> = (0..256).map(|i| (i + 1) % 256).collect();
    let table = permute(&draws);
    assert_eq!(table[0], 0);
    for i in 1..255 {
        assert_eq!(table[i], i + 1);
    }
    assert_eq!(table[255], 1);
}

#[test]
fn permute_with_one_place_drawn_every_time() {
    let table = permute(&vec![0usize; 256]);
    // Each entry in turn goes to the front, and the one before it takes its place.
    assert_eq!(table[0], 255);
    assert_eq!(table[1], 0);
    for i in 2..256 {
        assert_eq!(table[i], i - 1);
    }
}

#[test]
fn permute_does_the_exchanges_in_order() {
    let mut seed: u64 = 12345;
    let draws: Vec<usize> = (0..256)
        .map(|_| {
            seed = seed.wrapping_mul(6364136223846793005).wrapping_add(1442695040888963407);
            ((seed >> 33) & 255) as usize
        })
        .collect();
    let table = permute(&draws);
    assert_eq!(table, exchange_all(&draws));
    let mut sorted = table.clone();
    sorted.sort();
    assert_eq!(sorted, (0..256).collect::<Vec<usize>>());
}

#[test]
fn perlin_from_draws_has_the_tables_that_the_draws_make() {
    let dx: Vec<usize> = (0..256).collect();
    let dy: Vec<usize> = (0..256).map(|i| (i + 1) % 256).collect();
    let dz: Vec<usize> = vec![0usize; 256];
    let p = Perlin::from_draws(gradients(), &dx, &dy, &dz);
    assert_eq!(*p.perm_x(), exchange_all(&dx));
    assert_eq!(*p.perm_y(), exchange_all(&dy));
    assert_eq!(*p.perm_z(), exchange_all(&dz));
    assert_eq!(*p.ran_vec(), gradients());
    // At (3, 4, 5) the three tables give 3, 5 and 4.
    assert_eq!(p.gradient(3, 4, 5), v((3 ^ 5 ^ 4) as f64, 0.25, -((3 ^ 5 ^ 4) as f64)));
}

#[test]
fn image_texture_of_whole_numbers_is_integral() {
    assert!(ImageTexture::new(picture()).integral());
    assert!(ImageTexture::new(DynamicImage::new_luma8(2, 2)).integral());
    assert!(ImageTexture::new(DynamicImage::new_rgb16(2, 2)).integral());
    assert!(!ImageTexture::new(DynamicImage::new_rgb32f(2, 2)).integral());
    assert!(!ImageTexture::new(DynamicImage::new_rgba32f(2, 2)).integral());
}

#[test]
fn image_texture_with_fractions_gives_no_pixel() {
    let raster: ImageBuffer<Rgb<f32>, Vec<f32>> = ImageBuffer::from_pixel(1, 1, Rgb([f32::NAN, 0.5, 0.5]));
    let t = ImageTexture::new(DynamicImage::ImageRgb32F(raster));
    assert_eq!(t.size(), (1, 1));
    assert!(!t.integral());
    assert_eq!(t.value(0, 0), None);
    let fine: ImageBuffer<Rgb<f32>, Vec<f32>> = ImageBuffer::from_pixel(1, 1, Rgb([1.0, 0.5, 0.0]));
    assert_eq!(ImageTexture::new(DynamicImage::ImageRgb32F(fine)).value(0, 0), None);
}

#[test]
fn image_texture_scales_sixteen_bits_down_to_eight() {
    let raster: ImageBuffer<Rgb<u16>, Vec<u16>> = ImageBuffer::from_pixel(2, 1, Rgb([65535u16, 32768, 0]));
    let t = ImageTexture::new(DynamicImage::ImageRgb16(raster));
    assert!(t.integral());
    assert_eq!(t.value(1, 0), Some((255, 128, 0)));
    assert_eq!(t.texel(0, 0), (255, 128, 0));
}

#[test]
fn image_texture_of_grey_has_three_equal_colours() {
    let raster: ImageBuffer<image::Luma<u8>, Vec<u8>> = ImageBuffer::from_pixel(1, 1, image::Luma([77u8]));
    let t = ImageTexture::new(DynamicImage::ImageLuma8(raster));
    assert_eq!(t.value(0, 0), Some((77, 77, 77)));
}
