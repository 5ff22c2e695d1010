//! Textures: what colour a surface has at a point.

use vstd::prelude::*;
use std::sync::Arc;
use image::DynamicImage;
use image::GenericImageView;
use crate::scalar::Scalar;
use crate::vec3::Vec3;
use crate::perlin::Perlin;
use crate::perlin::LATTICE;

verus! {

/// A decoded raster of the `image` crate. The library sees nothing inside it.
#[verifier::external_type_specification]
#[verifier::external_body]
pub struct ExDynamicImage(DynamicImage);

/// The width and the height of a raster, in pixels.
pub uninterp spec fn image_size(image: DynamicImage) -> (u32, u32);

/// The red, green and blue of each pixel of a raster, by column and row.
pub uninterp spec fn image_rgb(image: DynamicImage) -> Map<(u32, u32), (u8, u8, u8)>;

/// Whether the samples of a raster are whole numbers, of 8 or of 16 bits,
/// and not numbers with a fraction.
pub uninterp spec fn image_integral(image: DynamicImage) -> bool;

/// Whether the samples of a raster are whole numbers.
///
/// Tells the variants of `DynamicImage` apart: the eight whose buffers hold
/// samples of 8 or 16 bits, and the rest, whose buffers hold samples with a
/// fraction.
#[verifier::external_body]
fn integral(image: &DynamicImage) -> (r: bool)
    ensures
        r == image_integral(*image),
{
    match image {
        DynamicImage::ImageLuma8(_) => true,
        DynamicImage::ImageLumaA8(_) => true,
        DynamicImage::ImageRgb8(_) => true,
        DynamicImage::ImageRgba8(_) => true,
        DynamicImage::ImageLuma16(_) => true,
        DynamicImage::ImageLumaA16(_) => true,
        DynamicImage::ImageRgb16(_) => true,
        DynamicImage::ImageRgba16(_) => true,
        _ => false,
    }
}

/// The size of a raster.
///
/// Calls `GenericImageView::dimensions` on the `DynamicImage`, which returns
/// the width and height of the buffer that the image holds.
#[verifier::external_body]
fn dimensions(image: &DynamicImage) -> (r: (u32, u32))
    ensures
        r == image_size(*image),
{
    image.dimensions()
}

/// The colour of one pixel.
///
/// Calls `GenericImageView::get_pixel` on the `DynamicImage`, which returns
/// the pixel in column `x` of row `y` as red, green, blue and alpha of 8
/// bits each. It panics where `x` or `y` is not below the width or height,
/// and it can panic where a sample with a fraction is not a number; samples
/// of 8 bits it hands on and samples of 16 bits it scales down, neither of
/// which can fail. The alpha is left out.
#[verifier::external_body]
fn rgb_at(image: &DynamicImage, x: u32, y: u32) -> (r: (u8, u8, u8))
    requires
        image_integral(*image),
        x < image_size(*image).0,
        y < image_size(*image).1,
    ensures
        r == image_rgb(*image)[(x, y)],
{
    let p = image.get_pixel(x, y);
    (p.0[0], p.0[1], p.0[2])
}

/// A texture, shared by the materials that show it.
pub type TexturePtr = Arc<Texture>;

/// The kinds of texture.
pub enum Texture {
    Constant(ConstantTexture),
    Checker(CheckerTexture),
    Noise(NoiseTexture),
    Image(ImageTexture),
}

/// One colour everywhere.
pub struct ConstantTexture {
    pub color: Vec3,
}

impl ConstantTexture {
    pub fn new(color: Vec3) -> (r: ConstantTexture)
        ensures
            r.color == color,
    {
        ConstantTexture { color }
    }

    pub fn rc(color: Vec3) -> (r: TexturePtr)
        ensures
            *r == Texture::Constant(ConstantTexture { color }),
    {
        Arc::new(Texture::Constant(ConstantTexture::new(color)))
    }

    /// The colour at a point of the surface: the same at every point.
    pub fn value(&self, u: Scalar, v: Scalar, p: &Vec3) -> (r: Vec3)
        ensures
            r == self.color,
    {
        self.color
    }
}

/// Two textures that alternate in space like the fields of a chess board.
pub struct CheckerTexture {
    pub odd: TexturePtr,
    pub even: TexturePtr,
}

impl CheckerTexture {
    pub fn new(odd: TexturePtr, even: TexturePtr) -> (r: CheckerTexture)
        ensures
            r.odd == odd,
            r.even == even,
    {
        CheckerTexture { even, odd }
    }

    pub fn rc(odd: TexturePtr, even: TexturePtr) -> (r: TexturePtr)
        ensures
            *r == Texture::Checker(CheckerTexture { odd, even }),
    {
        Arc::new(Texture::Checker(CheckerTexture::new(odd, even)))
    }

    /// The texture that shows at a point, given the product of the sines of
    /// the point's scaled coordinates: the odd one where the product is
    /// negative, else the even one.
    pub fn value(&self, sines: Scalar) -> (r: &TexturePtr)
        ensures
            *r == if sines.below(Scalar { bits: 0 }) { self.odd } else { self.even },
    {
        if sines.lt(Scalar::zero()) {
            &self.odd
        } else {
            &self.even
        }
    }
}

/// Marble-like noise of a given scale.
pub struct NoiseTexture {
    pub scale: Scalar,
    pub perlin: Perlin,
}

impl NoiseTexture {
    /// Noise of the given scale over the given gradients, with freshly drawn
    /// permutations.
    pub fn new(scale: Scalar, ran_vec: Vec<Vec3>) -> (r: NoiseTexture)
        requires
            ran_vec@.len() == LATTICE,
        ensures
            r.scale == scale,
            r.perlin@.wf(),
            r.perlin@.ran_vec == ran_vec@,
    {
        NoiseTexture { scale, perlin: Perlin::new(ran_vec) }
    }

    pub fn rc(scale: Scalar, ran_vec: Vec<Vec3>) -> (r: TexturePtr)
        requires
            ran_vec@.len() == LATTICE,
        ensures
            *r matches Texture::Noise(n) && n.scale == scale && n.perlin@.wf() && n.perlin@.ran_vec
                == ran_vec@,
    {
        Arc::new(Texture::Noise(NoiseTexture::new(scale, ran_vec)))
    }
}

/// A picture laid over a surface.
pub struct ImageTexture {
    pub image: DynamicImage,
}

impl ImageTexture {
    pub fn new(image: DynamicImage) -> (r: ImageTexture)
        ensures
            r.image == image,
    {
        ImageTexture { image }
    }

    pub fn rc(image: DynamicImage) -> (r: TexturePtr)
        ensures
            *r == Texture::Image(ImageTexture { image }),
    {
        Arc::new(Texture::Image(ImageTexture::new(image)))
    }

    /// The width and height of the picture.
    pub fn size(&self) -> (r: (u32, u32))
        ensures
            r == image_size(self.image),
    {
        dimensions(&self.image)
    }

    /// Whether the samples of the picture are whole numbers. Only of such a
    /// picture can the pixels be read.
    pub fn integral(&self) -> (r: bool)
        ensures
            r == image_integral(self.image),
    {
        integral(&self.image)
    }

    /// The red, green and blue of the pixel in column `i` of row `j`.
    pub fn texel(&self, i: u32, j: u32) -> (r: (u8, u8, u8))
        requires
            image_integral(self.image),
            i < image_size(self.image).0,
            j < image_size(self.image).1,
        ensures
            r == image_rgb(self.image)[(i, j)],
    {
        rgb_at(&self.image, i, j)
    }

    /// The red, green and blue of the pixel in column `i` of row `j`, or
    /// `None` where the picture has no such pixel or its samples are not
    /// whole numbers.
    pub fn value(&self, i: u32, j: u32) -> (r: Option<(u8, u8, u8)>)
        ensures
            r == if image_integral(self.image) && i < image_size(self.image).0 && j < image_size(
                self.image,
            ).1 {
                Some(image_rgb(self.image)[(i, j)])
            } else {
                None
            },
    {
        let (width, height) = self.size();
        if self.integral() && i < width && j < height {
            Some(self.texel(i, j))
        } else {
            None
        }
    }
}

} // verus!
