//! Textures: colour as a function of a surface coordinate and a position.

use vstd::prelude::*;
use crate::scalar::Scalar;
use crate::vec3::{Color, Point3, Vec3};

verus! {

/// A coordinate on a surface.
#[derive(Clone, Copy, Debug)]
pub struct Point2d {
    pub u: Scalar,
    pub v: Scalar,
}

/// A colour for every surface coordinate and position.
///
/// A texture is a function: `value` returns what `color_at` names, whenever
/// and however often it is asked. Implementations outside this crate are
/// taken at their word for that.
///
/// `color_at` is a ghost function: it stands in contracts and is never
/// called when the program runs. An implementation that is compiled
/// without the verifier still has to give it a body; any body will do.
pub trait Texture: Send + Sync {
    /// The colour at a surface coordinate and a position.
    spec fn color_at(&self, uv: Point2d, p: Point3) -> Color;

    /// The colour at a surface coordinate and a position.
    fn value(&self, uv: Point2d, p: &Vec3) -> (c: Color)
        ensures
            c == self.color_at(uv, *p),
    ;
}

impl Texture for Box<dyn Texture> {
    open spec fn color_at(&self, uv: Point2d, p: Point3) -> Color {
        (**self).color_at(uv, p)
    }

    fn value(&self, uv: Point2d, p: &Vec3) -> (c: Color) {
        (**self).value(uv, p)
    }
}

/// One colour everywhere.
#[derive(Clone, Copy, Debug)]
pub struct SolidColor {
    pub color_value: Color,
}

impl SolidColor {
    /// The texture that is `color_value` everywhere.
    pub fn new(color_value: Color) -> (s: SolidColor)
        ensures
            s.color_value == color_value,
    {
        SolidColor { color_value }
    }

    /// The texture of the colour with the given components.
    pub fn new_rgb(red: Scalar, green: Scalar, blue: Scalar) -> (s: SolidColor)
        ensures
            s.color_value@ == seq![red, green, blue],
    {
        SolidColor::new(Color::new(red, green, blue))
    }
}

impl Texture for SolidColor {
    open spec fn color_at(&self, uv: Point2d, p: Point3) -> Color {
        self.color_value
    }

    fn value(&self, uv: Point2d, p: &Vec3) -> (c: Color) {
        self.color_value
    }
}

/// Shows the surface coordinate itself: `u` as red, `v` as green, no blue.
#[derive(Clone, Copy, Debug)]
pub struct UVDebug {}

impl UVDebug {
    /// The texture.
    pub fn new() -> UVDebug {
        UVDebug {  }
    }
}

impl Texture for UVDebug {
    open spec fn color_at(&self, uv: Point2d, p: Point3) -> Color {
        Color { e: [uv.u, uv.v, Scalar { bits: 0 }] }
    }

    fn value(&self, uv: Point2d, p: &Vec3) -> (c: Color) {
        let c = Color { e: [uv.u, uv.v, Scalar::zero()] };
        assert(c.e@ =~= self.color_at(uv, *p).e@);
        assert(c.e == self.color_at(uv, *p).e);
        c
    }
}

/// A decoded picture: `width` times `height` pixels, row by row from the
/// top, each pixel its red, green and blue byte.
pub struct ImageTexture {
    pub width: u32,
    pub height: u32,
    pub pixels: Vec<u8>,
}

/// The place of a scaled coordinate in a row or column of `extent`
/// pixels: the coordinate itself, or the last pixel if it lies beyond.
pub open spec fn clamp_to_extent_spec(scaled: u32, extent: u32) -> int {
    if scaled < extent {
        scaled as int
    } else {
        extent - 1
    }
}

/// The place of a scaled coordinate in a row or column of `extent`
/// pixels. There has to be a pixel.
pub fn clamp_to_extent(scaled: u32, extent: u32) -> (i: u32)
    requires
        extent > 0,
    ensures
        i == clamp_to_extent_spec(scaled, extent),
{
    if scaled < extent {
        scaled
    } else {
        extent - 1
    }
}

impl ImageTexture {
    /// The invariant of a picture: it has a pixel, and three bytes for
    /// each.
    pub open spec fn wf(&self) -> bool {
        &&& self.width > 0
        &&& self.height > 0
        &&& self.pixels@.len() == 3 * self.width * self.height
    }

    /// Where the first byte of a pixel stands.
    pub open spec fn offset_spec(&self, column: int, row: int) -> int {
        3 * (row * self.width + column)
    }

    /// The picture of the given size and bytes, if there is a pixel and
    /// the number of bytes is three for each.
    pub fn new(width: u32, height: u32, pixels: Vec<u8>) -> (image: Option<ImageTexture>)
        ensures
            image is Some <==> width > 0 && height > 0 && pixels@.len() == 3 * width * height,
            image is Some ==> image->0.wf() && image->0.width == width && image->0.height == height
                && image->0.pixels@ == pixels@,
    {
        if width == 0 || height == 0 {
            return None;
        }
        let count: u64 = 3 * (width as u64);
        assert(count * height <= 3 * 0xffff_ffff * 0xffff_ffff) by (nonlinear_arith)
            requires
                count <= 3 * 0xffff_ffff,
                height <= 0xffff_ffff,
        ;
        let bytes: u128 = (count as u128) * (height as u128);
        assert(3 * width * height == count * height) by (nonlinear_arith)
            requires
                count == 3 * width,
        ;
        if pixels.len() as u128 != bytes {
            return None;
        }
        Some(ImageTexture { width, height, pixels })
    }

    /// The red, green and blue of the pixel that a scaled coordinate falls
    /// on: `scaled_u` counts columns from the left and `scaled_v` rows
    /// from the top, and either is held to the picture's edge if it lies
    /// beyond.
    pub fn get_pixel(&self, scaled_u: u32, scaled_v: u32) -> (rgb: [u8; 3])
        requires
            self.wf(),
        ensures
            ({
                let at = self.offset_spec(
                    clamp_to_extent_spec(scaled_u, self.width),
                    clamp_to_extent_spec(scaled_v, self.height),
                );
                &&& 0 <= at
                &&& at + 2 < self.pixels@.len()
                &&& rgb@ == seq![self.pixels@[at], self.pixels@[at + 1], self.pixels@[at + 2]]
            }),
    {
        let i = clamp_to_extent(scaled_u, self.width);
        let j = clamp_to_extent(scaled_v, self.height);
        proof {
            let area = self.width * self.height;
            let place = j * self.width + i;
            assert(place < area) by (nonlinear_arith)
                requires
                    i < self.width,
                    j < self.height,
                    area == self.width * self.height,
                    place == j * self.width + i,
            ;
            assert(0 <= j * self.width) by (nonlinear_arith);
            assert(3 * area == 3 * self.width * self.height) by (nonlinear_arith)
                requires
                    area == self.width * self.height,
            ;
            assert(self.pixels@.len() == self.pixels.len());
            assert(3 * place + 2 < 3 * area);
            assert(3 * area <= usize::MAX);
        }
        let at: usize = 3 * ((j as usize) * (self.width as usize) + (i as usize));
        let rgb = [self.pixels[at], self.pixels[at + 1], self.pixels[at + 2]];
        assert(rgb@ =~= seq![
            self.pixels@[at as int],
            self.pixels@[at + 1],
            self.pixels@[at + 2],
        ]);
        rgb
    }
}

} // verus!
