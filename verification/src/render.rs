//! The integrator: which pixels are sampled in which order, and how a light
//! path is followed from surface to surface until it ends.

use vstd::prelude::*;
use crate::hittable::{scan, Hittable};
use crate::material::Scatter;
use crate::ray::Ray;
use crate::rng::ActiveRng;
use crate::scalar::Scalar;
use crate::vec3::Color;

verus! {

/// The number of surfaces after which a light path is cut off.
pub const MAX_DEPTH: usize = 50;

/// The bit pattern of 0.001, the smallest ray parameter at which a hit
/// counts: a ray must not hit the surface it has just left.
pub const NEAREST_HIT_BITS: u32 = 0x3a83_126f;

/// The colour gathered for one pixel: the sum of its samples.
#[derive(Clone, Copy, Debug)]
pub struct Pixel {
    pub row: u32,
    pub column: u32,
    pub color: Color,
}

/// What a renderer tells a listener as it goes.
#[derive(Clone, Copy, Debug)]
pub enum ProgressMessage {
    ImageStart { width: u32, height: u32, samples_per_pixel: u32 },
    Pixel(Pixel),
    ImageEnd,
}

/// What a light path takes from one surface that scatters it: the light the
/// surface emits, and the share of what lies beyond that it passes on.
#[derive(Clone, Copy, Debug)]
pub struct Bounce {
    pub emitted: Color,
    pub attenuation: Color,
}

/// A light path from the eye: the surfaces that scattered it, the first
/// one first, and the light at its end. The light that arrives at the eye
/// is `end` seen through every bounce in turn, from the last to the first:
/// each bounce gives its `emitted` plus its `attenuation` times what
/// arrives from behind it.
pub struct LightPath {
    pub bounces: Vec<Bounce>,
    pub end: Color,
}

/// What one surface does to a light path.
pub enum Step {
    /// The path ends with this light.
    End(Color),
    /// The path goes on along the ray, through this bounce.
    Continue(Bounce, Ray),
}

/// What becomes of a light path at its next surface. `met` is `None` where
/// the ray escaped all geometry; else it holds what the surface emits and,
/// if the surface scatters, how.
///
/// A ray that escapes ends in the background. A surface that does not
/// scatter ends the path with what it emits. Any other passes the path on.
pub fn step(met: Option<(Color, Option<Scatter>)>, background: Color) -> (s: Step)
    ensures
        s == match met {
            None => Step::End(background),
            Some((emitted, None)) => Step::End(emitted),
            Some((emitted, Some(scatter))) => Step::Continue(
                Bounce { emitted, attenuation: scatter.attenuation },
                scatter.scattered_ray,
            ),
        },
{
    match met {
        None => Step::End(background),
        Some((emitted, None)) => Step::End(emitted),
        Some((emitted, Some(scatter))) => Step::Continue(
            Bounce { emitted, attenuation: scatter.attenuation },
            scatter.scattered_ray,
        ),
    }
}

/// A scene to render and the size of the picture.
pub struct Raytracer<'a, H: Hittable> {
    pub world: &'a Vec<H>,
    pub background: Color,
    pub image_width: u32,
    pub image_height: u32,
    pub samples_per_pixel: u32,
}

/// The row of the `k`-th pixel rendered: rows come from the top one, the
/// highest, down to row 0.
pub open spec fn row_of(k: int, width: u32, height: u32) -> int {
    height - 1 - k / (width as int)
}

/// The column of the `k`-th pixel rendered: within a row, from column 0
/// up.
pub open spec fn column_of(k: int, width: u32) -> int {
    k % (width as int)
}

/// Black.
pub open spec fn black() -> Color {
    Color { e: [Scalar { bits: 0 }, Scalar { bits: 0 }, Scalar { bits: 0 }] }
}

impl<'a, H: Hittable> Raytracer<'a, H> {
    /// The renderer of `world` under `background`.
    pub fn new(
        world: &'a Vec<H>,
        background: Color,
        image_width: u32,
        image_height: u32,
        samples_per_pixel: u32,
    ) -> (raytracer: Self)
        ensures
            raytracer.world == world,
            raytracer.background == background,
            raytracer.image_width == image_width,
            raytracer.image_height == image_height,
            raytracer.samples_per_pixel == samples_per_pixel,
    {
        Raytracer { world, background, image_width, image_height, samples_per_pixel }
    }

    /// The places of the pixels in the order in which they are rendered:
    /// the rows from the top down and each row from column 0 up. The number
    /// of pixels has to fit a `usize`.
    pub fn pixel_order(&self) -> (order: Vec<(u32, u32)>)
        requires
            self.image_width * self.image_height <= usize::MAX,
        ensures
            order@.len() == self.image_width * self.image_height,
            forall|k: int|
                0 <= k < order@.len() ==> #[trigger] order@[k] == (
                    row_of(k, self.image_width, self.image_height) as u32,
                    column_of(k, self.image_width) as u32,
                ),
    {
        let width = self.image_width;
        let height = self.image_height;
        let mut order: Vec<(u32, u32)> = Vec::new();
        let mut done_rows: u32 = 0;
        while done_rows < height
            invariant
                done_rows <= height,
                width * height <= usize::MAX,
                order@.len() == done_rows * width,
                forall|k: int|
                    0 <= k < order@.len() ==> #[trigger] order@[k] == (
                        row_of(k, width, height) as u32,
                        column_of(k, width) as u32,
                    ),
            decreases height - done_rows,
        {
            let row: u32 = height - 1 - done_rows;
            let mut column: u32 = 0;
            while column < width
                invariant
                    column <= width,
                    done_rows < height,
                    row == height - 1 - done_rows,
                    width * height <= usize::MAX,
                    order@.len() == done_rows * width + column,
                    forall|k: int|
                        0 <= k < order@.len() ==> #[trigger] order@[k] == (
                            row_of(k, width, height) as u32,
                            column_of(k, width) as u32,
                        ),
                decreases width - column,
            {
                proof {
                    let k = order@.len() as int;
                    lemma_pixel_place(k, done_rows as int, column as int, width as int);
                    assert(row_of(k, width, height) == row);
                    assert(column_of(k, width) == column);
                    assert(done_rows * width + column + 1 <= height * width) by (nonlinear_arith)
                        requires
                            done_rows < height,
                            column < width,
                    ;
                    assert(height * width == width * height) by (nonlinear_arith);
                }
                order.push((row, column));
                column += 1;
            }
            proof {
                assert(done_rows * width + width == (done_rows + 1) * width) by (nonlinear_arith);
            }
            done_rows += 1;
        }
        proof {
            assert(height * width == width * height) by (nonlinear_arith);
        }
        order
    }

    /// The picture: one pixel from `sample_pixel` for every row and
    /// column, in the order of `pixel_order`. The number of pixels has to
    /// fit a `usize`.
    pub fn render<F: Fn(u32, u32) -> Pixel>(&self, sample_pixel: &F) -> (pixels: Vec<Pixel>)
        requires
            forall|row: u32, column: u32| sample_pixel.requires((row, column)),
            self.image_width * self.image_height <= usize::MAX,
        ensures
            pixels@.len() == self.image_width * self.image_height,
            forall|k: int|
                0 <= k < pixels@.len() ==> sample_pixel.ensures(
                    (
                        row_of(k, self.image_width, self.image_height) as u32,
                        column_of(k, self.image_width) as u32,
                    ),
                    #[trigger] pixels@[k],
                ),
    {
        let order = self.pixel_order();
        let mut pixels: Vec<Pixel> = Vec::new();
        let mut k: usize = 0;
        while k < order.len()
            invariant
                k <= order@.len(),
                pixels@.len() == k,
                order@.len() == self.image_width * self.image_height,
                forall|row: u32, column: u32| sample_pixel.requires((row, column)),
                forall|i: int|
                    0 <= i < order@.len() ==> #[trigger] order@[i] == (
                        row_of(i, self.image_width, self.image_height) as u32,
                        column_of(i, self.image_width) as u32,
                    ),
                forall|i: int|
                    0 <= i < k ==> sample_pixel.ensures(
                        (
                            row_of(i, self.image_width, self.image_height) as u32,
                            column_of(i, self.image_width) as u32,
                        ),
                        #[trigger] pixels@[i],
                    ),
            decreases order.len() - k,
        {
            let place = order[k];
            let pixel = sample_pixel(place.0, place.1);
            pixels.push(pixel);
            k += 1;
        }
        pixels
    }

    /// Follows a light path from the ray through the world, for at most
    /// `depth` surfaces.
    ///
    /// With no depth left the path ends in black. A ray that hits nothing
    /// at a parameter of 0.001 or more ends the path in the background
    /// colour. A surface that was hit emits, and then either ends the path
    /// or scatters it along a new ray with one unit of depth less.
    ///
    /// What the surfaces do is theirs to say, so the contract speaks of
    /// what is certain: the path has no more bounces than `depth`, and ends
    /// in black if it has as many; in an empty world it ends at once in
    /// the background; and in a world of repeatable objects its first
    /// surface is the one that the world's list reports, whose emission is
    /// the end of the path or the first bounce's share, the end wherever
    /// the surface absorbs.
    pub fn sample_ray(&self, r: &Ray, rng: &mut ActiveRng, depth: usize) -> (path: LightPath)
        ensures
            path.bounces@.len() <= depth,
            path.bounces@.len() == depth ==> path.end == black(),
            depth > 0 && self.world@.len() == 0 ==> path.bounces@.len() == 0 && path.end
                == self.background,
            depth > 0 && self.world.repeatable() ==> match scan(
                self.world@,
                *r,
                Scalar { bits: NEAREST_HIT_BITS },
                Scalar { bits: 0x7f80_0000 },
            ) {
                None => path.bounces@.len() == 0 && path.end == self.background,
                Some(rec) => if path.bounces@.len() == 0 {
                    path.end == rec.material.emission(rec.texture_uv, rec.p)
                } else {
                    !rec.material.absorbs() && path.bounces@[0].emitted == rec.material.emission(
                        rec.texture_uv,
                        rec.p,
                    )
                },
            },
    {
        let mut bounces: Vec<Bounce> = Vec::new();
        let mut ray = *r;
        let mut remaining = depth;
        let ghost first = scan(
            self.world@,
            *r,
            Scalar { bits: NEAREST_HIT_BITS },
            Scalar { bits: 0x7f80_0000 },
        );
        while remaining > 0
            invariant
                bounces@.len() + remaining == depth,
                bounces@.len() == 0 ==> ray == *r,
                self.world@.len() == 0 ==> bounces@.len() == 0,
                first == scan(
                    self.world@,
                    *r,
                    Scalar { bits: NEAREST_HIT_BITS },
                    Scalar { bits: 0x7f80_0000 },
                ),
                self.world.repeatable() && bounces@.len() > 0 ==> first is Some
                    && !first->0.material.absorbs() && bounces@[0].emitted
                    == first->0.material.emission(first->0.texture_uv, first->0.p),
            decreases remaining,
        {
            let hit = self.world.hit(
                &ray,
                Scalar::from_bits(NEAREST_HIT_BITS),
                Scalar::infinity(),
                rng,
            );
            let met = match hit {
                None => None,
                Some(hit_record) => {
                    let emitted = hit_record.material.emitted(
                        hit_record.texture_uv,
                        &hit_record.p,
                    );
                    let scatter = hit_record.material.scatter(&ray, &hit_record.surface(), rng);
                    Some((emitted, scatter))
                },
            };
            match step(met, self.background) {
                Step::End(end) => {
                    return LightPath { bounces, end };
                },
                Step::Continue(bounce, scattered_ray) => {
                    bounces.push(bounce);
                    ray = scattered_ray;
                    remaining -= 1;
                },
            }
        }
        let end = Color::new(Scalar::zero(), Scalar::zero(), Scalar::zero());
        proof {
            assert(end.e@ =~= black().e@);
            assert(end.e == black().e);
        }
        LightPath { bounces, end }
    }
}

/// The `k`-th pixel, counted row by row, stands in row `k / width` from
/// the top and in column `k % width`.
proof fn lemma_pixel_place(k: int, done_rows: int, column: int, width: int)
    requires
        0 <= column < width,
        0 <= done_rows,
        k == done_rows * width + column,
    ensures
        k / width == done_rows,
        k % width == column,
{
    vstd::arithmetic::div_mod::lemma_fundamental_div_mod_converse(k, width, done_rows, column);
}

} // verus!
