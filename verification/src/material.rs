//! Materials: what a surface does with the light that reaches it.

use vstd::prelude::*;
use crate::ray::Ray;
use crate::rng::ActiveRng;
use crate::scalar::Scalar;
use crate::texture::Point2d;
use crate::vec3::{Color, Point3, Vec3};

verus! {

/// The geometry of a hit, as a material sees it: everything in the record
/// of the hit but the material itself.
#[derive(Clone, Copy, Debug)]
pub struct SurfacePoint {
    /// The point that was hit.
    pub p: Point3,
    /// The surface normal there, turned against the incoming ray.
    pub normal: Vec3,
    /// The ray parameter of the hit.
    pub t: Scalar,
    /// The surface coordinate of the hit.
    pub texture_uv: Point2d,
    /// Whether the ray came from outside.
    pub is_front_face: bool,
}

/// A ray that leaves a surface, and how much of each colour channel it
/// carries on.
#[derive(Clone, Copy, Debug)]
pub struct Scatter {
    pub attenuation: Color,
    pub scattered_ray: Ray,
}

/// The response of a surface to an incoming ray.
///
/// Directions are sampled from the material itself and carry no
/// probability density: a scattered ray is weighted by its attenuation
/// alone, for every material alike.
///
/// What a material emits is a function of where it is asked: `emitted`
/// returns what `emission` names. Implementations outside this crate are
/// taken at their word for that. Scattering may draw from the random
/// source, so nothing is said of its result here.
///
/// A material that never scatters may say so: it `absorbs`, and then
/// `scatter` returns nothing.
///
/// `emission` and `absorbs` are ghost functions: they stand in contracts
/// and are never called when the program runs. An implementation that is
/// compiled without the verifier still has to give each a body; any body
/// will do.
pub trait Material: Send + Sync {
    /// The light emitted at a surface coordinate and a position.
    spec fn emission(&self, uv: Point2d, p: Point3) -> Color;

    /// Whether every light path ends at this material.
    spec fn absorbs(&self) -> bool;

    /// The ray on which the light path continues and its attenuation, or
    /// `None` where the path ends at this surface.
    fn scatter(&self, r_in: &Ray, rec: &SurfacePoint, rng: &mut ActiveRng) -> (s: Option<Scatter>)
        ensures
            self.absorbs() ==> s is None,
    ;

    /// The light emitted at a surface coordinate and a position.
    fn emitted(&self, uv: Point2d, p: &Point3) -> (c: Color)
        ensures
            c == self.emission(uv, *p),
    ;
}

/// Whether glass reflects a ray rather than refracts it.
///
/// `refraction_ratio_times_sine` is the ratio of the refractive indices
/// times the sine of the angle of incidence: above one, no refracted ray
/// exists, and the ray is reflected. Otherwise the ray is reflected with
/// the probability `reflectance`: exactly if `sample`, drawn evenly from
/// zero to one, falls below it.
pub fn reflects(refraction_ratio_times_sine: Scalar, reflectance: Scalar, sample: Scalar) -> (b:
    bool)
    ensures
        b == ((Scalar { bits: 0x3f80_0000 }).lt_spec(refraction_ratio_times_sine)
            || sample.lt_spec(reflectance)),
{
    let cannot_refract = refraction_ratio_times_sine.gt(Scalar::one());
    cannot_refract || reflectance.gt(sample)
}

} // verus!
