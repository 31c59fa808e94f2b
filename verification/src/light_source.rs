//! Light sources: surfaces that emit and do nothing else.

use vstd::prelude::*;
use crate::material::{Material, Scatter, SurfacePoint};
use crate::ray::Ray;
use crate::rng::ActiveRng;
use crate::texture::{Point2d, Texture};
use crate::vec3::{Color, Point3};

verus! {

/// A surface that glows with the colours of a texture. A light path ends
/// where it meets one.
pub struct DiffuseLight<T: Texture> {
    pub emit: T,
}

impl<T: Texture> DiffuseLight<T> {
    /// The light that glows with the colours of `emit`.
    pub fn new(emit: T) -> (light: Self)
        ensures
            light.emit == emit,
    {
        DiffuseLight { emit }
    }
}

impl<T: Texture> Material for DiffuseLight<T> {
    open spec fn emission(&self, uv: Point2d, p: Point3) -> Color {
        self.emit.color_at(uv, p)
    }

    open spec fn absorbs(&self) -> bool {
        true
    }

    /// A light scatters nothing, whatever the ray and the hit.
    fn scatter(&self, _r_in: &Ray, _rec: &SurfacePoint, _rng: &mut ActiveRng) -> (s: Option<
        Scatter,
    >)
        ensures
            s is None,
    {
        None
    }

    /// A light emits its texture's colour at the place asked for.
    fn emitted(&self, uv: Point2d, p: &Point3) -> (c: Color)
        ensures
            c == self.emit.color_at(uv, *p),
    {
        self.emit.value(uv, p)
    }
}

} // verus!
