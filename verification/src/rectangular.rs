//! Axis-aligned rectangles and the boxes made of them.

use vstd::prelude::*;
use crate::aabb::Aabb;
use crate::hittable::{scan, HitRecord, Hittable};
use crate::ray::Ray;
use crate::rng::ActiveRng;
use crate::scalar::Scalar;
use crate::spherical::in_range_spec;
use crate::vec3::Point3;

verus! {

/// The plane that a rectangle lies in, named by the two axes it spans.
#[derive(Clone, Copy, Debug, PartialEq, Eq, Structural)]
pub enum Plane {
    XY,
    XZ,
    YZ,
}

/// A rectangle in a plane: its extent `a0..a1` along the first axis of
/// the plane and `b0..b1` along the second, and the coordinate `k` at which
/// the plane stands on the third.
#[derive(Clone, Copy, Debug)]
pub struct Face {
    pub plane: Plane,
    pub a0: Scalar,
    pub a1: Scalar,
    pub b0: Scalar,
    pub b1: Scalar,
    pub k: Scalar,
}

/// Whether a ray hits a rectangle, from the parameter `t` at which it
/// crosses the rectangle's plane and the place `(a, b)` where it does: the
/// parameter lies in `t_min..=t_max` and the place within the rectangle's
/// extent.
pub open spec fn hit_rectangle_spec(
    t: Scalar,
    a: Scalar,
    b: Scalar,
    face: Face,
    t_min: Scalar,
    t_max: Scalar,
) -> bool {
    in_range_spec(t, t_min, t_max) && in_range_spec(a, face.a0, face.a1) && in_range_spec(
        b,
        face.b0,
        face.b1,
    )
}

/// Whether a ray hits a rectangle.
///
/// `t` is the parameter at which the ray crosses the rectangle's plane,
/// and `(a, b)` is where it does, along the plane's two axes.
pub fn hit_rectangle(
    t: Scalar,
    a: Scalar,
    b: Scalar,
    face: &Face,
    t_min: Scalar,
    t_max: Scalar,
) -> (hit: bool)
    ensures
        hit == hit_rectangle_spec(t, a, b, *face, t_min, t_max),
{
    if t.lt(t_min) || t.gt(t_max) {
        return false;
    }
    if a.lt(face.a0) || a.gt(face.a1) || b.lt(face.b0) || b.gt(face.b1) {
        return false;
    }
    true
}

/// A rectangle answers consistently.
///
/// Take a crossing whose parameter is a number, and an interval whose ends
/// are numbers. Then a hit lies in the interval; it is still a hit when
/// the interval is cut short behind it and none when the interval is cut
/// short before it; and a rectangle that is missed is still missed in a
/// shorter interval.
pub proof fn lemma_hit_rectangle_consistent(
    t: Scalar,
    a: Scalar,
    b: Scalar,
    face: Face,
    t_min: Scalar,
    t_max: Scalar,
    shorter: Scalar,
)
    requires
        !t.nan(),
        !t_min.nan(),
        !t_max.nan(),
        !shorter.nan(),
    ensures
        hit_rectangle_spec(t, a, b, face, t_min, t_max) ==> t_min.le_spec(t) && t.le_spec(t_max),
        hit_rectangle_spec(t, a, b, face, t_min, t_max) && t.le_spec(shorter)
            ==> hit_rectangle_spec(t, a, b, face, t_min, shorter),
        shorter.lt_spec(t) ==> !hit_rectangle_spec(t, a, b, face, t_min, shorter),
        !hit_rectangle_spec(t, a, b, face, t_min, t_max) && shorter.le_spec(t_max)
            ==> !hit_rectangle_spec(t, a, b, face, t_min, shorter),
{
}

impl Plane {
    /// The axes of a plane: the two that it spans, in their order, and the
    /// one that it stands on, each as 0 for x, 1 for y, 2 for z.
    pub open spec fn axes_spec(self) -> (int, int, int) {
        match self {
            Plane::XY => (0, 1, 2),
            Plane::XZ => (0, 2, 1),
            Plane::YZ => (1, 2, 0),
        }
    }

    /// The axes of a plane: the two that it spans and the one that it
    /// stands on.
    pub fn axes(self) -> (axes: (usize, usize, usize))
        ensures
            (axes.0 as int, axes.1 as int, axes.2 as int) == self.axes_spec(),
    {
        match self {
            Plane::XY => (0, 1, 2),
            Plane::XZ => (0, 2, 1),
            Plane::YZ => (1, 2, 0),
        }
    }
}

/// The face of the box with the corners `low` and `high` in a plane: it
/// reaches from corner to corner along the plane's axes, and stands at the
/// `high` corner if it is the far one of the two and at the `low` corner if
/// not.
pub open spec fn face_spec(plane: Plane, low: Point3, high: Point3, far: bool) -> Face {
    let (a, b, k) = plane.axes_spec();
    Face {
        plane,
        a0: low@[a],
        a1: high@[a],
        b0: low@[b],
        b1: high@[b],
        k: if far {
            high@[k]
        } else {
            low@[k]
        },
    }
}

/// The six faces of the box with the corners `low` and `high`: in each of
/// the three planes the far face and then the near one.
pub open spec fn faces_spec(low: Point3, high: Point3) -> Seq<Face> {
    seq![
        face_spec(Plane::XY, low, high, true),
        face_spec(Plane::XY, low, high, false),
        face_spec(Plane::XZ, low, high, true),
        face_spec(Plane::XZ, low, high, false),
        face_spec(Plane::YZ, low, high, true),
        face_spec(Plane::YZ, low, high, false),
    ]
}

/// A box with faces along the axes: six rectangles.
pub struct Cuboid<R: Hittable> {
    pub box_min: Point3,
    pub box_max: Point3,
    pub sides: Vec<R>,
}

impl<R: Hittable> Cuboid<R> {
    /// The face of the box with the corners `low` and `high` in a plane,
    /// the far one of the two or the near one.
    pub fn face(plane: Plane, low: Point3, high: Point3, far: bool) -> (face: Face)
        ensures
            face == face_spec(plane, low, high, far),
    {
        let (a, b, k) = plane.axes();
        Face {
            plane,
            a0: low.axis(a),
            a1: high.axis(a),
            b0: low.axis(b),
            b1: high.axis(b),
            k: if far {
                high.axis(k)
            } else {
                low.axis(k)
            },
        }
    }

    /// The six faces of the box with the corners `low` and `high`.
    pub fn faces(low: Point3, high: Point3) -> (faces: [Face; 6])
        ensures
            faces@ == faces_spec(low, high),
    {
        let faces = [
            Self::face(Plane::XY, low, high, true),
            Self::face(Plane::XY, low, high, false),
            Self::face(Plane::XZ, low, high, true),
            Self::face(Plane::XZ, low, high, false),
            Self::face(Plane::YZ, low, high, true),
            Self::face(Plane::YZ, low, high, false),
        ];
        faces
    }

    /// The box with the corners `low` and `high`, its six sides made by
    /// `make_side` from the six faces, in their order.
    pub fn new<F: Fn(Face) -> R>(low: Point3, high: Point3, make_side: &F) -> (cuboid: Self)
        requires
            forall|face: Face| make_side.requires((face,)),
        ensures
            cuboid.box_min == low,
            cuboid.box_max == high,
            cuboid.sides@.len() == 6,
            forall|i: int|
                0 <= i < 6 ==> make_side.ensures(
                    (faces_spec(low, high)[i],),
                    #[trigger] cuboid.sides@[i],
                ),
    {
        let faces = Self::faces(low, high);
        let mut sides: Vec<R> = Vec::new();
        let mut i: usize = 0;
        while i < 6
            invariant
                i <= 6,
                faces@ == faces_spec(low, high),
                sides@.len() == i,
                forall|face: Face| make_side.requires((face,)),
                forall|k: int|
                    0 <= k < i ==> make_side.ensures(
                        (faces_spec(low, high)[k],),
                        #[trigger] sides@[k],
                    ),
            decreases 6 - i,
        {
            let side = make_side(faces[i]);
            sides.push(side);
            i += 1;
        }
        Cuboid { box_min: low, box_max: high, sides }
    }
}

impl<R: Hittable> Hittable for Cuboid<R> {
    /// The box from corner to corner.
    open spec fn bounds(&self, time0: Scalar, time1: Scalar) -> Option<Aabb> {
        Some(Aabb { minimum: self.box_min, maximum: self.box_max })
    }

    open spec fn repeatable(&self) -> bool {
        self.sides.repeatable()
    }

    /// The hit of the list of the sides.
    open spec fn hit_spec<'a>(&'a self, r: Ray, t_min: Scalar, t_max: Scalar) -> Option<
        HitRecord<'a>,
    > {
        scan(self.sides@, r, t_min, t_max)
    }

    fn hit<'a>(&'a self, r: &Ray, t_min: Scalar, t_max: Scalar, rng: &mut ActiveRng) -> (rec:
        Option<HitRecord<'a>>) {
        self.sides.hit(r, t_min, t_max, rng)
    }

    fn bounding_box(&self, _time0: Scalar, _time1: Scalar) -> (b: Option<Aabb>) {
        Some(Aabb::new(self.box_min, self.box_max))
    }
}

} // verus!
