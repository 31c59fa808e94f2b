//! Spheres: which root of the quadratic is the hit.

use vstd::prelude::*;
use crate::scalar::Scalar;

verus! {

/// Whether a parameter lies in `t_min..=t_max`: it is neither less than
/// `t_min` nor greater than `t_max`. A NaN is neither, and is let through.
pub open spec fn in_range_spec(t: Scalar, t_min: Scalar, t_max: Scalar) -> bool {
    !(t.lt_spec(t_min) || t_max.lt_spec(t))
}

/// The hit of a ray on a sphere, from the discriminant of the quadratic
/// and its two roots: none if the discriminant is negative; else the near
/// root if it lies in the interval; else the far root if that does.
pub open spec fn hit_sphere_spec(
    discriminant: Scalar,
    near_root: Scalar,
    far_root: Scalar,
    t_min: Scalar,
    t_max: Scalar,
) -> Option<Scalar> {
    if discriminant.lt_spec(Scalar { bits: 0 }) {
        None
    } else if in_range_spec(near_root, t_min, t_max) {
        Some(near_root)
    } else if in_range_spec(far_root, t_min, t_max) {
        Some(far_root)
    } else {
        None
    }
}

/// Whether a parameter lies in `t_min..=t_max`.
pub fn in_range(t: Scalar, t_min: Scalar, t_max: Scalar) -> (b: bool)
    ensures
        b == in_range_spec(t, t_min, t_max),
{
    !(t.lt(t_min) || t_max.lt(t))
}

/// The parameter at which a ray hits a sphere, if it does.
///
/// `discriminant` is that of the quadratic in the ray parameter;
/// `near_root` and `far_root` are its smaller and its larger root. With a
/// negative discriminant there is no root and no hit. Otherwise the near
/// root is the hit if it lies in `t_min..=t_max`, and the far root if only
/// that does.
pub fn hit_sphere(
    discriminant: Scalar,
    near_root: Scalar,
    far_root: Scalar,
    t_min: Scalar,
    t_max: Scalar,
) -> (root: Option<Scalar>)
    ensures
        root == hit_sphere_spec(discriminant, near_root, far_root, t_min, t_max),
{
    if discriminant.lt(Scalar::zero()) {
        return None;
    }
    let mut root = near_root;
    if root.lt(t_min) || t_max.lt(root) {
        root = far_root;
        if root.lt(t_min) || t_max.lt(root) {
            return None;
        }
    }
    Some(root)
}

/// A sphere answers consistently.
///
/// Take the two roots in their order, both numbers, and a lower end of the
/// interval that is a number. Then a reported root lies in the interval;
/// it is still reported when the interval is cut short behind it, and
/// nothing is reported when the interval is cut short before it; and a
/// sphere that is missed is still missed in a shorter interval.
pub proof fn lemma_hit_sphere_consistent(
    discriminant: Scalar,
    near_root: Scalar,
    far_root: Scalar,
    t_min: Scalar,
    t_max: Scalar,
    shorter: Scalar,
)
    requires
        near_root.le_spec(far_root),
        !t_min.nan(),
        !t_max.nan(),
        !shorter.nan(),
    ensures
        match hit_sphere_spec(discriminant, near_root, far_root, t_min, t_max) {
            Some(root) => {
                &&& t_min.le_spec(root)
                &&& root.le_spec(t_max)
                &&& root.le_spec(shorter) && shorter.le_spec(t_max) ==> hit_sphere_spec(
                    discriminant,
                    near_root,
                    far_root,
                    t_min,
                    shorter,
                ) == Some(root)
                &&& shorter.lt_spec(root) ==> hit_sphere_spec(
                    discriminant,
                    near_root,
                    far_root,
                    t_min,
                    shorter,
                ) is None
            },
            None => shorter.le_spec(t_max) ==> hit_sphere_spec(
                discriminant,
                near_root,
                far_root,
                t_min,
                shorter,
            ) is None,
        },
{
}

} // verus!
