//! Participating media: how much of a ray lies inside a boundary.

use vstd::prelude::*;
use crate::scalar::Scalar;

verus! {

/// The stretch of a ray inside a boundary, cut to an interval: where the
/// ray enters, no earlier than `t_min` and no earlier than its origin, and
/// where it leaves, no later than `t_max`. `None` if it has left before it
/// enters.
pub open spec fn clip_to_interval_spec(
    entry: Scalar,
    exit: Scalar,
    t_min: Scalar,
    t_max: Scalar,
) -> Option<(Scalar, Scalar)> {
    let clipped_entry = entry.max_spec(t_min);
    let clipped_exit = exit.min_spec(t_max);
    if clipped_exit.le_spec(clipped_entry) {
        None
    } else {
        Some((clipped_entry.max_spec(Scalar { bits: 0 }), clipped_exit))
    }
}

/// The stretch of a ray inside a medium's boundary that counts.
///
/// `entry` and `exit` are the parameters at which the ray crosses the
/// boundary, in and out. Both are cut to `t_min..t_max`; if that leaves
/// nothing, the medium is missed. A ray that starts inside enters at its
/// origin.
pub fn clip_to_interval(entry: Scalar, exit: Scalar, t_min: Scalar, t_max: Scalar) -> (stretch:
    Option<(Scalar, Scalar)>)
    ensures
        stretch == clip_to_interval_spec(entry, exit, t_min, t_max),
{
    let mut rec1_t = entry;
    let mut rec2_t = exit;
    rec1_t = rec1_t.max(t_min);
    rec2_t = rec2_t.min(t_max);
    if rec1_t.ge(rec2_t) {
        return None;
    }
    rec1_t = rec1_t.max(Scalar::zero());
    Some((rec1_t, rec2_t))
}

/// Whether a ray is scattered before it leaves the medium: the distance
/// it flies freely is not greater than the distance it has inside.
pub fn scatters_inside(hit_distance: Scalar, distance_inside_boundary: Scalar) -> (b: bool)
    ensures
        b == !distance_inside_boundary.lt_spec(hit_distance),
{
    !hit_distance.gt(distance_inside_boundary)
}

/// A stretch that counts lies in the interval and has a length, as far as
/// the numbers go.
pub proof fn lemma_clip_lies_inside(entry: Scalar, exit: Scalar, t_min: Scalar, t_max: Scalar)
    requires
        !entry.nan(),
        !exit.nan(),
        !t_min.nan(),
        !t_max.nan(),
        (Scalar { bits: 0 }).le_spec(t_min),
    ensures
        match clip_to_interval_spec(entry, exit, t_min, t_max) {
            Some((from, to)) => {
                &&& t_min.le_spec(from)
                &&& entry.le_spec(from)
                &&& from.lt_spec(to)
                &&& to.le_spec(t_max)
                &&& to.le_spec(exit)
            },
            None => exit.le_spec(t_min) || t_max.le_spec(entry) || exit.le_spec(entry)
                || t_max.le_spec(t_min),
        },
{
}

} // verus!
