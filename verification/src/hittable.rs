//! What a ray can hit: the capability itself, the record of a hit, and
//! lists of things to hit.

use vstd::prelude::*;
use crate::aabb::Aabb;
use crate::material::{Material, SurfacePoint};
use crate::ray::Ray;
use crate::rng::ActiveRng;
use crate::scalar::Scalar;
use crate::texture::Point2d;
use crate::vec3::{Point3, Vec3};

verus! {

/// Where and how a ray met a surface.
pub struct HitRecord<'a> {
    /// The point that was hit.
    pub p: Point3,
    /// The surface normal there, turned against the incoming ray.
    pub normal: Vec3,
    /// The material of the surface, borrowed for the shading step.
    pub material: &'a Box<dyn Material>,
    /// The ray parameter of the hit.
    pub t: Scalar,
    /// The surface coordinate of the hit.
    pub texture_uv: Point2d,
    /// Whether the ray came from outside.
    pub is_front_face: bool,
}

impl<'a> HitRecord<'a> {
    /// The record with the given fields.
    pub fn new(
        p: Point3,
        normal: Vec3,
        material: &'a Box<dyn Material>,
        t: Scalar,
        texture_uv: Point2d,
        is_front_face: bool,
    ) -> (rec: Self)
        ensures
            rec.p == p,
            rec.normal == normal,
            rec.material == material,
            rec.t == t,
            rec.texture_uv == texture_uv,
            rec.is_front_face == is_front_face,
    {
        HitRecord { p, normal, material, t, texture_uv, is_front_face }
    }

    /// The geometry of the hit, for the material to scatter from.
    pub fn surface(&self) -> (s: SurfacePoint)
        ensures
            s.p == self.p,
            s.normal == self.normal,
            s.t == self.t,
            s.texture_uv == self.texture_uv,
            s.is_front_face == self.is_front_face,
    {
        SurfacePoint {
            p: self.p,
            normal: self.normal,
            t: self.t,
            texture_uv: self.texture_uv,
            is_front_face: self.is_front_face,
        }
    }

    /// The record of a hit on a surface whose normal points outward.
    ///
    /// `direction_dot_normal` is the dot product of the ray's direction and
    /// `outward_normal`. The ray came from outside exactly if it is
    /// negative; otherwise the recorded normal is the outward normal
    /// reversed, so that it always opposes the ray.
    pub fn new_with_face_normal(
        p: Point3,
        t: Scalar,
        texture_uv: Point2d,
        material: &'a Box<dyn Material>,
        direction_dot_normal: Scalar,
        outward_normal: Vec3,
    ) -> (rec: Self)
        ensures
            rec.p == p,
            rec.material == material,
            rec.t == t,
            rec.texture_uv == texture_uv,
            rec.is_front_face == direction_dot_normal.lt_spec(Scalar { bits: 0 }),
            rec.is_front_face ==> rec.normal == outward_normal,
            !rec.is_front_face ==> rec.normal@ == seq![
                outward_normal@[0].neg_spec(),
                outward_normal@[1].neg_spec(),
                outward_normal@[2].neg_spec(),
            ],
    {
        let is_front_face = direction_dot_normal.lt(Scalar::zero());
        let normal = if is_front_face {
            outward_normal
        } else {
            outward_normal.neg()
        };
        Self::new(p, normal, material, t, texture_uv, is_front_face)
    }
}

/// Anything a ray can be tested against.
///
/// A bounding box is a function of the time interval: `bounding_box`
/// returns what `bounds` names. An intersection may draw from the random
/// source; an object that does not is `repeatable`, and then `hit` returns
/// what `hit_spec` names. Implementations outside this crate are taken at
/// their word for both.
///
/// `bounds`, `repeatable` and `hit_spec` are ghost functions: they stand
/// in contracts and are never called when the program runs. An
/// implementation that is compiled without the verifier still has to give
/// each a body; any body will do.
pub trait Hittable: Send + Sync {
    /// The box that contains the object throughout `time0..time1`, or
    /// `None` for an object that no box contains.
    spec fn bounds(&self, time0: Scalar, time1: Scalar) -> Option<Aabb>;

    /// Whether an intersection depends on the ray and the interval alone.
    spec fn repeatable(&self) -> bool;

    /// The hit of a repeatable object.
    spec fn hit_spec<'a>(&'a self, r: Ray, t_min: Scalar, t_max: Scalar) -> Option<HitRecord<'a>>;

    /// The nearest hit of the ray with a parameter in `t_min..t_max`.
    fn hit<'a>(&'a self, r: &Ray, t_min: Scalar, t_max: Scalar, rng: &mut ActiveRng) -> (rec:
        Option<HitRecord<'a>>)
        ensures
            self.repeatable() ==> rec == self.hit_spec(*r, t_min, t_max),
    ;

    /// The box that contains the object throughout `time0..time1`.
    fn bounding_box(&self, time0: Scalar, time1: Scalar) -> (b: Option<Aabb>)
        ensures
            b == self.bounds(time0, time1),
    ;
}

impl Hittable for Box<dyn Hittable> {
    open spec fn bounds(&self, time0: Scalar, time1: Scalar) -> Option<Aabb> {
        (**self).bounds(time0, time1)
    }

    open spec fn repeatable(&self) -> bool {
        (**self).repeatable()
    }

    open spec fn hit_spec<'a>(&'a self, r: Ray, t_min: Scalar, t_max: Scalar) -> Option<
        HitRecord<'a>,
    > {
        (**self).hit_spec(r, t_min, t_max)
    }

    fn hit<'a>(&'a self, r: &Ray, t_min: Scalar, t_max: Scalar, rng: &mut ActiveRng) -> (rec:
        Option<HitRecord<'a>>) {
        (**self).hit(r, t_min, t_max, rng)
    }

    fn bounding_box(&self, time0: Scalar, time1: Scalar) -> (b: Option<Aabb>) {
        (**self).bounding_box(time0, time1)
    }
}

/// The upper end of the interval in which a further hit is looked for:
/// the parameter of the hit found so far, `t_max` before any was found.
pub open spec fn closest_so_far(found: Option<HitRecord>, t_max: Scalar) -> Scalar {
    match found {
        Some(rec) => rec.t,
        None => t_max,
    }
}

/// The upper end of the interval in which a further hit is looked for.
pub fn narrowed(found: &Option<HitRecord>, t_max: Scalar) -> (t: Scalar)
    ensures
        t == closest_so_far(*found, t_max),
{
    match found {
        Some(rec) => rec.t,
        None => t_max,
    }
}

/// The hit to go on with, of the one found so far and what was found
/// since within the narrowed interval: the later one where there is one.
pub fn later_hit<'a>(so_far: Option<HitRecord<'a>>, found: Option<HitRecord<'a>>) -> (rec: Option<
    HitRecord<'a>,
>)
    ensures
        rec == match found {
            Some(_) => found,
            None => so_far,
        },
{
    match found {
        Some(_) => found,
        None => so_far,
    }
}

/// The hit that a list of repeatable objects gives: each object in turn is
/// asked for a hit no farther than the one found so far, and the last hit
/// found is the answer.
pub open spec fn scan<'a, H: Hittable>(
    objects: Seq<H>,
    r: Ray,
    t_min: Scalar,
    t_max: Scalar,
) -> Option<HitRecord<'a>>
    decreases objects.len(),
{
    if objects.len() == 0 {
        None
    } else {
        let before = scan(objects.drop_last(), r, t_min, t_max);
        match objects.last().hit_spec(r, t_min, closest_so_far(before, t_max)) {
            Some(rec) => Some(rec),
            None => before,
        }
    }
}

/// The boxes of a list of objects over a time interval, in the list's order.
pub open spec fn boxes_of<H: Hittable>(objects: Seq<H>, time0: Scalar, time1: Scalar) -> Seq<
    Option<Aabb>,
> {
    Seq::new(objects.len(), |i: int| objects[i].bounds(time0, time1))
}

/// The union of a list of boxes: `None` for no boxes or if any is missing,
/// else the boxes united from the first to the last.
pub open spec fn union_all(boxes: Seq<Option<Aabb>>) -> Option<Aabb>
    decreases boxes.len(),
{
    if boxes.len() == 0 {
        None
    } else if boxes.len() == 1 {
        boxes[0]
    } else {
        match (union_all(boxes.drop_last()), boxes.last()) {
            (Some(so_far), Some(last)) => Some(so_far.union_spec(last)),
            _ => None,
        }
    }
}

impl<H: Hittable> Hittable for Vec<H> {
    open spec fn bounds(&self, time0: Scalar, time1: Scalar) -> Option<Aabb> {
        union_all(boxes_of(self@, time0, time1))
    }

    open spec fn repeatable(&self) -> bool {
        forall|i: int| 0 <= i < self@.len() ==> (#[trigger] self@[i]).repeatable()
    }

    open spec fn hit_spec<'a>(&'a self, r: Ray, t_min: Scalar, t_max: Scalar) -> Option<
        HitRecord<'a>,
    > {
        scan(self@, r, t_min, t_max)
    }

    /// Tests every member in turn, each only up to the nearest hit found so
    /// far, and returns the last hit found. An empty list is never hit.
    fn hit<'a>(&'a self, r: &Ray, t_min: Scalar, t_max: Scalar, rng: &mut ActiveRng) -> (rec:
        Option<HitRecord<'a>>)
        ensures
            self@.len() == 0 ==> rec is None,
    {
        let mut closest = t_max;
        let mut rec: Option<HitRecord<'a>> = None;
        let mut i: usize = 0;
        proof {
            assert(self@.subrange(0, 0) =~= Seq::<H>::empty());
        }
        while i < self.len()
            invariant
                i <= self.len(),
                self@.len() == 0 ==> rec is None,
                closest == closest_so_far(rec, t_max),
                self.repeatable() ==> rec == scan(self@.subrange(0, i as int), *r, t_min, t_max),
            decreases self.len() - i,
        {
            proof {
                let now = self@.subrange(0, i as int + 1);
                assert(now.drop_last() =~= self@.subrange(0, i as int));
                assert(now.last() == self@[i as int]);
            }
            let found = self[i].hit(r, t_min, closest, rng);
            rec = later_hit(rec, found);
            closest = narrowed(&rec, t_max);
            i += 1;
        }
        proof {
            assert(self@.subrange(0, i as int) =~= self@);
        }
        rec
    }

    fn bounding_box(&self, time0: Scalar, time1: Scalar) -> (b: Option<Aabb>) {
        if self.len() == 0 {
            return None;
        }
        let ghost boxes = boxes_of(self@, time0, time1);
        let mut output_box: Option<Aabb> = None;
        let mut i: usize = 0;
        while i < self.len()
            invariant
                i <= self.len(),
                boxes == boxes_of(self@, time0, time1),
                i == 0 ==> output_box is None,
                i > 0 ==> output_box is Some,
                i > 0 ==> output_box == union_all(boxes.subrange(0, i as int)),
            decreases self.len() - i,
        {
            let temp_box = match self[i].bounding_box(time0, time1) {
                Some(temp_box) => temp_box,
                None => {
                    proof {
                        lemma_union_all_missing(boxes, i as int);
                    }
                    return None;
                },
            };
            proof {
                let now = boxes.subrange(0, i as int + 1);
                assert(now.drop_last() =~= boxes.subrange(0, i as int));
                assert(now.last() == Some(temp_box));
            }
            output_box =
            match output_box {
                None => Some(temp_box),
                Some(bounding_box) => Some(Aabb::surrounding_box(&bounding_box, &temp_box)),
            };
            i += 1;
        }
        proof {
            assert(boxes.subrange(0, i as int) =~= boxes);
        }
        output_box
    }
}

/// A list with a missing box has no union.
pub proof fn lemma_union_all_missing(boxes: Seq<Option<Aabb>>, i: int)
    requires
        0 <= i < boxes.len(),
        boxes[i] is None,
    ensures
        union_all(boxes) is None,
    decreases boxes.len(),
{
    if boxes.len() == 1 {
    } else if i == boxes.len() - 1 {
    } else {
        lemma_union_all_missing(boxes.drop_last(), i);
    }
}

/// Whether every box of the list is there and is a box of numbers.
pub open spec fn all_boxes_wf(boxes: Seq<Option<Aabb>>) -> bool {
    forall|i: int| 0 <= i < boxes.len() ==> (#[trigger] boxes[i]) is Some && boxes[i]->0.wf()
}

/// Whether `u` reaches exactly as far as the boxes of the list do: on each
/// axis its smallest corner is the smallest of theirs and its largest
/// corner the largest of theirs.
pub open spec fn is_extent_of(u: Aabb, boxes: Seq<Option<Aabb>>) -> bool {
    forall|axis: int|
        0 <= axis < 3 ==> {
            &&& !(#[trigger] u.minimum@[axis]).nan()
            &&& !u.maximum@[axis].nan()
            &&& exists|i: int|
                0 <= i < boxes.len() && u.minimum@[axis] == (#[trigger] boxes[i])->0.minimum@[axis]
            &&& exists|i: int|
                0 <= i < boxes.len() && u.maximum@[axis] == (#[trigger] boxes[i])->0.maximum@[axis]
            &&& forall|i: int|
                0 <= i < boxes.len() ==> u.minimum@[axis].position() <= (
                #[trigger] boxes[i])->0.minimum@[axis].position()
            &&& forall|i: int|
                0 <= i < boxes.len() ==> u.maximum@[axis].position() >= (
                #[trigger] boxes[i])->0.maximum@[axis].position()
        }
}

/// The union of a list of boxes of numbers reaches exactly as far as they
/// do.
pub proof fn lemma_union_all_is_extent(boxes: Seq<Option<Aabb>>)
    requires
        boxes.len() > 0,
        all_boxes_wf(boxes),
    ensures
        union_all(boxes) is Some,
        is_extent_of(union_all(boxes)->0, boxes),
    decreases boxes.len(),
{
    if boxes.len() == 1 {
        let u = boxes[0]->0;
        assert forall|axis: int| 0 <= axis < 3 implies {
            &&& !(#[trigger] u.minimum@[axis]).nan()
            &&& !u.maximum@[axis].nan()
        } by {
            assert(u.minimum@[axis].le_spec(u.maximum@[axis]));
        }
    } else {
        let front = boxes.drop_last();
        assert forall|i: int| 0 <= i < front.len() implies (#[trigger] front[i]) is Some
            && front[i]->0.wf() by {
            assert(front[i] == boxes[i]);
        }
        lemma_union_all_is_extent(front);
        let before = union_all(front)->0;
        let last = boxes.last()->0;
        let last_index = boxes.len() - 1;
        assert(boxes[last_index] is Some && boxes[last_index]->0.wf());
        let u = before.union_spec(last);
        assert(union_all(boxes) == Some(u));
        assert forall|axis: int| 0 <= axis < 3 implies {
            &&& !(#[trigger] u.minimum@[axis]).nan()
            &&& !u.maximum@[axis].nan()
            &&& exists|i: int|
                0 <= i < boxes.len() && u.minimum@[axis] == (#[trigger] boxes[i])->0.minimum@[axis]
            &&& exists|i: int|
                0 <= i < boxes.len() && u.maximum@[axis] == (#[trigger] boxes[i])->0.maximum@[axis]
            &&& forall|i: int|
                0 <= i < boxes.len() ==> u.minimum@[axis].position() <= (
                #[trigger] boxes[i])->0.minimum@[axis].position()
            &&& forall|i: int|
                0 <= i < boxes.len() ==> u.maximum@[axis].position() >= (
                #[trigger] boxes[i])->0.maximum@[axis].position()
        } by {
            assert(last.minimum@[axis].le_spec(last.maximum@[axis]));
            assert(!before.minimum@[axis].nan() && !before.maximum@[axis].nan());
            let low = choose|i: int|
                0 <= i < front.len() && before.minimum@[axis] == (
                #[trigger] front[i])->0.minimum@[axis];
            let high = choose|i: int|
                0 <= i < front.len() && before.maximum@[axis] == (
                #[trigger] front[i])->0.maximum@[axis];
            assert(front[low] == boxes[low]);
            assert(front[high] == boxes[high]);
            assert(u.minimum@[axis] == before.minimum@[axis].min_spec(last.minimum@[axis]));
            assert(u.maximum@[axis] == before.maximum@[axis].max_spec(last.maximum@[axis]));
            if u.minimum@[axis] == last.minimum@[axis] {
                assert(u.minimum@[axis] == boxes[last_index]->0.minimum@[axis]);
            } else {
                assert(u.minimum@[axis] == boxes[low]->0.minimum@[axis]);
            }
            if u.maximum@[axis] == last.maximum@[axis] {
                assert(u.maximum@[axis] == boxes[last_index]->0.maximum@[axis]);
            } else {
                assert(u.maximum@[axis] == boxes[high]->0.maximum@[axis]);
            }
            assert forall|i: int| 0 <= i < boxes.len() implies u.minimum@[axis].position() <= (
            #[trigger] boxes[i])->0.minimum@[axis].position() && u.maximum@[axis].position() >= (
            boxes[i])->0.maximum@[axis].position() by {
                if i < front.len() {
                    assert(front[i] == boxes[i]);
                }
            }
        }
    }
}

/// The union of a list of boxes of numbers depends on the boxes alone, not
/// on their order nor on how often each occurs.
pub proof fn lemma_union_all_same_boxes(a: Seq<Option<Aabb>>, b: Seq<Option<Aabb>>)
    requires
        a.len() > 0,
        b.len() > 0,
        all_boxes_wf(a),
        all_boxes_wf(b),
        forall|i: int| 0 <= i < a.len() ==> b.contains(#[trigger] a[i]),
        forall|i: int| 0 <= i < b.len() ==> a.contains(#[trigger] b[i]),
    ensures
        union_all(a) == union_all(b),
{
    lemma_union_all_is_extent(a);
    lemma_union_all_is_extent(b);
    let ua = union_all(a)->0;
    let ub = union_all(b)->0;
    assert forall|axis: int| 0 <= axis < 3 implies (#[trigger] ua.minimum@[axis])
        == ub.minimum@[axis] && ua.maximum@[axis] == ub.maximum@[axis] by {
        assert(!ua.minimum@[axis].nan() && !ub.minimum@[axis].nan());
        let ia = choose|i: int|
            0 <= i < a.len() && ua.minimum@[axis] == (#[trigger] a[i])->0.minimum@[axis];
        let ib = choose|i: int|
            0 <= i < b.len() && ub.minimum@[axis] == (#[trigger] b[i])->0.minimum@[axis];
        assert(b.contains(a[ia]));
        let ja = choose|j: int| 0 <= j < b.len() && b[j] == a[ia];
        assert(ub.minimum@[axis].position() <= b[ja]->0.minimum@[axis].position());
        assert(a.contains(b[ib]));
        let jb = choose|j: int| 0 <= j < a.len() && a[j] == b[ib];
        assert(ua.minimum@[axis].position() <= a[jb]->0.minimum@[axis].position());
        crate::scalar::lemma_position_injective(ua.minimum@[axis], ub.minimum@[axis]);
        let ka = choose|i: int|
            0 <= i < a.len() && ua.maximum@[axis] == (#[trigger] a[i])->0.maximum@[axis];
        let kb = choose|i: int|
            0 <= i < b.len() && ub.maximum@[axis] == (#[trigger] b[i])->0.maximum@[axis];
        assert(b.contains(a[ka]));
        let la = choose|j: int| 0 <= j < b.len() && b[j] == a[ka];
        assert(ub.maximum@[axis].position() >= b[la]->0.maximum@[axis].position());
        assert(a.contains(b[kb]));
        let lb = choose|j: int| 0 <= j < a.len() && a[j] == b[kb];
        assert(ua.maximum@[axis].position() >= a[lb]->0.maximum@[axis].position());
        crate::scalar::lemma_position_injective(ua.maximum@[axis], ub.maximum@[axis]);
    }
    assert(ua.minimum@ =~= ub.minimum@);
    assert(ua.maximum@ =~= ub.maximum@);
    assert(ua.minimum.e == ub.minimum.e);
    assert(ua.maximum.e == ub.maximum.e);
}

} // verus!
