//! The bounding volume hierarchy: a binary tree of boxes over a collection
//! of bounded objects, each node's box the union of its children's.

use vstd::prelude::*;
use core::cmp::Ordering;
use crate::aabb::{lemma_union_associative, Aabb, Slab};
use crate::hittable::{
    all_boxes_wf, boxes_of, closest_so_far, later_hit, lemma_union_all_same_boxes, narrowed,
    union_all, HitRecord, Hittable,
};
use crate::ray::Ray;
use crate::rng::{gen_range, ActiveRng};
use crate::scalar::Scalar;

verus! {

/// What hangs below a node: one of the objects the tree was built over, or
/// a subtree.
pub enum BvhChild<H: Hittable> {
    Leaf(H),
    Node(Box<BvhNode<H>>),
}

/// A node of the hierarchy, with one or two children and the box that
/// bounds them.
pub struct BvhNode<H: Hittable> {
    pub left: BvhChild<H>,
    pub right: Option<BvhChild<H>>,
    pub bounding_box: Aabb,
}

/// The number that orders an object along an axis: the coordinate, on that
/// axis, of the smallest corner of its box at time zero.
pub open spec fn sort_key<H: Hittable>(object: H, axis: usize) -> Scalar {
    object.bounds(Scalar { bits: 0 }, Scalar { bits: 0 })->0.minimum@[axis as int]
}

/// Whether an object can be ordered along every axis: it has a box at time
/// zero, and no coordinate of that box's smallest corner is NaN.
pub open spec fn sortable<H: Hittable>(object: H) -> bool {
    &&& object.bounds(Scalar { bits: 0 }, Scalar { bits: 0 }) is Some
    &&& !sort_key(object, 0).nan()
    &&& !sort_key(object, 1).nan()
    &&& !sort_key(object, 2).nan()
}

/// Whether `after` holds the objects of `before` in the order of their
/// keys on `axis`, objects with equal keys in the order they had: some
/// one-to-one assignment `from` of old places to new places moves no object
/// past one with an equal key.
#[verifier::opaque]
pub open spec fn stably_sorted<H: Hittable>(before: Seq<H>, after: Seq<H>, axis: usize) -> bool {
    &&& after.len() == before.len()
    &&& forall|i: int, j: int|
        0 <= i <= j < after.len() ==> sort_key(#[trigger] after[i], axis).le_spec(
            sort_key(#[trigger] after[j], axis),
        )
    &&& exists|from: Seq<int>|
        {
            &&& from.len() == after.len()
            &&& forall|i: int| 0 <= i < from.len() ==> 0 <= #[trigger] from[i] < before.len()
            &&& forall|i: int, j: int|
                0 <= i < j < from.len() ==> #[trigger] from[i] != #[trigger] from[j]
            &&& forall|i: int| 0 <= i < from.len() ==> #[trigger] after[i] == before[from[i]]
            &&& forall|i: int, j: int|
                0 <= i < j < from.len() && sort_key(after[i], axis).rank() == sort_key(
                    after[j],
                    axis,
                ).rank() ==> #[trigger] from[i] < #[trigger] from[j]
        }
}

/// Compares two objects by their keys on an axis.
pub fn box_compare<H: Hittable>(a: &H, b: &H, axis: usize) -> (o: Ordering)
    requires
        axis < 3,
        sortable(*a),
        sortable(*b),
    ensures
        (o == Ordering::Less) == (sort_key(*a, axis).rank() < sort_key(*b, axis).rank()),
        (o == Ordering::Equal) == (sort_key(*a, axis).rank() == sort_key(*b, axis).rank()),
        (o == Ordering::Greater) == (sort_key(*a, axis).rank() > sort_key(*b, axis).rank()),
{
    let box_a = a.bounding_box(Scalar::zero(), Scalar::zero()).unwrap();
    let box_b = b.bounding_box(Scalar::zero(), Scalar::zero()).unwrap();
    let key_a = box_a.min().axis(axis);
    let key_b = box_b.min().axis(axis);
    if key_a.lt(key_b) {
        Ordering::Less
    } else if key_b.lt(key_a) {
        Ordering::Greater
    } else {
        Ordering::Equal
    }
}

/// Sorts the objects by their keys on an axis with `Vec::sort_by`, handing
/// it `box_compare`.
///
/// Trusted: the standard library documents that `sort_by` keeps every
/// element, orders them by the comparison, and leaves elements that compare
/// equal in the order they had. It may panic on a comparison that is no
/// total order; on sortable objects `box_compare` is one.
#[verifier::external_body]
fn sort_by_axis<H: Hittable>(objects: &mut Vec<H>, axis: usize)
    requires
        axis < 3,
        forall|i: int| 0 <= i < old(objects)@.len() ==> sortable(#[trigger] old(objects)@[i]),
    ensures
        final(objects)@.to_multiset() == old(objects)@.to_multiset(),
        stably_sorted(old(objects)@, final(objects)@, axis),
{
    objects.sort_by(|l, r| box_compare(l, r, axis))
}

impl<H: Hittable> BvhChild<H> {
    /// The objects below, from left to right.
    pub open spec fn leaves(self) -> Seq<H>
        decreases self,
    {
        match self {
            BvhChild::Leaf(object) => seq![object],
            BvhChild::Node(node) => node.leaves(),
        }
    }

    /// The box of the child: an object's own, a subtree's stored one.
    pub open spec fn bounds(self, time0: Scalar, time1: Scalar) -> Option<Aabb> {
        match self {
            BvhChild::Leaf(object) => object.bounds(time0, time1),
            BvhChild::Node(node) => Some(node.bounding_box),
        }
    }

    /// The invariant of the hierarchy, below this child.
    pub open spec fn wf(self, time0: Scalar, time1: Scalar) -> bool
        decreases self,
    {
        match self {
            BvhChild::Leaf(object) => object.bounds(time0, time1) is Some,
            BvhChild::Node(node) => node.wf(time0, time1),
        }
    }

    /// Whether every subtree below has the shape that construction gives.
    pub open spec fn shaped(self) -> bool
        decreases self,
    {
        match self {
            BvhChild::Leaf(object) => true,
            BvhChild::Node(node) => node.shaped(),
        }
    }

    /// Whether every object below is repeatable.
    pub open spec fn repeatable(self) -> bool
        decreases self,
    {
        match self {
            BvhChild::Leaf(object) => object.repeatable(),
            BvhChild::Node(node) => node.repeatable(),
        }
    }

    /// The hit that the traversal gives below this child.
    pub open spec fn traverse<'a>(
        self,
        r: Ray,
        t_min: Scalar,
        t_max: Scalar,
        slabs_of: spec_fn(Aabb) -> Seq<Slab>,
    ) -> Option<HitRecord<'a>>
        decreases self,
    {
        match self {
            BvhChild::Leaf(object) => object.hit_spec(r, t_min, t_max),
            BvhChild::Node(node) => node.traverse(r, t_min, t_max, slabs_of),
        }
    }

    /// The box of the child over a time interval.
    pub fn bounding_box(&self, time0: Scalar, time1: Scalar) -> (b: Option<Aabb>)
        ensures
            b == self.bounds(time0, time1),
    {
        match self {
            BvhChild::Leaf(object) => object.bounding_box(time0, time1),
            BvhChild::Node(node) => Some(node.bounding_box),
        }
    }

    /// The nearest hit below this child; see `BvhNode::hit`.
    pub fn hit<'a, F: Fn(&Aabb, &Ray) -> [Slab; 3]>(
        &'a self,
        r: &Ray,
        t_min: Scalar,
        t_max: Scalar,
        rng: &mut ActiveRng,
        slabs: &F,
    ) -> (rec: Option<HitRecord<'a>>)
        requires
            forall|b: &Aabb, ray: &Ray| slabs.requires((b, ray)),
        ensures
            self.repeatable() && single_valued(slabs, *r) ==> rec == self.traverse(
                *r,
                t_min,
                t_max,
                slabs_of(slabs, *r),
            ),
        decreases self,
    {
        match self {
            BvhChild::Leaf(object) => object.hit(r, t_min, t_max, rng),
            BvhChild::Node(node) => node.hit(r, t_min, t_max, rng, slabs),
        }
    }
}

/// Whether the slab computation gives one answer for each box, on the
/// given ray.
pub open spec fn single_valued<F: Fn(&Aabb, &Ray) -> [Slab; 3]>(slabs: &F, r: Ray) -> bool {
    forall|b: Aabb, s1: [Slab; 3], s2: [Slab; 3]|
        #![trigger slabs.ensures((&b, &r), s1), slabs.ensures((&b, &r), s2)]
        slabs.ensures((&b, &r), s1) && slabs.ensures((&b, &r), s2) ==> s1@ == s2@
}

/// The slabs that the slab computation gives for each box, on the given
/// ray.
pub open spec fn slabs_of<F: Fn(&Aabb, &Ray) -> [Slab; 3]>(slabs: &F, r: Ray) -> spec_fn(
    Aabb,
) -> Seq<Slab> {
    |b: Aabb| (choose|s: [Slab; 3]| slabs.ensures((&b, &r), s))@
}

impl<H: Hittable> BvhNode<H> {
    /// The objects of the tree, from left to right.
    pub open spec fn leaves(self) -> Seq<H>
        decreases self,
    {
        match self.right {
            None => self.left.leaves(),
            Some(right) => self.left.leaves() + right.leaves(),
        }
    }

    /// The invariant of the hierarchy: every object has a box over the time
    /// interval, and the box of every node is the union of the boxes of its
    /// children, the left one's alone where there is no right one.
    pub open spec fn wf(self, time0: Scalar, time1: Scalar) -> bool
        decreases self,
    {
        &&& self.left.wf(time0, time1)
        &&& self.left.bounds(time0, time1) is Some
        &&& match self.right {
            None => self.bounding_box == self.left.bounds(time0, time1)->0,
            Some(right) => {
                &&& right.wf(time0, time1)
                &&& right.bounds(time0, time1) is Some
                &&& self.bounding_box == self.left.bounds(time0, time1)->0.union_spec(
                    right.bounds(time0, time1)->0,
                )
            },
        }
    }

    /// Whether the tree has the shape that construction gives: a single
    /// object hangs alone on the left, two objects hang side by side, and
    /// three or more are split into two subtrees, the left one with half of
    /// them, rounded down, such that along some axis no object on the left
    /// has a greater key than any on the right.
    pub open spec fn shaped(self) -> bool
        decreases self,
    {
        match (self.left, self.right) {
            (BvhChild::Leaf(_), None) => true,
            (BvhChild::Leaf(_), Some(BvhChild::Leaf(_))) => true,
            (BvhChild::Node(left), Some(BvhChild::Node(right))) => {
                &&& left.shaped()
                &&& right.shaped()
                &&& left.leaves().len() + right.leaves().len() >= 3
                &&& left.leaves().len() == (left.leaves().len() + right.leaves().len()) / 2
                &&& exists|axis: usize| axis < 3 && #[trigger] separated(*left, *right, axis)
            },
            _ => false,
        }
    }

    /// Whether a tree can be built over the objects: there is at least
    /// one, each has a box over `time0..time1`, and, where there are three
    /// or more, each is sortable. This is what `new` requires.
    pub fn buildable(src_objects: &Vec<H>, time0: Scalar, time1: Scalar) -> (b: bool)
        ensures
            b == {
                &&& src_objects@.len() >= 1
                &&& forall|i: int|
                    0 <= i < src_objects@.len() ==> (#[trigger] src_objects@[i]).bounds(
                        time0,
                        time1,
                    ) is Some
                &&& src_objects@.len() >= 3 ==> forall|i: int|
                    0 <= i < src_objects@.len() ==> sortable(#[trigger] src_objects@[i])
            },
    {
        if src_objects.len() == 0 {
            return false;
        }
        let sorting = src_objects.len() >= 3;
        let mut i: usize = 0;
        while i < src_objects.len()
            invariant
                i <= src_objects.len(),
                sorting == (src_objects@.len() >= 3),
                forall|k: int|
                    0 <= k < i ==> (#[trigger] src_objects@[k]).bounds(time0, time1) is Some,
                sorting ==> forall|k: int| 0 <= k < i ==> sortable(#[trigger] src_objects@[k]),
            decreases src_objects.len() - i,
        {
            if src_objects[i].bounding_box(time0, time1).is_none() {
                return false;
            }
            if sorting {
                match src_objects[i].bounding_box(Scalar::zero(), Scalar::zero()) {
                    None => {
                        assert(!sortable(src_objects@[i as int]));
                        return false;
                    },
                    Some(at_rest) => {
                        let corner = at_rest.min();
                        if corner.x().is_nan() || corner.y().is_nan() || corner.z().is_nan() {
                            assert(!sortable(src_objects@[i as int]));
                            return false;
                        }
                    },
                }
            }
            i += 1;
        }
        true
    }

    /// The objects in two halves, sorted along an axis: the lower half,
    /// with half of them rounded down, holds those with the smaller keys.
    /// Objects with equal keys stay in the order they came in.
    pub fn split_at_median(src_objects: Vec<H>, axis: usize) -> (halves: (Vec<H>, Vec<H>))
        requires
            axis < 3,
            forall|i: int| 0 <= i < src_objects@.len() ==> sortable(#[trigger] src_objects@[i]),
        ensures
            halves.0@.len() == src_objects@.len() / 2,
            stably_sorted(src_objects@, halves.0@ + halves.1@, axis),
            (halves.0@ + halves.1@).to_multiset() == src_objects@.to_multiset(),
    {
        let mut src_objects = src_objects;
        let ghost before = src_objects@;
        sort_by_axis(&mut src_objects, axis);
        let ghost sorted = src_objects@;
        proof {
            lemma_same_objects(sorted, before);
        }
        let mid = src_objects.len() / 2;
        let upper = src_objects.split_off(mid);
        proof {
            assert(src_objects@ + upper@ =~= sorted);
        }
        (src_objects, upper)
    }

    /// The tree over the given objects.
    ///
    /// An axis is drawn at every node. One object becomes the only child;
    /// of two, the last becomes the left child and the first the right one;
    /// three or more are sorted by their keys on the axis and split in the
    /// middle, each half becoming a subtree. Each object needs a box over
    /// `time0..time1`, and, where there are three or more, has to be
    /// sortable.
    pub fn new(src_objects: Vec<H>, time0: Scalar, time1: Scalar, rng: &mut ActiveRng) -> (node:
        Self)
        requires
            src_objects@.len() >= 1,
            forall|i: int|
                0 <= i < src_objects@.len() ==> (#[trigger] src_objects@[i]).bounds(time0, time1)
                    is Some,
            src_objects@.len() >= 3 ==> forall|i: int|
                0 <= i < src_objects@.len() ==> sortable(#[trigger] src_objects@[i]),
        ensures
            node.wf(time0, time1),
            node.shaped(),
            node.leaves().to_multiset() == src_objects@.to_multiset(),
            src_objects@.len() == 1 ==> node.leaves() == src_objects@,
            src_objects@.len() == 2 ==> node.leaves() == seq![src_objects@[1], src_objects@[0]],
            Some(node.bounding_box) == union_all(boxes_of(node.leaves(), time0, time1)),
        decreases src_objects@.len(),
    {
        let mut src_objects = src_objects;
        let ghost src = src_objects@;
        let axis = gen_range(rng, 0, 3);
        let left: BvhChild<H>;
        let right: Option<BvhChild<H>>;
        if src_objects.len() == 1 {
            let only = src_objects.pop().unwrap();
            left = BvhChild::Leaf(only);
            right = None;
            proof {
                assert(left.leaves() =~= src);
                assert(boxes_of(left.leaves(), time0, time1)[0] == only.bounds(time0, time1));
                assert(union_all(boxes_of(left.leaves(), time0, time1)) == only.bounds(
                    time0,
                    time1,
                ));
            }
        } else if src_objects.len() == 2 {
            let last = src_objects.pop().unwrap();
            let first = src_objects.pop().unwrap();
            left = BvhChild::Leaf(last);
            right = Some(BvhChild::Leaf(first));
            proof {
                let leaves = left.leaves() + right->0.leaves();
                assert(leaves =~= seq![src[1], src[0]]);
                assert(src =~= seq![src[0]] + seq![src[1]]);
                assert(leaves =~= seq![src[1]] + seq![src[0]]);
                vstd::seq_lib::lemma_seq_union_to_multiset_commutative(seq![src[0]], seq![src[1]]);
                let boxes = boxes_of(leaves, time0, time1);
                assert(boxes.drop_last() =~= seq![src[1].bounds(time0, time1)]);
                assert(boxes.last() == src[0].bounds(time0, time1));
                assert(union_all(boxes.drop_last()) == src[1].bounds(time0, time1));
                assert(union_all(boxes) == Some(
                    src[1].bounds(time0, time1)->0.union_spec(src[0].bounds(time0, time1)->0),
                ));
            }
        } else {
            let (lower, upper) = Self::split_at_median(src_objects, axis);
            let ghost sorted = lower@ + upper@;
            let ghost mid = lower@.len() as int;
            let ghost lower_seq = lower@;
            let ghost upper_seq = upper@;
            proof {
                assert(sorted.subrange(0, mid) =~= lower_seq);
                assert(sorted.subrange(mid, sorted.len() as int) =~= upper_seq);
                lemma_halves_keep(src, sorted, mid, time0, time1);
            }
            let left_node = Self::new(lower, time0, time1, rng);
            let right_node = Self::new(upper, time0, time1, rng);
            proof {
                lemma_split_separates(src, sorted, mid, left_node, right_node, axis);
                lemma_same_objects(left_node.leaves(), lower_seq);
                lemma_same_objects(right_node.leaves(), upper_seq);
                vstd::seq_lib::lemma_multiset_commutative(lower_seq, upper_seq);
                vstd::seq_lib::lemma_multiset_commutative(left_node.leaves(), right_node.leaves());
                lemma_union_all_concat(
                    boxes_of(left_node.leaves(), time0, time1),
                    boxes_of(right_node.leaves(), time0, time1),
                );
                assert(boxes_of(left_node.leaves() + right_node.leaves(), time0, time1)
                    =~= boxes_of(left_node.leaves(), time0, time1) + boxes_of(
                    right_node.leaves(),
                    time0,
                    time1,
                ));
                assert(union_all(
                    boxes_of(left_node.leaves() + right_node.leaves(), time0, time1),
                ) == Some(left_node.bounding_box.union_spec(right_node.bounding_box)));
            }
            left = BvhChild::Node(Box::new(left_node));
            right = Some(BvhChild::Node(Box::new(right_node)));
        }
        let box_left = left.bounding_box(time0, time1).unwrap();
        let surrounding_box = match &right {
            None => box_left,
            Some(right) => {
                let box_right = right.bounding_box(time0, time1).unwrap();
                Aabb::surrounding_box(&box_left, &box_right)
            },
        };
        BvhNode { left, right, bounding_box: surrounding_box }
    }

    /// Whether every object of the tree is repeatable.
    pub open spec fn repeatable(self) -> bool
        decreases self,
    {
        &&& self.left.repeatable()
        &&& match self.right {
            None => true,
            Some(right) => right.repeatable(),
        }
    }

    /// The hit that the traversal gives on a tree of repeatable objects,
    /// where `slabs_of` gives the slabs of the ray for each box. A tree
    /// whose box the ray misses is not hit. Otherwise the left child is
    /// asked first and the right child only for a hit no farther than the
    /// left one's; the right child's hit is the answer if it has one, the
    /// left child's if not.
    pub open spec fn traverse<'a>(
        self,
        r: Ray,
        t_min: Scalar,
        t_max: Scalar,
        slabs_of: spec_fn(Aabb) -> Seq<Slab>,
    ) -> Option<HitRecord<'a>>
        decreases self,
    {
        if Aabb::exit_spec(slabs_of(self.bounding_box), t_max).le_spec(
            Aabb::entry_spec(slabs_of(self.bounding_box), t_min),
        ) {
            None
        } else {
            let hit_left = self.left.traverse(r, t_min, t_max, slabs_of);
            let hit_right = match self.right {
                None => None,
                Some(right) => right.traverse(
                    r,
                    t_min,
                    closest_so_far(hit_left, t_max),
                    slabs_of,
                ),
            };
            match hit_right {
                Some(_) => hit_right,
                None => hit_left,
            }
        }
    }

    /// The nearest hit of the ray with a parameter in `t_min..t_max`.
    ///
    /// `slabs` computes, for a box and the ray, the three slabs that
    /// `Aabb::hit` compares; the tree itself does no arithmetic.
    pub fn hit<'a, F: Fn(&Aabb, &Ray) -> [Slab; 3]>(
        &'a self,
        r: &Ray,
        t_min: Scalar,
        t_max: Scalar,
        rng: &mut ActiveRng,
        slabs: &F,
    ) -> (rec: Option<HitRecord<'a>>)
        requires
            forall|b: &Aabb, ray: &Ray| slabs.requires((b, ray)),
        ensures
            self.repeatable() && single_valued(slabs, *r) ==> rec == self.traverse(
                *r,
                t_min,
                t_max,
                slabs_of(slabs, *r),
            ),
        decreases self,
    {
        let box_slabs = slabs(&self.bounding_box, r);
        proof {
            if single_valued(slabs, *r) {
                let chosen = choose|s: [Slab; 3]| slabs.ensures((&self.bounding_box, r), s);
                assert(slabs.ensures((&self.bounding_box, r), chosen));
                assert(box_slabs@ == slabs_of(slabs, *r)(self.bounding_box));
            }
        }
        if !Aabb::hit(&box_slabs, t_min, t_max) {
            return None;
        }
        let hit_left = self.left.hit(r, t_min, t_max, rng, slabs);
        let t_max = narrowed(&hit_left, t_max);
        let hit_right = match &self.right {
            None => None,
            Some(right) => right.hit(r, t_min, t_max, rng, slabs),
        };
        later_hit(hit_left, hit_right)
    }

    /// The box that bounds the whole tree, whatever the time interval.
    pub fn bounding_box(&self, _time0: Scalar, _time1: Scalar) -> (b: Option<Aabb>)
        ensures
            b == Some(self.bounding_box),
    {
        Some(self.bounding_box)
    }
}

/// A hierarchy together with the arithmetic of its box test: a tree that
/// can be hit like any other object.
pub struct Bvh<H: Hittable, F: Fn(&Aabb, &Ray) -> [Slab; 3] + Send + Sync> {
    root: BvhNode<H>,
    slabs: F,
}

impl<H: Hittable, F: Fn(&Aabb, &Ray) -> [Slab; 3] + Send + Sync> Bvh<H, F> {
    /// The slab computation takes every box and every ray.
    #[verifier::type_invariant]
    spec fn inv(self) -> bool {
        forall|b: &Aabb, r: &Ray| self.slabs.requires((b, r))
    }

    /// The tree.
    pub closed spec fn root(self) -> BvhNode<H> {
        self.root
    }

    /// Whether the slab computation gives one answer for each box, on
    /// every ray.
    pub closed spec fn single_valued(self) -> bool {
        forall|r: Ray| #[trigger] single_valued(&self.slabs, r)
    }

    /// The slabs that the slab computation gives for each box, on the
    /// given ray.
    pub closed spec fn slabs_of(self, r: Ray) -> spec_fn(Aabb) -> Seq<Slab> {
        slabs_of(&self.slabs, r)
    }

    /// The tree over the given objects, as `BvhNode::new` builds it, with
    /// `slabs` to compute the slabs of a ray for a box.
    pub fn new(
        src_objects: Vec<H>,
        time0: Scalar,
        time1: Scalar,
        rng: &mut ActiveRng,
        slabs: F,
    ) -> (bvh: Self)
        requires
            src_objects@.len() >= 1,
            forall|i: int|
                0 <= i < src_objects@.len() ==> (#[trigger] src_objects@[i]).bounds(time0, time1)
                    is Some,
            src_objects@.len() >= 3 ==> forall|i: int|
                0 <= i < src_objects@.len() ==> sortable(#[trigger] src_objects@[i]),
            forall|b: &Aabb, r: &Ray| slabs.requires((b, r)),
        ensures
            bvh.root().wf(time0, time1),
            bvh.root().shaped(),
            bvh.root().leaves().to_multiset() == src_objects@.to_multiset(),
            src_objects@.len() == 1 ==> bvh.root().leaves() == src_objects@,
            src_objects@.len() == 2 ==> bvh.root().leaves() == seq![
                src_objects@[1],
                src_objects@[0],
            ],
            Some(bvh.root().bounding_box) == union_all(
                boxes_of(bvh.root().leaves(), time0, time1),
            ),
    {
        let root = BvhNode::new(src_objects, time0, time1, rng);
        Bvh { root, slabs }
    }

    /// The given tree with `slabs` to compute the slabs of a ray for a
    /// box.
    pub fn from_node(root: BvhNode<H>, slabs: F) -> (bvh: Self)
        requires
            forall|b: &Aabb, r: &Ray| slabs.requires((b, r)),
        ensures
            bvh.root() == root,
    {
        Bvh { root, slabs }
    }

    /// The tree.
    pub fn node(&self) -> (node: &BvhNode<H>)
        ensures
            *node == self.root(),
    {
        &self.root
    }

    /// What hitting this tree means: its box is its root's, it is
    /// repeatable if its objects are and its slab computation gives one
    /// answer, and its hit is what the traversal of the root gives.
    pub proof fn lemma_hittable(
        self,
        r: Ray,
        t_min: Scalar,
        t_max: Scalar,
        time0: Scalar,
        time1: Scalar,
    )
        ensures
            self.bounds(time0, time1) == Some(self.root().bounding_box),
            self.repeatable() == (self.root().repeatable() && self.single_valued()),
            self.hit_spec(r, t_min, t_max) == self.root().traverse(
                r,
                t_min,
                t_max,
                self.slabs_of(r),
            ),
    {
    }
}

impl<H: Hittable, F: Fn(&Aabb, &Ray) -> [Slab; 3] + Send + Sync> Hittable for Bvh<H, F> {
    closed spec fn bounds(&self, time0: Scalar, time1: Scalar) -> Option<Aabb> {
        Some(self.root.bounding_box)
    }

    closed spec fn repeatable(&self) -> bool {
        self.root.repeatable() && self.single_valued()
    }

    closed spec fn hit_spec<'a>(&'a self, r: Ray, t_min: Scalar, t_max: Scalar) -> Option<
        HitRecord<'a>,
    > {
        self.root.traverse(r, t_min, t_max, slabs_of(&self.slabs, r))
    }

    fn hit<'a>(&'a self, r: &Ray, t_min: Scalar, t_max: Scalar, rng: &mut ActiveRng) -> (rec:
        Option<HitRecord<'a>>) {
        proof {
            use_type_invariant(self);
        }
        self.root.hit(r, t_min, t_max, rng, &self.slabs)
    }

    fn bounding_box(&self, _time0: Scalar, _time1: Scalar) -> (b: Option<Aabb>) {
        Some(self.root.bounding_box)
    }
}

/// Whether, along an axis, no object of the left tree has a greater key
/// than any object of the right tree.
pub open spec fn separated<H: Hittable>(left: BvhNode<H>, right: BvhNode<H>, axis: usize) -> bool {
    forall|i: int, j: int|
        0 <= i < left.leaves().len() && 0 <= j < right.leaves().len() ==> sort_key(
            #[trigger] left.leaves()[i],
            axis,
        ).le_spec(sort_key(#[trigger] right.leaves()[j], axis))
}

/// Two lists with the same objects, however ordered, have the same length,
/// and each object of the one is an object of the other.
pub proof fn lemma_same_objects<A>(a: Seq<A>, b: Seq<A>)
    requires
        a.to_multiset() == b.to_multiset(),
    ensures
        a.len() == b.len(),
        forall|i: int| 0 <= i < a.len() ==> b.contains(#[trigger] a[i]),
        forall|i: int| 0 <= i < b.len() ==> a.contains(#[trigger] b[i]),
{
    a.to_multiset_ensures();
    b.to_multiset_ensures();
    assert forall|i: int| 0 <= i < a.len() implies b.contains(#[trigger] a[i]) by {
        assert(a.contains(a[i]));
        assert(b.to_multiset().count(a[i]) > 0);
    }
    assert forall|i: int| 0 <= i < b.len() implies a.contains(#[trigger] b[i]) by {
        assert(b.contains(b[i]));
        assert(a.to_multiset().count(b[i]) > 0);
    }
}

/// Splitting a sorted list in two separates the halves, however each half
/// is then rearranged.
proof fn lemma_split_separates<H: Hittable>(
    before: Seq<H>,
    sorted: Seq<H>,
    mid: int,
    left: BvhNode<H>,
    right: BvhNode<H>,
    axis: usize,
)
    requires
        stably_sorted(before, sorted, axis),
        0 <= mid <= sorted.len(),
        left.leaves().to_multiset() == sorted.subrange(0, mid).to_multiset(),
        right.leaves().to_multiset() == sorted.subrange(mid, sorted.len() as int).to_multiset(),
    ensures
        separated(left, right, axis),
{
    reveal(stably_sorted);
    let lower = sorted.subrange(0, mid);
    let upper = sorted.subrange(mid, sorted.len() as int);
    lemma_same_objects(left.leaves(), lower);
    lemma_same_objects(right.leaves(), upper);
    assert forall|i: int, j: int|
        0 <= i < left.leaves().len() && 0 <= j < right.leaves().len() implies sort_key(
        #[trigger] left.leaves()[i],
        axis,
    ).le_spec(sort_key(#[trigger] right.leaves()[j], axis)) by {
        let l = left.leaves()[i];
        let r = right.leaves()[j];
        assert(lower.contains(l));
        assert(upper.contains(r));
        let li = choose|k: int| 0 <= k < lower.len() && lower[k] == l;
        let rj = choose|k: int| 0 <= k < upper.len() && upper[k] == r;
        assert(sorted[li] == l);
        assert(sorted[mid + rj] == r);
    }
}

/// What holds of the two halves of a list of objects that was sorted and
/// split: each half keeps what held of every object before.
proof fn lemma_halves_keep<H: Hittable>(
    src: Seq<H>,
    sorted: Seq<H>,
    mid: int,
    time0: Scalar,
    time1: Scalar,
)
    requires
        sorted.to_multiset() == src.to_multiset(),
        0 <= mid <= sorted.len(),
        forall|i: int| 0 <= i < src.len() ==> (#[trigger] src[i]).bounds(time0, time1) is Some,
        forall|i: int| 0 <= i < src.len() ==> sortable(#[trigger] src[i]),
    ensures
        sorted.len() == src.len(),
        forall|i: int|
            0 <= i < mid ==> (#[trigger] sorted.subrange(0, mid)[i]).bounds(time0, time1) is Some
                && sortable(sorted.subrange(0, mid)[i]),
        forall|i: int|
            0 <= i < sorted.len() - mid ==> (#[trigger] sorted.subrange(
                mid,
                sorted.len() as int,
            )[i]).bounds(time0, time1) is Some && sortable(
                sorted.subrange(mid, sorted.len() as int)[i],
            ),
        (sorted.subrange(0, mid) + sorted.subrange(mid, sorted.len() as int)).to_multiset()
            == src.to_multiset(),
{
    lemma_same_objects(sorted, src);
    assert forall|i: int| 0 <= i < sorted.len() implies (#[trigger] sorted[i]).bounds(time0, time1)
        is Some && sortable(sorted[i]) by {
        assert(src.contains(sorted[i]));
        let k = choose|k: int| 0 <= k < src.len() && src[k] == sorted[i];
        assert(src[k].bounds(time0, time1) is Some);
    }
    assert(sorted.subrange(0, mid) + sorted.subrange(mid, sorted.len() as int) =~= sorted);
}

impl<H: Hittable> BvhChild<H> {
    /// The number of nodes on the longest way down from here to an
    /// object.
    pub open spec fn depth(self) -> nat
        decreases self,
    {
        match self {
            BvhChild::Leaf(object) => 0,
            BvhChild::Node(node) => node.depth(),
        }
    }
}

impl<H: Hittable> BvhNode<H> {
    /// The number of nodes on the longest way down from this node to an
    /// object, the node itself counted.
    pub open spec fn depth(self) -> nat
        decreases self,
    {
        let left = self.left.depth();
        let right = match self.right {
            None => 0,
            Some(right) => right.depth(),
        };
        if left >= right {
            left + 1
        } else {
            right + 1
        }
    }
}

/// The depth of the tree that construction gives over a number of
/// objects: one node over one or two objects, and one node more than over
/// the greater half of three or more.
pub open spec fn depth_over(objects: nat) -> nat
    decreases objects,
{
    if objects <= 2 {
        1
    } else {
        1 + depth_over((objects - objects / 2) as nat)
    }
}

/// Two to the power of `n`.
pub open spec fn two_to_the(n: nat) -> nat
    decreases n,
{
    if n == 0 {
        1
    } else {
        2 * two_to_the((n - 1) as nat)
    }
}

/// More objects never make a shallower tree.
proof fn lemma_depth_over_grows(fewer: nat, more: nat)
    requires
        fewer <= more,
    ensures
        depth_over(fewer) <= depth_over(more),
    decreases more,
{
    if more > 2 {
        if fewer > 2 {
            lemma_depth_over_grows((fewer - fewer / 2) as nat, (more - more / 2) as nat);
        }
    }
}

/// The depth is the logarithm of the number of objects: a tree over two
/// objects or more has fewer levels than would hold them all if every
/// level doubled, and enough to hold them.
pub proof fn lemma_depth_over_is_logarithmic(objects: nat)
    requires
        objects >= 2,
    ensures
        two_to_the((depth_over(objects) - 1) as nat) < objects <= two_to_the(depth_over(objects)),
    decreases objects,
{
    reveal_with_fuel(two_to_the, 3);
    if objects > 2 {
        let greater_half = (objects - objects / 2) as nat;
        lemma_depth_over_is_logarithmic(greater_half);
    }
}

/// A tree of the shape that construction gives is balanced: its depth
/// depends on the number of its objects alone, and is the logarithm of
/// that number.
pub proof fn lemma_shaped_is_balanced<H: Hittable>(node: BvhNode<H>)
    requires
        node.shaped(),
    ensures
        node.leaves().len() >= 1,
        node.depth() == depth_over(node.leaves().len()),
        node.leaves().len() >= 2 ==> two_to_the((node.depth() - 1) as nat) < node.leaves().len()
            <= two_to_the(node.depth()),
    decreases node,
{
    match (node.left, node.right) {
        (BvhChild::Node(left), Some(BvhChild::Node(right))) => {
            lemma_shaped_is_balanced(*left);
            lemma_shaped_is_balanced(*right);
            let l = left.leaves().len();
            let r = right.leaves().len();
            assert(node.leaves().len() == l + r);
            assert(r == (l + r) - (l + r) / 2);
            lemma_depth_over_grows(l, r);
        },
        _ => {},
    }
    if node.leaves().len() >= 2 {
        lemma_depth_over_is_logarithmic(node.leaves().len());
    }
}

/// Every node bounds what hangs below it.
///
/// Take a tree with the invariant of the hierarchy whose objects have
/// boxes of numbers. Then the box of the tree is a box of numbers and
/// contains the box of every object of the tree.
pub proof fn lemma_tree_contains_leaves<H: Hittable>(
    node: BvhNode<H>,
    time0: Scalar,
    time1: Scalar,
)
    requires
        node.wf(time0, time1),
        all_boxes_wf(boxes_of(node.leaves(), time0, time1)),
    ensures
        node.bounding_box.wf(),
        forall|i: int|
            0 <= i < node.leaves().len() ==> node.bounding_box.contains_box(
                (#[trigger] node.leaves()[i]).bounds(time0, time1)->0,
            ),
    decreases node, 0nat,
{
    let leaves = node.leaves();
    let boxes = boxes_of(leaves, time0, time1);
    let left_leaves = node.left.leaves();
    assert forall|i: int| 0 <= i < left_leaves.len() implies (#[trigger] boxes_of(
        left_leaves,
        time0,
        time1,
    )[i]) is Some && boxes_of(left_leaves, time0, time1)[i]->0.wf() by {
        assert(leaves[i] == left_leaves[i]);
        assert(boxes[i] is Some && boxes[i]->0.wf());
    }
    lemma_child_contains_leaves(node.left, time0, time1);
    let left_box = node.left.bounds(time0, time1)->0;
    match node.right {
        None => {
            assert(leaves =~= left_leaves);
        },
        Some(right) => {
            let right_leaves = right.leaves();
            assert(leaves =~= left_leaves + right_leaves);
            assert forall|i: int| 0 <= i < right_leaves.len() implies (#[trigger] boxes_of(
                right_leaves,
                time0,
                time1,
            )[i]) is Some && boxes_of(right_leaves, time0, time1)[i]->0.wf() by {
                assert(leaves[left_leaves.len() + i] == right_leaves[i]);
                let place = left_leaves.len() + i;
                assert(boxes[place] is Some && boxes[place]->0.wf());
            }
            lemma_child_contains_leaves(right, time0, time1);
            let right_box = right.bounds(time0, time1)->0;
            crate::aabb::lemma_union_is_least_upper_bound(left_box, right_box, node.bounding_box);
            assert forall|i: int| 0 <= i < leaves.len() implies node.bounding_box.contains_box(
                (#[trigger] leaves[i]).bounds(time0, time1)->0,
            ) by {
                let b = leaves[i].bounds(time0, time1)->0;
                if i < left_leaves.len() {
                    assert(leaves[i] == left_leaves[i]);
                    lemma_contains_is_transitive(node.bounding_box, left_box, b);
                } else {
                    assert(leaves[i] == right_leaves[i - left_leaves.len()]);
                    lemma_contains_is_transitive(node.bounding_box, right_box, b);
                }
            }
        },
    }
}

/// The same below a child.
proof fn lemma_child_contains_leaves<H: Hittable>(child: BvhChild<H>, time0: Scalar, time1: Scalar)
    requires
        child.wf(time0, time1),
        all_boxes_wf(boxes_of(child.leaves(), time0, time1)),
    ensures
        child.bounds(time0, time1) is Some,
        child.bounds(time0, time1)->0.wf(),
        forall|i: int|
            0 <= i < child.leaves().len() ==> child.bounds(time0, time1)->0.contains_box(
                (#[trigger] child.leaves()[i]).bounds(time0, time1)->0,
            ),
    decreases child, 1nat,
{
    match child {
        BvhChild::Leaf(object) => {
            let boxes = boxes_of(child.leaves(), time0, time1);
            assert(child.leaves()[0] == object);
            assert(boxes[0] is Some && boxes[0]->0.wf());
            let b = object.bounds(time0, time1)->0;
            assert forall|a: int| 0 <= a < 3 implies (#[trigger] b.minimum@[a]).le_spec(
                b.minimum@[a],
            ) && b.maximum@[a].le_spec(b.maximum@[a]) by {
                assert(b.minimum@[a].le_spec(b.maximum@[a]));
            }
        },
        BvhChild::Node(node) => {
            lemma_tree_contains_leaves(*node, time0, time1);
        },
    }
}

/// A box inside a box inside a box is inside the outermost.
proof fn lemma_contains_is_transitive(outer: Aabb, middle: Aabb, inner: Aabb)
    requires
        outer.contains_box(middle),
        middle.contains_box(inner),
    ensures
        outer.contains_box(inner),
{
    assert forall|a: int| 0 <= a < 3 implies (#[trigger] outer.minimum@[a]).le_spec(
        inner.minimum@[a],
    ) && inner.maximum@[a].le_spec(outer.maximum@[a]) by {
        assert(outer.minimum@[a].le_spec(middle.minimum@[a]));
        assert(middle.minimum@[a].le_spec(inner.minimum@[a]));
    }
}

/// The box of a tree is the box of the list it was built over.
///
/// Take a tree whose box is the union of the boxes of its objects, and a
/// list of the same objects in any order, each with a box of numbers over
/// the time interval. Then the tree's box is the list's.
pub proof fn lemma_tree_box_is_list_box<H: Hittable>(
    objects: Seq<H>,
    tree: BvhNode<H>,
    time0: Scalar,
    time1: Scalar,
)
    requires
        tree.leaves().to_multiset() == objects.to_multiset(),
        Some(tree.bounding_box) == union_all(boxes_of(tree.leaves(), time0, time1)),
        all_boxes_wf(boxes_of(objects, time0, time1)),
    ensures
        Some(tree.bounding_box) == union_all(boxes_of(objects, time0, time1)),
{
    let leaves = tree.leaves();
    let a = boxes_of(leaves, time0, time1);
    let b = boxes_of(objects, time0, time1);
    lemma_same_objects(leaves, objects);
    assert forall|i: int| 0 <= i < a.len() implies b.contains(#[trigger] a[i]) && a[i] is Some
        && a[i]->0.wf() by {
        assert(objects.contains(leaves[i]));
        let k = choose|k: int| 0 <= k < objects.len() && objects[k] == leaves[i];
        assert(b[k] == a[i]);
    }
    assert forall|i: int| 0 <= i < b.len() implies a.contains(#[trigger] b[i]) by {
        assert(leaves.contains(objects[i]));
        let k = choose|k: int| 0 <= k < leaves.len() && leaves[k] == objects[i];
        assert(a[k] == b[i]);
    }
    if a.len() > 0 {
        lemma_union_all_same_boxes(a, b);
    }
}

/// The union of two lists of boxes laid end to end is the union of their
/// unions.
pub proof fn lemma_union_all_concat(l: Seq<Option<Aabb>>, r: Seq<Option<Aabb>>)
    requires
        l.len() > 0,
        r.len() > 0,
    ensures
        union_all(l + r) == match (union_all(l), union_all(r)) {
            (Some(a), Some(b)) => Some(a.union_spec(b)),
            _ => None,
        },
    decreases r.len(),
{
    assert((l + r).drop_last() =~= l + r.drop_last());
    assert((l + r).last() == r.last());
    if r.len() == 1 {
        assert(l + r.drop_last() =~= l);
    } else {
        lemma_union_all_concat(l, r.drop_last());
        match (union_all(l), union_all(r.drop_last()), r.last()) {
            (Some(a), Some(b), Some(c)) => {
                lemma_union_associative(a, b, c);
            },
            _ => {},
        }
    }
}

} // verus!
