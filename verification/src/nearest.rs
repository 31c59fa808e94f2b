//! Why the hierarchy changes no answer: on objects whose hits are
//! consistent, a list and a tree over the same objects both report the
//! nearest hit.

use vstd::prelude::*;
use crate::aabb::{Aabb, Slab};
use crate::bvh::{lemma_same_objects, Bvh, BvhChild, BvhNode};
use crate::hittable::{closest_so_far, scan, HitRecord, Hittable};
use crate::ray::Ray;
use crate::scalar::Scalar;

verus! {

/// Whether an object answers a ray consistently from `t_min` on: a hit lies
/// in the interval it was asked for; it is still reported when the interval
/// is cut short behind it, and nothing is reported when the interval is cut
/// short before it; and an object that is missed is still missed in a
/// shorter interval. This holds of any object that finds its candidate
/// parameters from the ray alone and then reports the first that lies in
/// the interval.
pub open spec fn consistent<H: Hittable>(object: H, r: Ray, t_min: Scalar) -> bool {
    forall|t_max: Scalar, shorter: Scalar|
        #![trigger object.hit_spec(r, t_min, t_max), object.hit_spec(r, t_min, shorter)]
        !t_max.nan() && !shorter.nan() ==> match object.hit_spec(r, t_min, t_max) {
            Some(rec) => {
                &&& t_min.le_spec(rec.t)
                &&& rec.t.le_spec(t_max)
                &&& rec.t.le_spec(shorter) && shorter.le_spec(t_max) ==> object.hit_spec(
                    r,
                    t_min,
                    shorter,
                ) == Some(rec)
                &&& shorter.lt_spec(rec.t) ==> object.hit_spec(r, t_min, shorter) is None
            },
            None => shorter.le_spec(t_max) ==> object.hit_spec(r, t_min, shorter) is None,
        }
}

/// Whether every object of a list is consistent.
pub open spec fn all_consistent<H: Hittable>(objects: Seq<H>, r: Ray, t_min: Scalar) -> bool {
    forall|i: int| 0 <= i < objects.len() ==> consistent(#[trigger] objects[i], r, t_min)
}

/// Whether no object of a list is hit in the interval.
pub open spec fn all_miss<H: Hittable>(
    objects: Seq<H>,
    r: Ray,
    t_min: Scalar,
    t_max: Scalar,
) -> bool {
    forall|i: int|
        0 <= i < objects.len() ==> (#[trigger] objects[i]).hit_spec(r, t_min, t_max) is None
}

/// Whether `found` is the nearest hit among the objects of a list: `None`
/// if none of them is hit in the interval; else the hit of one of them,
/// and no other is hit nearer.
pub open spec fn nearest_of<H: Hittable>(
    found: Option<HitRecord>,
    objects: Seq<H>,
    r: Ray,
    t_min: Scalar,
    t_max: Scalar,
) -> bool {
    match found {
        None => all_miss(objects, r, t_min, t_max),
        Some(rec) => {
            &&& t_min.le_spec(rec.t)
            &&& rec.t.le_spec(t_max)
            &&& exists|i: int|
                0 <= i < objects.len() && (#[trigger] objects[i]).hit_spec(r, t_min, t_max)
                    == Some(rec)
            &&& forall|j: int|
                0 <= j < objects.len() ==> match (#[trigger] objects[j]).hit_spec(
                    r,
                    t_min,
                    t_max,
                ) {
                    Some(other) => rec.t.le_spec(other.t),
                    None => true,
                }
        },
    }
}

/// Whether the slabs miss: the ray leaves one of them before it has entered
/// them all, which is when `Aabb::hit` answers no.
pub open spec fn slabs_miss(slabs: Seq<Slab>, t_min: Scalar, t_max: Scalar) -> bool {
    Aabb::exit_spec(slabs, t_max).le_spec(Aabb::entry_spec(slabs, t_min))
}

impl<H: Hittable> BvhChild<H> {
    /// Whether the box test errs on the safe side everywhere below.
    pub open spec fn conservative(
        self,
        r: Ray,
        t_min: Scalar,
        slabs_of: spec_fn(Aabb) -> Seq<Slab>,
    ) -> bool
        decreases self,
    {
        match self {
            BvhChild::Leaf(object) => true,
            BvhChild::Node(node) => node.conservative(r, t_min, slabs_of),
        }
    }
}

impl<H: Hittable> BvhNode<H> {
    /// Whether the box test errs on the safe side: at this node and at
    /// every node below, a ray whose slabs miss the node's box in an
    /// interval hits no object of the node in that interval.
    pub open spec fn conservative(
        self,
        r: Ray,
        t_min: Scalar,
        slabs_of: spec_fn(Aabb) -> Seq<Slab>,
    ) -> bool
        decreases self,
    {
        &&& forall|t_max: Scalar|
            !t_max.nan() && #[trigger] slabs_miss(slabs_of(self.bounding_box), t_min, t_max)
                ==> all_miss(self.leaves(), r, t_min, t_max)
        &&& self.left.conservative(r, t_min, slabs_of)
        &&& match self.right {
            None => true,
            Some(right) => right.conservative(r, t_min, slabs_of),
        }
    }
}

/// A consistent object's own answer is the nearest hit among itself.
proof fn lemma_single<H: Hittable>(object: H, r: Ray, t_min: Scalar, t_max: Scalar)
    requires
        consistent(object, r, t_min),
        !t_max.nan(),
    ensures
        nearest_of(object.hit_spec(r, t_min, t_max), seq![object], r, t_min, t_max),
{
    let found = object.hit_spec(r, t_min, t_max);
    let objects = seq![object];
    assert(objects[0] == object);
    match found {
        None => {},
        Some(rec) => {
            assert(object.hit_spec(r, t_min, t_max) == Some(rec));
            assert(t_min.le_spec(rec.t) && rec.t.le_spec(t_max));
            assert(objects[0].hit_spec(r, t_min, t_max) == Some(rec));
        },
    }
}

/// How a consistent object's answers in an interval and in a shorter one
/// go together.
proof fn lemma_shorter<H: Hittable>(
    object: H,
    r: Ray,
    t_min: Scalar,
    t_max: Scalar,
    shorter: Scalar,
)
    requires
        consistent(object, r, t_min),
        !t_max.nan(),
        shorter.le_spec(t_max),
    ensures
        match object.hit_spec(r, t_min, t_max) {
            Some(rec) => if rec.t.le_spec(shorter) {
                object.hit_spec(r, t_min, shorter) == Some(rec)
            } else {
                object.hit_spec(r, t_min, shorter) is None
            },
            None => object.hit_spec(r, t_min, shorter) is None,
        },
        match object.hit_spec(r, t_min, shorter) {
            Some(rec) => object.hit_spec(r, t_min, t_max) == Some(rec),
            None => true,
        },
{
    let long = object.hit_spec(r, t_min, t_max);
    let short = object.hit_spec(r, t_min, shorter);
    match long {
        Some(rec) => {
            assert(t_min.le_spec(rec.t) && rec.t.le_spec(t_max));
        },
        None => {},
    }
}

/// The nearest hit among two lists, the second asked only as far as the
/// first one's answer, is the nearest hit among both.
proof fn lemma_combine<H: Hittable>(
    first: Seq<H>,
    second: Seq<H>,
    found_first: Option<HitRecord>,
    found_second: Option<HitRecord>,
    r: Ray,
    t_min: Scalar,
    t_max: Scalar,
)
    requires
        all_consistent(first, r, t_min),
        all_consistent(second, r, t_min),
        !t_max.nan(),
        nearest_of(found_first, first, r, t_min, t_max),
        nearest_of(found_second, second, r, t_min, closest_so_far(found_first, t_max)),
    ensures
        nearest_of(
            match found_second {
                Some(_) => found_second,
                None => found_first,
            },
            first + second,
            r,
            t_min,
            t_max,
        ),
{
    let both = first + second;
    let closest = closest_so_far(found_first, t_max);
    let found = match found_second {
        Some(_) => found_second,
        None => found_first,
    };
    assert(closest.le_spec(t_max));
    assert forall|j: int| 0 <= j < second.len() implies match (#[trigger] second[j]).hit_spec(
        r,
        t_min,
        t_max,
    ) {
        Some(rec) => if rec.t.le_spec(closest) {
            second[j].hit_spec(r, t_min, closest) == Some(rec)
        } else {
            second[j].hit_spec(r, t_min, closest) is None
        },
        None => second[j].hit_spec(r, t_min, closest) is None,
    } && match second[j].hit_spec(r, t_min, closest) {
        Some(rec) => second[j].hit_spec(r, t_min, t_max) == Some(rec),
        None => true,
    } by {
        lemma_shorter(second[j], r, t_min, t_max, closest);
    }
    assert forall|j: int| 0 <= j < both.len() implies (if j < first.len() {
        both[j] == first[j]
    } else {
        both[j] == second[j - first.len()]
    }) by {}
    match found {
        None => {
            assert forall|i: int| 0 <= i < both.len() implies (#[trigger] both[i]).hit_spec(
                r,
                t_min,
                t_max,
            ) is None by {
                if i < first.len() {
                    assert(first[i].hit_spec(r, t_min, t_max) is None);
                } else {
                    let k = i - first.len();
                    assert(second[k].hit_spec(r, t_min, closest) is None);
                }
            }
        },
        Some(rec) => {
            match found_second {
                Some(_) => {
                    let k = choose|k: int|
                        0 <= k < second.len() && (#[trigger] second[k]).hit_spec(r, t_min, closest)
                            == Some(rec);
                    assert(second[k].hit_spec(r, t_min, t_max) == Some(rec));
                    assert(both[first.len() + k] == second[k]);
                    assert(both[first.len() + k].hit_spec(r, t_min, t_max) == Some(rec));
                },
                None => {
                    let k = choose|k: int|
                        0 <= k < first.len() && (#[trigger] first[k]).hit_spec(r, t_min, t_max)
                            == Some(rec);
                    assert(both[k] == first[k]);
                    assert(both[k].hit_spec(r, t_min, t_max) == Some(rec));
                },
            }
            assert forall|j: int| 0 <= j < both.len() implies match (#[trigger] both[j]).hit_spec(
                r,
                t_min,
                t_max,
            ) {
                Some(other) => rec.t.le_spec(other.t),
                None => true,
            } by {
                if j < first.len() {
                    assert(both[j] == first[j]);
                    match first[j].hit_spec(r, t_min, t_max) {
                        Some(other) => {
                            assert(closest.le_spec(other.t));
                        },
                        None => {},
                    }
                } else {
                    let k = j - first.len();
                    assert(both[j] == second[k]);
                    assert(consistent(second[k], r, t_min));
                    match second[k].hit_spec(r, t_min, t_max) {
                        Some(other) => {
                            assert(t_min.le_spec(other.t) && other.t.le_spec(t_max));
                        },
                        None => {},
                    }
                }
            }
        },
    }
}

/// A list of consistent objects reports the nearest hit among them.
pub proof fn lemma_scan_is_nearest<H: Hittable>(
    objects: Seq<H>,
    r: Ray,
    t_min: Scalar,
    t_max: Scalar,
)
    requires
        all_consistent(objects, r, t_min),
        !t_max.nan(),
    ensures
        nearest_of(scan(objects, r, t_min, t_max), objects, r, t_min, t_max),
    decreases objects.len(),
{
    if objects.len() == 0 {
    } else {
        let front = objects.drop_last();
        let before = scan(front, r, t_min, t_max);
        assert forall|i: int| 0 <= i < front.len() implies consistent(
            #[trigger] front[i],
            r,
            t_min,
        ) by {
            assert(front[i] == objects[i]);
        }
        lemma_scan_is_nearest(front, r, t_min, t_max);
        let closest = closest_so_far(before, t_max);
        assert(!closest.nan());
        assert(consistent(objects.last(), r, t_min));
        lemma_single(objects.last(), r, t_min, closest);
        assert(all_consistent(seq![objects.last()], r, t_min));
        lemma_combine(
            front,
            seq![objects.last()],
            before,
            objects.last().hit_spec(r, t_min, closest),
            r,
            t_min,
            t_max,
        );
        assert(front + seq![objects.last()] =~= objects);
    }
}

/// A tree over consistent objects whose box test errs on the safe side
/// reports the nearest hit among them.
pub proof fn lemma_traverse_is_nearest<H: Hittable>(
    node: BvhNode<H>,
    r: Ray,
    t_min: Scalar,
    t_max: Scalar,
    slabs_of: spec_fn(Aabb) -> Seq<Slab>,
)
    requires
        all_consistent(node.leaves(), r, t_min),
        node.conservative(r, t_min, slabs_of),
        !t_max.nan(),
    ensures
        nearest_of(node.traverse(r, t_min, t_max, slabs_of), node.leaves(), r, t_min, t_max),
    decreases node, 0nat,
{
    if slabs_miss(slabs_of(node.bounding_box), t_min, t_max) {
    } else {
        let left_leaves = node.left.leaves();
        let right_leaves = match node.right {
            None => Seq::<H>::empty(),
            Some(right) => right.leaves(),
        };
        assert(node.leaves() =~= left_leaves + right_leaves);
        assert forall|i: int| 0 <= i < left_leaves.len() implies consistent(
            #[trigger] left_leaves[i],
            r,
            t_min,
        ) by {
            assert(left_leaves[i] == node.leaves()[i]);
        }
        assert forall|i: int| 0 <= i < right_leaves.len() implies consistent(
            #[trigger] right_leaves[i],
            r,
            t_min,
        ) by {
            assert(right_leaves[i] == node.leaves()[left_leaves.len() + i]);
        }
        lemma_child_is_nearest(node.left, r, t_min, t_max, slabs_of);
        let hit_left = node.left.traverse(r, t_min, t_max, slabs_of);
        let closest = closest_so_far(hit_left, t_max);
        assert(!closest.nan());
        let hit_right = match node.right {
            None => None,
            Some(right) => right.traverse(r, t_min, closest, slabs_of),
        };
        match node.right {
            None => {},
            Some(right) => {
                lemma_child_is_nearest(right, r, t_min, closest, slabs_of);
            },
        }
        lemma_combine(left_leaves, right_leaves, hit_left, hit_right, r, t_min, t_max);
    }
}

/// The same below a child.
proof fn lemma_child_is_nearest<H: Hittable>(
    child: BvhChild<H>,
    r: Ray,
    t_min: Scalar,
    t_max: Scalar,
    slabs_of: spec_fn(Aabb) -> Seq<Slab>,
)
    requires
        all_consistent(child.leaves(), r, t_min),
        child.conservative(r, t_min, slabs_of),
        !t_max.nan(),
    ensures
        nearest_of(child.traverse(r, t_min, t_max, slabs_of), child.leaves(), r, t_min, t_max),
    decreases child, 1nat,
{
    match child {
        BvhChild::Leaf(object) => {
            assert(child.leaves()[0] == object);
            lemma_single(object, r, t_min, t_max);
        },
        BvhChild::Node(node) => {
            lemma_traverse_is_nearest(*node, r, t_min, t_max, slabs_of);
        },
    }
}

/// Whether hits at one distance are one hit: any two objects of the list
/// that are hit at equal parameters report the same record.
pub open spec fn no_ties<H: Hittable>(
    objects: Seq<H>,
    r: Ray,
    t_min: Scalar,
    t_max: Scalar,
) -> bool {
    forall|i: int, j: int|
        0 <= i < objects.len() && 0 <= j < objects.len() ==> match (
            (#[trigger] objects[i]).hit_spec(r, t_min, t_max),
            (#[trigger] objects[j]).hit_spec(r, t_min, t_max),
        ) {
            (Some(a), Some(b)) => a.t.eq_value_spec(b.t) ==> a == b,
            _ => true,
        }
}

/// The hierarchy is an acceleration, not a change of behaviour.
///
/// Take a list of objects and a tree over the same objects, the objects
/// consistent and the tree's box test conservative for the ray. Then the
/// list is hit exactly if the tree is, and both report a hit at the same
/// distance: the nearest there is. Where no two objects are hit at one
/// distance, both report the same record: the same point, the same
/// material.
pub proof fn lemma_tree_agrees_with_list<H: Hittable>(
    objects: Seq<H>,
    tree: BvhNode<H>,
    r: Ray,
    t_min: Scalar,
    t_max: Scalar,
    slabs_of: spec_fn(Aabb) -> Seq<Slab>,
)
    requires
        tree.leaves().to_multiset() == objects.to_multiset(),
        all_consistent(objects, r, t_min),
        tree.conservative(r, t_min, slabs_of),
        !t_max.nan(),
    ensures
        scan(objects, r, t_min, t_max) is Some <==> tree.traverse(r, t_min, t_max, slabs_of)
            is Some,
        scan(objects, r, t_min, t_max) is Some ==> scan(
            objects,
            r,
            t_min,
            t_max,
        )->0.t.eq_value_spec(tree.traverse(r, t_min, t_max, slabs_of)->0.t),
        no_ties(objects, r, t_min, t_max) ==> scan(objects, r, t_min, t_max) == tree.traverse(
            r,
            t_min,
            t_max,
            slabs_of,
        ),
{
    let leaves = tree.leaves();
    lemma_same_objects(leaves, objects);
    assert forall|i: int| 0 <= i < leaves.len() implies consistent(
        #[trigger] leaves[i],
        r,
        t_min,
    ) by {
        assert(objects.contains(leaves[i]));
    }
    lemma_scan_is_nearest(objects, r, t_min, t_max);
    lemma_traverse_is_nearest(tree, r, t_min, t_max, slabs_of);
    let by_list = scan(objects, r, t_min, t_max);
    let by_tree = tree.traverse(r, t_min, t_max, slabs_of);
    match (by_list, by_tree) {
        (Some(a), Some(b)) => {
            let i = choose|i: int|
                0 <= i < objects.len() && (#[trigger] objects[i]).hit_spec(r, t_min, t_max) == Some(
                    a,
                );
            let j = choose|j: int|
                0 <= j < leaves.len() && (#[trigger] leaves[j]).hit_spec(r, t_min, t_max) == Some(
                    b,
                );
            assert(objects.contains(leaves[j]));
            let k = choose|k: int| 0 <= k < objects.len() && objects[k] == leaves[j];
            assert(objects[k].hit_spec(r, t_min, t_max) == Some(b));
            assert(a.t.le_spec(b.t));
            assert(leaves.contains(objects[i]));
            let m = choose|m: int| 0 <= m < leaves.len() && leaves[m] == objects[i];
            assert(leaves[m].hit_spec(r, t_min, t_max) == Some(a));
            assert(b.t.le_spec(a.t));
            if no_ties(objects, r, t_min, t_max) {
                assert(a.t.eq_value_spec(b.t));
                assert(a == b);
            }
        },
        (Some(a), None) => {
            let i = choose|i: int|
                0 <= i < objects.len() && (#[trigger] objects[i]).hit_spec(r, t_min, t_max) == Some(
                    a,
                );
            assert(leaves.contains(objects[i]));
            let m = choose|m: int| 0 <= m < leaves.len() && leaves[m] == objects[i];
            assert(leaves[m].hit_spec(r, t_min, t_max) is None);
        },
        (None, Some(b)) => {
            let j = choose|j: int|
                0 <= j < leaves.len() && (#[trigger] leaves[j]).hit_spec(r, t_min, t_max) == Some(
                    b,
                );
            assert(objects.contains(leaves[j]));
            let k = choose|k: int| 0 <= k < objects.len() && objects[k] == leaves[j];
            assert(objects[k].hit_spec(r, t_min, t_max) is None);
        },
        (None, None) => {},
    }
}

/// The same of the two things that can be hit: a list of objects and a
/// tree with its slab computation over the same objects. Under the same
/// conditions, what the tree is specified to report is what the list is
/// specified to report.
pub proof fn lemma_bvh_agrees_with_list<H: Hittable, F: Fn(&Aabb, &Ray) -> [Slab; 3] + Send + Sync>(
    objects: Vec<H>,
    tree: Bvh<H, F>,
    r: Ray,
    t_min: Scalar,
    t_max: Scalar,
)
    requires
        tree.root().leaves().to_multiset() == objects@.to_multiset(),
        all_consistent(objects@, r, t_min),
        tree.root().conservative(r, t_min, tree.slabs_of(r)),
        !t_max.nan(),
    ensures
        objects.hit_spec(r, t_min, t_max) is Some <==> tree.hit_spec(r, t_min, t_max) is Some,
        objects.hit_spec(r, t_min, t_max) is Some ==> objects.hit_spec(
            r,
            t_min,
            t_max,
        )->0.t.eq_value_spec(tree.hit_spec(r, t_min, t_max)->0.t),
        no_ties(objects@, r, t_min, t_max) ==> objects.hit_spec(r, t_min, t_max) == tree.hit_spec(
            r,
            t_min,
            t_max,
        ),
{
    tree.lemma_hittable(r, t_min, t_max, t_min, t_max);
    lemma_tree_agrees_with_list(objects@, tree.root(), r, t_min, t_max, tree.slabs_of(r));
}

} // verus!
