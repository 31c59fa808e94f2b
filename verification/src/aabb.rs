//! Axis-aligned bounding boxes: their union, the extent of a set of points,
//! and the comparisons of the slab test.

use vstd::prelude::*;
use crate::scalar::Scalar;
use crate::scalar::{lemma_min_max_associative, lemma_min_max_lattice, lemma_min_max_rank};
use crate::vec3::Point3;

verus! {

/// A box given by its smallest and its largest corner.
#[derive(Clone, Copy, Debug)]
pub struct Aabb {
    pub minimum: Point3,
    pub maximum: Point3,
}

/// What the slab test needs to know of one axis: the reciprocal of the ray's
/// direction on that axis, and the ray parameters at which the ray crosses
/// the plane of the box's smallest corner (`t0`) and of its largest (`t1`).
#[derive(Clone, Copy, Debug)]
pub struct Slab {
    pub inverted_denominator: Scalar,
    pub t0: Scalar,
    pub t1: Scalar,
}

impl Slab {
    /// The parameter at which the ray enters the slab: a ray that runs
    /// against the axis enters through the far plane.
    pub open spec fn entry(self) -> Scalar {
        if self.inverted_denominator.lt_spec(Scalar { bits: 0 }) {
            self.t1
        } else {
            self.t0
        }
    }

    /// The parameter at which the ray leaves the slab.
    pub open spec fn exit(self) -> Scalar {
        if self.inverted_denominator.lt_spec(Scalar { bits: 0 }) {
            self.t0
        } else {
            self.t1
        }
    }
}

impl Aabb {
    /// The invariant of a box: six numbers, the smallest corner no greater
    /// than the largest on any axis.
    pub open spec fn wf(self) -> bool {
        forall|a: int| 0 <= a < 3 ==> (#[trigger] self.minimum@[a]).le_spec(self.maximum@[a])
    }

    /// Whether `other` lies inside `self`, faces touching allowed.
    pub open spec fn contains_box(self, other: Aabb) -> bool {
        forall|a: int|
            0 <= a < 3 ==> (#[trigger] self.minimum@[a]).le_spec(other.minimum@[a])
                && other.maximum@[a].le_spec(self.maximum@[a])
    }

    /// Whether the point lies inside `self` or on its surface.
    pub open spec fn contains_point(self, p: Point3) -> bool {
        forall|a: int|
            0 <= a < 3 ==> (#[trigger] self.minimum@[a]).le_spec(p@[a]) && p@[a].le_spec(
                self.maximum@[a],
            )
    }

    /// Whether every point of the list lies inside `self` or on its
    /// surface.
    pub open spec fn contains_points(self, points: Seq<Point3>) -> bool {
        forall|i: int| 0 <= i < points.len() ==> self.contains_point(#[trigger] points[i])
    }

    /// The union of two boxes, corner by corner: the smaller of the two
    /// smallest corners and the larger of the two largest, on each axis.
    pub open spec fn union_spec(self, other: Aabb) -> Aabb {
        Aabb {
            minimum: Point3 {
                e: [
                    self.minimum@[0].min_spec(other.minimum@[0]),
                    self.minimum@[1].min_spec(other.minimum@[1]),
                    self.minimum@[2].min_spec(other.minimum@[2]),
                ],
            },
            maximum: Point3 {
                e: [
                    self.maximum@[0].max_spec(other.maximum@[0]),
                    self.maximum@[1].max_spec(other.maximum@[1]),
                    self.maximum@[2].max_spec(other.maximum@[2]),
                ],
            },
        }
    }

    /// The box that holds nothing: its smallest corner at positive infinity,
    /// its largest at negative infinity. It is the unit of `grow_spec`.
    pub open spec fn empty_spec() -> Aabb {
        Aabb {
            minimum: Point3 {
                e: [Scalar { bits: 0x7f80_0000 }, Scalar { bits: 0x7f80_0000 }, Scalar {
                    bits: 0x7f80_0000,
                }],
            },
            maximum: Point3 {
                e: [Scalar { bits: 0xff80_0000 }, Scalar { bits: 0xff80_0000 }, Scalar {
                    bits: 0xff80_0000,
                }],
            },
        }
    }

    /// The box stretched to reach the point. The box's corners are the
    /// first arguments of the comparisons, so a NaN in the point is ignored.
    pub open spec fn grow_spec(self, p: Point3) -> Aabb {
        self.union_spec(Aabb { minimum: p, maximum: p })
    }

    /// The extent of a list of points: the empty box stretched to reach
    /// each of them in turn.
    pub open spec fn extent_spec(points: Seq<Point3>) -> Aabb
        decreases points.len(),
    {
        if points.len() == 0 {
            Self::empty_spec()
        } else {
            Self::extent_spec(points.drop_last()).grow_spec(points.last())
        }
    }

    /// The parameter at which the ray has entered all three slabs, no
    /// earlier than `t_min`.
    pub open spec fn entry_spec(slabs: Seq<Slab>, t_min: Scalar) -> Scalar {
        slabs[2].entry().max_spec(slabs[1].entry().max_spec(slabs[0].entry().max_spec(t_min)))
    }

    /// The parameter at which the ray leaves the first of the three slabs,
    /// no later than `t_max`.
    pub open spec fn exit_spec(slabs: Seq<Slab>, t_max: Scalar) -> Scalar {
        slabs[2].exit().min_spec(slabs[1].exit().min_spec(slabs[0].exit().min_spec(t_max)))
    }

    /// The box with the given corners. Nothing is asked of them.
    pub fn new(minimum: Point3, maximum: Point3) -> (b: Aabb)
        ensures
            b.minimum == minimum,
            b.maximum == maximum,
    {
        Aabb { minimum, maximum }
    }

    /// The smallest corner.
    pub fn min(&self) -> (p: Point3)
        ensures
            p == self.minimum,
    {
        self.minimum
    }

    /// The largest corner.
    pub fn max(&self) -> (p: Point3)
        ensures
            p == self.maximum,
    {
        self.maximum
    }

    /// The smallest box containing both boxes.
    pub fn surrounding_box(box1: &Aabb, box2: &Aabb) -> (b: Aabb)
        ensures
            b == box1.union_spec(*box2),
            box1.wf() && box2.wf() ==> b.wf() && b.contains_box(*box1) && b.contains_box(*box2),
    {
        let small = Point3::new(
            box1.min().x().min(box2.min().x()),
            box1.min().y().min(box2.min().y()),
            box1.min().z().min(box2.min().z()),
        );
        let big = Point3::new(
            box1.max().x().max(box2.max().x()),
            box1.max().y().max(box2.max().y()),
            box1.max().z().max(box2.max().z()),
        );
        let b = Aabb::new(small, big);
        proof {
            assert(b.minimum@ =~= box1.union_spec(*box2).minimum@);
            assert(b.maximum@ =~= box1.union_spec(*box2).maximum@);
            assert(b.minimum.e == box1.union_spec(*box2).minimum.e);
            assert(b.maximum.e == box1.union_spec(*box2).maximum.e);
            if box1.wf() && box2.wf() {
                lemma_union_is_least_upper_bound(*box1, *box2, b);
            }
        }
        b
    }

    /// The axis-aligned extent of the given points: the smallest box that
    /// contains every one of them, the empty box if there is none.
    pub fn extent(points: &Vec<Point3>) -> (b: Aabb)
        ensures
            b == Self::extent_spec(points@),
    {
        let mut min = Point3::new(Scalar::infinity(), Scalar::infinity(), Scalar::infinity());
        let mut max = Point3::new(
            Scalar::neg_infinity(),
            Scalar::neg_infinity(),
            Scalar::neg_infinity(),
        );
        let mut n: usize = 0;
        proof {
            assert(min@ =~= Self::empty_spec().minimum@);
            assert(max@ =~= Self::empty_spec().maximum@);
            assert(points@.subrange(0, 0) =~= Seq::<Point3>::empty());
        }
        while n < points.len()
            invariant
                n <= points.len(),
                min@ == Self::extent_spec(points@.subrange(0, n as int)).minimum@,
                max@ == Self::extent_spec(points@.subrange(0, n as int)).maximum@,
            decreases points.len() - n,
        {
            let tester = points[n];
            let ghost before = Self::extent_spec(points@.subrange(0, n as int));
            min = Point3::new(
                min.x().min(tester.x()),
                min.y().min(tester.y()),
                min.z().min(tester.z()),
            );
            max = Point3::new(
                max.x().max(tester.x()),
                max.y().max(tester.y()),
                max.z().max(tester.z()),
            );
            proof {
                let now = points@.subrange(0, n as int + 1);
                assert(now.drop_last() =~= points@.subrange(0, n as int));
                assert(now.last() == tester);
                assert(Self::extent_spec(now) == before.grow_spec(tester));
                assert(min@ =~= before.grow_spec(tester).minimum@);
                assert(max@ =~= before.grow_spec(tester).maximum@);
            }
            n += 1;
        }
        let b = Aabb::new(min, max);
        proof {
            assert(points@.subrange(0, n as int) =~= points@);
            assert(b.minimum.e == Self::extent_spec(points@).minimum.e);
            assert(b.maximum.e == Self::extent_spec(points@).maximum.e);
        }
        b
    }

    /// The comparisons of the slab test. From the three slabs of a ray and a
    /// box, says whether the ray is inside all three at once for some
    /// parameter strictly between `t_min` and `t_max`: whether it enters the
    /// last slab before it leaves the first. An infinite crossing parameter,
    /// as a ray parallel to an axis gives, is compared like any other number;
    /// one that is NaN constrains nothing.
    pub fn hit(slabs: &[Slab; 3], t_min: Scalar, t_max: Scalar) -> (b: bool)
        ensures
            b == !Self::exit_spec(slabs@, t_max).le_spec(Self::entry_spec(slabs@, t_min)),
    {
        let mut enter = t_min;
        let mut leave = t_max;
        let ghost s = slabs@;
        let mut a: usize = 0;
        while a < 3
            invariant
                a <= 3,
                s == slabs@,
                a == 0 ==> enter == t_min && leave == t_max,
                a == 1 ==> enter == s[0].entry().max_spec(t_min) && leave == s[0].exit().min_spec(
                    t_max,
                ),
                a == 2 ==> enter == s[1].entry().max_spec(s[0].entry().max_spec(t_min)) && leave
                    == s[1].exit().min_spec(s[0].exit().min_spec(t_max)),
                a == 3 ==> enter == Self::entry_spec(s, t_min) && leave == Self::exit_spec(
                    s,
                    t_max,
                ),
                a > 0 ==> !leave.le_spec(enter),
            decreases 3 - a,
        {
            let slab = slabs[a];
            let mut t0 = slab.t0;
            let mut t1 = slab.t1;
            if slab.inverted_denominator.lt(Scalar::zero()) {
                let swapped = t0;
                t0 = t1;
                t1 = swapped;
            }
            assert(t0 == slab.entry() && t1 == slab.exit());
            enter = t0.max(enter);
            leave = t1.min(leave);
            if leave.le(enter) {
                proof {
                    lemma_slabs_only_narrow(s, t_min, t_max);
                }
                return false;
            }
            a += 1;
        }
        true
    }
}

/// Each further slab can only delay the entry and hasten the exit: once the
/// exit is no later than the entry, it stays so.
proof fn lemma_slabs_only_narrow(s: Seq<Slab>, t_min: Scalar, t_max: Scalar)
    ensures
        ({
            let e0 = s[0].entry().max_spec(t_min);
            let x0 = s[0].exit().min_spec(t_max);
            let e1 = s[1].entry().max_spec(e0);
            let x1 = s[1].exit().min_spec(x0);
            let e2 = s[2].entry().max_spec(e1);
            let x2 = s[2].exit().min_spec(x1);
            &&& x0.le_spec(e0) ==> x1.le_spec(e1)
            &&& x1.le_spec(e1) ==> x2.le_spec(e2)
            &&& e2 == Aabb::entry_spec(s, t_min)
            &&& x2 == Aabb::exit_spec(s, t_max)
        }),
{
}

/// Whether a ray parameter lies between the two planes of each slab, and
/// between `t_min` and `t_max`: whether the ray is in the box there, by
/// each of the six planes.
pub open spec fn inside_slabs(slabs: Seq<Slab>, t_min: Scalar, t_max: Scalar, t: Scalar) -> bool {
    &&& t_min.le_spec(t)
    &&& t.le_spec(t_max)
    &&& forall|axis: int|
        0 <= axis < 3 ==> (#[trigger] slabs[axis]).entry().le_spec(t) && t.le_spec(
            slabs[axis].exit(),
        )
}

/// Whether the ray is in the box, by each of the six planes, from `from`
/// to a later `to`.
pub open spec fn stays_inside(
    slabs: Seq<Slab>,
    t_min: Scalar,
    t_max: Scalar,
    from: Scalar,
    to: Scalar,
) -> bool {
    from.lt_spec(to) && inside_slabs(slabs, t_min, t_max, from) && inside_slabs(
        slabs,
        t_min,
        t_max,
        to,
    )
}

/// The slab test agrees with testing all six planes.
///
/// Where every crossing parameter and both ends of the interval are
/// numbers, `Aabb::hit` answers yes exactly if there are two ray
/// parameters, one after the other, at both of which the ray lies between
/// the planes of every slab and within the interval.
pub proof fn lemma_hit_is_overlap(slabs: Seq<Slab>, t_min: Scalar, t_max: Scalar)
    requires
        slabs.len() == 3,
        forall|axis: int|
            0 <= axis < 3 ==> !(#[trigger] slabs[axis]).t0.nan() && !slabs[axis].t1.nan(),
        !t_min.nan(),
        !t_max.nan(),
    ensures
        !Aabb::exit_spec(slabs, t_max).le_spec(Aabb::entry_spec(slabs, t_min)) <==> exists|
            from: Scalar,
            to: Scalar,
        | #[trigger] stays_inside(slabs, t_min, t_max, from, to),
{
    let a0 = slabs[0].entry();
    let a1 = slabs[1].entry();
    let a2 = slabs[2].entry();
    let b0 = slabs[0].exit();
    let b1 = slabs[1].exit();
    let b2 = slabs[2].exit();
    assert(!slabs[0].t0.nan() && !slabs[0].t1.nan());
    assert(!slabs[1].t0.nan() && !slabs[1].t1.nan());
    assert(!slabs[2].t0.nan() && !slabs[2].t1.nan());
    let e0 = a0.max_spec(t_min);
    let e1 = a1.max_spec(e0);
    let entry = a2.max_spec(e1);
    let x0 = b0.min_spec(t_max);
    let x1 = b1.min_spec(x0);
    let exit = b2.min_spec(x1);
    lemma_min_max_rank(a0, t_min);
    lemma_min_max_rank(a1, e0);
    lemma_min_max_rank(a2, e1);
    lemma_min_max_rank(b0, t_max);
    lemma_min_max_rank(b1, x0);
    lemma_min_max_rank(b2, x1);
    assert(entry == Aabb::entry_spec(slabs, t_min));
    assert(exit == Aabb::exit_spec(slabs, t_max));
    lemma_overlap_by_rank(
        a0.rank(),
        a1.rank(),
        a2.rank(),
        t_min.rank(),
        b0.rank(),
        b1.rank(),
        b2.rank(),
        t_max.rank(),
        entry.rank(),
        exit.rank(),
    );
    if !exit.le_spec(entry) {
        assert(inside_slabs(slabs, t_min, t_max, entry));
        assert(inside_slabs(slabs, t_min, t_max, exit));
        assert(stays_inside(slabs, t_min, t_max, entry, exit));
    }
    if exists|from: Scalar, to: Scalar| #[trigger] stays_inside(slabs, t_min, t_max, from, to) {
        let (from, to) = choose|from: Scalar, to: Scalar| #[trigger]
            stays_inside(slabs, t_min, t_max, from, to);
        assert(slabs[0].entry().le_spec(from) && to.le_spec(slabs[0].exit()));
        assert(slabs[1].entry().le_spec(from) && to.le_spec(slabs[1].exit()));
        assert(slabs[2].entry().le_spec(from) && to.le_spec(slabs[2].exit()));
        assert(entry.rank() <= from.rank());
        assert(to.rank() <= exit.rank());
    }
}

/// The greatest of four lower ends and the least of four upper ends bound
/// exactly what all four intervals share.
proof fn lemma_overlap_by_rank(
    a0: int,
    a1: int,
    a2: int,
    lo: int,
    b0: int,
    b1: int,
    b2: int,
    hi: int,
    entry: int,
    exit: int,
)
    requires
        entry == vstd::math::max(a2, vstd::math::max(a1, vstd::math::max(a0, lo))),
        exit == vstd::math::min(b2, vstd::math::min(b1, vstd::math::min(b0, hi))),
    ensures
        a0 <= entry && a1 <= entry && a2 <= entry && lo <= entry,
        exit <= b0 && exit <= b1 && exit <= b2 && exit <= hi,
        entry == a0 || entry == a1 || entry == a2 || entry == lo,
        exit == b0 || exit == b1 || exit == b2 || exit == hi,
{
}

/// The union of two boxes is their least upper bound: it is a box, it
/// contains both, and every box that contains both contains it.
pub proof fn lemma_union_is_least_upper_bound(a: Aabb, b: Aabb, u: Aabb)
    requires
        a.wf(),
        b.wf(),
        u.minimum@ == a.union_spec(b).minimum@,
        u.maximum@ == a.union_spec(b).maximum@,
    ensures
        u.wf(),
        u.contains_box(a),
        u.contains_box(b),
        forall|c: Aabb| c.contains_box(a) && c.contains_box(b) ==> #[trigger] c.contains_box(u),
{
    assert forall|i: int| 0 <= i < 3 implies (#[trigger] u.minimum@[i]).le_spec(u.maximum@[i])
        && u.minimum@[i].le_spec(a.minimum@[i]) && u.minimum@[i].le_spec(b.minimum@[i])
        && a.maximum@[i].le_spec(u.maximum@[i]) && b.maximum@[i].le_spec(u.maximum@[i])
        && (u.minimum@[i] == a.minimum@[i] || u.minimum@[i] == b.minimum@[i]) && (u.maximum@[i]
        == a.maximum@[i] || u.maximum@[i] == b.maximum@[i]) by {
        assert(a.minimum@[i].le_spec(a.maximum@[i]));
        assert(b.minimum@[i].le_spec(b.maximum@[i]));
        lemma_min_max_lattice(a.minimum@[i], b.minimum@[i], a.minimum@[i]);
        lemma_min_max_lattice(a.maximum@[i], b.maximum@[i], a.maximum@[i]);
    }
    assert forall|c: Aabb| c.contains_box(a) && c.contains_box(b) implies #[trigger] c.contains_box(
        u,
    ) by {
        assert forall|i: int| 0 <= i < 3 implies (#[trigger] c.minimum@[i]).le_spec(u.minimum@[i])
            && u.maximum@[i].le_spec(c.maximum@[i]) by {
            assert(c.minimum@[i].le_spec(a.minimum@[i]));
            assert(c.minimum@[i].le_spec(b.minimum@[i]));
            assert(u.minimum@[i] == a.minimum@[i] || u.minimum@[i] == b.minimum@[i]);
            assert(u.maximum@[i] == a.maximum@[i] || u.maximum@[i] == b.maximum@[i]);
        }
    }
}

/// The extent of a list of points of numbers is their least bound: it
/// contains every one of them, and every box that contains them all
/// contains it. The extent of no points contains nothing, and every box
/// contains it.
pub proof fn lemma_extent_is_least_bound(points: Seq<Point3>)
    requires
        forall|i: int| 0 <= i < points.len() ==> (#[trigger] points[i]).is_number(),
    ensures
        forall|i: int|
            0 <= i < points.len() ==> Aabb::extent_spec(points).contains_point(
                #[trigger] points[i],
            ),
        forall|c: Aabb|
            c.wf() && c.contains_points(points) ==> #[trigger] c.contains_box(
                Aabb::extent_spec(points),
            ),
        points.len() > 0 ==> Aabb::extent_spec(points).wf(),
    decreases points.len(),
{
    let e = Aabb::extent_spec(points);
    if points.len() == 0 {
        assert forall|c: Aabb| c.wf() implies #[trigger] c.contains_box(e) by {
            assert forall|a: int| 0 <= a < 3 implies (#[trigger] c.minimum@[a]).le_spec(
                e.minimum@[a],
            ) && e.maximum@[a].le_spec(c.maximum@[a]) by {
                assert(c.minimum@[a].le_spec(c.maximum@[a]));
            }
        }
    } else {
        let front = points.drop_last();
        let last = points.last();
        let before = Aabb::extent_spec(front);
        assert forall|i: int| 0 <= i < front.len() implies (#[trigger] front[i]).is_number() by {
            assert(front[i] == points[i]);
        }
        assert(points[points.len() - 1].is_number());
        lemma_extent_is_least_bound(front);
        lemma_extent_corners(front);
        assert forall|a: int| 0 <= a < 3 implies {
            &&& !(#[trigger] e.minimum@[a]).nan()
            &&& !e.maximum@[a].nan()
            &&& e.minimum@[a].rank() == vstd::math::min(
                before.minimum@[a].rank(),
                last@[a].rank(),
            )
            &&& e.maximum@[a].rank() == vstd::math::max(
                before.maximum@[a].rank(),
                last@[a].rank(),
            )
        } by {
            assert(!before.minimum@[a].nan() && !before.maximum@[a].nan());
            lemma_min_max_rank(before.minimum@[a], last@[a]);
            lemma_min_max_rank(before.maximum@[a], last@[a]);
        }
        assert forall|i: int| 0 <= i < points.len() implies e.contains_point(
            #[trigger] points[i],
        ) by {
            if i < front.len() {
                assert(front[i] == points[i]);
                assert(before.contains_point(front[i]));
                assert forall|a: int| 0 <= a < 3 implies (#[trigger] e.minimum@[a]).le_spec(
                    points[i]@[a],
                ) && points[i]@[a].le_spec(e.maximum@[a]) by {
                    assert(before.minimum@[a].le_spec(front[i]@[a]));
                }
            } else {
                assert(points[i] == last);
            }
        }
        assert forall|c: Aabb|
            c.wf() && c.contains_points(points) implies #[trigger] c.contains_box(e) by {
            assert forall|i: int| 0 <= i < front.len() implies c.contains_point(
                #[trigger] front[i],
            ) by {
                assert(front[i] == points[i]);
            }
            assert(c.contains_box(before));
            assert(c.contains_point(points[points.len() - 1]));
            assert forall|a: int| 0 <= a < 3 implies (#[trigger] c.minimum@[a]).le_spec(
                e.minimum@[a],
            ) && e.maximum@[a].le_spec(c.maximum@[a]) by {
                assert(c.minimum@[a].le_spec(before.minimum@[a]));
                assert(c.minimum@[a].le_spec(last@[a]));
            }
        }
        if front.len() == 0 {
            assert forall|a: int| 0 <= a < 3 implies (#[trigger] e.minimum@[a]).le_spec(
                e.maximum@[a],
            ) by {
                assert(before.minimum@[a].rank() >= last@[a].rank());
                assert(before.maximum@[a].rank() <= last@[a].rank());
            }
        } else {
            assert forall|a: int| 0 <= a < 3 implies (#[trigger] e.minimum@[a]).le_spec(
                e.maximum@[a],
            ) by {
                assert(before.minimum@[a].le_spec(before.maximum@[a]));
            }
        }
    }
}

/// The corners of the extent of a list of points of numbers are numbers;
/// those of the extent of no points are the two infinities.
proof fn lemma_extent_corners(points: Seq<Point3>)
    requires
        forall|i: int| 0 <= i < points.len() ==> (#[trigger] points[i]).is_number(),
    ensures
        forall|a: int|
            0 <= a < 3 ==> !(#[trigger] Aabb::extent_spec(points).minimum@[a]).nan()
                && !Aabb::extent_spec(points).maximum@[a].nan(),
        points.len() == 0 ==> forall|a: int, x: Scalar|
            0 <= a < 3 && !x.nan() ==> x.rank() <= (#[trigger] Aabb::extent_spec(
                points,
            ).minimum@[a]).rank() && #[trigger] x.rank() >= Aabb::extent_spec(
                points,
            ).maximum@[a].rank(),
    decreases points.len(),
{
    if points.len() > 0 {
        let front = points.drop_last();
        let last = points.last();
        assert forall|i: int| 0 <= i < front.len() implies (#[trigger] front[i]).is_number() by {
            assert(front[i] == points[i]);
        }
        assert(points[points.len() - 1].is_number());
        lemma_extent_corners(front);
        let before = Aabb::extent_spec(front);
        assert forall|a: int| 0 <= a < 3 implies !(#[trigger] Aabb::extent_spec(
            points,
        ).minimum@[a]).nan() && !Aabb::extent_spec(points).maximum@[a].nan() by {
            assert(!before.minimum@[a].nan() && !before.maximum@[a].nan());
            lemma_min_max_rank(before.minimum@[a], last@[a]);
            lemma_min_max_rank(before.maximum@[a], last@[a]);
        }
    }
}

/// The union associates, whatever the corners hold.
pub proof fn lemma_union_associative(a: Aabb, b: Aabb, c: Aabb)
    ensures
        a.union_spec(b).union_spec(c) == a.union_spec(b.union_spec(c)),
{
    lemma_min_max_associative(a.minimum@[0], b.minimum@[0], c.minimum@[0]);
    lemma_min_max_associative(a.minimum@[1], b.minimum@[1], c.minimum@[1]);
    lemma_min_max_associative(a.minimum@[2], b.minimum@[2], c.minimum@[2]);
    lemma_min_max_associative(a.maximum@[0], b.maximum@[0], c.maximum@[0]);
    lemma_min_max_associative(a.maximum@[1], b.maximum@[1], c.maximum@[1]);
    lemma_min_max_associative(a.maximum@[2], b.maximum@[2], c.maximum@[2]);
    let l = a.union_spec(b).union_spec(c);
    let r = a.union_spec(b.union_spec(c));
    assert(l.minimum.e@ =~= r.minimum.e@);
    assert(l.maximum.e@ =~= r.maximum.e@);
    assert(l.minimum.e == r.minimum.e);
    assert(l.maximum.e == r.maximum.e);
}

/// On boxes, the union does not depend on the order of its arguments, nor
/// on how three boxes are grouped, and a box united with itself is itself.
pub proof fn lemma_union_laws(a: Aabb, b: Aabb, c: Aabb)
    requires
        a.wf(),
        b.wf(),
        c.wf(),
    ensures
        a.union_spec(b).minimum@ == b.union_spec(a).minimum@,
        a.union_spec(b).maximum@ == b.union_spec(a).maximum@,
        a.union_spec(b).union_spec(c).minimum@ == a.union_spec(b.union_spec(c)).minimum@,
        a.union_spec(b).union_spec(c).maximum@ == a.union_spec(b.union_spec(c)).maximum@,
        a.union_spec(a).minimum@ == a.minimum@,
        a.union_spec(a).maximum@ == a.maximum@,
{
    assert forall|i: int| 0 <= i < 3 implies {
        &&& !(#[trigger] a.minimum@[i]).nan()
        &&& !a.maximum@[i].nan()
        &&& !b.minimum@[i].nan()
        &&& !b.maximum@[i].nan()
        &&& !c.minimum@[i].nan()
        &&& !c.maximum@[i].nan()
    } by {
        assert(a.minimum@[i].le_spec(a.maximum@[i]));
        assert(b.minimum@[i].le_spec(b.maximum@[i]));
        assert(c.minimum@[i].le_spec(c.maximum@[i]));
    }
    assert(!a.minimum@[0].nan() && !a.minimum@[1].nan() && !a.minimum@[2].nan());
    lemma_min_max_lattice(a.minimum@[0], b.minimum@[0], c.minimum@[0]);
    lemma_min_max_lattice(a.minimum@[1], b.minimum@[1], c.minimum@[1]);
    lemma_min_max_lattice(a.minimum@[2], b.minimum@[2], c.minimum@[2]);
    lemma_min_max_lattice(a.maximum@[0], b.maximum@[0], c.maximum@[0]);
    lemma_min_max_lattice(a.maximum@[1], b.maximum@[1], c.maximum@[1]);
    lemma_min_max_lattice(a.maximum@[2], b.maximum@[2], c.maximum@[2]);
    assert(a.union_spec(b).minimum@ =~= b.union_spec(a).minimum@);
    assert(a.union_spec(b).maximum@ =~= b.union_spec(a).maximum@);
    assert(a.union_spec(b).union_spec(c).minimum@ =~= a.union_spec(b.union_spec(c)).minimum@);
    assert(a.union_spec(b).union_spec(c).maximum@ =~= a.union_spec(b.union_spec(c)).maximum@);
    assert(a.union_spec(a).minimum@ =~= a.minimum@);
    assert(a.union_spec(a).maximum@ =~= a.maximum@);
}

} // verus!
