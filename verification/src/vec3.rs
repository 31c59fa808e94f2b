//! Triples: points, directions and colours of scalars, and the integer
//! triples that address a noise lattice.

use vstd::prelude::*;
use crate::scalar::Scalar;

verus! {

/// Three components of one type.
#[derive(Debug)]
pub struct GenericVec3<T: Copy> {
    pub e: [T; 3],
}

impl<T: Copy> Clone for GenericVec3<T> {
    fn clone(&self) -> (v: Self)
        ensures
            v == *self,
    {
        *self
    }
}

impl<T: Copy> Copy for GenericVec3<T> {

}

/// A direction, a point or a colour: three scalars.
pub type Vec3 = GenericVec3<Scalar>;

/// A position in space.
pub type Point3 = Vec3;

/// Red, green and blue.
pub type Color = Vec3;

impl<T: Copy> GenericVec3<T> {
    /// The triple as a sequence of length three.
    pub open spec fn view(&self) -> Seq<T> {
        self.e@
    }

    /// The triple of the three given components.
    pub fn new(e0: T, e1: T, e2: T) -> (v: Self)
        ensures
            v@ == seq![e0, e1, e2],
    {
        Self { e: [e0, e1, e2] }
    }

    /// The first component.
    pub fn x(&self) -> (c: T)
        ensures
            c == self@[0],
    {
        self.e[0]
    }

    /// The second component.
    pub fn y(&self) -> (c: T)
        ensures
            c == self@[1],
    {
        self.e[1]
    }

    /// The third component.
    pub fn z(&self) -> (c: T)
        ensures
            c == self@[2],
    {
        self.e[2]
    }

    /// The component on the given axis: 0 for x, 1 for y, 2 for z.
    pub fn axis(&self, index: usize) -> (c: T)
        requires
            index < 3,
        ensures
            c == self@[index as int],
    {
        self.e[index]
    }

    /// The three components as a tuple.
    pub fn as_tuple(&self) -> (t: (T, T, T))
        ensures
            t == (self@[0], self@[1], self@[2]),
    {
        (self.e[0], self.e[1], self.e[2])
    }

    /// The triple of a tuple's components.
    pub fn from_tuple(tuple: (T, T, T)) -> (v: Self)
        ensures
            v@ == seq![tuple.0, tuple.1, tuple.2],
    {
        Self::new(tuple.0, tuple.1, tuple.2)
    }
}

impl GenericVec3<Scalar> {
    /// The opposite vector: each component with its sign flipped.
    pub fn neg(&self) -> (v: Self)
        ensures
            v@ == seq![self@[0].neg_spec(), self@[1].neg_spec(), self@[2].neg_spec()],
    {
        Self::new(self.e[0].neg(), self.e[1].neg(), self.e[2].neg())
    }

    /// Whether no component is NaN.
    pub open spec fn is_number(&self) -> bool {
        !self@[0].nan() && !self@[1].nan() && !self@[2].nan()
    }
}

impl GenericVec3<i64> {
    /// The components as `usize`: each keeps its low bits, so a negative
    /// component lands as far below the largest `usize` as it was below zero.
    pub fn to_usize(&self) -> (v: GenericVec3<usize>)
        ensures
            v@ == seq![self@[0] as usize, self@[1] as usize, self@[2] as usize],
    {
        let e0: usize = #[verifier::truncate]
        (self.e[0] as usize);
        let e1: usize = #[verifier::truncate]
        (self.e[1] as usize);
        let e2: usize = #[verifier::truncate]
        (self.e[2] as usize);
        GenericVec3::new(e0, e1, e2)
    }

    /// The sum of the squares of the components.
    pub open spec fn length_squared_spec(&self) -> int {
        self@[0] * self@[0] + self@[1] * self@[1] + self@[2] * self@[2]
    }

    /// The dot product.
    pub open spec fn dot_spec(&self, rhs: &Self) -> int {
        self@[0] * rhs@[0] + self@[1] * rhs@[1] + self@[2] * rhs@[2]
    }

    /// The squared length. Every square and each partial sum has to fit.
    pub fn length_squared(&self) -> (r: i64)
        requires
            self@[0] * self@[0] <= i64::MAX,
            self@[0] * self@[0] + self@[1] * self@[1] <= i64::MAX,
            self.length_squared_spec() <= i64::MAX,
        ensures
            r == self.length_squared_spec(),
    {
        let e = self.e;
        assert(e[0] * e[0] >= 0 && e[1] * e[1] >= 0 && e[2] * e[2] >= 0) by (nonlinear_arith);
        e[0] * e[0] + e[1] * e[1] + e[2] * e[2]
    }

    /// The dot product. Each product and each partial sum has to fit.
    pub fn dot(&self, rhs: &Self) -> (r: i64)
        requires
            i64::MIN <= self@[0] * rhs@[0] <= i64::MAX,
            i64::MIN <= self@[1] * rhs@[1] <= i64::MAX,
            i64::MIN <= self@[2] * rhs@[2] <= i64::MAX,
            i64::MIN <= self@[0] * rhs@[0] + self@[1] * rhs@[1] <= i64::MAX,
            i64::MIN <= self.dot_spec(rhs) <= i64::MAX,
        ensures
            r == self.dot_spec(rhs),
    {
        self.e[0] * rhs.e[0] + self.e[1] * rhs.e[1] + self.e[2] * rhs.e[2]
    }

    /// The cross product. Each product and each difference has to fit.
    pub fn cross(&self, rhs: &Self) -> (v: Self)
        requires
            forall|i: int, j: int|
                0 <= i < 3 && 0 <= j < 3 ==> i64::MIN <= #[trigger] (self@[i] * rhs@[j])
                    <= i64::MAX,
            i64::MIN <= self@[1] * rhs@[2] - self@[2] * rhs@[1] <= i64::MAX,
            i64::MIN <= self@[2] * rhs@[0] - self@[0] * rhs@[2] <= i64::MAX,
            i64::MIN <= self@[0] * rhs@[1] - self@[1] * rhs@[0] <= i64::MAX,
        ensures
            v@ == seq![
                (self@[1] * rhs@[2] - self@[2] * rhs@[1]) as i64,
                (self@[2] * rhs@[0] - self@[0] * rhs@[2]) as i64,
                (self@[0] * rhs@[1] - self@[1] * rhs@[0]) as i64,
            ],
    {
        Self::new(
            self.e[1] * rhs.e[2] - self.e[2] * rhs.e[1],
            self.e[2] * rhs.e[0] - self.e[0] * rhs.e[2],
            self.e[0] * rhs.e[1] - self.e[1] * rhs.e[0],
        )
    }

    /// The product of the three components. Both products have to fit.
    pub fn internal_product(&self) -> (r: i64)
        requires
            i64::MIN <= self@[0] * self@[1] <= i64::MAX,
            i64::MIN <= self@[0] * self@[1] * self@[2] <= i64::MAX,
        ensures
            r == self@[0] * self@[1] * self@[2],
    {
        let e = self.e;
        e[0] * e[1] * e[2]
    }
}

impl GenericVec3<usize> {
    /// The bitwise exclusive or of the three components.
    pub fn internal_bit_xor(&self) -> (r: usize)
        ensures
            r == self@[0] ^ self@[1] ^ self@[2],
    {
        self.e[0] ^ self.e[1] ^ self.e[2]
    }

    /// Each component masked by `mask`.
    pub fn bitand(&self, mask: usize) -> (v: Self)
        ensures
            v@ == seq![self@[0] & mask, self@[1] & mask, self@[2] & mask],
    {
        Self::new(self.e[0] & mask, self.e[1] & mask, self.e[2] & mask)
    }

    /// The component-wise sum, wrapping round at the largest `usize`, and
    /// whether any component wrapped.
    pub fn overflowing_add(&self, rhs: Self) -> (r: (Self, bool))
        ensures
            r.0@ == seq![
                vstd::wrapping::usize_specs::wrapping_add(self@[0], rhs@[0]),
                vstd::wrapping::usize_specs::wrapping_add(self@[1], rhs@[1]),
                vstd::wrapping::usize_specs::wrapping_add(self@[2], rhs@[2]),
            ],
            r.1 == (self@[0] + rhs@[0] > usize::MAX || self@[1] + rhs@[1] > usize::MAX
                || self@[2] + rhs@[2] > usize::MAX),
    {
        let x: usize = self.e[0].wrapping_add(rhs.e[0]);
        let y: usize = self.e[1].wrapping_add(rhs.e[1]);
        let z: usize = self.e[2].wrapping_add(rhs.e[2]);
        let x_overflow = rhs.e[0] > usize::MAX - self.e[0];
        let y_overflow = rhs.e[1] > usize::MAX - self.e[1];
        let z_overflow = rhs.e[2] > usize::MAX - self.e[2];
        (Self::new(x, y, z), x_overflow || y_overflow || z_overflow)
    }
}

} // verus!
