//! Single-precision numbers held by their IEEE-754 bit patterns.
//!
//! Everything a ray tracer *decides* (which root is nearer, whether a
//! parameter lies in an interval, which corner of a box is the smaller one)
//! is a comparison of numbers, and a comparison of two binary32 values can be
//! read off their bit patterns exactly. This module does that, and nothing
//! else: sums, products and roots are computed by the caller.

use vstd::prelude::*;

verus! {

/// The bit pattern of negative zero: the sign bit alone.
pub const SIGN_BIT: u32 = 0x8000_0000;

/// The bit pattern of positive infinity: the largest magnitude that is a number.
pub const INFINITY_BITS: u32 = 0x7f80_0000;

/// A binary32 number, stored as its 32 bits.
///
/// `==` on two scalars compares bit patterns: it tells `-0.0` from `0.0` and
/// finds a NaN equal to itself. The numeric comparisons are `eq_value`, `lt`,
/// `le`, `gt` and `ge`.
#[derive(Clone, Copy, Debug, PartialEq, Eq, Structural)]
pub struct Scalar {
    pub bits: u32,
}

impl Scalar {
    /// The bits without the sign bit.
    pub open spec fn magnitude(self) -> int {
        if self.bits >= SIGN_BIT {
            self.bits - SIGN_BIT
        } else {
            self.bits as int
        }
    }

    /// Whether the sign bit is set.
    pub open spec fn sign(self) -> bool {
        self.bits >= SIGN_BIT
    }

    /// Whether the pattern encodes no number.
    pub open spec fn nan(self) -> bool {
        self.magnitude() > INFINITY_BITS
    }

    /// Where a number stands on the real line, both zeros at 0: for two
    /// numbers `a` and `b`, `a` is less than `b` exactly if
    /// `a.rank() < b.rank()`. Infinities are the two ends.
    pub open spec fn rank(self) -> int {
        if self.sign() {
            -self.magnitude()
        } else {
            self.magnitude()
        }
    }

    /// Where a bit pattern stands among all patterns of numbers, `-0.0`
    /// directly below `0.0`. It refines `rank` and tells any two different
    /// patterns apart.
    pub open spec fn position(self) -> int {
        if self.sign() {
            -self.magnitude() - 1
        } else {
            self.magnitude()
        }
    }

    /// `self < other` as numbers. False if either is NaN.
    pub open spec fn lt_spec(self, other: Scalar) -> bool {
        !self.nan() && !other.nan() && self.rank() < other.rank()
    }

    /// `self <= other` as numbers. False if either is NaN.
    pub open spec fn le_spec(self, other: Scalar) -> bool {
        !self.nan() && !other.nan() && self.rank() <= other.rank()
    }

    /// `self == other` as numbers: the zeros are equal, a NaN equals nothing.
    pub open spec fn eq_value_spec(self, other: Scalar) -> bool {
        !self.nan() && !other.nan() && self.rank() == other.rank()
    }

    /// The smaller of two numbers. A NaN gives way to the other argument;
    /// of the two zeros the negative one is the smaller.
    pub open spec fn min_spec(self, other: Scalar) -> Scalar {
        if self.nan() {
            other
        } else if other.nan() {
            self
        } else if other.position() < self.position() {
            other
        } else {
            self
        }
    }

    /// The larger of two numbers. A NaN gives way to the other argument;
    /// of the two zeros the positive one is the larger.
    pub open spec fn max_spec(self, other: Scalar) -> Scalar {
        if self.nan() {
            other
        } else if other.nan() {
            self
        } else if other.position() > self.position() {
            other
        } else {
            self
        }
    }

    /// The number with the opposite sign: the same bits but for the sign bit.
    pub open spec fn neg_spec(self) -> Scalar {
        if self.sign() {
            Scalar { bits: (self.bits - SIGN_BIT) as u32 }
        } else {
            Scalar { bits: (self.bits + SIGN_BIT) as u32 }
        }
    }

    /// The number without its sign.
    pub open spec fn abs_spec(self) -> Scalar {
        if self.sign() {
            Scalar { bits: (self.bits - SIGN_BIT) as u32 }
        } else {
            self
        }
    }

    /// The scalar with the given bit pattern.
    pub fn from_bits(bits: u32) -> (s: Scalar)
        ensures
            s.bits == bits,
    {
        Scalar { bits }
    }

    /// The bit pattern.
    pub fn to_bits(self) -> (bits: u32)
        ensures
            bits == self.bits,
    {
        self.bits
    }

    /// Positive zero.
    pub fn zero() -> (s: Scalar)
        ensures
            s.bits == 0,
            s.rank() == 0,
            !s.nan(),
    {
        Scalar { bits: 0 }
    }

    /// The number one.
    pub fn one() -> (s: Scalar)
        ensures
            s.bits == 0x3f80_0000,
            !s.nan(),
    {
        Scalar { bits: 0x3f80_0000 }
    }

    /// Positive infinity: no number is greater.
    pub fn infinity() -> (s: Scalar)
        ensures
            s.bits == INFINITY_BITS,
            !s.nan(),
            forall|x: Scalar| !x.nan() ==> #[trigger] x.rank() <= s.rank(),
    {
        Scalar { bits: INFINITY_BITS }
    }

    /// Negative infinity: no number is smaller.
    pub fn neg_infinity() -> (s: Scalar)
        ensures
            s.bits == 0xff80_0000,
            !s.nan(),
            forall|x: Scalar| !x.nan() ==> s.rank() <= #[trigger] x.rank(),
    {
        Scalar { bits: 0xff80_0000 }
    }

    fn magnitude_bits(self) -> (m: u32)
        ensures
            m == self.magnitude(),
            m < SIGN_BIT,
    {
        if self.bits >= SIGN_BIT {
            self.bits - SIGN_BIT
        } else {
            self.bits
        }
    }

    fn rank_value(self) -> (r: i64)
        ensures
            r == self.rank(),
    {
        let m: u32 = self.magnitude_bits();
        if self.bits >= SIGN_BIT {
            -(m as i64)
        } else {
            m as i64
        }
    }

    fn position_value(self) -> (r: i64)
        ensures
            r == self.position(),
    {
        let m: u32 = self.magnitude_bits();
        if self.bits >= SIGN_BIT {
            -(m as i64) - 1
        } else {
            m as i64
        }
    }

    /// Whether the pattern encodes no number.
    pub fn is_nan(self) -> (b: bool)
        ensures
            b == self.nan(),
    {
        self.magnitude_bits() > INFINITY_BITS
    }

    /// Whether the sign bit is set; true of `-0.0`.
    pub fn is_sign_negative(self) -> (b: bool)
        ensures
            b == self.sign(),
    {
        self.bits >= SIGN_BIT
    }

    /// `self < other`.
    pub fn lt(self, other: Scalar) -> (b: bool)
        ensures
            b == self.lt_spec(other),
    {
        !self.is_nan() && !other.is_nan() && self.rank_value() < other.rank_value()
    }

    /// `self <= other`.
    pub fn le(self, other: Scalar) -> (b: bool)
        ensures
            b == self.le_spec(other),
    {
        !self.is_nan() && !other.is_nan() && self.rank_value() <= other.rank_value()
    }

    /// `self > other`.
    pub fn gt(self, other: Scalar) -> (b: bool)
        ensures
            b == other.lt_spec(self),
    {
        other.lt(self)
    }

    /// `self >= other`.
    pub fn ge(self, other: Scalar) -> (b: bool)
        ensures
            b == other.le_spec(self),
    {
        other.le(self)
    }

    /// `self == other` as numbers.
    pub fn eq_value(self, other: Scalar) -> (b: bool)
        ensures
            b == self.eq_value_spec(other),
    {
        !self.is_nan() && !other.is_nan() && self.rank_value() == other.rank_value()
    }

    /// The smaller of the two; see `min_spec` for NaN and the zeros.
    pub fn min(self, other: Scalar) -> (m: Scalar)
        ensures
            m == self.min_spec(other),
    {
        if self.is_nan() {
            other
        } else if other.is_nan() {
            self
        } else if other.position_value() < self.position_value() {
            other
        } else {
            self
        }
    }

    /// The larger of the two; see `max_spec` for NaN and the zeros.
    pub fn max(self, other: Scalar) -> (m: Scalar)
        ensures
            m == self.max_spec(other),
    {
        if self.is_nan() {
            other
        } else if other.is_nan() {
            self
        } else if other.position_value() > self.position_value() {
            other
        } else {
            self
        }
    }

    /// The number with the opposite sign.
    pub fn neg(self) -> (n: Scalar)
        ensures
            n == self.neg_spec(),
    {
        if self.bits >= SIGN_BIT {
            Scalar { bits: self.bits - SIGN_BIT }
        } else {
            Scalar { bits: self.bits + SIGN_BIT }
        }
    }

    /// The number without its sign.
    pub fn abs(self) -> (n: Scalar)
        ensures
            n == self.abs_spec(),
    {
        if self.bits >= SIGN_BIT {
            Scalar { bits: self.bits - SIGN_BIT }
        } else {
            self
        }
    }
}

/// Two patterns at the same position are the same pattern.
pub proof fn lemma_position_injective(a: Scalar, b: Scalar)
    requires
        a.position() == b.position(),
    ensures
        a == b,
{
}

/// `position` refines `rank`: a smaller number stands at a smaller position,
/// and a smaller position never holds a greater number.
pub proof fn lemma_position_refines_rank(a: Scalar, b: Scalar)
    ensures
        a.rank() < b.rank() ==> a.position() < b.position(),
        a.position() <= b.position() ==> a.rank() <= b.rank(),
{
}

/// Negation mirrors the real line and keeps NaN a NaN; twice is the identity.
pub proof fn lemma_neg(a: Scalar)
    ensures
        a.neg_spec().rank() == -a.rank(),
        a.neg_spec().nan() == a.nan(),
        a.neg_spec().neg_spec() == a,
{
}

/// On numbers, `min_spec` and `max_spec` are the meet and join of a total
/// order on bit patterns: each returns one of its arguments, the order of
/// the arguments does not matter, and they associate.
pub proof fn lemma_min_max_lattice(a: Scalar, b: Scalar, c: Scalar)
    requires
        !a.nan(),
        !b.nan(),
        !c.nan(),
    ensures
        a.min_spec(b) == b.min_spec(a),
        a.max_spec(b) == b.max_spec(a),
        a.min_spec(b).min_spec(c) == a.min_spec(b.min_spec(c)),
        a.max_spec(b).max_spec(c) == a.max_spec(b.max_spec(c)),
        a.min_spec(a) == a,
        a.max_spec(a) == a,
        !a.min_spec(b).nan(),
        !a.max_spec(b).nan(),
        a.min_spec(b).le_spec(a) && a.min_spec(b).le_spec(b),
        a.le_spec(a.max_spec(b)) && b.le_spec(a.max_spec(b)),
{
    if a.position() == b.position() {
        lemma_position_injective(a, b);
    }
    if a.position() == c.position() {
        lemma_position_injective(a, c);
    }
    if b.position() == c.position() {
        lemma_position_injective(b, c);
    }
}

/// Of two numbers, `min_spec` is a number that stands where the lower of
/// them stands, and `max_spec` one that stands where the higher stands.
pub proof fn lemma_min_max_rank(a: Scalar, b: Scalar)
    requires
        !a.nan(),
        !b.nan(),
    ensures
        !a.min_spec(b).nan(),
        !a.max_spec(b).nan(),
        a.min_spec(b).rank() == if a.rank() <= b.rank() {
            a.rank()
        } else {
            b.rank()
        },
        a.max_spec(b).rank() == if a.rank() >= b.rank() {
            a.rank()
        } else {
            b.rank()
        },
{
}

/// `min_spec` and `max_spec` associate on all bit patterns, NaN included:
/// a NaN is passed over wherever it stands.
pub proof fn lemma_min_max_associative(a: Scalar, b: Scalar, c: Scalar)
    ensures
        a.min_spec(b).min_spec(c) == a.min_spec(b.min_spec(c)),
        a.max_spec(b).max_spec(c) == a.max_spec(b.max_spec(c)),
{
    if a.position() == b.position() {
        lemma_position_injective(a, b);
    }
    if a.position() == c.position() {
        lemma_position_injective(a, c);
    }
    if b.position() == c.position() {
        lemma_position_injective(b, c);
    }
}

} // verus!
