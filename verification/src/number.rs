//! Double-precision numbers, held by their bits.
//!
//! Coordinates and scale factors are doubles. Nothing here does arithmetic on
//! them: it only compares them, and comparing doubles is comparing integers
//! made of their bits.
use vstd::prelude::*;

verus! {

/// The bit pattern of an IEEE 754 double.
#[derive(Clone, Copy, Debug, PartialEq, Eq, Structural)]
pub struct Number {
    pub bits: u64,
}

/// The bit that holds the sign.
pub const SIGN_BIT: u64 = 0x8000_0000_0000_0000;

/// The bits of positive infinity. A larger magnitude is not a number.
pub const INFINITY_BITS: u64 = 0x7FF0_0000_0000_0000;

/// The bits of one.
pub const ONE_BITS: u64 = 0x3FF0_0000_0000_0000;

/// The bits of 0.5.
pub const HALF_BITS: u64 = 0x3FE0_0000_0000_0000;

impl Number {
    /// The bits without the sign.
    pub open spec fn magnitude(self) -> int {
        if self.bits < SIGN_BIT {
            self.bits as int
        } else {
            self.bits - SIGN_BIT
        }
    }

    /// Not a number: it is equal to nothing and not ordered with anything.
    pub open spec fn nan(self) -> bool {
        self.magnitude() > INFINITY_BITS
    }

    /// The position of the number among all numbers. Both zeros stand at 0.
    pub open spec fn order(self) -> int {
        if self.bits < SIGN_BIT {
            self.magnitude()
        } else {
            -self.magnitude()
        }
    }

    pub open spec fn same(self, other: Number) -> bool {
        !self.nan() && !other.nan() && self.order() == other.order()
    }

    pub open spec fn less(self, other: Number) -> bool {
        !self.nan() && !other.nan() && self.order() < other.order()
    }

    pub open spec fn at_most(self, other: Number) -> bool {
        !self.nan() && !other.nan() && self.order() <= other.order()
    }

    /// The number without its sign.
    pub open spec fn absolute(self) -> Number {
        Number { bits: self.magnitude() as u64 }
    }

    pub fn from_bits(bits: u64) -> (n: Number)
        ensures
            n.bits == bits,
    {
        Number { bits }
    }

    pub fn is_nan(self) -> (b: bool)
        ensures
            b == self.nan(),
    {
        self.abs().bits > INFINITY_BITS
    }

    pub fn abs(self) -> (n: Number)
        ensures
            n == self.absolute(),
    {
        if self.bits < SIGN_BIT {
            self
        } else {
            Number { bits: self.bits - SIGN_BIT }
        }
    }

    fn position(self) -> (p: i64)
        ensures
            p == self.order(),
    {
        let magnitude = self.abs().bits as i64;
        if self.bits < SIGN_BIT {
            magnitude
        } else {
            -magnitude
        }
    }

    /// `self == other`, as doubles are compared.
    pub fn same_value(self, other: Number) -> (b: bool)
        ensures
            b == self.same(other),
    {
        !self.is_nan() && !other.is_nan() && self.position() == other.position()
    }

    /// `self < other`, as doubles are compared.
    pub fn is_less(self, other: Number) -> (b: bool)
        ensures
            b == self.less(other),
    {
        !self.is_nan() && !other.is_nan() && self.position() < other.position()
    }

    /// `self <= other`, as doubles are compared.
    pub fn is_at_most(self, other: Number) -> (b: bool)
        ensures
            b == self.at_most(other),
    {
        !self.is_nan() && !other.is_nan() && self.position() <= other.position()
    }
}

/// Numbers are ordered, but for those that are not a number: of two others,
/// exactly one of "less", "same" and "greater" holds.
pub proof fn numbers_are_ordered(a: Number, b: Number)
    requires
        !a.nan(),
        !b.nan(),
    ensures
        a.less(b) || a.same(b) || b.less(a),
        !(a.less(b) && b.less(a)),
        !(a.less(b) && a.same(b)),
        a.at_most(b) <==> a.less(b) || a.same(b),
{
}

/// Numbers without a sign are ordered by their bits, numbers with a sign the
/// other way round, and those with a sign come before the others.
pub proof fn numbers_are_ordered_by_their_bits(a: u64, b: u64)
    requires
        a <= INFINITY_BITS,
        b <= INFINITY_BITS,
    ensures
        ({
            let (x, y) = (Number { bits: a }, Number { bits: b });
            let (minus_x, minus_y) = (Number { bits: (a + SIGN_BIT) as u64 }, Number { bits: (b + SIGN_BIT) as u64 });
            &&& x.less(y) <==> a < b
            &&& minus_x.less(minus_y) <==> b < a
            &&& minus_x.less(y) <==> a > 0 || b > 0
            &&& !x.less(minus_y)
            &&& x.same(y) <==> a == b
            &&& minus_x.same(y) <==> a == 0 && b == 0
            &&& minus_x.absolute() == x && x.absolute() == x
        }),
{
}

/// What is not a number is equal to nothing and ordered with nothing.
pub proof fn nan_is_not_ordered(a: Number, b: Number)
    requires
        a.bits > INFINITY_BITS,
        a.bits < SIGN_BIT || a.bits > SIGN_BIT + INFINITY_BITS,
    ensures
        !a.same(b) && !b.same(a) && !a.less(b) && !b.less(a) && !a.at_most(b) && !b.at_most(a),
{
}

} // verus!
