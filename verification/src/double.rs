//! IEEE-754 double precision, carried as bit patterns.
use vstd::prelude::*;

verus! {

/// The sign, as a bit pattern.
pub const SIGN: u64 = 0x8000_0000_0000_0000;

/// Positive infinity, as a bit pattern. Larger patterns without a sign are not numbers.
pub const INFINITY: u64 = 0x7ff0_0000_0000_0000;

/// A 64-bit float by its bit pattern. Such numbers are compared here, and nothing is computed with
/// them.
#[derive(Debug, Clone, Copy, PartialEq, Eq, Structural)]
pub struct F64 {
    pub bits: u64,
}

impl F64 {
    pub open spec fn mag(self) -> int {
        if self.bits >= SIGN {
            self.bits - SIGN
        } else {
            self.bits as int
        }
    }

    pub open spec fn nan(self) -> bool {
        self.mag() > INFINITY
    }

    /// Where the number stands among the others: without its sign, a pattern grows with the number
    /// that it stands for.
    pub open spec fn place(self) -> int {
        if self.bits >= SIGN {
            -self.mag()
        } else {
            self.mag()
        }
    }

    /// `self < other`: false where either is not a number.
    pub open spec fn spec_lt(self, other: F64) -> bool {
        !self.nan() && !other.nan() && self.place() < other.place()
    }

    /// `self <= other`: false where either is not a number.
    pub open spec fn spec_le(self, other: F64) -> bool {
        !self.nan() && !other.nan() && self.place() <= other.place()
    }

    fn magnitude(&self) -> (r: u64)
        ensures
            r == self.mag(),
    {
        if self.bits >= SIGN {
            self.bits - SIGN
        } else {
            self.bits
        }
    }

    fn position(&self) -> (r: i64)
        ensures
            r == self.place(),
    {
        if self.bits >= SIGN {
            -((self.bits - SIGN) as i64)
        } else {
            self.bits as i64
        }
    }

    pub fn is_nan(&self) -> (r: bool)
        ensures
            r == self.nan(),
    {
        self.magnitude() > INFINITY
    }

    pub fn less(&self, other: &F64) -> (r: bool)
        ensures
            r == self.spec_lt(*other),
    {
        !self.is_nan() && !other.is_nan() && self.position() < other.position()
    }

    pub fn at_most(&self, other: &F64) -> (r: bool)
        ensures
            r == self.spec_le(*other),
    {
        !self.is_nan() && !other.is_nan() && self.position() <= other.position()
    }
}

/// Numbers above zero are in the order of their patterns, those below in the reverse order and before
/// them; the two zeros are as much as each other. What is not a number is neither less nor as much.
pub proof fn patterns_are_ordered_as_numbers(a: F64, b: F64)
    ensures
        a.bits <= INFINITY && b.bits <= INFINITY ==> (a.spec_lt(b) <==> a.bits < b.bits) && (
        a.spec_le(b) <==> a.bits <= b.bits),
        SIGN <= a.bits <= SIGN + INFINITY && SIGN <= b.bits <= SIGN + INFINITY ==> (a.spec_lt(b)
            <==> b.bits < a.bits) && (a.spec_le(b) <==> b.bits <= a.bits),
        SIGN < a.bits <= SIGN + INFINITY && b.bits <= INFINITY ==> a.spec_lt(b) && !b.spec_le(a),
        a.bits == SIGN && b.bits == 0 ==> a.spec_le(b) && b.spec_le(a),
        INFINITY < a.bits < SIGN || a.bits > SIGN + INFINITY ==> !a.spec_lt(b) && !a.spec_le(b)
            && !b.spec_lt(a) && !b.spec_le(a),
{
}

} // verus!
