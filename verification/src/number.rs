//! Numbers, held as IEEE-754 binary64 bit patterns.
//!
//! Order, equality and negation of such numbers are functions of the bits
//! alone and are computed here. Sums, differences, products and quotients are
//! not: the machine hands the operands to its caller (see `vm`).

use vstd::prelude::*;
use vstd::std_specs::cmp::PartialEqSpecImpl;

verus! {

/// The sign bit of a binary64 bit pattern.
pub const SIGN: u64 = 0x8000_0000_0000_0000;

/// The bit pattern of positive infinity. Larger magnitudes are not numbers.
pub const INFINITY: u64 = 0x7ff0_0000_0000_0000;

/// The bits without the sign bit.
pub open spec fn magnitude(bits: u64) -> u64 {
    if bits >= SIGN {
        (bits - SIGN) as u64
    } else {
        bits
    }
}

/// Whether the bits stand for no number (NaN).
pub open spec fn is_nan(bits: u64) -> bool {
    magnitude(bits) > INFINITY
}

/// Where a number stands among the numbers: for two bit patterns that are
/// numbers, the one with the smaller rank is the smaller number. Both zeros
/// have rank 0.
pub open spec fn rank(bits: u64) -> int {
    if bits >= SIGN {
        -(magnitude(bits) as int)
    } else {
        magnitude(bits) as int
    }
}

/// `a < b` as numbers. False when either is NaN.
pub open spec fn less(a: u64, b: u64) -> bool {
    !is_nan(a) && !is_nan(b) && rank(a) < rank(b)
}

/// `a == b` as numbers: false when either is NaN, and true of the two zeros.
pub open spec fn equal(a: u64, b: u64) -> bool {
    !is_nan(a) && !is_nan(b) && rank(a) == rank(b)
}

/// The bits of `-x`: those of `x` with the sign bit turned.
pub open spec fn negated(bits: u64) -> u64 {
    if bits >= SIGN {
        (bits - SIGN) as u64
    } else {
        (bits + SIGN) as u64
    }
}

/// A number, by its bits.
#[derive(Clone, Copy, Debug)]
pub struct Number {
    pub bits: u64,
}

impl Number {
    pub fn from_bits(bits: u64) -> (number: Number)
        ensures
            number.bits == bits,
    {
        Number { bits }
    }

    pub fn to_bits(&self) -> (bits: u64)
        ensures
            bits == self.bits,
    {
        self.bits
    }

    fn magnitude(&self) -> (m: u64)
        ensures
            m == magnitude(self.bits),
    {
        if self.bits >= SIGN {
            self.bits - SIGN
        } else {
            self.bits
        }
    }

    pub fn is_nan(&self) -> (nan: bool)
        ensures
            nan == is_nan(self.bits),
    {
        self.magnitude() > INFINITY
    }

    pub fn negate(&self) -> (number: Number)
        ensures
            number.bits == negated(self.bits),
    {
        if self.bits >= SIGN {
            Number { bits: self.bits - SIGN }
        } else {
            Number { bits: self.bits + SIGN }
        }
    }

    pub fn less_than(&self, other: &Number) -> (r: bool)
        ensures
            r == less(self.bits, other.bits),
    {
        if self.is_nan() || other.is_nan() {
            return false;
        }
        let a = self.magnitude();
        let b = other.magnitude();
        if self.bits >= SIGN {
            if other.bits >= SIGN {
                b < a
            } else {
                a != 0 || b != 0
            }
        } else {
            other.bits < SIGN && a < b
        }
    }

    pub fn greater_than(&self, other: &Number) -> (r: bool)
        ensures
            r == less(other.bits, self.bits),
    {
        other.less_than(self)
    }

    pub fn equals(&self, other: &Number) -> (r: bool)
        ensures
            r == equal(self.bits, other.bits),
    {
        if self.is_nan() || other.is_nan() {
            return false;
        }
        let a = self.magnitude();
        let b = other.magnitude();
        if a == 0 && b == 0 {
            true
        } else {
            self.bits == other.bits
        }
    }
}

impl PartialEq for Number {
    fn eq(&self, other: &Number) -> (r: bool) {
        self.equals(other)
    }
}

impl PartialEqSpecImpl for Number {
    open spec fn obeys_eq_spec() -> bool {
        true
    }

    open spec fn eq_spec(&self, other: &Number) -> bool {
        equal(self.bits, other.bits)
    }
}

/// Negating twice gives the number back, and negation turns the order round.
pub proof fn lemma_negation(a: u64, b: u64)
    ensures
        negated(negated(a)) == a,
        is_nan(negated(a)) == is_nan(a),
        less(negated(a), negated(b)) == less(b, a),
        equal(negated(a), negated(b)) == equal(a, b),
{
}

/// Of two numbers exactly one holds: the first is less, they are equal, or the
/// second is less. Of a NaN none holds.
pub proof fn lemma_order(a: u64, b: u64)
    ensures
        !is_nan(a) && !is_nan(b) ==> (less(a, b) || equal(a, b) || less(b, a)),
        !(less(a, b) && equal(a, b)),
        !(less(a, b) && less(b, a)),
        is_nan(a) || is_nan(b) ==> !less(a, b) && !equal(a, b) && !less(b, a),
{
}

} // verus!
