//! Readings, carried by the bit pattern of an IEEE 754 double.

use vstd::prelude::*;

verus! {

/// A reading. Arithmetic on readings is not done here; they are carried and compared.
#[derive(Debug, Clone, Copy, PartialEq, Eq, Structural)]
pub struct Reading {
    /// The bit pattern of the double.
    pub bits: u64,
}

/// The exponent and fraction of a double as one number; they order its magnitude.
pub open spec fn magnitude(bits: u64) -> int {
    bits as int % 0x8000_0000_0000_0000
}

/// The double is negative (or minus zero).
pub open spec fn is_negative(bits: u64) -> bool {
    bits >= 0x8000_0000_0000_0000
}

/// The double is not a number.
pub open spec fn is_nan(bits: u64) -> bool {
    magnitude(bits) > 0x7FF0_0000_0000_0000
}

/// The rank of a double among all doubles; both zeros have rank zero.
pub open spec fn rank_of(bits: u64) -> int {
    if is_negative(bits) {
        -magnitude(bits)
    } else {
        magnitude(bits)
    }
}

impl Reading {
    /// `self < other` as for doubles: never where one is not a number.
    pub open spec fn less(self, other: Reading) -> bool {
        !is_nan(self.bits) && !is_nan(other.bits) && rank_of(self.bits) < rank_of(other.bits)
    }

    /// `self <= other` as for doubles: never where one is not a number.
    pub open spec fn at_most(self, other: Reading) -> bool {
        !is_nan(self.bits) && !is_nan(other.bits) && rank_of(self.bits) <= rank_of(other.bits)
    }

    /// `-self` as for doubles.
    pub open spec fn minus(self) -> Reading {
        Reading {
            bits: if is_negative(self.bits) {
                (self.bits - 0x8000_0000_0000_0000) as u64
            } else {
                (self.bits + 0x8000_0000_0000_0000) as u64
            },
        }
    }

    /// `-self` as for doubles.
    pub fn negated(&self) -> (r: Reading)
        ensures
            r == self.minus(),
    {
        if self.bits >= 0x8000_0000_0000_0000 {
            Reading { bits: self.bits - 0x8000_0000_0000_0000 }
        } else {
            Reading { bits: self.bits + 0x8000_0000_0000_0000 }
        }
    }

    /// The rank of the reading.
    pub fn rank(&self) -> (r: i128)
        ensures
            r == rank_of(self.bits),
    {
        if self.bits >= 0x8000_0000_0000_0000 {
            -((self.bits - 0x8000_0000_0000_0000) as i128)
        } else {
            self.bits as i128
        }
    }

    /// Whether the reading is not a number.
    pub fn is_nan(&self) -> (r: bool)
        ensures
            r == is_nan(self.bits),
    {
        let m: u64 = if self.bits >= 0x8000_0000_0000_0000 {
            self.bits - 0x8000_0000_0000_0000
        } else {
            self.bits
        };
        m > 0x7FF0_0000_0000_0000
    }

    /// `self < other` as for doubles.
    pub fn lt(&self, other: &Reading) -> (r: bool)
        ensures
            r == self.less(*other),
    {
        !self.is_nan() && !other.is_nan() && self.rank() < other.rank()
    }

    /// `self <= other` as for doubles.
    pub fn le(&self, other: &Reading) -> (r: bool)
        ensures
            r == self.at_most(*other),
    {
        !self.is_nan() && !other.is_nan() && self.rank() <= other.rank()
    }

    /// Zero.
    pub fn zero() -> (r: Reading)
        ensures
            r.bits == 0,
    {
        Reading { bits: 0 }
    }
}

/// Of two readings that are numbers, one is less or both have the same rank.
pub proof fn numbers_compare(a: Reading, b: Reading)
    requires
        !is_nan(a.bits),
        !is_nan(b.bits),
    ensures
        a.less(b) || b.less(a) || rank_of(a.bits) == rank_of(b.bits),
        !(a.less(b) && b.at_most(a)),
{
}

/// Doubles order as the numbers they stand for: those without a sign by their bit patterns, those
/// with a sign against theirs, the latter before the former, and both zeros alike. Past the bit
/// pattern of infinity nothing compares.
pub proof fn readings_order_as_numbers(a: Reading, b: Reading)
    ensures
        a.bits <= 0x7FF0_0000_0000_0000 && b.bits <= 0x7FF0_0000_0000_0000 ==> (a.less(b) <==> a.bits < b.bits) && (
        a.at_most(b) <==> a.bits <= b.bits),
        0x8000_0000_0000_0000 <= a.bits <= 0xFFF0_0000_0000_0000 && 0x8000_0000_0000_0000 <= b.bits
            <= 0xFFF0_0000_0000_0000 ==> (a.less(b) <==> b.bits < a.bits) && (a.at_most(b) <==> b.bits <= a.bits),
        0x8000_0000_0000_0000 < a.bits <= 0xFFF0_0000_0000_0000 && b.bits <= 0x7FF0_0000_0000_0000 ==> a.less(b)
            && a.at_most(b) && !b.less(a) && !b.at_most(a),
        a.bits == 0x8000_0000_0000_0000 && b.bits == 0 ==> !a.less(b) && !b.less(a) && a.at_most(b) && b.at_most(a),
        0x7FF0_0000_0000_0000 < a.bits < 0x8000_0000_0000_0000 || a.bits > 0xFFF0_0000_0000_0000 ==> !a.less(b)
            && !b.less(a) && !a.at_most(b) && !b.at_most(a),
{
}

/// What is not less is at least as much, among numbers, and the sign turns the order round.
pub proof fn the_sign_turns_the_order(a: Reading, b: Reading)
    ensures
        a.minus().minus() == a,
        a.less(b) <==> b.minus().less(a.minus()),
        a.at_most(b) <==> b.minus().at_most(a.minus()),
        a.at_most(a) ==> (a.minus().bits != a.bits),
        a.less(b) ==> a.at_most(b) && !b.at_most(a),
        a.at_most(a) && b.at_most(b) && !a.less(b) ==> b.at_most(a),
        0 < a.bits <= 0x7FF0_0000_0000_0000 ==> a.minus().less(a),
{
}

} // verus!
