//! A position or a count as an argument gives it: an integer, or one of the
//! two infinities.

use vstd::prelude::*;

verus! {

/// An integer or an infinity.
#[derive(Debug, Clone, Copy, PartialEq, Eq, Structural)]
pub enum IntegerOrInfinity {
    Integer(i64),
    PositiveInfinity,
    NegativeInfinity,
}

impl IntegerOrInfinity {
    /// The value brought into `min..=max`.
    pub open spec fn clamped(self, min: int, max: int) -> int {
        match self {
            IntegerOrInfinity::Integer(i) => if i < min {
                min
            } else if i > max {
                max
            } else {
                i as int
            },
            IntegerOrInfinity::PositiveInfinity => max,
            IntegerOrInfinity::NegativeInfinity => min,
        }
    }

    /// The index that a position counted from the start or, where it is
    /// negative, from the end stands for in a string of `length` code units.
    pub open spec fn relative(self, length: int) -> int {
        match self {
            IntegerOrInfinity::Integer(i) => if i < 0 {
                if length + i < 0 {
                    0
                } else {
                    length + i
                }
            } else if i > length {
                length
            } else {
                i as int
            },
            IntegerOrInfinity::PositiveInfinity => length,
            IntegerOrInfinity::NegativeInfinity => 0,
        }
    }

    /// The value brought into `min..=max`.
    pub fn clamp_finite(self, min: i64, max: i64) -> (r: i64)
        requires
            min <= max,
        ensures
            r == self.clamped(min as int, max as int),
    {
        match self {
            IntegerOrInfinity::Integer(i) => if i < min {
                min
            } else if i > max {
                max
            } else {
                i
            },
            IntegerOrInfinity::PositiveInfinity => max,
            IntegerOrInfinity::NegativeInfinity => min,
        }
    }

    /// The value brought into `0..=length`.
    pub fn clamp_to_length(self, length: usize) -> (r: usize)
        ensures
            r == self.clamped(0, length as int),
    {
        match self {
            IntegerOrInfinity::Integer(i) => if i < 0 {
                0
            } else if i as u64 > length as u64 {
                length
            } else {
                i as usize
            },
            IntegerOrInfinity::PositiveInfinity => length,
            IntegerOrInfinity::NegativeInfinity => 0,
        }
    }

    /// The index for a position that counts from the end where it is
    /// negative, brought into `0..=length`.
    pub fn relative_to_length(self, length: usize) -> (r: usize)
        ensures
            r == self.relative(length as int),
    {
        match self {
            IntegerOrInfinity::Integer(i) => if i < 0 {
                let back: u64 = (-(i + 1)) as u64 + 1;
                if back > length as u64 {
                    0
                } else {
                    length - back as usize
                }
            } else if i as u64 > length as u64 {
                length
            } else {
                i as usize
            },
            IntegerOrInfinity::PositiveInfinity => length,
            IntegerOrInfinity::NegativeInfinity => 0,
        }
    }
}

} // verus!
