//! Double-precision numbers, held as their bits.
use vstd::prelude::*;

verus! {

/// The bits of an IEEE 754 double-precision number.
///
/// The pipeline hands such numbers on to the sampler and compares a few of
/// them, for which the bits suffice.
#[derive(Clone, Copy, Debug, PartialEq, Eq, Structural)]
pub struct Double {
    pub bits: u64,
}

/// The bits of 1.0.
pub const DOUBLE_ONE: u64 = 0x3FF0_0000_0000_0000;

/// The bits of 1.5.
pub const DOUBLE_ONE_AND_A_HALF: u64 = 0x3FF8_0000_0000_0000;

/// The bits of 0.9.
pub const DOUBLE_NINE_TENTHS: u64 = 0x3FEC_CCCC_CCCC_CCCD;

/// The bits of 1.05.
pub const DOUBLE_ONE_POINT_ZERO_FIVE: u64 = 0x3FF0_CCCC_CCCC_CCCD;

/// The bit that holds the sign.
const SIGN: u64 = 0x8000_0000_0000_0000;

/// The bits of infinity, the greatest ones of a number.
const INFINITE: u64 = 0x7FF0_0000_0000_0000;

impl Double {
    /// Whether these are the bits of no number.
    pub open spec fn is_nan(self) -> bool {
        self.bits as int % 0x8000_0000_0000_0000 > 0x7FF0_0000_0000_0000
    }

    /// An integer that orders numbers as they are ordered.
    pub open spec fn order(self) -> int {
        if self.bits < 0x8000_0000_0000_0000 {
            self.bits as int
        } else {
            0x8000_0000_0000_0000 - self.bits
        }
    }

    /// Whether the number is exactly one.
    pub fn is_one(&self) -> (r: bool)
        ensures
            r == (self.bits == DOUBLE_ONE),
    {
        self.bits == DOUBLE_ONE
    }

    /// The greater of the number and a positive floor. What is not a number gives
    /// the floor.
    pub fn at_least(self, floor: Double) -> (r: Double)
        requires
            !floor.is_nan(),
            floor.order() > 0,
        ensures
            r == (if !self.is_nan() && self.order() > floor.order() {
                self
            } else {
                floor
            }),
    {
        if self.bits < SIGN && self.bits <= INFINITE && self.bits > floor.bits {
            self
        } else {
            floor
        }
    }
}

} // verus!
