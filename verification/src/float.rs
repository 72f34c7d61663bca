//! Single-precision numbers, by their bits.
//!
//! Nothing here computes with them: they are carried, and compared by what the bits say.

use vstd::prelude::*;

verus! {

/// A single-precision number in the IEEE 754 binary format.
#[derive(Debug, Clone, Copy, PartialEq, Eq, Structural)]
pub struct F32 {
    pub bits: u32,
}

impl F32 {
    /// The number with the given bits.
    pub fn from_bits(bits: u32) -> (r: F32)
        ensures
            r.bits == bits,
    {
        F32 { bits }
    }

    /// The bits of the number.
    pub fn to_bits(self) -> (r: u32)
        ensures
            r == self.bits,
    {
        self.bits
    }

    /// Whether the number is above zero: its sign bit is clear, and it is neither zero nor not a
    /// number.
    pub open spec fn positive(self) -> bool {
        1 <= self.bits <= 0x7f80_0000
    }

    /// Whether the number is above zero.
    pub fn is_positive(self) -> (r: bool)
        ensures
            r == self.positive(),
    {
        1 <= self.bits && self.bits <= 0x7f80_0000
    }

    /// Rank of the number in the total order of IEEE 754: negative numbers, largest bits first,
    /// then positive ones, smallest bits first.
    pub open spec fn rank(self) -> int {
        if self.bits >= 0x8000_0000 {
            0xffff_ffff - self.bits
        } else {
            0x8000_0000 + self.bits
        }
    }

    /// Rank of the number in the total order of IEEE 754.
    pub fn order(self) -> (r: u32)
        ensures
            r == self.rank(),
    {
        if self.bits >= 0x8000_0000 {
            0xffff_ffff - self.bits
        } else {
            0x8000_0000 + self.bits
        }
    }
}

} // verus!
