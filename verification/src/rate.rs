//! Exchange rates as exact values.

use vstd::prelude::*;

verus! {

/// An exchange rate, held as the bit pattern of an IEEE-754 single-precision
/// number.
///
/// The cache never computes with rates, it stores them and hands them back, so
/// it keeps the 32 bits exactly as the rate source delivered them.  Two rates
/// are equal when their bit patterns are.
#[derive(Clone, Copy, Debug, PartialEq, Eq, Structural)]
pub struct Rate {
    pub bits: u32,
}

impl Rate {
    /// The rate with the given bit pattern.
    pub fn from_bits(bits: u32) -> (rate: Rate)
        ensures
            rate.bits == bits,
    {
        Rate { bits }
    }

    /// The bit pattern of the rate.
    pub fn to_bits(self) -> (bits: u32)
        ensures
            bits == self.bits,
    {
        self.bits
    }
}

} // verus!
