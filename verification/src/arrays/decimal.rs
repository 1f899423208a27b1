//! Decimal numbers, as the library carries them.

use vstd::prelude::*;

verus! {

/// A decimal number: a 64-bit binary floating-point number, held as its bit
/// pattern. The library stores and moves decimals and never computes with
/// them: every operation on decimals is handed in by the caller.
#[derive(Debug, Clone, Copy)]
pub struct Decimal {
    /// The bit pattern of the number.
    pub bits: u64,
}

impl Decimal {
    /// The decimal with the given bit pattern.
    pub fn from_bits(bits: u64) -> (r: Decimal)
        ensures
            r.bits == bits,
    {
        Decimal { bits }
    }

    /// The bit pattern of the decimal.
    pub fn to_bits(self) -> (r: u64)
        ensures
            r == self.bits,
    {
        self.bits
    }
}

} // verus!
