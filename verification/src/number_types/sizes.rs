//! The numeric widths shared by every part of the codec.

use vstd::prelude::*;

verus! {

/// Maximum number of bits that represent the frequency of a symbol in the data.
pub const FREQUENCY_BITS: u32 = 31;

/// Maximum number of bits an interval boundary can have. It leaves two bits of headroom above
/// `FREQUENCY_BITS`, so that an interval that has not converged is always wider than any total
/// frequency.
pub const INTERVAL_BITS: u32 = 33;

/// The type in which all calculations are carried out. Its width is at least
/// `INTERVAL_BITS + FREQUENCY_BITS`, so a product of an interval width and a frequency fits.
pub type CalculationsType = u64;

} // verus!
