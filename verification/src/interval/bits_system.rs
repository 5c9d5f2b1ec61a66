//! The constants of the integer representation of fractions.

use crate::number_types::{max_for_bits, ConstrainedNum};
use vstd::bits::{lemma_u64_pow2_no_overflow, lemma_u64_shl_is_mul};
use vstd::prelude::*;

verus! {

/// One half in a system of `bits` bits: the number whose only set bit is the highest one.
pub open spec fn half_for_bits(bits: u32) -> u64 {
    (max_for_bits(bits) / 2 + 1) as u64
}

/// One fourth in a system of `bits` bits.
pub open spec fn one_fourth_for_bits(bits: u32) -> u64 {
    half_for_bits(bits) / 2
}

/// Three fourths in a system of `bits` bits.
pub open spec fn three_fourths_for_bits(bits: u32) -> u64 {
    (half_for_bits(bits) + one_fourth_for_bits(bits)) as u64
}

/// Every Bits System must have at least 2 bits; `bits` were given.
#[derive(Debug, Clone, Copy, PartialEq, Eq)]
pub struct NotEnoughBitsForSystemError {
    pub bits: u32,
}

/// In Arithmetic Coding, we use an integer representation of fractional values to achieve
/// pseudo-infinite precision with finite bits.
///
/// An integer's bits are treated like bits after a decimal point.
/// For example: 0101 (5) would be treated as if it were 0.0101 (0.3125).
///
/// BitsSystem is a struct holding special constants in this integer representation that are
/// vital to Arithmetic Coding. The generic constant BITS is the number of bits used in the
/// system.
#[derive(Debug, Clone, Copy)]
pub struct BitsSystem<const BITS: u32> {
    /// Largest possible value in the integer representation, 0.11..1:
    max: ConstrainedNum<BITS>,
    /// Half in the integer representation, 0.10..0:
    half: ConstrainedNum<BITS>,
    /// One fourth in the integer representation, 0.010..0:
    one_fourth: ConstrainedNum<BITS>,
    /// Three fourths in the integer representation, 0.110..0:
    three_fourths: ConstrainedNum<BITS>,
}

/// How the constants of a system are made of the largest value by bit operations.
proof fn lemma_constants(bits: u64, limit: u64)
    by (bit_vector)
    requires
        2 <= bits,
        bits >= 64 ==> limit == 0xffff_ffff_ffff_ffffu64,
        bits < 64 ==> limit == ((1u64 << bits) - 1) as u64,
    ensures
        (limit ^ (limit >> 1u64)) & limit == ((limit / 2 + 1) as u64),
        ((limit ^ (limit >> 1u64)) & limit) >> 1u64 == ((limit / 2 + 1) as u64) / 2,
        ((limit ^ (limit >> 1u64)) & limit | ((limit ^ (limit >> 1u64)) & limit) >> 1u64) & limit
            == ((((limit / 2 + 1) as u64) + ((limit / 2 + 1) as u64) / 2) as u64),
{
}

impl<const BITS: u32> BitsSystem<BITS> {
    #[verifier::type_invariant]
    spec fn well_formed(self) -> bool {
        &&& BITS >= 2
        &&& self.max@ == max_for_bits(BITS)
        &&& self.half@ == half_for_bits(BITS)
        &&& self.one_fourth@ == one_fourth_for_bits(BITS)
        &&& self.three_fourths@ == three_fourths_for_bits(BITS)
    }

    /// Creates a new bits system. Will fail if _BITS_ is less than 2.
    pub fn new() -> (r: Result<Self, NotEnoughBitsForSystemError>)
        ensures
            r is Ok <==> BITS >= 2,
            r matches Err(e) ==> e.bits == BITS,
    {
        // Check the BITS:
        if BITS < 2 {
            return Err(NotEnoughBitsForSystemError { bits: BITS });
        }
        // Create all constants, ConstraintNum will take care of everything
        let max: ConstrainedNum<BITS> = ConstrainedNum::max();
        let half = max ^ (max >> 1u8);
        let one_fourth = half >> 1u8;
        let three_fourths = half | one_fourth;
        proof {
            if BITS < 64 {
                lemma_u64_pow2_no_overflow(BITS as nat);
                lemma_u64_shl_is_mul(1, BITS as u64);
            }
            lemma_constants(BITS as u64, max@);
            ConstrainedNum::<BITS>::lemma_from_value(max@ >> 1);
            ConstrainedNum::<BITS>::lemma_from_value((max@ ^ (max@ >> 1)) & max@);
            ConstrainedNum::<BITS>::lemma_from_value(half@ >> 1);
            ConstrainedNum::<BITS>::lemma_from_value((half@ | one_fourth@) & max@);
        }

        Ok(Self { max, half, one_fourth, three_fourths })
    }

    pub fn max(&self) -> (r: ConstrainedNum<BITS>)
        ensures
            r@ == max_for_bits(BITS),
    {
        proof {
            use_type_invariant(self);
        }
        self.max
    }

    pub fn half(&self) -> (r: ConstrainedNum<BITS>)
        ensures
            r@ == half_for_bits(BITS),
    {
        proof {
            use_type_invariant(self);
        }
        self.half
    }

    pub fn one_fourth(&self) -> (r: ConstrainedNum<BITS>)
        ensures
            r@ == one_fourth_for_bits(BITS),
    {
        proof {
            use_type_invariant(self);
        }
        self.one_fourth
    }

    pub fn three_fourths(&self) -> (r: ConstrainedNum<BITS>)
        ensures
            r@ == three_fourths_for_bits(BITS),
    {
        proof {
            use_type_invariant(self);
        }
        self.three_fourths
    }
}

} // verus!
