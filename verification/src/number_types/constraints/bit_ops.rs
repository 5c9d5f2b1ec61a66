//! Bitwise operators on bounded integers. Those that could raise the number of bits used mask
//! their result, so every result fits in `BITS` bits again.

use super::{max_for_bits, ConstrainedNum};
use crate::number_types::sizes::CalculationsType;
use core::ops::{BitAnd, BitOr, BitXor, Not, Shl, Shr};
use vstd::prelude::*;
use vstd::std_specs::convert::IntoSpec;
use vstd::std_specs::ops::{
    BitAndSpecImpl, BitOrSpecImpl, BitXorSpecImpl, NotSpecImpl, ShlSpecImpl, ShrSpecImpl,
};

verus! {

impl<const BITS: u32, T: Into<CalculationsType>> BitAnd<T> for ConstrainedNum<BITS> {
    type Output = Self;

    fn bitand(self, rhs: T) -> (r: Self)
        ensures
            T::obeys_into_spec() ==> r@ == self@ & rhs.into_spec(),
            r@ <= max_for_bits(BITS),
            r@ <= self@,
    {
        // Bitand never adds bits, so it is safe to use:
        let lhs: u64 = self.value();
        let mask: u64 = rhs.into();
        let value: u64 = lhs & mask;
        assert(lhs & mask <= lhs) by (bit_vector);
        let r = ConstrainedNum::new_unchecked(value);
        proof {
            ConstrainedNum::<BITS>::lemma_view_injective(r, Self::from_value(value));
        }
        r
    }
}

impl<const BITS: u32, T: Into<CalculationsType>> BitAndSpecImpl<T> for ConstrainedNum<BITS> {
    open spec fn obeys_bitand_spec() -> bool {
        T::obeys_into_spec()
    }

    open spec fn bitand_req(self, rhs: T) -> bool {
        true
    }

    open spec fn bitand_spec(self, rhs: T) -> Self {
        Self::from_value(self@ & rhs.into_spec())
    }
}

impl<const BITS: u32, T: Into<CalculationsType>> BitOr<T> for ConstrainedNum<BITS> {
    type Output = Self;

    fn bitor(self, rhs: T) -> (r: Self)
        ensures
            T::obeys_into_spec() ==> r@ == (self@ | rhs.into_spec()) & max_for_bits(BITS),
            r@ <= max_for_bits(BITS),
    {
        // Bitor can exceed the bits allowed if rhs uses more of them, so mask the result:
        let lhs: u64 = self.value();
        let other: u64 = rhs.into();
        let limit: u64 = Self::max().value();
        let value: u64 = (lhs | other) & limit;
        assert((lhs | other) & limit <= limit) by (bit_vector);
        let r = ConstrainedNum::new_unchecked(value);
        proof {
            ConstrainedNum::<BITS>::lemma_view_injective(r, Self::from_value(value));
        }
        r
    }
}

impl<const BITS: u32, T: Into<CalculationsType>> BitOrSpecImpl<T> for ConstrainedNum<BITS> {
    open spec fn obeys_bitor_spec() -> bool {
        T::obeys_into_spec()
    }

    open spec fn bitor_req(self, rhs: T) -> bool {
        true
    }

    open spec fn bitor_spec(self, rhs: T) -> Self {
        Self::from_value((self@ | rhs.into_spec()) & max_for_bits(BITS))
    }
}

impl<const BITS: u32, T: Into<CalculationsType>> BitXor<T> for ConstrainedNum<BITS> {
    type Output = Self;

    fn bitxor(self, rhs: T) -> (r: Self)
        ensures
            T::obeys_into_spec() ==> r@ == (self@ ^ rhs.into_spec()) & max_for_bits(BITS),
            r@ <= max_for_bits(BITS),
    {
        // Bitxor can exceed the bits allowed if rhs uses more of them, so mask the result:
        let lhs: u64 = self.value();
        let other: u64 = rhs.into();
        let limit: u64 = Self::max().value();
        let value: u64 = (lhs ^ other) & limit;
        assert((lhs ^ other) & limit <= limit) by (bit_vector);
        let r = ConstrainedNum::new_unchecked(value);
        proof {
            ConstrainedNum::<BITS>::lemma_view_injective(r, Self::from_value(value));
        }
        r
    }
}

impl<const BITS: u32, T: Into<CalculationsType>> BitXorSpecImpl<T> for ConstrainedNum<BITS> {
    open spec fn obeys_bitxor_spec() -> bool {
        T::obeys_into_spec()
    }

    open spec fn bitxor_req(self, rhs: T) -> bool {
        true
    }

    open spec fn bitxor_spec(self, rhs: T) -> Self {
        Self::from_value((self@ ^ rhs.into_spec()) & max_for_bits(BITS))
    }
}

impl<const BITS: u32> Not for ConstrainedNum<BITS> {
    type Output = Self;

    fn not(self) -> (r: Self)
        ensures
            r@ == (!self@) & max_for_bits(BITS),
            r@ <= max_for_bits(BITS),
    {
        // Not can increase bits so mask the result:
        let lhs: u64 = self.value();
        let limit: u64 = Self::max().value();
        let value: u64 = (!lhs) & limit;
        assert((!lhs) & limit <= limit) by (bit_vector);
        let r = ConstrainedNum::new_unchecked(value);
        proof {
            ConstrainedNum::<BITS>::lemma_view_injective(r, Self::from_value(value));
        }
        r
    }
}

impl<const BITS: u32> NotSpecImpl for ConstrainedNum<BITS> {
    open spec fn obeys_not_spec() -> bool {
        true
    }

    open spec fn not_req(self) -> bool {
        true
    }

    open spec fn not_spec(self) -> Self {
        Self::from_value((!self@) & max_for_bits(BITS))
    }
}

impl<const BITS: u32, T: Into<CalculationsType>> Shr<T> for ConstrainedNum<BITS> {
    type Output = Self;

    fn shr(self, rhs: T) -> (r: Self)
        ensures
            r@ == self@ >> rhs.into_spec(),
            r@ <= max_for_bits(BITS),
            r@ <= self@,
    {
        // Shr never increases bits, only decreasing them, so don't mask:
        let lhs: u64 = self.value();
        let amount: u64 = rhs.into();
        let value: u64 = lhs >> amount;
        assert(lhs >> amount <= lhs) by (bit_vector);
        let r = ConstrainedNum::new_unchecked(value);
        proof {
            ConstrainedNum::<BITS>::lemma_view_injective(r, Self::from_value(value));
        }
        r
    }
}

impl<const BITS: u32, T: Into<CalculationsType>> ShrSpecImpl<T> for ConstrainedNum<BITS> {
    open spec fn obeys_shr_spec() -> bool {
        T::obeys_into_spec()
    }

    /// The shift amount must be less than the width of `CalculationsType`.
    open spec fn shr_req(self, rhs: T) -> bool {
        T::obeys_into_spec() && rhs.into_spec() < 64
    }

    open spec fn shr_spec(self, rhs: T) -> Self {
        Self::from_value(self@ >> rhs.into_spec())
    }
}

impl<const BITS: u32, T: Into<CalculationsType>> Shl<T> for ConstrainedNum<BITS> {
    type Output = Self;

    fn shl(self, rhs: T) -> (r: Self)
        ensures
            r@ == (self@ << rhs.into_spec()) & max_for_bits(BITS),
            r@ <= max_for_bits(BITS),
    {
        // Shl could potentially increase bits, so mask the result:
        let lhs: u64 = self.value();
        let amount: u64 = rhs.into();
        let limit: u64 = Self::max().value();
        let value: u64 = (lhs << amount) & limit;
        assert((lhs << amount) & limit <= limit) by (bit_vector);
        let r = ConstrainedNum::new_unchecked(value);
        proof {
            ConstrainedNum::<BITS>::lemma_view_injective(r, Self::from_value(value));
        }
        r
    }
}

impl<const BITS: u32, T: Into<CalculationsType>> ShlSpecImpl<T> for ConstrainedNum<BITS> {
    open spec fn obeys_shl_spec() -> bool {
        T::obeys_into_spec()
    }

    /// The shift amount must be less than the width of `CalculationsType`.
    open spec fn shl_req(self, rhs: T) -> bool {
        T::obeys_into_spec() && rhs.into_spec() < 64
    }

    open spec fn shl_spec(self, rhs: T) -> Self {
        Self::from_value((self@ << rhs.into_spec()) & max_for_bits(BITS))
    }
}

} // verus!
