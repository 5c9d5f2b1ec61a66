//! Integers restricted to a fixed number of bits.

pub mod bit_ops;
pub mod ordering;

use super::sizes::CalculationsType;
use vstd::arithmetic::power2::{
    lemma2_to64, lemma_pow2_pos, lemma_pow2_strictly_increases, lemma_pow2_unfold, pow2,
};
use vstd::bits::{lemma_u64_pow2_no_overflow, lemma_u64_shl_is_mul};
use vstd::prelude::*;
use vstd::std_specs::bits::{axiom_u64_leading_zeros, u64_leading_zeros};
use vstd::std_specs::convert::FromSpecImpl;

verus! {

/// The largest value that fits in `bits` bits: `2^bits - 1`, capped at the width of
/// `CalculationsType`.
pub open spec fn max_for_bits(bits: u32) -> u64 {
    if bits >= 64 {
        u64::MAX
    } else {
        (pow2(bits as nat) - 1) as u64
    }
}

/// The number of bits needed to write `n` in binary (0 for 0).
pub open spec fn used_bits(n: u64) -> u32
    decreases n,
{
    if n == 0 {
        0
    } else {
        (1 + used_bits(n / 2)) as u32
    }
}

/// `used_bits` never exceeds the width of the calculation type, and counts what
/// `leading_zeros` leaves.
pub proof fn lemma_used_bits_leading_zeros(n: u64)
    ensures
        used_bits(n) <= 64,
        used_bits(n) == 64 - u64_leading_zeros(n),
    decreases n,
{
    reveal(u64_leading_zeros);
    axiom_u64_leading_zeros(n);
    if n != 0 {
        lemma_used_bits_leading_zeros(n / 2);
    }
}

/// A value fits in `bits` bits exactly when it uses at most `bits` bits.
pub proof fn lemma_used_bits_fit(n: u64, bits: u32)
    ensures
        used_bits(n) <= bits <==> n <= max_for_bits(bits),
    decreases n,
{
    lemma_used_bits_leading_zeros(n);
    if bits >= 64 {
    } else if n == 0 {
        lemma_pow2_pos(bits as nat);
    } else {
        lemma_used_bits_leading_zeros(n / 2);
        lemma_u64_pow2_no_overflow(bits as nat);
        if bits == 0 {
            lemma2_to64();
        } else {
            lemma_used_bits_fit(n / 2, (bits - 1) as u32);
            lemma_u64_pow2_no_overflow((bits - 1) as nat);
            lemma_pow2_unfold(bits as nat);
        }
    }
}

/// The number of bits used by a number.
pub fn get_used_bits_num(n: CalculationsType) -> (r: u32)
    ensures
        r == used_bits(n),
        r <= 64,
{
    proof {
        lemma_used_bits_leading_zeros(n);
        axiom_u64_leading_zeros(n);
    }
    CalculationsType::BITS - n.leading_zeros()
}

/// An integer that holds at most `BITS` bits.
#[derive(Copy, Clone, Debug, Eq, Ord)]
pub struct ConstrainedNum<const BITS: u32>(CalculationsType);

/// Why a `ConstrainedNum` could not be made.
#[derive(Debug)]
pub enum BitsConstraintError<const BITS: u32> {
    /// A bits constraint must have at least 1 bit.
    ZeroBitsGiven,
    /// `BITS` is larger than the width of `CalculationsType`.
    BitsConstantTooLarge,
    /// The value uses more bits than `BITS`.
    ValueUsesTooManyBits { value: CalculationsType, used_bits: u32 },
}

impl<const BITS: u32> ConstrainedNum<BITS> {
    /// The number held.
    pub closed spec fn view(&self) -> u64 {
        self.0
    }

    /// The invariant of the type: the number held fits in `BITS` bits.
    #[verifier::type_invariant]
    pub open spec fn fits(&self) -> bool {
        self@ <= max_for_bits(BITS)
    }

    /// The `ConstrainedNum` that holds `value`, for use in contracts.
    pub closed spec fn from_value(value: u64) -> Self {
        ConstrainedNum(value)
    }

    /// `from_value` and the view are inverse to each other.
    pub broadcast proof fn lemma_from_value(value: u64)
        ensures
            (#[trigger] Self::from_value(value))@ == value,
    {
    }

    /// A number is determined by the value it holds.
    pub broadcast proof fn lemma_view_injective(a: Self, b: Self)
        ensures
            #[trigger] a@ == #[trigger] b@ ==> a == b,
    {
    }

    /// What `new` returns for `value`: the first broken rule, or the number that holds `value`.
    pub open spec fn new_spec(value: u64) -> Result<Self, BitsConstraintError<BITS>> {
        if BITS == 0 {
            Err(BitsConstraintError::ZeroBitsGiven)
        } else if BITS > 64 {
            Err(BitsConstraintError::BitsConstantTooLarge)
        } else if value > max_for_bits(BITS) {
            Err(BitsConstraintError::ValueUsesTooManyBits { value, used_bits: used_bits(value) })
        } else {
            Ok(Self::from_value(value))
        }
    }

    /// Creates a new ConstrainedNum.
    ///
    /// `BITS` must be between 1 and the width of `CalculationsType`, and `value` cannot use more
    /// bits than `BITS`; otherwise the error says which rule was broken.
    pub fn new(value: CalculationsType) -> (r: Result<Self, BitsConstraintError<BITS>>)
        ensures
            r == Self::new_spec(value),
            r matches Ok(number) ==> number@ == value,
    {
        if BITS == 0 {
            return Err(BitsConstraintError::ZeroBitsGiven);
        } else if BITS > CalculationsType::BITS {
            return Err(BitsConstraintError::BitsConstantTooLarge);
        }
        let used_bits = get_used_bits_num(value);
        proof {
            lemma_used_bits_fit(value, BITS);
        }
        if used_bits > BITS {
            Err(BitsConstraintError::ValueUsesTooManyBits { value, used_bits })
        } else {
            Ok(Self(value))
        }
    }

    /// Creates a ConstrainedNum holding the value 0, which uses no bits.
    pub fn zero() -> (r: Self)
        ensures
            r@ == 0,
    {
        Self(0)
    }

    /// Creates a ConstrainedNum holding the value 1.
    pub fn one() -> (r: Self)
        requires
            BITS >= 1,
        ensures
            r@ == 1,
    {
        proof {
            if BITS < 64 {
                lemma_pow2_strictly_increases(0, BITS as nat);
                lemma2_to64();
                lemma_u64_pow2_no_overflow(BITS as nat);
            }
        }
        Self(1)
    }

    /// Returns the maximum value allowed using `BITS` bits.
    pub fn max() -> (r: Self)
        ensures
            r@ == max_for_bits(BITS),
    {
        if BITS >= CalculationsType::BITS {
            Self(CalculationsType::MAX)
        } else {
            proof {
                lemma_u64_pow2_no_overflow(BITS as nat);
                lemma_u64_shl_is_mul(1, BITS as u64);
            }
            Self((1u64 << BITS) - 1)
        }
    }

    /// Wraps a value that is known to fit.
    pub(crate) fn new_unchecked(value: CalculationsType) -> (r: Self)
        requires
            value <= max_for_bits(BITS),
        ensures
            r@ == value,
    {
        Self(value)
    }

    /// The number held, as a plain integer. It never exceeds `max_for_bits(BITS)`.
    pub fn value(&self) -> (r: CalculationsType)
        ensures
            r == self@,
            r <= max_for_bits(BITS),
    {
        proof {
            use_type_invariant(self);
        }
        self.0
    }
}

// Allow direct access to the number held:
impl<const BITS: u32> core::ops::Deref for ConstrainedNum<BITS> {
    type Target = CalculationsType;

    fn deref(&self) -> (r: &CalculationsType)
        ensures
            *r == self@,
            *r <= max_for_bits(BITS),
    {
        proof {
            use_type_invariant(self);
        }
        &self.0
    }
}

impl<const BITS: u32> From<ConstrainedNum<BITS>> for CalculationsType {
    fn from(value: ConstrainedNum<BITS>) -> (r: CalculationsType) {
        value.0
    }
}

impl<const BITS: u32> FromSpecImpl<ConstrainedNum<BITS>> for CalculationsType {
    open spec fn obeys_from_spec() -> bool {
        true
    }

    open spec fn from_spec(value: ConstrainedNum<BITS>) -> CalculationsType {
        value@
    }
}

impl<const BITS: u32> From<bool> for ConstrainedNum<BITS> {
    /// `true` becomes 1 and `false` 0. A type of no bits holds 0 alone.
    fn from(value: bool) -> (r: Self)
        ensures
            r@ == (if value && BITS >= 1 {
                1u64
            } else {
                0u64
            }),
    {
        if value && BITS >= 1 {
            Self::one()
        } else {
            Self::zero()
        }
    }
}

impl<const BITS: u32> FromSpecImpl<bool> for ConstrainedNum<BITS> {
    open spec fn obeys_from_spec() -> bool {
        true
    }

    open spec fn from_spec(value: bool) -> Self {
        Self::from_value(
            if value && BITS >= 1 {
                1
            } else {
                0
            },
        )
    }
}

} // verus!
