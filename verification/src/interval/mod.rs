//! The interval that arithmetic coding narrows, symbol by symbol.

pub mod bits_system;

pub use self::bits_system::BitsSystem;
use self::bits_system::{half_for_bits, one_fourth_for_bits, three_fourths_for_bits};
use crate::frequencies::{lemma_max_frequency, Cfi};
use crate::number_types::{max_for_bits, CalculationsType, ConstrainedNum, INTERVAL_BITS};
use vstd::arithmetic::div_mod::{lemma_div_is_ordered, lemma_hoist_over_denominator};
use vstd::arithmetic::power2::{lemma2_to64, lemma2_to64_rest};
use vstd::prelude::*;

verus! {

/// Boundary of an interval, an integer representation of a fractional value between 0 and 1.
pub type IntervalBoundary = ConstrainedNum<INTERVAL_BITS>;

/// The number of values that a boundary can take, `2^33`: it stands for 1.
pub open spec fn full_range() -> int {
    0x2_0000_0000
}

/// One half in the integer representation, `2^32`.
pub open spec fn half() -> int {
    0x1_0000_0000
}

/// One fourth in the integer representation, `2^31`.
pub open spec fn one_fourth() -> int {
    0x8000_0000
}

/// Three fourths in the integer representation, `3 * 2^31`.
pub open spec fn three_fourths() -> int {
    0x1_8000_0000
}

/// The constants of the system of `INTERVAL_BITS` bits are those named here.
pub proof fn lemma_interval_constants()
    ensures
        max_for_bits(INTERVAL_BITS) == full_range() - 1,
        half_for_bits(INTERVAL_BITS) == half(),
        one_fourth_for_bits(INTERVAL_BITS) == one_fourth(),
        three_fourths_for_bits(INTERVAL_BITS) == three_fourths(),
{
    lemma2_to64();
    lemma2_to64_rest();
}

/// The state of an interval, based on its boundaries
#[derive(Debug, Clone, Copy, PartialEq, Eq, Structural)]
pub enum IntervalState {
    /// The interval's lower and upper boundaries both have the same Most-Significant Bit, which
    /// means the interval converges to a value.
    /// The value held by the variant is **true** if the MSB is 1, and **false** if it's 0.
    Converging(bool),
    /// The interval nearly converges - a special case that happens when low = 01XX...X and
    /// high = 10YY...Y.
    NearConvergence,
    /// The interval's boundaries do not converge or nearly converge, which is the default
    /// state.
    NoConvergence,
}

/// Setting the boundaries as asked would have broken the invariant `low < high`.
#[derive(Debug, Clone, Copy, PartialEq, Eq, Structural)]
pub struct BoundaryInvariantViolation;

/// The state of the interval `[low, high]`. Converging takes priority over near-convergence.
pub open spec fn state_of(low: int, high: int) -> IntervalState {
    if low >= half() {
        IntervalState::Converging(true)
    } else if high < half() {
        IntervalState::Converging(false)
    } else if low >= one_fourth() && high < three_fourths() {
        IntervalState::NearConvergence
    } else {
        IntervalState::NoConvergence
    }
}

/// A lower boundary (or a value) after its most significant bit is shifted out.
pub open spec fn shifted_low(low: int) -> int {
    (2 * low) % full_range()
}

/// An upper boundary after its most significant bit is shifted out and a 1 is shifted in.
pub open spec fn shifted_high(high: int) -> int {
    (2 * high) % full_range() + 1
}

/// A lower boundary (or a value) after it is shifted left by one and its new most significant
/// bit is flipped: what is left when its second bit is taken out.
pub open spec fn near_shifted_low(low: int) -> int {
    (2 * low + half()) % full_range()
}

/// An upper boundary after its second bit is taken out and a 1 is shifted in.
pub open spec fn near_shifted_high(high: int) -> int {
    (2 * high + half()) % full_range() + 1
}

/// The shifts of the state machine, as the bit operations that carry them out. `bit` is the bit
/// that is shifted in.
pub proof fn lemma_shifts(x: u64, bit: u64)
    by (bit_vector)
    requires
        x < 0x2_0000_0000u64,
        bit <= 1,
    ensures
        (x << 1u64) & 0x1_ffff_ffffu64 == ((2 * x) as u64) % 0x2_0000_0000u64,
        (((x << 1u64) & 0x1_ffff_ffffu64) | bit) & 0x1_ffff_ffffu64 == (((2 * x) as u64)
            % 0x2_0000_0000u64 + bit) as u64,
        (((x << 1u64) & 0x1_ffff_ffffu64) ^ 0x1_0000_0000u64) & 0x1_ffff_ffffu64 == ((2 * x
            + 0x1_0000_0000) as u64) % 0x2_0000_0000u64,
        (((((x << 1u64) & 0x1_ffff_ffffu64) ^ 0x1_0000_0000u64) & 0x1_ffff_ffffu64) | bit)
            & 0x1_ffff_ffffu64 == (((2 * x + 0x1_0000_0000) as u64) % 0x2_0000_0000u64
            + bit) as u64,
        0x1_0000_0000u64 <= x < 0x1_8000_0000u64 ==> ((((((x << 1u64) & 0x1_ffff_ffffu64)
            | 0x1_0000_0000u64) & 0x1_ffff_ffffu64) | 1u64) & 0x1_ffff_ffffu64) == (((2 * x
            + 0x1_0000_0000) as u64) % 0x2_0000_0000u64 + 1) as u64,
        ((x >> 31u64) & 1u64 == 1u64) <==> (x % 0x1_0000_0000u64 >= 0x8000_0000u64),
{
}

/// A shift of the state machine doubles the width of the interval and keeps what lies in it
/// inside.
pub proof fn lemma_shift_widens(low: int, high: int, value: int, bit: int)
    requires
        0 <= low < high < full_range(),
        low <= value <= high,
        0 <= bit <= 1,
    ensures
        state_of(low, high) is Converging ==> {
            &&& shifted_high(high) - shifted_low(low) + 1 == 2 * (high - low + 1)
            &&& 0 <= shifted_low(low) <= shifted_low(value) + bit <= shifted_high(high)
                < full_range()
        },
        state_of(low, high) is NearConvergence ==> {
            &&& near_shifted_high(high) - near_shifted_low(low) + 1 == 2 * (high - low + 1)
            &&& 0 <= near_shifted_low(low) <= near_shifted_low(value) + bit <= near_shifted_high(
                high,
            ) < full_range()
        },
        state_of(low, high) is NoConvergence ==> high - low + 1 > one_fourth() + 1,
{
}

/// The lower boundary after narrowing `[low, high]` by the part `[start / total, end / total)`.
pub open spec fn narrowed_low(low: int, high: int, start: int, total: int) -> int {
    low + ((high - low + 1) * start) / total
}

/// The upper boundary after narrowing `[low, high]` by the part `[start / total, end / total)`.
pub open spec fn narrowed_high(low: int, high: int, end: int, total: int) -> int {
    low + ((high - low + 1) * end) / total - 1
}

/// A part of the width: `0 <= floor(width * part / total) <= width`, and less than `width`
/// when the part is less than the total.
pub proof fn lemma_part_of_width(width: int, part: int, total: int)
    by (nonlinear_arith)
    requires
        0 < width,
        0 <= part <= total,
        0 < total,
    ensures
        0 <= (width * part) / total <= width,
        part < total ==> (width * part) / total < width,
        0 <= width * part <= width * total,
{
}

/// Parts that lie `count` totals apart (after scaling) have floors that lie `count` apart.
pub proof fn lemma_parts_apart(width: int, start: int, end: int, total: int, count: int)
    requires
        0 < total,
        0 <= count,
        0 <= start < end,
        width >= count * total,
    ensures
        (width * end) / total >= (width * start) / total + count,
{
    assert(width * end >= width * start + count * total) by (nonlinear_arith)
        requires
            0 <= start < end,
            width >= count * total,
            0 <= count,
            0 < total,
    ;
    lemma_hoist_over_denominator(width * start, count, total as nat);
    lemma_div_is_ordered(width * start + count * total, width * end, total);
}

/// The narrowed interval lies within the interval that was narrowed. It is not empty when the
/// interval is at least as wide as the total, and it holds more than one value when the
/// interval is at least twice as wide as the total.
pub proof fn lemma_narrowing(low: int, high: int, start: int, end: int, total: int)
    requires
        0 <= low < high,
        0 <= start < end <= total,
    ensures
        low <= narrowed_low(low, high, start, total) <= high,
        narrowed_high(low, high, end, total) <= high,
        high - low + 1 >= total ==> narrowed_low(low, high, start, total) <= narrowed_high(
            low,
            high,
            end,
            total,
        ),
        high - low + 1 >= 2 * total ==> narrowed_low(low, high, start, total) < narrowed_high(
            low,
            high,
            end,
            total,
        ),
{
    let width = high - low + 1;
    lemma_part_of_width(width, start, total);
    lemma_part_of_width(width, end, total);
    if width >= total {
        lemma_parts_apart(width, start, end, total, 1);
    }
    if width >= 2 * total {
        lemma_parts_apart(width, start, end, total, 2);
    }
}

/// An interval containing values between 0 and 1 using the integer representation for
/// fractional values.
#[derive(Debug, Clone, Copy)]
pub struct Interval {
    /// Lower boundary of the interval
    low: IntervalBoundary,
    /// Upper boundary of the interval
    high: IntervalBoundary,
    /// The BitsSystem of the interval
    system: BitsSystem<INTERVAL_BITS>,
}

impl Interval {
    /// The lower boundary.
    pub closed spec fn spec_low(&self) -> int {
        self.low@ as int
    }

    /// The upper boundary.
    pub closed spec fn spec_high(&self) -> int {
        self.high@ as int
    }

    /// The constants of the interval's system of bits.
    pub closed spec fn spec_system(&self) -> BitsSystem<INTERVAL_BITS> {
        self.system
    }

    /// The invariant of an interval: `low < high`, both below `full_range()`.
    pub open spec fn wf(&self) -> bool {
        0 <= self.spec_low() < self.spec_high() < full_range()
    }

    /// The number of values in the interval.
    pub open spec fn width(&self) -> int {
        self.spec_high() - self.spec_low() + 1
    }

    /// The state of the interval.
    pub open spec fn state(&self) -> IntervalState {
        state_of(self.spec_low(), self.spec_high())
    }

    /// Forms a new Interval that represents the mathematical interval [0, 1).
    pub fn full_interval() -> (r: Self)
        ensures
            r.wf(),
            r.spec_low() == 0,
            r.spec_high() == full_range() - 1,
    {
        let system: BitsSystem<INTERVAL_BITS> = BitsSystem::new().unwrap();
        proof {
            lemma_interval_constants();
        }
        Self { low: IntervalBoundary::zero(), high: IntervalBoundary::max(), system }
    }

    /// Updates the interval's boundaries based on a Cumulative-Frequency-Interval: narrows the
    /// interval to the part of it that the CFI stands for.
    ///
    /// ## Possible Failures
    /// If the interval boundaries resulting from the update break the interval's invariant, an
    /// error will be returned and the interval stays as it was.
    pub fn update(&mut self, cfi: Cfi) -> (r: Result<(), BoundaryInvariantViolation>)
        requires
            old(self).wf(),
            cfi.wf(),
        ensures
            r is Ok <==> narrowed_low(
                old(self).spec_low(),
                old(self).spec_high(),
                cfi.start@ as int,
                cfi.total@ as int,
            ) < narrowed_high(
                old(self).spec_low(),
                old(self).spec_high(),
                cfi.end@ as int,
                cfi.total@ as int,
            ),
            r is Ok ==> final(self).wf() && final(self).spec_low() == narrowed_low(
                old(self).spec_low(),
                old(self).spec_high(),
                cfi.start@ as int,
                cfi.total@ as int,
            ) && final(self).spec_high() == narrowed_high(
                old(self).spec_low(),
                old(self).spec_high(),
                cfi.end@ as int,
                cfi.total@ as int,
            ),
            r is Err ==> *final(self) == *old(self),
    {
        let low: CalculationsType = self.low.value();
        let high: CalculationsType = self.high.value();
        let start: CalculationsType = cfi.start.value();
        let end: CalculationsType = cfi.end.value();
        let total: CalculationsType = cfi.total.value();
        // Compute the width of the interval:
        let width: CalculationsType = high - low + 1;
        proof {
            lemma_interval_constants();
            lemma_max_frequency();
            lemma_part_of_width(width as int, start as int, total as int);
            lemma_part_of_width(width as int, end as int, total as int);
            assert(width * total <= 0x2_0000_0000 * 0x7fff_ffff) by (nonlinear_arith)
                requires
                    0 <= width <= 0x2_0000_0000,
                    0 <= total <= 0x7fff_ffff,
            ;
        }

        // Compute the new values for high and low:
        let low_part: CalculationsType = (width * start) / total;
        let high_part: CalculationsType = (width * end) / total;
        // Don't forget to decrement high by 1:
        if high_part == 0 {
            return Err(BoundaryInvariantViolation);
        }
        let new_low = IntervalBoundary::new_unchecked(low + low_part);
        let new_high = IntervalBoundary::new_unchecked(low + high_part - 1);

        // Set boundaries:
        self.set_boundaries(new_low, new_high)
    }

    pub fn get_state(&self) -> (r: IntervalState)
        requires
            self.wf(),
        ensures
            r == self.state(),
    {
        proof {
            lemma_interval_constants();
        }
        let low: CalculationsType = self.low.value();
        let high: CalculationsType = self.high.value();
        // Check convergence:
        if low >= self.system.half().value() {
            IntervalState::Converging(true)
        } else if high < self.system.half().value() {
            IntervalState::Converging(false)
        }
        // Check near-convergence:
         else if low >= self.system.one_fourth().value() && high
            < self.system.three_fourths().value() {
            IntervalState::NearConvergence
        }
        // Default:
         else {
            IntervalState::NoConvergence
        }
    }

    pub fn low(&self) -> (r: IntervalBoundary)
        ensures
            r@ == self.spec_low(),
    {
        self.low
    }

    pub fn high(&self) -> (r: IntervalBoundary)
        ensures
            r@ == self.spec_high(),
    {
        self.high
    }

    /// Sets both boundaries, unless that would break the invariant `low < high`.
    pub fn set_boundaries(&mut self, new_low: IntervalBoundary, new_high: IntervalBoundary) -> (r:
        Result<(), BoundaryInvariantViolation>)
        ensures
            r is Ok <==> new_low@ < new_high@,
            r is Ok ==> final(self).wf() && final(self).spec_low() == new_low@ && final(self).spec_high() == new_high@,
            r is Err ==> *final(self) == *old(self),
    {
        match Self::validate_boundaries_invariant(&new_low, &new_high) {
            Ok(()) => {
                self.low = new_low;
                self.high = new_high;
                Ok(())
            },
            Err(e) => Err(e),
        }
    }

    /// Sets the lower boundary, unless that would break the invariant `low < high`.
    pub fn set_low(&mut self, new_low: IntervalBoundary) -> (r: Result<
        (),
        BoundaryInvariantViolation,
    >)
        ensures
            r is Ok <==> new_low@ < old(self).spec_high(),
            r is Ok ==> final(self).wf() && final(self).spec_low() == new_low@ && final(self).spec_high() == old(self).spec_high(),
            r is Err ==> *final(self) == *old(self),
    {
        match Self::validate_boundaries_invariant(&new_low, &self.high) {
            Ok(()) => {
                self.low = new_low;
                Ok(())
            },
            Err(e) => Err(e),
        }
    }

    /// Sets the upper boundary, unless that would break the invariant `low < high`.
    pub fn set_high(&mut self, new_high: IntervalBoundary) -> (r: Result<
        (),
        BoundaryInvariantViolation,
    >)
        ensures
            r is Ok <==> old(self).spec_low() < new_high@,
            r is Ok ==> final(self).wf() && final(self).spec_low() == old(self).spec_low()
                && final(self).spec_high() == new_high@,
            r is Err ==> *final(self) == *old(self),
    {
        match Self::validate_boundaries_invariant(&self.low, &new_high) {
            Ok(()) => {
                self.high = new_high;
                Ok(())
            },
            Err(e) => Err(e),
        }
    }

    pub fn system(&self) -> (r: &BitsSystem<INTERVAL_BITS>)
        ensures
            *r == self.spec_system(),
    {
        &self.system
    }

    /// Validates that setting the interval's boundaries to the proposed ones will not break the
    /// boundaries invariant `low < high`.
    fn validate_boundaries_invariant(new_low: &IntervalBoundary, new_high: &IntervalBoundary) -> (r:
        Result<(), BoundaryInvariantViolation>)
        ensures
            r is Ok <==> new_low@ < new_high@,
            new_low@ < full_range(),
            new_high@ < full_range(),
    {
        proof {
            lemma_interval_constants();
        }
        let low: CalculationsType = new_low.value();
        let high: CalculationsType = new_high.value();
        if low < high {
            Ok(())
        } else {
            Err(BoundaryInvariantViolation)
        }
    }
}

} // verus!
