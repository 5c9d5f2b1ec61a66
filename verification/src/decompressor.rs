//! The decoder: follows the interval of the encoder with a window on the compressed bits, and
//! reads off the symbols that the encoder was given.

use crate::bit_buffer::bit_iter::BitIterator;
use crate::frequencies::{lemma_max_frequency, max_frequency, Cfi, Frequency};
use crate::interval::{
    full_range, lemma_interval_constants, lemma_narrowing, lemma_part_of_width,
    lemma_parts_apart, lemma_shift_widens, lemma_shifts, narrowed_high, narrowed_low,
    near_shifted_high, near_shifted_low, shifted_high, shifted_low, state_of,
    BoundaryInvariantViolation, Interval, IntervalBoundary, IntervalState,
};
use crate::models::{Model, ModelCfiError, ModelUpdateError};
use crate::number_types::{CalculationsType, ConstrainedNum, INTERVAL_BITS};
use crate::sim::Symbol;
use vstd::arithmetic::div_mod::{
    lemma_div_is_ordered, lemma_div_multiples_vanish, lemma_fundamental_div_mod,
    lemma_mod_bound,
};
use vstd::arithmetic::power2::{
    lemma2_to64, lemma2_to64_rest, lemma_pow2_strictly_increases, lemma_pow2_unfold, pow2,
};
use vstd::prelude::*;

verus! {

/// Upper limit for the number of bits the Decompressor will try to read after its source of
/// bits is depleted
pub const TIMEOUT_BITS: usize = 33;

/// Decompressor timed out: an EOF was not found in the given bits
#[derive(Debug, Clone, Copy, PartialEq, Eq, Structural)]
pub struct DecompressionTimeout;

/// Why no symbol could be decompressed.
#[derive(Debug, Clone, PartialEq, Eq)]
pub enum DecompressionError {
    /// An EOF was not found in the given bits.
    Timeout(DecompressionTimeout),
    /// The model has no frequencies at all, so no cumulative frequency can be read off.
    InvalidCumulativeFrequency,
    /// The model has no symbol for the cumulative frequency that was read off.
    UnknownSymbol,
    /// The model has no CFI for the symbol that it found.
    Model(ModelCfiError),
    /// The model did not take the update.
    Update(ModelUpdateError),
    /// The CFI leaves no room in the interval.
    Interval(BoundaryInvariantViolation),
}

/// The bit that is read next from `bits`: the first of them, or 0 when there is none left.
pub open spec fn next_bit(bits: Seq<bool>) -> int {
    if bits.len() > 0 && bits[0] {
        1
    } else {
        0
    }
}

/// The bits that are left when one has been read.
pub open spec fn after_bit(bits: Seq<bool>) -> Seq<bool> {
    if bits.len() > 0 {
        bits.skip(1)
    } else {
        bits
    }
}

/// How many bits are made up when `count` bits are read from `bits`: those that `bits` lacks.
pub open spec fn made_up(bits: Seq<bool>, count: nat) -> nat {
    if count > bits.len() {
        (count - bits.len()) as nat
    } else {
        0
    }
}

/// The bits that are left when `count` bits have been read from `bits`.
pub open spec fn after_bits(bits: Seq<bool>, count: nat) -> Seq<bool> {
    if count > bits.len() {
        Seq::empty()
    } else {
        bits.skip(count as int)
    }
}

/// The value after `count` more bits are shifted into it from `bits`, the first bit first.
pub open spec fn loaded_value(value: int, bits: Seq<bool>, count: nat) -> int
    decreases count,
{
    if count == 0 {
        value
    } else {
        loaded_value(shifted_low(value) + next_bit(bits), after_bit(bits), (count - 1) as nat)
    }
}

/// What the state machine of the decoder leaves behind when it has run: the interval, the
/// value, and the number of bits that it has read.
pub struct DecoderSettled {
    pub low: int,
    pub high: int,
    pub value: int,
    pub consumed: nat,
}

/// The state machine of the decoder, run on the interval `[low, high]` and the value `value`
/// until the interval neither converges nor nearly converges. It does to the interval what the
/// encoder's does, and the same to the value, into which it shifts one bit of `bits` each time.
pub open spec fn settle_decoder(low: int, high: int, value: int, bits: Seq<bool>) -> DecoderSettled
    decreases full_range() - (high - low + 1),
    when 0 <= low < high < full_range()
{
    match state_of(low, high) {
        IntervalState::Converging(_) => {
            let rest = settle_decoder(
                shifted_low(low),
                shifted_high(high),
                shifted_low(value) + next_bit(bits),
                after_bit(bits),
            );
            DecoderSettled {
                low: rest.low,
                high: rest.high,
                value: rest.value,
                consumed: rest.consumed + 1,
            }
        },
        IntervalState::NearConvergence => {
            let rest = settle_decoder(
                near_shifted_low(low),
                near_shifted_high(high),
                near_shifted_low(value) + next_bit(bits),
                after_bit(bits),
            );
            DecoderSettled {
                low: rest.low,
                high: rest.high,
                value: rest.value,
                consumed: rest.consumed + 1,
            }
        },
        IntervalState::NoConvergence => DecoderSettled { low, high, value, consumed: 0 },
    }
}

/// What the state machine leaves behind is an interval that neither converges nor nearly
/// converges, with the value still in it. Each bit that it has read has doubled the width of
/// the interval, so it has read fewer bits than a boundary has; if it has read none, nothing
/// has changed.
pub proof fn lemma_settle_decoder(low: int, high: int, value: int, bits: Seq<bool>)
    requires
        0 <= low < high < full_range(),
        low <= value <= high,
    ensures
        ({
            let settled = settle_decoder(low, high, value, bits);
            &&& 0 <= settled.low <= settled.value <= settled.high < full_range()
            &&& settled.low < settled.high
            &&& state_of(settled.low, settled.high) == IntervalState::NoConvergence
            &&& settled.high - settled.low + 1 == (high - low + 1) * pow2(settled.consumed)
            &&& settled.consumed < INTERVAL_BITS
            &&& settled.consumed == 0 ==> settled.low == low && settled.high == high
                && settled.value == value
        }),
    decreases full_range() - (high - low + 1),
{
    let width = high - low + 1;
    let settled = settle_decoder(low, high, value, bits);
    lemma_shift_widens(low, high, value, next_bit(bits));
    lemma2_to64();
    match state_of(low, high) {
        IntervalState::Converging(_) => {
            lemma_settle_decoder(
                shifted_low(low),
                shifted_high(high),
                shifted_low(value) + next_bit(bits),
                after_bit(bits),
            );
            lemma_pow2_unfold(settled.consumed);
            assert((2 * width) * pow2((settled.consumed - 1) as nat) == width * (2 * pow2(
                (settled.consumed - 1) as nat,
            ))) by (nonlinear_arith);
        },
        IntervalState::NearConvergence => {
            lemma_settle_decoder(
                near_shifted_low(low),
                near_shifted_high(high),
                near_shifted_low(value) + next_bit(bits),
                after_bit(bits),
            );
            lemma_pow2_unfold(settled.consumed);
            assert((2 * width) * pow2((settled.consumed - 1) as nat) == width * (2 * pow2(
                (settled.consumed - 1) as nat,
            ))) by (nonlinear_arith);
        },
        IntervalState::NoConvergence => {
            assert(width * 1 == width);
        },
    }
    // An interval of two values or more cannot be doubled as often as a boundary has bits:
    if settled.consumed >= INTERVAL_BITS {
        lemma2_to64_rest();
        if settled.consumed > INTERVAL_BITS {
            lemma_pow2_strictly_increases(INTERVAL_BITS as nat, settled.consumed);
        }
        assert(width * pow2(settled.consumed) >= 2 * pow2(settled.consumed)) by (nonlinear_arith)
            requires
                width >= 2,
                pow2(settled.consumed) >= 0,
        ;
    }
}

/// The cumulative frequency that the value stands for in the interval `[low, high]`, for a
/// model whose frequencies sum up to `total`.
pub open spec fn cum_freq_of(total: int, low: int, high: int, value: int) -> int {
    (total * (value - low + 1) - 1) / (high - low + 1)
}

/// The cumulative frequency that a value in the interval stands for lies below the total.
pub proof fn lemma_cum_freq_of(total: int, low: int, high: int, value: int)
    requires
        0 < total,
        0 <= low <= value <= high,
    ensures
        0 <= cum_freq_of(total, low, high, value) < total,
        0 <= total * (value - low + 1) - 1 < total * (high - low + 1),
{
    let width = high - low + 1;
    let part = value - low + 1;
    assert(total <= total * part <= total * width) by (nonlinear_arith)
        requires
            0 < total,
            1 <= part <= width,
    ;
    lemma_div_is_ordered(0, total * part - 1, width);
    lemma_div_is_ordered(total * part - 1, total * width - 1, width);
    lemma_fundamental_div_mod(total * width - 1, width);
    lemma_mod_bound(total * width - 1, width);
    assert((total * width - 1) / width < total) by (nonlinear_arith)
        requires
            0 < width,
            total * width - 1 == width * ((total * width - 1) / width) + (total * width - 1)
                % width,
            0 <= (total * width - 1) % width < width,
    ;
}

/// Narrowing the interval by the CFI that contains the cumulative frequency of the value keeps
/// the value in the interval.
pub proof fn lemma_narrowing_keeps_value(
    low: int,
    high: int,
    value: int,
    start: int,
    end: int,
    total: int,
)
    requires
        0 <= low <= value <= high,
        0 <= start < end <= total,
        start <= cum_freq_of(total, low, high, value) < end,
    ensures
        narrowed_low(low, high, start, total) <= value <= narrowed_high(low, high, end, total),
{
    let width = high - low + 1;
    let part = value - low + 1;
    let cf = cum_freq_of(total, low, high, value);
    let product = total * part - 1;
    lemma_fundamental_div_mod(product, width);
    lemma_mod_bound(product, width);
    // start <= cf gives width * start <= product, so the floor of width * start / total is
    // less than part:
    assert(width * start <= product) by (nonlinear_arith)
        requires
            0 <= start <= cf,
            0 < width,
            product == width * cf + product % width,
            0 <= product % width,
    ;
    lemma_div_is_ordered(width * start, total * part - 1, total);
    lemma_fundamental_div_mod(total * part - 1, total);
    lemma_mod_bound(total * part - 1, total);
    assert((total * part - 1) / total < part) by (nonlinear_arith)
        requires
            0 < total,
            total * part - 1 == total * ((total * part - 1) / total) + (total * part - 1)
                % total,
            0 <= (total * part - 1) % total,
    ;
    // cf < end gives total * part <= width * end, so part is at most the floor of
    // width * end / total:
    assert(total * part <= width * end) by (nonlinear_arith)
        requires
            cf + 1 <= end,
            0 < width,
            product == width * cf + product % width,
            product % width < width,
            product == total * part - 1,
    ;
    lemma_div_is_ordered(total * part, width * end, total);
    lemma_div_multiples_vanish(part, total);
    assert(total * part == part * total) by (nonlinear_arith);
}

/// Narrowing by a CFI that is not the whole range leaves fewer values than there were, in an
/// interval that is as wide as the total or wider.
pub proof fn lemma_narrowing_shrinks(low: int, high: int, start: int, end: int, total: int)
    requires
        0 <= low < high,
        0 <= start < end <= total,
        end - start < total,
        high - low + 1 >= total,
    ensures
        narrowed_high(low, high, end, total) - narrowed_low(low, high, start, total) < high - low,
{
    let width = high - low + 1;
    lemma_part_of_width(width, end, total);
    lemma_part_of_width(width, start, total);
    if start > 0 {
        lemma_parts_apart(width, 0, start, total, 1);
        assert(width * 0 == 0);
    }
}

pub struct Decompressor<'a, M: Model> {
    /// Iterator over compressed bits
    bits_iter: BitIterator,
    /// Current interval in the decompression stage
    interval: Interval,
    /// Current value from the input, used to locate the next symbol's interval within the
    /// current interval
    value: ConstrainedNum<INTERVAL_BITS>,
    /// Probability model, must be the same as the compressor's model for the decompression to
    /// work
    model: &'a mut M,
    /// Counter for number of times a bit outside of `bits_iter` was inserted into `value`
    timeout_bits: usize,
}

impl<'a, M: Model> Decompressor<'a, M> {
    /// The lower boundary of the interval.
    pub closed spec fn low(&self) -> int {
        self.interval.spec_low()
    }

    /// The upper boundary of the interval.
    pub closed spec fn high(&self) -> int {
        self.interval.spec_high()
    }

    /// The window on the compressed bits.
    pub closed spec fn value(&self) -> int {
        self.value@ as int
    }

    /// The compressed bits that have not been read yet.
    pub closed spec fn remaining(&self) -> Seq<bool> {
        self.bits_iter@
    }

    /// The number of bits that were made up after the compressed bits had run out.
    pub closed spec fn timeout(&self) -> nat {
        self.timeout_bits as nat
    }

    /// The model that the decompressor works with.
    pub closed spec fn model(&self) -> &'a mut M {
        self.model
    }

    /// Between calls the interval neither converges nor nearly converges, the value lies in
    /// it, and the model is in order.
    pub open spec fn wf(&self) -> bool {
        &&& 0 <= self.low() <= self.value() <= self.high() < full_range()
        &&& self.low() < self.high()
        &&& state_of(self.low(), self.high()) == IntervalState::NoConvergence
        &&& self.timeout() <= 2 * TIMEOUT_BITS
        &&& self.model().wf()
    }

    /// Creates a new decompressor object from a statistical model and a bits iterator.
    ///
    /// Note that if the model implements the `update` and `flush` functions, it is the
    /// **responsibility of the CALLER** to make sure the state of the model is not affected by
    /// previous operations (i.e: call the `flush` function if needed).
    pub fn new(model: &'a mut M, compressed_bits: BitIterator) -> (r: Self)
        requires
            old(model).wf(),
        ensures
            r.wf(),
            r.low() == 0,
            r.high() == full_range() - 1,
            r.value() == loaded_value(0, compressed_bits@, INTERVAL_BITS as nat),
            r.remaining() == after_bits(compressed_bits@, INTERVAL_BITS as nat),
            r.timeout() == made_up(compressed_bits@, INTERVAL_BITS as nat),
            *r.model() == *old(model),
            *final(r.model()) == *final(model),
    {
        let mut this = Self {
            bits_iter: compressed_bits,
            interval: Interval::full_interval(),
            value: ConstrainedNum::zero(),
            model,
            timeout_bits: 0,
        };

        // Load bits into value:
        this.load_bits_to_value(INTERVAL_BITS);
        proof {
            lemma_interval_constants();
        }
        this
    }

    /// Shifts bits from `bits_iter` into `value`, its most significant bit out. If `bits_iter`
    /// is empty, zero bits will be inserted into `value`.
    fn load_bits_to_value(&mut self, bits_num: u32)
        requires
            old(self).timeout_bits + bits_num <= usize::MAX,
        ensures
            final(self).value() < full_range(),
            final(self).value() == loaded_value(
                old(self).value(),
                old(self).remaining(),
                bits_num as nat,
            ),
            final(self).remaining() == after_bits(old(self).remaining(), bits_num as nat),
            final(self).timeout() == old(self).timeout() + made_up(
                old(self).remaining(),
                bits_num as nat,
            ),
            final(self).interval == old(self).interval,
            *final(self).model == *old(self).model,
            *final(final(self).model) == *final(old(self).model),
    {
        let mut loaded: u32 = 0;
        proof {
            lemma_interval_constants();
            use_type_invariant(self.value);
            assert(self.remaining() =~= after_bits(old(self).remaining(), 0));
        }
        while loaded < bits_num
            invariant
                loaded <= bits_num,
                old(self).timeout_bits + bits_num <= usize::MAX,
                self.value() < full_range(),
                loaded_value(self.value(), self.remaining(), (bits_num - loaded) as nat)
                    == loaded_value(old(self).value(), old(self).remaining(), bits_num as nat),
                self.remaining() == after_bits(old(self).remaining(), loaded as nat),
                self.timeout() == old(self).timeout() + made_up(
                    old(self).remaining(),
                    loaded as nat,
                ),
                self.interval == old(self).interval,
                *self.model == *old(self).model,
                *final(self.model) == *final(old(self).model),
            decreases bits_num - loaded,
        {
            let ghost value = self.value();
            let ghost bits = self.remaining();
            let shifted = self.value << 1u8;
            let bit = self.get_next_bit();
            self.value = shifted | bit;
            proof {
                lemma_interval_constants();
                use_type_invariant(self.value);
                lemma_shifts(value as u64, bit@);
                assert(self.remaining() =~= after_bits(
                    old(self).remaining(),
                    (loaded + 1) as nat,
                ));
            }
            loaded += 1;
        }
    }

    /// Retrieve the next bit from the iterator as a ConstrainedNum, or returns 0 if `bits_iter`
    /// is empty.
    fn get_next_bit(&mut self) -> (r: ConstrainedNum<INTERVAL_BITS>)
        requires
            old(self).timeout_bits < usize::MAX,
        ensures
            r@ == next_bit(old(self).remaining()),
            final(self).remaining() == after_bit(old(self).remaining()),
            final(self).timeout() == old(self).timeout() + made_up(old(self).remaining(), 1),
            final(self).interval == old(self).interval,
            final(self).value == old(self).value,
            *final(self).model == *old(self).model,
            *final(final(self).model) == *final(old(self).model),
    {
        match self.bits_iter.next() {
            // Add 1 to timeout bits:
            None => {
                self.timeout_bits += 1;
                ConstrainedNum::zero()
            },
            Some(b) => b.into(),
        }
    }

    /// Processes the state of the interval until it is non-converging
    fn process_interval_state(&mut self)
        requires
            old(self).interval.wf(),
            old(self).low() <= old(self).value() <= old(self).high(),
            old(self).timeout_bits <= TIMEOUT_BITS,
        ensures
            ({
                let settled = settle_decoder(
                    old(self).low(),
                    old(self).high(),
                    old(self).value(),
                    old(self).remaining(),
                );
                &&& final(self).low() == settled.low
                &&& final(self).high() == settled.high
                &&& final(self).value() == settled.value
                &&& final(self).remaining() == after_bits(old(self).remaining(), settled.consumed)
                &&& final(self).timeout() == old(self).timeout() + made_up(
                    old(self).remaining(),
                    settled.consumed,
                )
            }),
            *final(self).model == *old(self).model,
            *final(final(self).model) == *final(old(self).model),
    {
        let ghost goal = settle_decoder(
            old(self).low(),
            old(self).high(),
            old(self).value(),
            old(self).remaining(),
        );
        let ghost mut consumed: nat = 0;
        proof {
            lemma_settle_decoder(
                old(self).low(),
                old(self).high(),
                old(self).value(),
                old(self).remaining(),
            );
            assert(self.remaining() =~= after_bits(old(self).remaining(), 0));
        }
        loop
            invariant
                self.interval.wf(),
                self.low() <= self.value() <= self.high(),
                goal == settle_decoder(
                    old(self).low(),
                    old(self).high(),
                    old(self).value(),
                    old(self).remaining(),
                ),
                goal.consumed < INTERVAL_BITS,
                old(self).timeout_bits <= TIMEOUT_BITS,
                ({
                    let settled = settle_decoder(
                        self.low(),
                        self.high(),
                        self.value(),
                        self.remaining(),
                    );
                    &&& goal.low == settled.low
                    &&& goal.high == settled.high
                    &&& goal.value == settled.value
                    &&& goal.consumed == consumed + settled.consumed
                }),
                consumed <= goal.consumed,
                self.remaining() == after_bits(old(self).remaining(), consumed),
                self.timeout() == old(self).timeout() + made_up(old(self).remaining(), consumed),
                *self.model == *old(self).model,
                *final(self.model) == *final(old(self).model),
            decreases full_range() - (self.high() - self.low() + 1),
        {
            proof {
                lemma_shift_widens(
                    self.low(),
                    self.high(),
                    self.value(),
                    next_bit(self.remaining()),
                );
            }
            // Simply copy the compression stage:
            match self.interval.get_state() {
                IntervalState::Converging(_) => {
                    self.remove_msb();
                },
                IntervalState::NearConvergence => {
                    self.remove_second_msb();
                },
                IntervalState::NoConvergence => {
                    return ;
                },
            }
            proof {
                consumed = consumed + 1;
                assert(self.remaining() =~= after_bits(old(self).remaining(), consumed));
            }
        }
    }

    /// Shifts the most significant bit out of the boundaries and the value; the value gets one
    /// new bit from the source.
    fn remove_msb(&mut self)
        requires
            old(self).interval.wf(),
            old(self).low() <= old(self).value() <= old(self).high(),
            old(self).interval.state() is Converging,
            old(self).timeout_bits < usize::MAX,
        ensures
            final(self).interval.wf(),
            final(self).low() == shifted_low(old(self).low()),
            final(self).high() == shifted_high(old(self).high()),
            final(self).value() == shifted_low(old(self).value()) + next_bit(
                old(self).remaining(),
            ),
            final(self).remaining() == after_bit(old(self).remaining()),
            final(self).timeout() == old(self).timeout() + made_up(old(self).remaining(), 1),
            *final(self).model == *old(self).model,
            *final(final(self).model) == *final(old(self).model),
    {
        let ghost low = self.low();
        let ghost high = self.high();
        let ghost value = self.value();
        let ghost bits = self.remaining();
        proof {
            lemma_interval_constants();
            lemma_shift_widens(low, high, value, next_bit(bits));
            lemma_shifts(low as u64, 0);
            lemma_shifts(high as u64, 1);
            reveal_with_fuel(loaded_value, 2);
        }
        self.load_bits_to_value(1);
        let new_low = self.interval.low() << 1u8;
        let new_high = (self.interval.high() << 1u8) | 1u8;
        proof {
            assert(self.remaining() =~= after_bit(bits));
        }
        self.interval.set_boundaries(new_low, new_high).unwrap();
    }

    /// Takes the second most significant bit out of the boundaries and the value; the value
    /// gets one new bit from the source.
    fn remove_second_msb(&mut self)
        requires
            old(self).interval.wf(),
            old(self).low() <= old(self).value() <= old(self).high(),
            old(self).interval.state() is NearConvergence,
            old(self).timeout_bits < usize::MAX,
        ensures
            final(self).interval.wf(),
            final(self).low() == near_shifted_low(old(self).low()),
            final(self).high() == near_shifted_high(old(self).high()),
            final(self).value() == near_shifted_low(old(self).value()) + next_bit(
                old(self).remaining(),
            ),
            final(self).remaining() == after_bit(old(self).remaining()),
            final(self).timeout() == old(self).timeout() + made_up(old(self).remaining(), 1),
            *final(self).model == *old(self).model,
            *final(final(self).model) == *final(old(self).model),
    {
        let ghost low = self.low();
        let ghost high = self.high();
        let ghost value = self.value();
        let ghost bits = self.remaining();
        proof {
            lemma_interval_constants();
            lemma_shift_widens(low, high, value, next_bit(bits));
            lemma_shifts(low as u64, 0);
            lemma_shifts(high as u64, 1);
            lemma_shifts(value as u64, next_bit(bits) as u64);
        }
        let half = self.interval.system().half();
        let new_low = (self.interval.low() << 1u8) ^ half;
        let new_high = (self.interval.high() << 1u8) | half | 1u8;

        // Since value < high, it must start with 01 like low:
        let flipped = (self.value << 1u8) ^ half;
        let bit = self.get_next_bit();
        self.value = flipped | bit;
        self.interval.set_boundaries(new_low, new_high).unwrap();
    }

    /// Calculates the cumulative frequency saved in `value` based on the state of the current
    /// interval and model.
    fn calc_cum_freq(&self, total: CalculationsType) -> (r: CalculationsType)
        requires
            self.interval.wf(),
            self.low() <= self.value() <= self.high(),
            0 < total <= max_frequency(),
        ensures
            r == cum_freq_of(total as int, self.low(), self.high(), self.value()),
            r < total,
    {
        let low: CalculationsType = self.interval.low().value();
        let high: CalculationsType = self.interval.high().value();
        let value: CalculationsType = self.value.value();
        proof {
            lemma_interval_constants();
            lemma_cum_freq_of(total as int, low as int, high as int, value as int);
            assert(total * (high - low + 1) <= 0x7fff_ffff * 0x2_0000_0000) by (nonlinear_arith)
                requires
                    0 < total <= 0x7fff_ffff,
                    0 < high - low + 1 <= 0x2_0000_0000,
            ;
        }
        (total * (value - low + 1) - 1) / (high + 1 - low)
    }

    /// Applies to the interval the CFI of the symbol that was found for the value, and reads
    /// on in the compressed bits as far as the interval settles.
    ///
    /// The CFI must contain the cumulative frequency that the value stands for.
    ///
    /// ## Possible Failures
    /// The CFI leaves the interval no room (fewer than two values): nothing is changed.
    pub fn load_cfi(&mut self, cfi: Cfi) -> (r: Result<(), BoundaryInvariantViolation>)
        requires
            old(self).wf(),
            old(self).timeout() <= TIMEOUT_BITS,
            cfi.wf(),
            cfi.start@ <= cum_freq_of(
                cfi.total@ as int,
                old(self).low(),
                old(self).high(),
                old(self).value(),
            ) < cfi.end@,
        ensures
            ({
                let low = narrowed_low(
                    old(self).low(),
                    old(self).high(),
                    cfi.start@ as int,
                    cfi.total@ as int,
                );
                let high = narrowed_high(
                    old(self).low(),
                    old(self).high(),
                    cfi.end@ as int,
                    cfi.total@ as int,
                );
                if low >= high {
                    &&& r is Err
                    &&& final(self).low() == old(self).low()
                    &&& final(self).high() == old(self).high()
                    &&& final(self).value() == old(self).value()
                    &&& final(self).remaining() == old(self).remaining()
                    &&& final(self).timeout() == old(self).timeout()
                } else {
                    let settled = settle_decoder(
                        low,
                        high,
                        old(self).value(),
                        old(self).remaining(),
                    );
                    &&& r is Ok
                    &&& final(self).low() == settled.low
                    &&& final(self).high() == settled.high
                    &&& final(self).value() == settled.value
                    &&& final(self).remaining() == after_bits(
                        old(self).remaining(),
                        settled.consumed,
                    )
                    &&& final(self).timeout() == old(self).timeout() + made_up(
                        old(self).remaining(),
                        settled.consumed,
                    )
                }
            }),
            final(self).wf(),
            *final(self).model() == *old(self).model(),
            *final(final(self).model()) == *final(old(self).model()),
    {
        proof {
            lemma_narrowing(
                self.low(),
                self.high(),
                cfi.start@ as int,
                cfi.end@ as int,
                cfi.total@ as int,
            );
            lemma_narrowing_keeps_value(
                self.low(),
                self.high(),
                self.value(),
                cfi.start@ as int,
                cfi.end@ as int,
                cfi.total@ as int,
            );
        }
        match self.interval.update(cfi) {
            Ok(()) => {
                proof {
                    lemma_settle_decoder(
                        self.low(),
                        self.high(),
                        self.value(),
                        self.remaining(),
                    );
                }
                self.process_interval_state();
                Ok(())
            },
            Err(e) => Err(e),
        }
    }

    /// Decompresses the next byte and returns it. If the end of the compressed data was reached,
    /// None is returned.
    ///
    /// The model is asked for the symbol that the value stands for and told of the CFI of that
    /// symbol, and the CFI is applied to the interval. The escape symbol is passed over: the
    /// next symbol is decompressed in its place.
    ///
    /// ## Possible Failures
    /// * `TIMEOUT_BITS` bits or more were made up after the compressed bits had run out.
    /// * The model has no frequencies, no symbol for the value, or no CFI for that symbol, or
    ///   it does not take the update.
    /// * The CFI leaves the interval no room.
    pub fn get_next_byte(&mut self) -> (r: Result<Option<u8>, DecompressionError>)
        requires
            old(self).wf(),
        ensures
            final(self).wf(),
            *final(final(self).model()) == *final(old(self).model()),
            // Where the model is told of one answer only, it is left as that update leaves it:
            old(self).timeout() < TIMEOUT_BITS && old(self).model().total()@ > 0 ==> ({
                let cum_freq = Frequency::from_value(
                    cum_freq_of(
                        old(self).model().total()@ as int,
                        old(self).low(),
                        old(self).high(),
                        old(self).value(),
                    ) as u64,
                );
                old(self).model().symbol_of(cum_freq) matches Some(symbol) ==> (old(
                    self,
                ).model().cfi_of(symbol) matches Ok(model_cfi) ==> (symbol != Symbol::Esc || old(
                    self,
                ).model().update_outcome(symbol, model_cfi) is Err ==> final(
                    self).model().follows(old(self).model(), symbol, model_cfi)))
            }),
            // Too many bits were made up:
            old(self).timeout() >= TIMEOUT_BITS ==> {
                &&& r == Err::<Option<u8>, DecompressionError>(
                    DecompressionError::Timeout(DecompressionTimeout),
                )
                &&& final(self).low() == old(self).low()
                &&& final(self).high() == old(self).high()
                &&& final(self).value() == old(self).value()
                &&& final(self).remaining() == old(self).remaining()
                &&& final(self).timeout() == old(self).timeout()
                &&& *final(self).model() == *old(self).model()
            },
            r matches Err(DecompressionError::Timeout(_)) ==> final(self).timeout()
                >= TIMEOUT_BITS,
            // The model has no frequencies:
            old(self).timeout() < TIMEOUT_BITS && old(self).model().total()@ == 0 ==> r == Err::<
                Option<u8>,
                DecompressionError,
            >(DecompressionError::InvalidCumulativeFrequency),
            // The first symbol that is found decides, unless it is the escape symbol:
            old(self).timeout() < TIMEOUT_BITS && old(self).model().total()@ > 0 ==> ({
                let cum_freq = Frequency::from_value(
                    cum_freq_of(
                        old(self).model().total()@ as int,
                        old(self).low(),
                        old(self).high(),
                        old(self).value(),
                    ) as u64,
                );
                match old(self).model().symbol_of(cum_freq) {
                    None => r == Err::<Option<u8>, DecompressionError>(
                        DecompressionError::UnknownSymbol,
                    ),
                    Some(symbol) => match old(self).model().cfi_of(symbol) {
                        Err(e) => r == Err::<Option<u8>, DecompressionError>(
                            DecompressionError::Model(e),
                        ),
                        Ok(model_cfi) => match old(self).model().update_outcome(
                            symbol,
                            model_cfi,
                        ) {
                            Err(e) => r == Err::<Option<u8>, DecompressionError>(
                                DecompressionError::Update(e),
                            ),
                            Ok(()) => {
                                let cfi = model_cfi.spec_cfi();
                                let low = narrowed_low(
                                    old(self).low(),
                                    old(self).high(),
                                    cfi.start@ as int,
                                    cfi.total@ as int,
                                );
                                let high = narrowed_high(
                                    old(self).low(),
                                    old(self).high(),
                                    cfi.end@ as int,
                                    cfi.total@ as int,
                                );
                                if low >= high {
                                    r == Err::<Option<u8>, DecompressionError>(
                                        DecompressionError::Interval(BoundaryInvariantViolation),
                                    )
                                } else if symbol != Symbol::Esc {
                                    let settled = settle_decoder(
                                        low,
                                        high,
                                        old(self).value(),
                                        old(self).remaining(),
                                    );
                                    &&& r == Ok::<Option<u8>, DecompressionError>(
                                        match symbol {
                                            Symbol::Byte(b) => Some(b),
                                            _ => None,
                                        },
                                    )
                                    &&& final(self).low() == settled.low
                                    &&& final(self).high() == settled.high
                                    &&& final(self).value() == settled.value
                                    &&& final(self).remaining() == after_bits(
                                        old(self).remaining(),
                                        settled.consumed,
                                    )
                                    &&& final(self).timeout() == old(self).timeout() + made_up(
                                        old(self).remaining(),
                                        settled.consumed,
                                    )
                                } else {
                                    true
                                }
                            },
                        },
                    },
                }
            }),
        decreases
                old(self).model().escapes_left(),
                old(self).remaining().len() + 2 * TIMEOUT_BITS - old(self).timeout(),
                old(self).high() - old(self).low(),
    {
        // Check if we should time out:
        if self.timeout_bits >= TIMEOUT_BITS {
            return Err(DecompressionError::Timeout(DecompressionTimeout));
        }
        proof {
            lemma_max_frequency();
            lemma_interval_constants();
        }

        // Find the symbol that the value stands for:
        let total = self.model.get_total();
        if total.value() == 0 {
            return Err(DecompressionError::InvalidCumulativeFrequency);
        }
        let cum_freq_value: CalculationsType = self.calc_cum_freq(total.value());
        let cum_freq = Frequency::new_unchecked(cum_freq_value);
        proof {
            Frequency::lemma_from_value(cum_freq_value);
            Frequency::lemma_view_injective(cum_freq, Frequency::from_value(cum_freq_value));
            self.model.lemma_symbol_of(cum_freq);
        }
        let symbol = match self.model.get_symbol(cum_freq) {
            Some(symbol) => symbol,
            None => {
                return Err(DecompressionError::UnknownSymbol);
            },
        };

        // Follow the compression:
        let model_cfi = match self.model.get_cfi(symbol) {
            Ok(model_cfi) => model_cfi,
            Err(e) => {
                return Err(DecompressionError::Model(e));
            },
        };
        proof {
            self.model.lemma_cfi_of(symbol);
        }
        match self.model.update(symbol, &model_cfi) {
            Ok(()) => {},
            Err(e) => {
                return Err(DecompressionError::Update(e));
            },
        }
        let cfi = model_cfi.cfi();
        let ghost before_low = self.low();
        let ghost before_high = self.high();
        proof {
            if cfi.end@ - cfi.start@ < cfi.total@ {
                lemma_narrowing_shrinks(
                    self.low(),
                    self.high(),
                    cfi.start@ as int,
                    cfi.end@ as int,
                    cfi.total@ as int,
                );
            }
            lemma_narrowing(
                self.low(),
                self.high(),
                cfi.start@ as int,
                cfi.end@ as int,
                cfi.total@ as int,
            );
            lemma_narrowing_keeps_value(
                self.low(),
                self.high(),
                self.value(),
                cfi.start@ as int,
                cfi.end@ as int,
                cfi.total@ as int,
            );
            let low = narrowed_low(
                self.low(),
                self.high(),
                cfi.start@ as int,
                cfi.total@ as int,
            );
            let high = narrowed_high(
                self.low(),
                self.high(),
                cfi.end@ as int,
                cfi.total@ as int,
            );
            if low < high {
                lemma_settle_decoder(low, high, self.value(), self.remaining());
            }
        }

        match self.load_cfi(cfi) {
            Ok(()) => {},
            Err(e) => {
                return Err(DecompressionError::Interval(e));
            },
        }

        // Return the byte representing the symbol, or None if it's an EOF:
        match symbol {
            Symbol::Byte(b) => Ok(Some(b)),
            Symbol::Eof => Ok(None),
            // If it's an escape symbol, we need to redo the function:
            Symbol::Esc => self.get_next_byte(),
        }
    }
}

} // verus!
