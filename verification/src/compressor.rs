//! The encoder: narrows an interval symbol by symbol and writes out the bits that the interval
//! has settled on.

use crate::bit_buffer::bits::{
    bit_of_byte, bits_of_bytes, leading_bits, lemma_bits_of_push, repeated,
};
use crate::bit_buffer::BitBuffer;
use crate::frequencies::Cfi;
use crate::interval::{
    full_range, half, lemma_interval_constants, lemma_narrowing, lemma_shift_widens,
    lemma_shifts, narrowed_high, narrowed_low, near_shifted_high, near_shifted_low, one_fourth,
    shifted_high, shifted_low, state_of, BoundaryInvariantViolation, Interval, IntervalBoundary,
    IntervalState,
};
use crate::models::{Model, ModelCfi, ModelCfiError, ModelUpdateError};
use crate::number_types::INTERVAL_BITS;
use crate::sim::Symbol;
use vstd::prelude::*;

verus! {

/// Why a symbol could not be compressed.
#[derive(Debug, Clone, PartialEq, Eq)]
pub enum CompressionError {
    /// The model has no CFI for the symbol.
    Model(ModelCfiError),
    /// The model did not take the update.
    Update(ModelUpdateError),
    /// The CFI leaves no room in the interval.
    Interval(BoundaryInvariantViolation),
    /// More bits are outstanding than the machine can count.
    OutstandingBitsOverflow,
}

/// What the state machine leaves behind when it has run: the interval, the number of
/// outstanding bits, and the bits that it has written. Where `overflow` is set, it has stopped
/// early, in near-convergence, as it could not count one more outstanding bit.
pub struct Settled {
    pub low: int,
    pub high: int,
    pub outstanding: nat,
    pub emitted: Seq<bool>,
    pub overflow: bool,
}

/// The bits that are written when the interval converges on `bit`: the bit itself, then the
/// outstanding bits, which are all its opposite.
pub open spec fn converged_bits(bit: bool, outstanding: nat) -> Seq<bool> {
    seq![bit] + repeated(!bit, outstanding)
}

/// The state machine of the encoder, run on the interval `[low, high]` with `outstanding`
/// outstanding bits until the interval neither converges nor nearly converges.
///
/// * Converging on a bit: the bit and the outstanding bits are written, the bit is shifted
///   out of both boundaries.
/// * Near-convergence: one more bit is outstanding, the second bit of both boundaries is
///   taken out.
pub open spec fn settle(low: int, high: int, outstanding: nat) -> Settled
    decreases full_range() - (high - low + 1),
    when 0 <= low < high < full_range()
{
    match state_of(low, high) {
        IntervalState::Converging(bit) => {
            let rest = settle(shifted_low(low), shifted_high(high), 0);
            Settled {
                low: rest.low,
                high: rest.high,
                outstanding: rest.outstanding,
                emitted: converged_bits(bit, outstanding) + rest.emitted,
                overflow: rest.overflow,
            }
        },
        IntervalState::NearConvergence => {
            if outstanding + 1 >= usize::MAX {
                Settled { low, high, outstanding, emitted: Seq::empty(), overflow: true }
            } else {
                settle(near_shifted_low(low), near_shifted_high(high), outstanding + 1)
            }
        },
        IntervalState::NoConvergence => Settled {
            low,
            high,
            outstanding,
            emitted: Seq::empty(),
            overflow: false,
        },
    }
}

/// What the state machine leaves behind is an interval again, with a number of outstanding bits
/// that can be counted. Unless it has stopped early, the interval neither converges nor nearly
/// converges.
pub proof fn lemma_settle(low: int, high: int, outstanding: nat)
    requires
        0 <= low < high < full_range(),
        outstanding < usize::MAX,
    ensures
        0 <= settle(low, high, outstanding).low < settle(low, high, outstanding).high
            < full_range(),
        settle(low, high, outstanding).outstanding < usize::MAX,
        !settle(low, high, outstanding).overflow ==> state_of(
            settle(low, high, outstanding).low,
            settle(low, high, outstanding).high,
        ) == IntervalState::NoConvergence,
    decreases full_range() - (high - low + 1),
{
    lemma_shift_widens(low, high, low, 0);
    match state_of(low, high) {
        IntervalState::Converging(bit) => {
            lemma_settle(shifted_low(low), shifted_high(high), 0);
        },
        IntervalState::NearConvergence => {
            if outstanding + 1 < usize::MAX {
                lemma_settle(
                    near_shifted_low(low),
                    near_shifted_high(high),
                    (outstanding + 1) as nat,
                );
            }
        },
        IntervalState::NoConvergence => {},
    }
}

/// The bits of a stream that ends: the bits themselves, then as many zeros as it takes to fill
/// the last byte.
pub open spec fn padded(bits: Seq<bool>) -> Seq<bool> {
    bits + repeated(false, ((8 - bits.len() % 8) % 8) as nat)
}

/// The bytes of a stream whose last bits do not fill a byte: the complete bytes, then the
/// leftover bits with zeros behind them.
proof fn lemma_padded_leftover(all: Seq<bool>, full: Seq<u8>, byte: u8)
    requires
        all.len() % 8 != 0,
        full.len() == all.len() / 8,
        bits_of_bytes(full) == all.take(8 * full.len() as int),
        forall|i: u8|
            0 <= i < 8 ==> #[trigger] bit_of_byte(byte, i) == (i < all.len() % 8 && all[all.len()
                - all.len() % 8 + i]),
    ensures
        bits_of_bytes(full.push(byte)) == padded(all),
{
    let whole = 8 * full.len() as int;
    let rest = (all.len() % 8) as int;
    lemma_bits_of_push(full, byte);
    let tail = all.skip(whole) + repeated(false, (8 - rest) as nat);
    assert forall|i: int| 0 <= i < 8 implies leading_bits(byte, 8)[i] == tail[i] by {
        assert(leading_bits(byte, 8)[i] == bit_of_byte(byte, i as u8));
    }
    assert(leading_bits(byte, 8) =~= tail);
    assert(all =~= all.take(whole) + all.skip(whole));
    assert(all.take(whole) + tail =~= all + repeated(false, (8 - rest) as nat));
}

/// The bytes of a stream whose bits fill its bytes are the complete bytes.
proof fn lemma_padded_whole(all: Seq<bool>, full: Seq<u8>)
    requires
        all.len() % 8 == 0,
        full.len() == all.len() / 8,
        bits_of_bytes(full) == all.take(8 * full.len() as int),
    ensures
        bits_of_bytes(full) == padded(all),
{
    assert(all.take(8 * full.len() as int) =~= all);
    assert(all + repeated(false, 0) =~= all);
}

pub struct Compressor<'a, M: Model> {
    /// Number of bits that were put aside in case of near-convergence, their value is unknown
    /// until a converging bit 'b' is found, and is equal to !b, repeated N times.
    outstanding_bits: usize,
    /// The buffer holding the output bits:
    output: BitBuffer,
    /// The interval that the compressor uses to represent the data it compresses.
    interval: Interval,
    /// The model in charge of calculating the probabilities of symbols appearing in the data. It
    /// can dramatically increase compression rate.
    model: &'a mut M,
}

impl<'a, M: Model> Compressor<'a, M> {
    /// The lower boundary of the interval.
    pub closed spec fn low(&self) -> int {
        self.interval.spec_low()
    }

    /// The upper boundary of the interval.
    pub closed spec fn high(&self) -> int {
        self.interval.spec_high()
    }

    /// The number of outstanding bits.
    pub closed spec fn outstanding(&self) -> nat {
        self.outstanding_bits as nat
    }

    /// The bits that have been written and not yet handed out.
    pub closed spec fn pending(&self) -> Seq<bool> {
        self.output@
    }

    /// The model that the compressor works with.
    pub closed spec fn model(&self) -> &'a mut M {
        self.model
    }

    /// Between calls the interval neither converges nor nearly converges, and the model is in
    /// order.
    pub open spec fn wf(&self) -> bool {
        &&& 0 <= self.low() < self.high() < full_range()
        &&& state_of(self.low(), self.high()) == IntervalState::NoConvergence
        &&& self.outstanding() < usize::MAX
        &&& self.model().wf()
    }

    /// Creates a new compressor object from a statistical model.
    ///
    /// Note that if the model implements the `update` and `flush` functions, it is the
    /// **responsibility of the CALLER** to make sure the state of the model is not affected by
    /// previous operations (i.e: call the `flush` function if needed).
    pub fn new(model: &'a mut M) -> (r: Self)
        requires
            old(model).wf(),
        ensures
            r.wf(),
            r.low() == 0,
            r.high() == full_range() - 1,
            r.outstanding() == 0,
            r.pending() == Seq::<bool>::empty(),
            *r.model() == *old(model),
            *final(r.model()) == *final(model),
    {
        Self {
            outstanding_bits: 0,
            output: BitBuffer::new(),
            interval: Interval::full_interval(),
            model,
        }
    }

    /// When the interval's boundaries finally converge on a bit, the values of all remaining
    /// outstanding bits are also known (it's the inverse of the given bit).
    ///
    /// This helper function outputs the given bit to the bitbuffer, followed by all outstanding
    /// bits. It is also responsible for setting `self.outstanding_bits` to 0.
    fn output_with_outstanding(&mut self, bit: bool)
        ensures
            final(self).output@ == old(self).output@ + converged_bits(
                bit,
                old(self).outstanding_bits as nat,
            ),
            final(self).outstanding_bits == 0,
            final(self).interval == old(self).interval,
            *final(self).model == *old(self).model,
            *final(final(self).model) == *final(old(self).model),
    {
        self.output.append(bit);

        self.output.append_repeated(!bit, self.outstanding_bits);
        self.outstanding_bits = 0;
        assert(final(self).output@ =~= old(self).output@ + converged_bits(
            bit,
            old(self).outstanding_bits as nat,
        ));
    }

    /// Processes the state of the saved interval until it is in a no-convergence state.
    fn process_interval_state(&mut self) -> (r: Result<(), CompressionError>)
        requires
            old(self).interval.wf(),
            old(self).outstanding_bits < usize::MAX,
        ensures
            final(self).low() == settle(
                old(self).low(),
                old(self).high(),
                old(self).outstanding(),
            ).low,
            final(self).high() == settle(
                old(self).low(),
                old(self).high(),
                old(self).outstanding(),
            ).high,
            final(self).outstanding() == settle(
                old(self).low(),
                old(self).high(),
                old(self).outstanding(),
            ).outstanding,
            final(self).pending() == old(self).pending() + settle(
                old(self).low(),
                old(self).high(),
                old(self).outstanding(),
            ).emitted,
            r is Ok <==> !settle(old(self).low(), old(self).high(), old(self).outstanding()).overflow,
            r is Err ==> r == Err::<(), CompressionError>(
                CompressionError::OutstandingBitsOverflow,
            ),
            *final(self).model == *old(self).model,
            *final(final(self).model) == *final(old(self).model),
    {
        let ghost goal = settle(old(self).low(), old(self).high(), old(self).outstanding());
        let ghost mut emitted = Seq::<bool>::empty();
        assert(self.output@ =~= old(self).output@ + emitted);
        assert(goal.emitted =~= emitted + goal.emitted);
        // Process the state until the interval is non-converging:
        loop
            invariant
                self.interval.wf(),
                self.outstanding_bits < usize::MAX,
                self.output@ == old(self).output@ + emitted,
                goal.low == settle(self.low(), self.high(), self.outstanding()).low,
                goal.high == settle(self.low(), self.high(), self.outstanding()).high,
                goal.outstanding == settle(self.low(), self.high(), self.outstanding()).outstanding,
                goal.overflow == settle(self.low(), self.high(), self.outstanding()).overflow,
                goal.emitted == emitted + settle(
                    self.low(),
                    self.high(),
                    self.outstanding(),
                ).emitted,
                goal == settle(old(self).low(), old(self).high(), old(self).outstanding()),
                *self.model == *old(self).model,
                *final(self.model) == *final(old(self).model),
            decreases full_range() - (self.high() - self.low() + 1),
        {
            let ghost low = self.low();
            let ghost high = self.high();
            let ghost outstanding = self.outstanding();
            proof {
                lemma_interval_constants();
                lemma_shift_widens(low, high, low, 0);
                lemma_shifts(low as u64, 0);
                lemma_shifts(high as u64, 1);
            }
            let (new_low, new_high) = match self.interval.get_state() {
                IntervalState::Converging(bit) => {
                    self.output_with_outstanding(bit);

                    // Get rid of the converging bit in the boundaries, shift 1 in for high:
                    let new_low = self.interval.low() << 1u8;
                    let new_high = (self.interval.high() << 1u8) | 1u8;
                    proof {
                        let rest = settle(shifted_low(low), shifted_high(high), 0);
                        emitted = emitted + converged_bits(bit, outstanding);
                        assert(goal.emitted =~= emitted + rest.emitted);
                    }
                    (new_low, new_high)
                },
                IntervalState::NearConvergence => {
                    // Increase the outstanding bits counter, shift out the second MSBs, and
                    // shift in a 1 bit for high:
                    if self.outstanding_bits >= usize::MAX - 1 {
                        return Err(CompressionError::OutstandingBitsOverflow);
                    }
                    self.outstanding_bits += 1;

                    let half = self.interval.system().half();
                    let new_low = (self.interval.low() << 1u8) ^ half;
                    let new_high = (self.interval.high() << 1u8) | half | 1u8;

                    (new_low, new_high)
                },
                IntervalState::NoConvergence => {
                    assert(goal.emitted =~= emitted);
                    return Ok(());
                },
            };
            self.interval.set_boundaries(new_low, new_high).unwrap();
        }
    }

    /// Applies one CFI to the interval and writes out the bits that the interval settles on.
    ///
    /// ## Possible Failures
    /// * The CFI leaves the interval no room (fewer than two values): nothing is changed.
    /// * More bits are outstanding than can be counted: the compressor is left where the state
    ///   machine stopped, and cannot be used further.
    pub fn load_cfi(&mut self, cfi: Cfi) -> (r: Result<(), CompressionError>)
        requires
            old(self).wf(),
            cfi.wf(),
        ensures
            ({
                let low = narrowed_low(
                    old(self).low(),
                    old(self).high(),
                    cfi.start@ as int,
                    cfi.total@ as int,
                );
                let high = narrowed_high(
                    old(self).low(),
                    old(self).high(),
                    cfi.end@ as int,
                    cfi.total@ as int,
                );
                if low >= high {
                    &&& r == Err::<(), CompressionError>(
                        CompressionError::Interval(BoundaryInvariantViolation),
                    )
                    &&& final(self).low() == old(self).low()
                    &&& final(self).high() == old(self).high()
                    &&& final(self).outstanding() == old(self).outstanding()
                    &&& final(self).pending() == old(self).pending()
                    &&& final(self).wf()
                } else {
                    let settled = settle(low, high, old(self).outstanding());
                    &&& final(self).low() == settled.low
                    &&& final(self).high() == settled.high
                    &&& final(self).outstanding() == settled.outstanding
                    &&& final(self).pending() == old(self).pending() + settled.emitted
                    &&& settled.overflow ==> r == Err::<(), CompressionError>(
                        CompressionError::OutstandingBitsOverflow,
                    )
                    &&& !settled.overflow ==> r is Ok && final(self).wf()
                }
            }),
            *final(self).model() == *old(self).model(),
            *final(final(self).model()) == *final(old(self).model()),
    {
        proof {
            lemma_narrowing(
                self.low(),
                self.high(),
                cfi.start@ as int,
                cfi.end@ as int,
                cfi.total@ as int,
            );
        }
        match self.interval.update(cfi) {
            Ok(()) => {
                proof {
                    lemma_settle(self.low(), self.high(), self.outstanding());
                }
                self.process_interval_state()
            },
            Err(e) => Err(CompressionError::Interval(e)),
        }
    }

    /// Compresses the given symbol using arithmetic coding.
    ///
    /// The model is asked for the CFI of the symbol and told of its answer, and the CFI is
    /// applied to the interval. If the model answers a symbol that is not the escape symbol with
    /// an escape CFI, the symbol is compressed again, until the model gives its own CFI or an
    /// error.
    ///
    /// Since arithmetic coding may compress symbols into a number of bits indivisible by 8, the
    /// function returns the COMPLETE bytes of the compression so far (which may be none if the
    /// compression used less than 8 bits).
    /// To retrieve the leftover bits and finish compression, call the `finalize` function
    ///
    /// ## Possible Failures
    /// The errors of the model and those of `load_cfi`. What was written before the error stays
    /// in the compressor.
    pub fn load_symbol(&mut self, symbol: Symbol) -> (r: Result<Vec<u8>, CompressionError>)
        requires
            old(self).wf(),
        ensures
            *final(final(self).model()) == *final(old(self).model()),
            // A symbol that the model has no CFI for changes nothing:
            old(self).model().cfi_of(symbol) matches Err(e) ==> {
                &&& r == Err::<Vec<u8>, CompressionError>(CompressionError::Model(e))
                &&& final(self).wf()
                &&& final(self).low() == old(self).low()
                &&& final(self).high() == old(self).high()
                &&& final(self).outstanding() == old(self).outstanding()
                &&& final(self).pending() == old(self).pending()
                &&& *final(self).model() == *old(self).model()
            },
            // Where the model is told of one answer only, it is left as that update leaves it:
            old(self).model().cfi_of(symbol) matches Ok(model_cfi) ==> (old(
                self,
            ).model().update_outcome(symbol, model_cfi) is Err || model_cfi is IndexCfi || symbol
                == Symbol::Esc ==> final(self).model().follows(
                old(self).model(),
                symbol,
                model_cfi,
            )),
            // A symbol whose CFI the model does not take in as an update changes nothing else:
            old(self).model().cfi_of(symbol) matches Ok(model_cfi) ==> (old(
                self,
            ).model().update_outcome(symbol, model_cfi) matches Err(e) ==> {
                &&& r == Err::<Vec<u8>, CompressionError>(CompressionError::Update(e))
                &&& final(self).wf()
                &&& final(self).low() == old(self).low()
                &&& final(self).high() == old(self).high()
                &&& final(self).outstanding() == old(self).outstanding()
                &&& final(self).pending() == old(self).pending()
            }),
            // A symbol that the model answers with its own CFI is compressed with that CFI:
            old(self).model().cfi_of(symbol) matches Ok(model_cfi) ==> (old(
                self,
            ).model().update_outcome(symbol, model_cfi) is Ok && (model_cfi is IndexCfi || symbol
                == Symbol::Esc) ==> {
                let cfi = model_cfi.spec_cfi();
                let low = narrowed_low(
                    old(self).low(),
                    old(self).high(),
                    cfi.start@ as int,
                    cfi.total@ as int,
                );
                let high = narrowed_high(
                    old(self).low(),
                    old(self).high(),
                    cfi.end@ as int,
                    cfi.total@ as int,
                );
                if low >= high {
                    &&& r == Err::<Vec<u8>, CompressionError>(
                        CompressionError::Interval(BoundaryInvariantViolation),
                    )
                    &&& final(self).low() == old(self).low()
                    &&& final(self).high() == old(self).high()
                    &&& final(self).outstanding() == old(self).outstanding()
                    &&& final(self).pending() == old(self).pending()
                    &&& final(self).wf()
                } else {
                    let settled = settle(low, high, old(self).outstanding());
                    &&& final(self).low() == settled.low
                    &&& final(self).high() == settled.high
                    &&& final(self).outstanding() == settled.outstanding
                    &&& settled.overflow ==> r == Err::<Vec<u8>, CompressionError>(
                        CompressionError::OutstandingBitsOverflow,
                    ) && final(self).pending() == old(self).pending() + settled.emitted
                    &&& !settled.overflow ==> (r matches Ok(bytes) && final(self).wf()
                        && bits_of_bytes(bytes@) + final(self).pending() == old(self).pending()
                        + settled.emitted && final(self).pending().len() < 8)
                }
            }),
            // Whatever the model answers:
            r matches Ok(bytes) ==> final(self).wf() && final(self).pending().len() < 8 && old(
                self,
            ).pending().is_prefix_of(bits_of_bytes(bytes@) + final(self).pending()),
            r matches Err(CompressionError::Model(_)) ==> final(self).wf(),
            r matches Err(CompressionError::Update(_)) ==> final(self).wf(),
            r matches Err(CompressionError::Interval(_)) ==> final(self).wf(),
        decreases old(self).model().escapes_left(),
    {
        let model_cfi = match self.model.get_cfi(symbol) {
            Ok(model_cfi) => model_cfi,
            Err(e) => {
                return Err(CompressionError::Model(e));
            },
        };
        proof {
            self.model.lemma_cfi_of(symbol);
        }
        match self.model.update(symbol, &model_cfi) {
            Ok(()) => {},
            Err(e) => {
                return Err(CompressionError::Update(e));
            },
        }
        let ghost before = self.pending();
        match self.load_cfi(model_cfi.cfi()) {
            Ok(()) => {},
            Err(e) => {
                return Err(e);
            },
        }
        let ghost first = self.pending();
        // If it's an escape CFI for another symbol, load the symbol again:
        if !symbol.is_escape() {
            if let ModelCfi::EscapeCfi(_) = model_cfi {
                return self.load_symbol(symbol);
            }
        }
        let bytes = self.output.get_complete_bytes();
        proof {
            assert(bits_of_bytes(bytes@) + self.pending() =~= first);
        }
        Ok(bytes)
    }

    /// Ends the compression of any bits left over from previous operations, outputting them
    /// as bytes, the last one padded with zeros if need be.
    pub fn finalize(self) -> (r: Vec<u8>)
        requires
            self.wf(),
        ensures
            bits_of_bytes(r@) == padded(
                self.pending() + converged_bits(
                    self.low() >= one_fourth(),
                    (self.outstanding() + 1) as nat,
                ),
            ),
            *final(self.model()) == *self.model(),
    {
        let mut this = self;
        // When all symbols are loaded, the possible interval boundaries are:
        // - [01yyy, 11xxx)
        // - [00yyy, 11xxx)
        // - [00yyy, 10xxx)
        // So we must insert '01' if low is '00', and '10' if low is '01'. Along with those, any
        // pending near-convergence bits must be inserted as well. A simple way of doing it is
        // just adding 1 to the near-convergence counter and insert the value of low's second
        // MSB:
        this.outstanding_bits += 1;
        let second = (this.interval.low() >> (INTERVAL_BITS - 2)) & 1u8;
        proof {
            lemma_shifts(self.low() as u64, 0);
        }
        this.output_with_outstanding(second.value() == 1);
        let ghost all = this.output@;

        let mut bytes = this.output.get_complete_bytes();
        let ghost full = bytes@;
        match this.output.get_leftover_bits() {
            Some(byte) => {
                bytes.push(byte);
                proof {
                    lemma_padded_leftover(all, full, byte);
                }
            },
            None => {
                proof {
                    lemma_padded_whole(all, full);
                }
            },
        }
        bytes
    }
}

} // verus!
