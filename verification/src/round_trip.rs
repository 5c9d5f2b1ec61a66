//! Why decompression undoes compression: the decoder, given the bits that the encoder has
//! written, finds at every step a cumulative frequency inside the CFI that the encoder was
//! given at that step.

use crate::bit_buffer::bits::repeated;
use crate::compressor::{converged_bits, lemma_settle, settle};
use crate::decompressor::{
    after_bit, after_bits, cum_freq_of, lemma_narrowing_keeps_value, lemma_settle_decoder,
    loaded_value, made_up, next_bit, settle_decoder, TIMEOUT_BITS,
};
use crate::frequencies::{max_frequency, Cfi, Frequency};
use crate::interval::{
    full_range, half, lemma_narrowing, lemma_shift_widens, narrowed_high, narrowed_low,
    near_shifted_high, near_shifted_low, one_fourth, shifted_high, shifted_low, state_of,
    three_fourths, IntervalState,
};
use crate::models::{Model, ModelCfi};
use crate::sim::Symbol;
use vstd::arithmetic::div_mod::{
    lemma_div_is_ordered, lemma_div_multiples_vanish, lemma_fundamental_div_mod,
    lemma_mod_bound,
};
use vstd::arithmetic::power2::{lemma2_to64, lemma2_to64_rest, lemma_pow2_unfold, pow2};
use vstd::prelude::*;

verus! {

/// The number that the first `count` bits of `bits` spell, most significant bit first. Bits
/// that `bits` lacks count as zeros.
pub open spec fn bits_value(bits: Seq<bool>, count: nat) -> int
    decreases count,
{
    if count == 0 {
        0
    } else {
        next_bit(bits) * pow2((count - 1) as nat) + bits_value(after_bit(bits), (count - 1) as nat)
    }
}

/// The window of the decoder at the front of `bits`: the number that the first 33 bits spell.
pub open spec fn window(bits: Seq<bool>) -> int {
    bits_value(bits, 33)
}

/// Bit `index` of `bits`, as a number; 0 if `bits` is too short.
pub open spec fn bit_at(bits: Seq<bool>, index: int) -> int {
    if 0 <= index < bits.len() && bits[index] {
        1
    } else {
        0
    }
}

/// The first `count` bits spell a number below `2^count`.
pub proof fn lemma_bits_value_bound(bits: Seq<bool>, count: nat)
    ensures
        0 <= bits_value(bits, count) < pow2(count),
    decreases count,
{
    if count == 0 {
        lemma2_to64();
    } else {
        lemma_bits_value_bound(after_bit(bits), (count - 1) as nat);
        lemma_pow2_unfold(count);
    }
}

/// One bit more at the end doubles the number and adds the bit.
pub proof fn lemma_bits_value_extend(bits: Seq<bool>, count: nat)
    ensures
        bits_value(bits, count + 1) == 2 * bits_value(bits, count) + bit_at(bits, count as int),
    decreases count,
{
    if count == 0 {
        lemma2_to64();
        assert(bits_value(bits, 1) == next_bit(bits) * pow2(0) + bits_value(after_bit(bits), 0));
    } else {
        lemma_bits_value_extend(after_bit(bits), (count - 1) as nat);
        lemma_pow2_unfold(count);
        assert(bit_at(after_bit(bits), count - 1) == bit_at(bits, count as int));
        assert(next_bit(bits) * (2 * pow2((count - 1) as nat)) == 2 * (next_bit(bits) * pow2(
            (count - 1) as nat,
        ))) by (nonlinear_arith);
    }
}

/// Shifting values in from the left spells the same number.
pub proof fn lemma_loaded_value(value: int, bits: Seq<bool>, count: nat)
    requires
        count <= 33,
        0 <= value < pow2((33 - count) as nat),
    ensures
        loaded_value(value, bits, count) == value * pow2(count) + bits_value(bits, count),
    decreases count,
{
    lemma2_to64();
    lemma2_to64_rest();
    if count == 0 {
        assert(value * 1 == value);
    } else {
        lemma_pow2_unfold((34 - count) as nat);
        lemma_pow2_unfold(count);
        lemma_pow2_bound((34 - count) as nat);
        let next = shifted_low(value) + next_bit(bits);
        assert(shifted_low(value) == 2 * value);
        lemma_loaded_value(next, after_bit(bits), (count - 1) as nat);
        assert((2 * value + next_bit(bits)) * pow2((count - 1) as nat) == value * (2 * pow2(
            (count - 1) as nat,
        )) + next_bit(bits) * pow2((count - 1) as nat)) by (nonlinear_arith);
    }
}

/// The powers of two up to the 33rd lie below the range of the boundaries.
proof fn lemma_pow2_bound(exponent: nat)
    requires
        exponent <= 33,
    ensures
        0 < pow2(exponent) <= full_range(),
    decreases 33 - exponent,
{
    lemma2_to64();
    lemma2_to64_rest();
    if exponent < 33 {
        lemma_pow2_bound(exponent + 1);
        lemma_pow2_unfold(exponent + 1);
    }
}

/// The window that the decoder loads first is the window at the front of the bits.
pub proof fn lemma_first_window(bits: Seq<bool>)
    ensures
        loaded_value(0, bits, 33) == window(bits),
        0 <= window(bits) < full_range(),
{
    lemma2_to64();
    lemma2_to64_rest();
    lemma_loaded_value(0, bits, 33);
    lemma_bits_value_bound(bits, 33);
    assert(0 * pow2(33) == 0);
}

/// The window one bit further on: the most significant bit is shifted out, the next bit of
/// the stream is shifted in.
pub proof fn lemma_window_moves(bits: Seq<bool>)
    ensures
        window(after_bit(bits)) == shifted_low(window(bits)) + bit_at(bits, 33),
{
    lemma2_to64();
    lemma2_to64_rest();
    lemma_bits_value_extend(bits, 33);
    lemma_bits_value_bound(after_bit(bits), 33);
    lemma_bits_value_bound(bits, 33);
    assert(bits_value(bits, 34) == next_bit(bits) * pow2(33) + bits_value(after_bit(bits), 33));
}

/// The two most significant bits of the window are the first two bits of the stream.
pub proof fn lemma_window_top(bits: Seq<bool>)
    ensures
        window(bits) >= half() <==> bit_at(bits, 0) == 1,
        window(bits) % half() >= one_fourth() <==> bit_at(bits, 1) == 1,
{
    lemma2_to64();
    lemma2_to64_rest();
    let rest = after_bit(bits);
    lemma_bits_value_bound(rest, 32);
    lemma_bits_value_bound(after_bit(rest), 31);
    assert(bits_value(bits, 33) == next_bit(bits) * pow2(32) + bits_value(rest, 32));
    assert(bits_value(rest, 32) == next_bit(rest) * pow2(31) + bits_value(after_bit(rest), 31));
    assert(next_bit(rest) == bit_at(bits, 1));
}

/// The window as the decoder holds it while bits are outstanding: its most significant bit is
/// flipped.
pub open spec fn pending_view(window: int, outstanding: nat) -> int {
    if outstanding > 0 {
        (window + half()) % full_range()
    } else {
        window
    }
}

/// The bits that close the stream: the second bit of the lower boundary, then its opposite,
/// once for each outstanding bit and once more.
pub open spec fn closing_bits(low: int, outstanding: nat) -> Seq<bool> {
    converged_bits(low >= one_fourth(), outstanding + 1)
}

/// Whether the encoder takes all of `cfis` in, beginning with the interval `[low, high]` (on
/// which the state machine is run first) and `outstanding` outstanding bits: every CFI is
/// well-formed and leaves room in the interval, and the outstanding bits can be counted.
pub open spec fn runs(low: int, high: int, outstanding: nat, cfis: Seq<Cfi>) -> bool
    decreases cfis.len(),
{
    let settled = settle(low, high, outstanding);
    &&& !settled.overflow
    &&& cfis.len() > 0 ==> {
        let cfi = cfis[0];
        let narrow_low = narrowed_low(
            settled.low,
            settled.high,
            cfi.start@ as int,
            cfi.total@ as int,
        );
        let narrow_high = narrowed_high(
            settled.low,
            settled.high,
            cfi.end@ as int,
            cfi.total@ as int,
        );
        &&& cfi.wf()
        &&& cfi.total@ <= max_frequency()
        &&& narrow_low < narrow_high
        &&& runs(narrow_low, narrow_high, settled.outstanding, cfis.skip(1))
    }
}

/// The bits that the encoder writes for `cfis`, closing bits included, beginning with the
/// interval `[low, high]` (on which the state machine is run first) and `outstanding`
/// outstanding bits.
pub open spec fn written_from(low: int, high: int, outstanding: nat, cfis: Seq<Cfi>) -> Seq<bool>
    decreases cfis.len(),
{
    let settled = settle(low, high, outstanding);
    settled.emitted + (if cfis.len() == 0 {
        closing_bits(settled.low, settled.outstanding)
    } else {
        let cfi = cfis[0];
        written_from(
            narrowed_low(settled.low, settled.high, cfi.start@ as int, cfi.total@ as int),
            narrowed_high(settled.low, settled.high, cfi.end@ as int, cfi.total@ as int),
            settled.outstanding,
            cfis.skip(1),
        )
    })
}

/// What the encoder writes, one step of the state machine at a time.
pub proof fn lemma_written_step(low: int, high: int, outstanding: nat, cfis: Seq<Cfi>)
    requires
        0 <= low < high < full_range(),
        runs(low, high, outstanding, cfis),
    ensures
        state_of(low, high) matches IntervalState::Converging(bit) ==> {
            &&& runs(shifted_low(low), shifted_high(high), 0, cfis)
            &&& written_from(low, high, outstanding, cfis) == converged_bits(bit, outstanding)
                + written_from(shifted_low(low), shifted_high(high), 0, cfis)
        },
        state_of(low, high) is NearConvergence ==> {
            &&& outstanding + 1 < usize::MAX
            &&& runs(
                near_shifted_low(low),
                near_shifted_high(high),
                (outstanding + 1) as nat,
                cfis,
            )
            &&& written_from(low, high, outstanding, cfis) == written_from(
                near_shifted_low(low),
                near_shifted_high(high),
                (outstanding + 1) as nat,
                cfis,
            )
        },
        state_of(low, high) is NoConvergence && cfis.len() == 0 ==> written_from(
            low,
            high,
            outstanding,
            cfis,
        ) == closing_bits(low, outstanding),
        state_of(low, high) is NoConvergence && cfis.len() > 0 ==> {
            let cfi = cfis[0];
            let narrow_low = narrowed_low(low, high, cfi.start@ as int, cfi.total@ as int);
            let narrow_high = narrowed_high(low, high, cfi.end@ as int, cfi.total@ as int);
            &&& cfi.wf()
            &&& cfi.total@ <= max_frequency()
            &&& narrow_low < narrow_high
            &&& runs(narrow_low, narrow_high, outstanding, cfis.skip(1))
            &&& written_from(low, high, outstanding, cfis) == written_from(
                narrow_low,
                narrow_high,
                outstanding,
                cfis.skip(1),
            )
        },
{
    let settled = settle(low, high, outstanding);
    match state_of(low, high) {
        IntervalState::Converging(bit) => {
            let rest = settle(shifted_low(low), shifted_high(high), 0);
            assert(settled.emitted == converged_bits(bit, outstanding) + rest.emitted);
            let tail = if cfis.len() == 0 {
                closing_bits(settled.low, settled.outstanding)
            } else {
                let cfi = cfis[0];
                written_from(
                    narrowed_low(settled.low, settled.high, cfi.start@ as int, cfi.total@ as int),
                    narrowed_high(settled.low, settled.high, cfi.end@ as int, cfi.total@ as int),
                    settled.outstanding,
                    cfis.skip(1),
                )
            };
            assert(written_from(low, high, outstanding, cfis) == settled.emitted + tail);
            assert(written_from(shifted_low(low), shifted_high(high), 0, cfis) == rest.emitted
                + tail);
            assert(converged_bits(bit, outstanding) + rest.emitted + tail =~= converged_bits(
                bit,
                outstanding,
            ) + (rest.emitted + tail));
        },
        IntervalState::NearConvergence => {},
        IntervalState::NoConvergence => {
            assert(settled.emitted =~= Seq::<bool>::empty());
            let tail = if cfis.len() == 0 {
                closing_bits(settled.low, settled.outstanding)
            } else {
                let cfi = cfis[0];
                written_from(
                    narrowed_low(settled.low, settled.high, cfi.start@ as int, cfi.total@ as int),
                    narrowed_high(settled.low, settled.high, cfi.end@ as int, cfi.total@ as int),
                    settled.outstanding,
                    cfis.skip(1),
                )
            };
            assert(settled.emitted + tail =~= tail);
        },
    }
}

/// How the window as the decoder holds it hangs together with the window itself.
proof fn lemma_pending_view(window: int, outstanding: nat)
    requires
        0 <= window < full_range(),
    ensures
        0 <= pending_view(window, outstanding) < full_range(),
        shifted_low(pending_view(window, outstanding)) == shifted_low(window),
        pending_view(window, outstanding) % half() == window % half(),
        outstanding == 0 ==> pending_view(window, outstanding) == window,
        outstanding > 0 ==> (pending_view(window, outstanding) >= half() <==> window < half()),
{
}

/// The window one bit further on, as the decoder holds it after a near-convergence.
proof fn lemma_pending_view_moves(value: int, window: int, bit: int)
    requires
        0 <= window < full_range(),
        0 <= value < full_range(),
        shifted_low(value) == shifted_low(window),
        0 <= bit <= 1,
    ensures
        pending_view(shifted_low(window) + bit, 1) == near_shifted_low(value) + bit,
{
}

/// If the value lies in the interval after the converging bit is shifted out, and it began
/// with that bit, it lay in the interval before.
proof fn lemma_back_converging(low: int, high: int, value: int, bit: int)
    requires
        0 <= low < high < full_range(),
        0 <= value < full_range(),
        state_of(low, high) is Converging,
        value >= half() <==> low >= half(),
        0 <= bit <= 1,
        shifted_low(low) <= shifted_low(value) + bit <= shifted_high(high),
    ensures
        low <= value <= high,
{
}

/// If the value lies in the interval after the second bit is taken out, and its first two
/// bits differed, it lay in the interval before.
proof fn lemma_back_near(low: int, high: int, value: int, bit: int)
    requires
        0 <= low < high < full_range(),
        one_fourth() <= value < three_fourths(),
        state_of(low, high) is NearConvergence,
        0 <= bit <= 1,
        near_shifted_low(low) <= near_shifted_low(value) + bit <= near_shifted_high(high),
    ensures
        low <= value <= high,
{
}

/// A value whose first two bits are the bit on which the stream closes and its opposite lies
/// in every interval that has settled and closes on that bit.
proof fn lemma_closing(low: int, high: int, value: int)
    requires
        0 <= low < high < full_range(),
        0 <= value < full_range(),
        state_of(low, high) is NoConvergence,
        value >= half() <==> low >= one_fourth(),
        value % half() >= one_fourth() <==> low < one_fourth(),
    ensures
        low <= value <= high,
{
}

/// The first two bits of the window as the decoder holds it, where the bits that stand for
/// outstanding bits are all the opposite of the first bit written, and so is the bit behind
/// them.
proof fn lemma_top_bits(written: Seq<bool>, rest: Seq<bool>, outstanding: nat)
    requires
        written.len() >= outstanding + 2,
        forall|j: int| 1 <= j <= outstanding + 1 ==> #[trigger] written[j] == !written[0],
    ensures
        ({
            let ahead = (written + rest).skip(outstanding as int);
            let value = pending_view(window(ahead), outstanding);
            &&& 0 <= value < full_range()
            &&& value >= half() <==> written[0]
            &&& value % half() >= one_fourth() <==> !written[0]
        }),
{
    let ahead = (written + rest).skip(outstanding as int);
    lemma_window_top(ahead);
    lemma_bits_value_bound(ahead, 33);
    lemma2_to64();
    lemma2_to64_rest();
    lemma_pending_view(window(ahead), outstanding);
    assert(ahead[0] == written[outstanding as int]);
    assert(ahead[1] == written[outstanding as int + 1]);
}

/// The heart of the matter. Take the bits that the encoder writes from some point on, with
/// anything behind them, and leave out those that stand for bits which the decoder has read
/// already (the outstanding ones). The window at the front of what is left, as the decoder
/// holds it, lies in the interval.
///
/// On the way: of the bits that are written, those that stand for outstanding bits are all the
/// opposite of the first one.
pub proof fn lemma_value_inside(
    low: int,
    high: int,
    outstanding: nat,
    cfis: Seq<Cfi>,
    rest: Seq<bool>,
)
    requires
        0 <= low < high < full_range(),
        outstanding < usize::MAX,
        runs(low, high, outstanding, cfis),
    ensures
        ({
            let written = written_from(low, high, outstanding, cfis);
            let ahead = (written + rest).skip(outstanding as int);
            let value = pending_view(window(ahead), outstanding);
            &&& written.len() >= outstanding + 2
            &&& forall|j: int| 1 <= j <= outstanding ==> #[trigger] written[j] == !written[0]
            &&& low <= value <= high
        }),
    decreases cfis.len(), full_range() - (high - low + 1),
{
    let written = written_from(low, high, outstanding, cfis);
    let ahead = (written + rest).skip(outstanding as int);
    let value = pending_view(window(ahead), outstanding);
    lemma_written_step(low, high, outstanding, cfis);
    lemma_shift_widens(low, high, low, 0);
    match state_of(low, high) {
        IntervalState::Converging(bit) => {
            let next_low = shifted_low(low);
            let next_high = shifted_high(high);
            lemma_value_inside(next_low, next_high, 0, cfis, rest);
            let next_written = written_from(next_low, next_high, 0, cfis);
            assert((next_written + rest).skip(0) =~= next_written + rest);
            lemma_inside_converging(low, high, outstanding, bit, next_written, rest);
        },
        IntervalState::NearConvergence => {
            let next_low = near_shifted_low(low);
            let next_high = near_shifted_high(high);
            lemma_value_inside(next_low, next_high, (outstanding + 1) as nat, cfis, rest);
            lemma_inside_near(low, high, outstanding, written, rest);
        },
        IntervalState::NoConvergence => {
            if cfis.len() == 0 {
                let bit = low >= one_fourth();
                assert(written == converged_bits(bit, (outstanding + 1) as nat));
                assert(written[0] == bit);
                assert forall|j: int| 1 <= j <= outstanding + 1 implies #[trigger] written[j]
                    == !written[0] by {
                    assert(written[j] == repeated(!bit, (outstanding + 1) as nat)[j - 1]);
                }
                lemma_top_bits(written, rest, outstanding);
                lemma_closing(low, high, value);
            } else {
                let cfi = cfis[0];
                let narrow_low = narrowed_low(low, high, cfi.start@ as int, cfi.total@ as int);
                let narrow_high = narrowed_high(low, high, cfi.end@ as int, cfi.total@ as int);
                lemma_narrowing(
                    low,
                    high,
                    cfi.start@ as int,
                    cfi.end@ as int,
                    cfi.total@ as int,
                );
                lemma_value_inside(narrow_low, narrow_high, outstanding, cfis.skip(1), rest);
            }
        },
    }
}

/// The step of `lemma_value_inside` for an interval that converges.
proof fn lemma_inside_converging(
    low: int,
    high: int,
    outstanding: nat,
    bit: bool,
    next_written: Seq<bool>,
    rest: Seq<bool>,
)
    requires
        0 <= low < high < full_range(),
        state_of(low, high) == IntervalState::Converging(bit),
        next_written.len() >= 2,
        shifted_low(low) <= window(next_written + rest) <= shifted_high(high),
    ensures
        ({
            let written = converged_bits(bit, outstanding) + next_written;
            let ahead = (written + rest).skip(outstanding as int);
            let value = pending_view(window(ahead), outstanding);
            &&& written.len() >= outstanding + 2
            &&& forall|j: int| 1 <= j <= outstanding ==> #[trigger] written[j] == !written[0]
            &&& low <= value <= high
        }),
{
    let written = converged_bits(bit, outstanding) + next_written;
    let ahead = (written + rest).skip(outstanding as int);
    let value = pending_view(window(ahead), outstanding);
    assert(written[0] == bit);
    assert forall|j: int| 1 <= j <= outstanding implies #[trigger] written[j] == !written[0] by {
        assert(written[j] == converged_bits(bit, outstanding)[j]);
    }
    assert(after_bit(ahead) =~= next_written + rest);
    lemma_window_moves(ahead);
    lemma_window_top(ahead);
    lemma_bits_value_bound(ahead, 33);
    lemma2_to64();
    lemma2_to64_rest();
    lemma_pending_view(window(ahead), outstanding);
    assert(ahead[0] == written[outstanding as int]);
    lemma_back_converging(low, high, value, bit_at(ahead, 33));
}

/// The step of `lemma_value_inside` for an interval that nearly converges.
proof fn lemma_inside_near(
    low: int,
    high: int,
    outstanding: nat,
    written: Seq<bool>,
    rest: Seq<bool>,
)
    requires
        0 <= low < high < full_range(),
        state_of(low, high) is NearConvergence,
        written.len() >= outstanding + 3,
        forall|j: int| 1 <= j <= outstanding + 1 ==> #[trigger] written[j] == !written[0],
        near_shifted_low(low) <= pending_view(
            window((written + rest).skip(outstanding as int + 1)),
            (outstanding + 1) as nat,
        ) <= near_shifted_high(high),
    ensures
        ({
            let ahead = (written + rest).skip(outstanding as int);
            let value = pending_view(window(ahead), outstanding);
            low <= value <= high
        }),
{
    let ahead = (written + rest).skip(outstanding as int);
    let value = pending_view(window(ahead), outstanding);
    let next_ahead = (written + rest).skip(outstanding as int + 1);
    assert(after_bit(ahead) =~= next_ahead);
    lemma_top_bits(written, rest, outstanding);
    lemma_window_moves(ahead);
    lemma_bits_value_bound(ahead, 33);
    lemma2_to64();
    lemma2_to64_rest();
    lemma_pending_view(window(ahead), outstanding);
    lemma_pending_view_moves(value, window(ahead), bit_at(ahead, 33));
    lemma_back_near(low, high, value, bit_at(ahead, 33));
}

/// A value that lies in the interval narrowed by a CFI stands for a cumulative frequency
/// inside that CFI.
pub proof fn lemma_value_finds_cfi(
    low: int,
    high: int,
    value: int,
    start: int,
    end: int,
    total: int,
)
    requires
        0 <= low < high,
        0 <= start < end <= total,
        narrowed_low(low, high, start, total) <= value <= narrowed_high(low, high, end, total),
    ensures
        start <= cum_freq_of(total, low, high, value) < end,
{
    let width = high - low + 1;
    let part = value - low + 1;
    lemma_narrowing(low, high, start, end, total);
    // The floor of width * start / total is below part, so width * start < total * part:
    lemma_fundamental_div_mod(width * start, total);
    lemma_mod_bound(width * start, total);
    assert(width * start < total * part) by (nonlinear_arith)
        requires
            0 < total,
            (width * start) / total < part,
            width * start == total * ((width * start) / total) + (width * start) % total,
            (width * start) % total < total,
    ;
    lemma_div_is_ordered(width * start, total * part - 1, width);
    lemma_div_multiples_vanish(start, width);
    assert(width * start == start * width) by (nonlinear_arith);
    // part is at most the floor of width * end / total, so total * part <= width * end:
    lemma_fundamental_div_mod(width * end, total);
    lemma_mod_bound(width * end, total);
    assert(total * part <= width * end) by (nonlinear_arith)
        requires
            0 < total,
            part <= (width * end) / total,
            width * end == total * ((width * end) / total) + (width * end) % total,
            0 <= (width * end) % total,
    ;
    lemma_fundamental_div_mod(total * part - 1, width);
    lemma_mod_bound(total * part - 1, width);
    assert((total * part - 1) / width < end) by (nonlinear_arith)
        requires
            0 < width,
            total * part - 1 < width * end,
            total * part - 1 == width * ((total * part - 1) / width) + (total * part - 1)
                % width,
            0 <= (total * part - 1) % width,
    ;
}

/// The state machine of the decoder does to the interval what the state machine of the encoder
/// does, and keeps the value the window at the point to which it has read. It reads one bit
/// for each bit that the encoder writes or puts aside as outstanding.
pub proof fn lemma_decoder_settles(low: int, high: int, outstanding: nat, ahead: Seq<bool>)
    requires
        0 <= low < high < full_range(),
        outstanding < usize::MAX,
        !settle(low, high, outstanding).overflow,
    ensures
        ({
            let settled = settle(low, high, outstanding);
            let decoded = settle_decoder(
                low,
                high,
                pending_view(window(ahead), outstanding),
                after_bits(ahead, 33),
            );
            &&& decoded.low == settled.low
            &&& decoded.high == settled.high
            &&& decoded.value == pending_view(
                window(after_bits(ahead, decoded.consumed)),
                settled.outstanding,
            )
            &&& after_bits(after_bits(ahead, 33), decoded.consumed) == after_bits(
                after_bits(ahead, decoded.consumed),
                33,
            )
            &&& settled.emitted.len() + settled.outstanding == outstanding + decoded.consumed
        }),
    decreases full_range() - (high - low + 1),
{
    let value = pending_view(window(ahead), outstanding);
    let remaining = after_bits(ahead, 33);
    let next_ahead = after_bit(ahead);
    lemma_shift_widens(low, high, low, 0);
    lemma_bits_value_bound(ahead, 33);
    lemma2_to64();
    lemma2_to64_rest();
    lemma_pending_view(window(ahead), outstanding);
    lemma_window_moves(ahead);
    assert(next_bit(remaining) == bit_at(ahead, 33));
    assert(after_bit(remaining) =~= after_bits(next_ahead, 33));
    assert(after_bits(ahead, 0) =~= ahead);
    match state_of(low, high) {
        IntervalState::Converging(bit) => {
            lemma_decoder_settles(shifted_low(low), shifted_high(high), 0, next_ahead);
            let rest = settle_decoder(
                shifted_low(low),
                shifted_high(high),
                shifted_low(value) + next_bit(remaining),
                after_bit(remaining),
            );
            assert(after_bits(next_ahead, rest.consumed) =~= after_bits(
                ahead,
                rest.consumed + 1,
            ));
            assert(after_bits(after_bits(next_ahead, 33), rest.consumed) =~= after_bits(
                remaining,
                rest.consumed + 1,
            ));
        },
        IntervalState::NearConvergence => {
            lemma_decoder_settles(
                near_shifted_low(low),
                near_shifted_high(high),
                (outstanding + 1) as nat,
                next_ahead,
            );
            lemma_pending_view_moves(value, window(ahead), bit_at(ahead, 33));
            let rest = settle_decoder(
                near_shifted_low(low),
                near_shifted_high(high),
                near_shifted_low(value) + next_bit(remaining),
                after_bit(remaining),
            );
            assert(after_bits(next_ahead, rest.consumed) =~= after_bits(
                ahead,
                rest.consumed + 1,
            ));
            assert(after_bits(after_bits(next_ahead, 33), rest.consumed) =~= after_bits(
                remaining,
                rest.consumed + 1,
            ));
        },
        IntervalState::NoConvergence => {},
    }
}

/// Whether the decoder, given `cfis` one after the other, finds each time a cumulative
/// frequency inside the CFI, has room for the CFI in its interval, and has made up fewer bits
/// than would make it time out. It begins with the interval `[low, high]`, the value `value`,
/// the bits `remaining` still to read and `timeout` bits made up.
pub open spec fn decodes(
    low: int,
    high: int,
    value: int,
    remaining: Seq<bool>,
    timeout: nat,
    cfis: Seq<Cfi>,
) -> bool
    decreases cfis.len(),
{
    cfis.len() > 0 ==> {
        let cfi = cfis[0];
        let narrow_low = narrowed_low(low, high, cfi.start@ as int, cfi.total@ as int);
        let narrow_high = narrowed_high(low, high, cfi.end@ as int, cfi.total@ as int);
        let decoded = settle_decoder(narrow_low, narrow_high, value, remaining);
        &&& timeout < TIMEOUT_BITS
        &&& cfi.start@ <= cum_freq_of(cfi.total@ as int, low, high, value) < cfi.end@
        &&& narrow_low < narrow_high
        &&& decodes(
            decoded.low,
            decoded.high,
            decoded.value,
            after_bits(remaining, decoded.consumed),
            timeout + made_up(remaining, decoded.consumed),
            cfis.skip(1),
        )
    }
}

/// The decoder follows the encoder from any point between two symbols on.
pub proof fn lemma_decodes_from(
    low: int,
    high: int,
    outstanding: nat,
    cfis: Seq<Cfi>,
    rest: Seq<bool>,
)
    requires
        0 <= low < high < full_range(),
        state_of(low, high) is NoConvergence,
        outstanding < usize::MAX,
        runs(low, high, outstanding, cfis),
    ensures
        ({
            let ahead = (written_from(low, high, outstanding, cfis) + rest).skip(
                outstanding as int,
            );
            decodes(
                low,
                high,
                pending_view(window(ahead), outstanding),
                after_bits(ahead, 33),
                made_up(ahead, 33),
                cfis,
            )
        }),
    decreases cfis.len(),
{
    if cfis.len() > 0 {
        let written = written_from(low, high, outstanding, cfis);
        let ahead = (written + rest).skip(outstanding as int);
        let value = pending_view(window(ahead), outstanding);
        let remaining = after_bits(ahead, 33);
        let cfi = cfis[0];
        let later = cfis.skip(1);
        let narrow_low = narrowed_low(low, high, cfi.start@ as int, cfi.total@ as int);
        let narrow_high = narrowed_high(low, high, cfi.end@ as int, cfi.total@ as int);
        lemma_written_step(low, high, outstanding, cfis);
        lemma_narrowing(low, high, cfi.start@ as int, cfi.end@ as int, cfi.total@ as int);
        // The value lies in the narrowed interval, so it finds the CFI:
        lemma_value_inside(narrow_low, narrow_high, outstanding, later, rest);
        lemma_value_finds_cfi(
            low,
            high,
            value,
            cfi.start@ as int,
            cfi.end@ as int,
            cfi.total@ as int,
        );
        // The decoder settles where the encoder settles:
        let settled = settle(narrow_low, narrow_high, outstanding);
        let decoded = settle_decoder(narrow_low, narrow_high, value, remaining);
        lemma_settle(narrow_low, narrow_high, outstanding);
        lemma_decoder_settles(narrow_low, narrow_high, outstanding, ahead);
        // From there the encoder writes what is left of what it writes from here:
        let next_written = written_from(settled.low, settled.high, settled.outstanding, later);
        let idle = settle(settled.low, settled.high, settled.outstanding);
        assert(idle.emitted =~= Seq::<bool>::empty());
        assert(written =~= settled.emitted + next_written);
        lemma_value_inside(settled.low, settled.high, settled.outstanding, later, rest);
        let next_ahead = (next_written + rest).skip(settled.outstanding as int);
        assert(next_ahead =~= after_bits(ahead, decoded.consumed));
        lemma_decodes_from(settled.low, settled.high, settled.outstanding, later, rest);
    }
}

/// **Decompression undoes compression.** Let the encoder be given a sequence of CFIs that it
/// takes in, beginning with the full interval, and let the decoder be given the bits that the
/// encoder writes, closing bits included, with anything behind them (the zeros that fill the
/// last byte, say). Then the decoder, told the same CFIs one after the other, finds each time a
/// cumulative frequency inside the CFI that the encoder was given, and it does not time out.
///
/// A model that finds for each cumulative frequency the symbol whose CFI contains it thus
/// finds the symbols that were compressed.
pub proof fn lemma_round_trip(cfis: Seq<Cfi>, rest: Seq<bool>)
    requires
        runs(0, full_range() - 1, 0, cfis),
    ensures
        ({
            let bits = written_from(0, full_range() - 1, 0, cfis) + rest;
            decodes(
                0,
                full_range() - 1,
                loaded_value(0, bits, 33),
                after_bits(bits, 33),
                made_up(bits, 33),
                cfis,
            )
        }),
{
    let bits = written_from(0, full_range() - 1, 0, cfis) + rest;
    lemma_first_window(bits);
    assert(bits.skip(0) =~= bits);
    lemma_decodes_from(0, full_range() - 1, 0, cfis, rest);
}

/// What the encoder writes, symbol by symbol: for the next CFI the bits on which the narrowed
/// interval settles, then what it writes for the CFIs that are left; at the end the closing
/// bits.
pub proof fn lemma_written_by_symbol(low: int, high: int, outstanding: nat, cfis: Seq<Cfi>)
    requires
        0 <= low < high < full_range(),
        state_of(low, high) is NoConvergence,
    ensures
        cfis.len() == 0 ==> written_from(low, high, outstanding, cfis) == closing_bits(
            low,
            outstanding,
        ),
        cfis.len() > 0 ==> ({
            let cfi = cfis[0];
            let settled = settle(
                narrowed_low(low, high, cfi.start@ as int, cfi.total@ as int),
                narrowed_high(low, high, cfi.end@ as int, cfi.total@ as int),
                outstanding,
            );
            cfi.wf() && narrowed_low(low, high, cfi.start@ as int, cfi.total@ as int)
                < narrowed_high(low, high, cfi.end@ as int, cfi.total@ as int)
                && !settled.overflow && outstanding < usize::MAX ==> written_from(
                low,
                high,
                outstanding,
                cfis,
            ) == settled.emitted + written_from(
                settled.low,
                settled.high,
                settled.outstanding,
                cfis.skip(1),
            )
        }),
{
    let idle = settle(low, high, outstanding);
    assert(idle.emitted =~= Seq::<bool>::empty());
    if cfis.len() == 0 {
        assert(idle.emitted + closing_bits(low, outstanding) =~= closing_bits(low, outstanding));
    } else {
        let cfi = cfis[0];
        let narrow_low = narrowed_low(low, high, cfi.start@ as int, cfi.total@ as int);
        let narrow_high = narrowed_high(low, high, cfi.end@ as int, cfi.total@ as int);
        let settled = settle(narrow_low, narrow_high, outstanding);
        if cfi.wf() && narrow_low < narrow_high && !settled.overflow && outstanding
            < usize::MAX {
            lemma_narrowing(low, high, cfi.start@ as int, cfi.end@ as int, cfi.total@ as int);
            let later = cfis.skip(1);
            let tail = written_from(narrow_low, narrow_high, outstanding, later);
            assert(written_from(low, high, outstanding, cfis) =~= tail);
            if 0 <= narrow_low && narrow_high < full_range() {
                lemma_settle(narrow_low, narrow_high, outstanding);
                let next_idle = settle(settled.low, settled.high, settled.outstanding);
                assert(next_idle.emitted =~= Seq::<bool>::empty());
                assert(tail =~= settled.emitted + written_from(
                    settled.low,
                    settled.high,
                    settled.outstanding,
                    later,
                ));
            }
        }
    }
}

/// The CFIs that a model gives for `symbols`, one after the other, if it stays as it is.
pub open spec fn cfis_of<M: Model>(model: M, symbols: Seq<Symbol>) -> Seq<Cfi> {
    Seq::new(symbols.len(), |k: int| model.cfi_of(symbols[k])->Ok_0.spec_cfi())
}

/// Whether a model, if it stays as it is, has a CFI of its own for each of `symbols`: for the
/// escape symbol an escape CFI, for every other symbol a plain one.
pub open spec fn codes<M: Model>(model: M, symbols: Seq<Symbol>) -> bool {
    forall|k: int|
        0 <= k < symbols.len() ==> match #[trigger] model.cfi_of(symbols[k]) {
            Ok(ModelCfi::IndexCfi(_)) => symbols[k] != Symbol::Esc,
            Ok(ModelCfi::EscapeCfi(_)) => symbols[k] == Symbol::Esc,
            Err(_) => false,
        }
}

/// Whether the decoder, with a model that stays as it is, finds `symbols` one after the other:
/// each time it has not timed out, the model finds the symbol for the cumulative frequency that
/// the value stands for, and the CFI of the symbol leaves room in the interval. It begins with
/// the interval `[low, high]`, the value `value`, the bits `remaining` still to read and
/// `timeout` bits made up.
pub open spec fn finds<M: Model>(
    model: M,
    low: int,
    high: int,
    value: int,
    remaining: Seq<bool>,
    timeout: nat,
    symbols: Seq<Symbol>,
) -> bool
    decreases symbols.len(),
{
    symbols.len() > 0 ==> {
        let cum_freq = Frequency::from_value(
            cum_freq_of(model.total()@ as int, low, high, value) as u64,
        );
        let cfi = model.cfi_of(symbols[0])->Ok_0.spec_cfi();
        let narrow_low = narrowed_low(low, high, cfi.start@ as int, cfi.total@ as int);
        let narrow_high = narrowed_high(low, high, cfi.end@ as int, cfi.total@ as int);
        let decoded = settle_decoder(narrow_low, narrow_high, value, remaining);
        &&& timeout < TIMEOUT_BITS
        &&& model.total()@ > 0
        &&& model.symbol_of(cum_freq) == Some(symbols[0])
        &&& model.cfi_of(symbols[0]) is Ok
        &&& narrow_low < narrow_high
        &&& finds(
            model,
            decoded.low,
            decoded.high,
            decoded.value,
            after_bits(remaining, decoded.consumed),
            timeout + made_up(remaining, decoded.consumed),
            symbols.skip(1),
        )
    }
}

/// A decoder that finds the CFIs finds the symbols, with a model that stays as it is.
proof fn lemma_finds<M: Model>(
    model: M,
    low: int,
    high: int,
    value: int,
    remaining: Seq<bool>,
    timeout: nat,
    symbols: Seq<Symbol>,
)
    requires
        model.wf(),
        codes(model, symbols),
        0 <= low <= value <= high < full_range(),
        low < high,
        decodes(low, high, value, remaining, timeout, cfis_of(model, symbols)),
    ensures
        finds(model, low, high, value, remaining, timeout, symbols),
    decreases symbols.len(),
{
    if symbols.len() > 0 {
        let symbol = symbols[0];
        let cfis = cfis_of(model, symbols);
        let model_cfi = model.cfi_of(symbol)->Ok_0;
        let cfi = model_cfi.spec_cfi();
        assert(cfis[0] == cfi);
        model.lemma_cfi_of(symbol);
        let total = model.total()@ as int;
        let found = cum_freq_of(total, low, high, value);
        let cum_freq = Frequency::from_value(found as u64);
        Frequency::lemma_from_value(found as u64);
        model.lemma_cfi_found(symbol, cum_freq);
        let narrow_low = narrowed_low(low, high, cfi.start@ as int, cfi.total@ as int);
        let narrow_high = narrowed_high(low, high, cfi.end@ as int, cfi.total@ as int);
        let decoded = settle_decoder(narrow_low, narrow_high, value, remaining);
        lemma_narrowing(
            low,
            high,
            cfi.start@ as int,
            cfi.end@ as int,
            cfi.total@ as int,
        );
        lemma_narrowing_keeps_value(
            low,
            high,
            value,
            cfi.start@ as int,
            cfi.end@ as int,
            cfi.total@ as int,
        );
        lemma_settle_decoder(narrow_low, narrow_high, value, remaining);
        let later = symbols.skip(1);
        assert(cfis_of(model, later) =~= cfis.skip(1));
        assert forall|k: int| 0 <= k < later.len() implies match #[trigger] model.cfi_of(
            later[k],
        ) {
            Ok(ModelCfi::IndexCfi(_)) => later[k] != Symbol::Esc,
            Ok(ModelCfi::EscapeCfi(_)) => later[k] == Symbol::Esc,
            Err(_) => false,
        } by {
            assert(later[k] == symbols[k + 1]);
        }
        lemma_finds(
            model,
            decoded.low,
            decoded.high,
            decoded.value,
            after_bits(remaining, decoded.consumed),
            timeout + made_up(remaining, decoded.consumed),
            later,
        );
    }
}

/// **Decompression undoes compression, symbol by symbol.** Let a model that stays as it is
/// (as the models with a fixed distribution do) have a CFI of its own for each of `symbols`,
/// and let the encoder take those CFIs in. Let the decoder be given the bits that the encoder
/// writes for them, closing bits included, with anything behind them. Then the decoder finds
/// the symbols, one after the other, and does not time out.
pub proof fn lemma_round_trip_of_symbols<M: Model>(
    model: M,
    symbols: Seq<Symbol>,
    rest: Seq<bool>,
)
    requires
        model.wf(),
        codes(model, symbols),
        runs(0, full_range() - 1, 0, cfis_of(model, symbols)),
    ensures
        ({
            let bits = written_from(0, full_range() - 1, 0, cfis_of(model, symbols)) + rest;
            finds(
                model,
                0,
                full_range() - 1,
                loaded_value(0, bits, 33),
                after_bits(bits, 33),
                made_up(bits, 33),
                symbols,
            )
        }),
{
    let cfis = cfis_of(model, symbols);
    let bits = written_from(0, full_range() - 1, 0, cfis) + rest;
    lemma_round_trip(cfis, rest);
    lemma_first_window(bits);
    lemma_finds(
        model,
        0,
        full_range() - 1,
        loaded_value(0, bits, 33),
        after_bits(bits, 33),
        made_up(bits, 33),
        symbols,
    );
}

} // verus!
