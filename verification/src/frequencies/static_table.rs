//! A frequency table that is fixed once it is built.

use super::{
    cumulative, lemma_cumulative_monotonic, lemma_max_frequency, max_frequency, total_of,
    values_of, Cfi, Frequency, FrequencyTable, OverflowOnTableBuild,
};
use crate::number_types::{max_for_bits, FREQUENCY_BITS};
use vstd::prelude::*;

verus! {

/// A frequency table whose values cannot be updated after initialization
pub struct StaticFrequencyTable {
    /// The cumulative frequencies: entry `i` is the sum of the first `i` frequencies.
    cum_freqs: Vec<Frequency>,
}

impl StaticFrequencyTable {
    /// The table starts at 0, never decreases and ends at a sum that fits in a frequency.
    pub closed spec fn well_formed(&self) -> bool {
        &&& self.cum_freqs@.len() >= 1
        &&& self.cum_freqs@[0]@ == 0
        &&& forall|i: int, j: int|
            0 <= i <= j < self.cum_freqs@.len() ==> self.cum_freqs@[i]@ <= self.cum_freqs@[j]@
        &&& self.cum_freqs@[self.cum_freqs@.len() - 1]@ <= max_frequency()
    }

    /// The frequency of each index: the step of the cumulative frequencies at it.
    pub closed spec fn spec_frequencies(&self) -> Seq<nat> {
        Seq::new(
            (self.cum_freqs@.len() - 1) as nat,
            |i: int| (self.cum_freqs@[i + 1]@ - self.cum_freqs@[i]@) as nat,
        )
    }

    /// The stored entries are the cumulative frequencies.
    proof fn lemma_cum_freqs(&self, i: int)
        requires
            self.well_formed(),
            0 <= i < self.cum_freqs@.len(),
        ensures
            cumulative(self.spec_frequencies(), i) == self.cum_freqs@[i]@,
        decreases i,
    {
        if i > 0 {
            self.lemma_cum_freqs(i - 1);
        }
    }

    /// Creates a static frequency table from the frequencies provided here.
    /// The new table's length will be the length of the provided slice.
    ///
    /// The frequencies provided here should not be cumulative, and the function will fail if at
    /// any point the sum of the slice's frequencies exceeds the largest frequency.
    pub fn new(frequencies: &[Frequency]) -> (r: Result<Self, OverflowOnTableBuild>)
        ensures
            r is Ok <==> total_of(values_of(frequencies@)) <= max_frequency(),
            r matches Ok(table) ==> table.wf() && table.frequencies() == values_of(frequencies@),
            r matches Err(e) ==> {
                &&& e.index < frequencies@.len()
                &&& cumulative(values_of(frequencies@), e.index as int) <= max_frequency()
                &&& cumulative(values_of(frequencies@), e.index + 1) > max_frequency()
            },
    {
        // Initialize the cumulative frequencies vector with 0 as the first CFI's start value:
        let mut accum: u64 = 0;
        let mut cum_freqs: Vec<Frequency> = Vec::new();
        cum_freqs.push(Frequency::zero());
        let ghost f = values_of(frequencies@);
        proof {
            lemma_max_frequency();
        }

        let mut idx: usize = 0;
        while idx < frequencies.len()
            invariant
                idx <= frequencies@.len(),
                f == values_of(frequencies@),
                cum_freqs@.len() == idx + 1,
                accum == cumulative(f, idx as int),
                accum <= max_frequency(),
                forall|i: int| 0 <= i <= idx ==> (#[trigger] cum_freqs@[i])@ == cumulative(f, i),
                max_for_bits(FREQUENCY_BITS) == max_frequency(),
            decreases frequencies@.len() - idx,
        {
            // Calculate cumulative and catch any overflow:
            let frequency: u64 = frequencies[idx].value();
            accum += frequency;
            match Frequency::new(accum) {
                Ok(cum_freq) => {
                    proof {
                        Frequency::lemma_from_value(accum);
                    }
                    cum_freqs.push(cum_freq);
                },
                Err(_) => {
                    proof {
                        if total_of(f) <= max_frequency() {
                            lemma_cumulative_monotonic(f, idx + 1, f.len() as int);
                        }
                    }
                    return Err(OverflowOnTableBuild { index: idx });
                },
            }
            idx += 1;
        }

        proof {
            assert forall|i: int, j: int| 0 <= i <= j < cum_freqs@.len() implies cum_freqs@[i]@
                <= cum_freqs@[j]@ by {
                lemma_cumulative_monotonic(f, i, j);
            }
        }
        let table = Self { cum_freqs };
        proof {
            assert forall|i: int| 0 <= i < f.len() implies table.spec_frequencies()[i] == f[i] by {
                assert(cum_freqs@[i + 1]@ == cumulative(f, i + 1));
                assert(cum_freqs@[i]@ == cumulative(f, i));
            }
            assert(table.spec_frequencies() =~= f);
        }
        Ok(table)
    }
}

impl FrequencyTable for StaticFrequencyTable {
    open spec fn wf(&self) -> bool {
        self.well_formed()
    }

    open spec fn frequencies(&self) -> Seq<nat> {
        self.spec_frequencies()
    }

    fn get_cfi(&self, index: usize) -> (r: Option<Cfi>) {
        proof {
            if index < self.cum_freqs@.len() {
                self.lemma_cum_freqs(index as int);
            }
            if index + 1 < self.cum_freqs@.len() {
                self.lemma_cum_freqs(index + 1);
            }
            self.lemma_cum_freqs(self.cum_freqs@.len() - 1);
        }
        // Get start and end of the CFI:
        if index >= self.cum_freqs.len() - 1 {
            return None;
        }
        let start = self.cum_freqs[index];
        let end = self.cum_freqs[index + 1];
        // Check if start is equal to end:
        if start.value() == end.value() {
            None
        } else {
            let total = self.get_total();
            proof {
                Frequency::lemma_from_value(cumulative(self.frequencies(), index as int) as u64);
                Frequency::lemma_from_value(cumulative(self.frequencies(), index + 1) as u64);
                Frequency::lemma_from_value(total_of(self.frequencies()) as u64);
                Frequency::lemma_view_injective(
                    start,
                    Frequency::from_value(cumulative(self.frequencies(), index as int) as u64),
                );
                Frequency::lemma_view_injective(
                    end,
                    Frequency::from_value(cumulative(self.frequencies(), index + 1) as u64),
                );
                Frequency::lemma_view_injective(
                    total,
                    Frequency::from_value(total_of(self.frequencies()) as u64),
                );
            }
            Some(Cfi { start, end, total })
        }
    }

    fn get_index(&self, cumulative_frequency: Frequency) -> (r: Option<usize>) {
        proof {
            self.lemma_cum_freqs(self.cum_freqs@.len() - 1);
        }
        let cf: u64 = cumulative_frequency.value();
        let len: usize = self.cum_freqs.len() - 1;
        // Use binary search since all frequencies are non-negative and therefor all cumulative
        // frequencies are sorted. The index looked for lies in `left..right`:
        let mut left: usize = 0;
        let mut right: usize = len;

        while left < right
            invariant
                self.well_formed(),
                len == self.cum_freqs@.len() - 1,
                total_of(self.frequencies()) == self.cum_freqs@[len as int]@,
                left <= right <= len,
                cf == cumulative_frequency@,
                self.cum_freqs@[left as int]@ <= cf,
                right < len ==> cf < self.cum_freqs@[right as int]@,
            decreases right - left,
        {
            let middle: usize = left + (right - left) / 2;

            if cf < self.cum_freqs[middle].value() {
                // The value lies below the CFI of `middle`:
                right = middle;
            } else if cf >= self.cum_freqs[middle + 1].value() {
                // The value lies above it:
                left = middle + 1;
            } else {
                // Spot on!
                proof {
                    self.lemma_cum_freqs(middle as int);
                    self.lemma_cum_freqs(middle + 1);
                }
                return Some(middle);
            }
        }

        None
    }

    fn get_total(&self) -> (r: Frequency) {
        proof {
            self.lemma_cum_freqs(self.cum_freqs@.len() - 1);
        }
        // Cumulative sum of all frequencies is always the last entry:
        self.cum_freqs[self.cum_freqs.len() - 1]
    }

    proof fn lemma_total_fits(&self) {
        self.lemma_cum_freqs(self.cum_freqs@.len() - 1);
    }
}

} // verus!
