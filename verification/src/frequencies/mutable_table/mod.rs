//! A frequency table whose frequencies can grow.

pub mod fenwick;

use self::fenwick::{numbers_of, FenwickTree};
use super::{
    cumulative, lemma_cumulative_monotonic, lemma_cumulative_update, lemma_max_frequency,
    max_frequency, total_of, values_of, Cfi, Frequency, FrequencyTable, OverflowOnTableBuild,
};
use crate::number_types::{max_for_bits, CalculationsType, FREQUENCY_BITS};
use vstd::prelude::*;

verus! {

/// A frequency table which can be mutated
pub struct MutableFrequencyTable {
    /// The frequencies, stored in a fenwick tree for efficient querying and mutating (O(log n))
    fenwick: FenwickTree,
    /// The total cumulative frequency. It can be computed from the fenwick tree, but saving it
    /// is easy and makes its query more efficient
    total: Frequency,
}

impl MutableFrequencyTable {
    /// The tree is in order, and the saved total is the sum of its contents.
    pub closed spec fn well_formed(&self) -> bool {
        &&& self.fenwick.wf()
        &&& self.total@ == total_of(self.fenwick@)
        &&& self.total@ <= max_frequency()
    }

    /// The frequency of each index.
    pub closed spec fn spec_frequencies(&self) -> Seq<nat> {
        self.fenwick@
    }

    /// Creates a mutable frequency table from the frequencies provided here.
    /// The new table's length will be the length of the provided slice.
    ///
    /// The frequencies provided here should not be cumulative, and the function will fail if at
    /// any point the sum of the slice's frequencies exceeds the largest frequency.
    pub fn new(frequencies: &[Frequency]) -> (r: Result<Self, OverflowOnTableBuild>)
        ensures
            r is Ok <==> total_of(values_of(frequencies@)) <= max_frequency(),
            r matches Ok(table) ==> table.wf() && table.frequencies() == values_of(frequencies@),
            r matches Err(e) ==> {
                &&& e.index < frequencies@.len()
                &&& cumulative(values_of(frequencies@), e.index as int) <= max_frequency()
                &&& cumulative(values_of(frequencies@), e.index + 1) > max_frequency()
            },
    {
        let ghost f = values_of(frequencies@);
        let mut values: Vec<CalculationsType> = Vec::new();
        let mut accum: CalculationsType = 0;
        let mut idx: usize = 0;
        proof {
            lemma_max_frequency();
        }
        while idx < frequencies.len()
            invariant
                idx <= frequencies@.len(),
                f == values_of(frequencies@),
                values@.len() == idx,
                forall|i: int| 0 <= i < idx ==> #[trigger] values@[i] == f[i],
                accum == cumulative(f, idx as int),
                accum <= max_frequency(),
                max_for_bits(FREQUENCY_BITS) == max_frequency(),
            decreases frequencies@.len() - idx,
        {
            let value: CalculationsType = frequencies[idx].value();
            accum += value;
            if accum > Frequency::max().value() {
                proof {
                    if total_of(f) <= max_frequency() {
                        lemma_cumulative_monotonic(f, idx + 1, f.len() as int);
                    }
                }
                return Err(OverflowOnTableBuild { index: idx });
            }
            values.push(value);
            idx += 1;
        }
        assert(numbers_of(values@) =~= f);
        let fenwick = FenwickTree::from(values.as_slice());
        let total = Frequency::new_unchecked(fenwick.get_sum(fenwick.len()));

        Ok(Self { fenwick, total })
    }

    /// Adds a certain amount to the frequency at the given index in the table.
    ///
    /// If the table has no such index, or if the total would then exceed the bits allowed for a
    /// frequency, nothing is changed.
    pub fn add_frequency(&mut self, index: usize, amount: Frequency)
        requires
            old(self).wf(),
        ensures
            final(self).wf(),
            final(self).frequencies() == (if index < old(self).frequencies().len() && total_of(
                old(self).frequencies(),
            ) + amount@ <= max_frequency() {
                old(self).frequencies().update(
                    index as int,
                    old(self).frequencies()[index as int] + amount@ as nat,
                )
            } else {
                old(self).frequencies()
            }),
    {
        proof {
            lemma_max_frequency();
        }
        if index >= self.fenwick.len() {
            return ;
        }
        // Since `total` is the largest, if adding to it fails adding to anything else will too:
        let new_total: CalculationsType = self.total.value() + amount.value();
        if new_total <= Frequency::max().value() {
            proof {
                lemma_cumulative_update(
                    self.fenwick@,
                    index as int,
                    amount@ as nat,
                    self.fenwick@.len() as int,
                );
            }
            self.total = Frequency::new_unchecked(new_total);
            self.fenwick.add(index, amount.value());
        }
    }
}

impl FrequencyTable for MutableFrequencyTable {
    open spec fn wf(&self) -> bool {
        self.well_formed()
    }

    open spec fn frequencies(&self) -> Seq<nat> {
        self.spec_frequencies()
    }

    fn get_cfi(&self, index: usize) -> (r: Option<Cfi>) {
        proof {
            lemma_max_frequency();
        }
        if index < self.fenwick.len() {
            proof {
                lemma_cumulative_monotonic(self.fenwick@, index as int, self.fenwick@.len() as int);
                lemma_cumulative_monotonic(self.fenwick@, index + 1, self.fenwick@.len() as int);
            }
            let start = Frequency::new_unchecked(self.fenwick.get_sum(index));
            let end = Frequency::new_unchecked(self.fenwick.get_sum(index + 1));
            if start.value() == end.value() {
                return None;
            }
            let total = self.total;
            proof {
                let f = self.frequencies();
                Frequency::lemma_from_value(cumulative(f, index as int) as u64);
                Frequency::lemma_from_value(cumulative(f, index + 1) as u64);
                Frequency::lemma_from_value(total_of(f) as u64);
                Frequency::lemma_view_injective(
                    start,
                    Frequency::from_value(cumulative(f, index as int) as u64),
                );
                Frequency::lemma_view_injective(
                    end,
                    Frequency::from_value(cumulative(f, index + 1) as u64),
                );
                Frequency::lemma_view_injective(total, Frequency::from_value(total_of(f) as u64));
            }
            Some(Cfi { start, end, total })
        } else {
            None
        }
    }

    fn get_index(&self, cumulative_frequency: Frequency) -> (r: Option<usize>) {
        let cf: CalculationsType = cumulative_frequency.value();
        let len: usize = self.fenwick.len();
        // Implement binary search. The index looked for lies in `left..right`:
        let mut left: usize = 0;
        let mut right: usize = len;

        while left < right
            invariant
                self.well_formed(),
                len == self.fenwick@.len(),
                left <= right <= len,
                cf == cumulative_frequency@,
                cumulative(self.fenwick@, left as int) <= cf,
                right < len ==> cf < cumulative(self.fenwick@, right as int),
            decreases right - left,
        {
            let middle: usize = left + (right - left) / 2;

            if cf < self.fenwick.get_sum(middle) {
                // The value lies below the CFI of `middle`:
                right = middle;
            } else if cf >= self.fenwick.get_sum(middle + 1) {
                // The value lies above it:
                left = middle + 1;
            } else {
                // Spot on!
                proof {
                    lemma_cumulative_monotonic(self.fenwick@, middle + 1, len as int);
                }
                return Some(middle);
            }
        }
        proof {
            if left < len {
                lemma_cumulative_monotonic(self.fenwick@, left as int, len as int);
            }
        }

        None
    }

    fn get_total(&self) -> (r: Frequency) {
        self.total
    }

    proof fn lemma_total_fits(&self) {
    }
}

} // verus!
