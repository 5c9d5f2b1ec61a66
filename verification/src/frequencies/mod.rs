//! Frequency tables: what assigns each index its share of the cumulative frequencies.

pub mod mutable_table;
pub mod static_table;

use crate::number_types::{max_for_bits, ConstrainedNum, FREQUENCY_BITS};
use vstd::arithmetic::power2::lemma2_to64;
use vstd::prelude::*;

verus! {

/// Number type for all frequencies, used to limit a frequency's bits
pub type Frequency = ConstrainedNum<FREQUENCY_BITS>;

/// The largest frequency, `2^31 - 1`.
pub open spec fn max_frequency() -> nat {
    0x7fff_ffff
}

/// `max_frequency()` is the largest number of `FREQUENCY_BITS` bits.
pub proof fn lemma_max_frequency()
    ensures
        max_for_bits(FREQUENCY_BITS) == max_frequency(),
{
    lemma2_to64();
}

/// A struct describing the Cumulative Frequency Interval of a symbol: the part
/// `[start / total, end / total)` of `[0, 1)`.
#[derive(Debug, Clone, Copy, PartialEq, Eq)]
pub struct Cfi {
    pub start: Frequency,
    pub end: Frequency,
    pub total: Frequency,
}

impl Cfi {
    /// A CFI is not empty and lies within its total: `start < end <= total`.
    pub open spec fn wf(&self) -> bool {
        self.start@ < self.end@ <= self.total@
    }
}

/// The cumulative sum of the frequencies exceeded the largest frequency, first at `index`.
#[derive(Debug, Clone, Copy, PartialEq, Eq)]
pub struct OverflowOnTableBuild {
    pub index: usize,
}

/// The values that a sequence of frequencies holds.
pub open spec fn values_of(frequencies: Seq<Frequency>) -> Seq<nat> {
    Seq::new(frequencies.len(), |i: int| frequencies[i]@ as nat)
}

/// The sum of the first `i` frequencies of `f`.
pub open spec fn cumulative(f: Seq<nat>, i: int) -> nat
    decreases i,
{
    if i <= 0 {
        0
    } else {
        cumulative(f, i - 1) + f[i - 1]
    }
}

/// The sum of all frequencies of `f`.
pub open spec fn total_of(f: Seq<nat>) -> nat {
    cumulative(f, f.len() as int)
}

/// The CFI that a table with the frequencies `f` assigns to `index`: none if the index is out of
/// bounds or its frequency is 0.
pub open spec fn cfi_at(f: Seq<nat>, index: int) -> Option<Cfi> {
    if 0 <= index < f.len() && f[index] > 0 {
        Some(
            Cfi {
                start: Frequency::from_value(cumulative(f, index) as u64),
                end: Frequency::from_value(cumulative(f, index + 1) as u64),
                total: Frequency::from_value(total_of(f) as u64),
            },
        )
    } else {
        None
    }
}

/// Whether the CFI of `index` contains the cumulative frequency `cf`.
pub open spec fn cfi_contains(f: Seq<nat>, index: int, cf: nat) -> bool {
    0 <= index < f.len() && cumulative(f, index) <= cf < cumulative(f, index + 1)
}

/// Cumulative frequencies never decrease.
pub proof fn lemma_cumulative_monotonic(f: Seq<nat>, i: int, j: int)
    requires
        i <= j,
    ensures
        cumulative(f, i) <= cumulative(f, j),
    decreases j - i,
{
    if i < j {
        lemma_cumulative_monotonic(f, i, j - 1);
    }
}

/// Raising one frequency raises the cumulative frequencies behind it.
pub proof fn lemma_cumulative_update(f: Seq<nat>, index: int, amount: nat, i: int)
    requires
        0 <= index < f.len(),
        i <= f.len(),
    ensures
        cumulative(f.update(index, f[index] + amount), i) == cumulative(f, i) + (if index < i {
            amount
        } else {
            0
        }),
    decreases i,
{
    if i > 0 {
        lemma_cumulative_update(f, index, amount, i - 1);
    }
}

/// At most one CFI contains a given cumulative frequency.
pub proof fn lemma_cfi_contains_unique(f: Seq<nat>, i: int, j: int, cf: nat)
    requires
        cfi_contains(f, i, cf),
        cfi_contains(f, j, cf),
    ensures
        i == j,
{
    if i < j {
        lemma_cumulative_monotonic(f, i + 1, j);
    } else if j < i {
        lemma_cumulative_monotonic(f, j + 1, i);
    }
}

/// Every cumulative frequency below the total lies in some CFI, and none at or above it does.
pub proof fn lemma_cfi_contains_exists(f: Seq<nat>, cf: nat)
    ensures
        cf < total_of(f) <==> exists|i: int| cfi_contains(f, i, cf),
{
    if cf < total_of(f) {
        lemma_find_cfi(f, cf, f.len() as int);
    } else {
        assert forall|i: int| !cfi_contains(f, i, cf) by {
            if 0 <= i < f.len() {
                lemma_cumulative_monotonic(f, i + 1, f.len() as int);
            }
        }
    }
}

proof fn lemma_find_cfi(f: Seq<nat>, cf: nat, n: int)
    requires
        0 <= n <= f.len(),
        cf < cumulative(f, n),
    ensures
        exists|i: int| cfi_contains(f, i, cf),
    decreases n,
{
    if cf < cumulative(f, n - 1) {
        lemma_find_cfi(f, cf, n - 1);
    } else {
        assert(cfi_contains(f, n - 1, cf));
    }
}

/// A CFI that `cfi_at` gives is well-formed when the total fits in a frequency, and it holds the
/// cumulative frequencies around its index.
pub proof fn lemma_cfi_at(f: Seq<nat>, index: int)
    requires
        total_of(f) <= max_frequency(),
    ensures
        cfi_at(f, index) matches Some(cfi) ==> {
            &&& cfi.wf()
            &&& cfi.start@ == cumulative(f, index)
            &&& cfi.end@ == cumulative(f, index + 1)
            &&& cfi.total@ == total_of(f)
        },
{
    if 0 <= index < f.len() && f[index] > 0 {
        lemma_cumulative_monotonic(f, index + 1, f.len() as int);
        Frequency::lemma_from_value(cumulative(f, index) as u64);
        Frequency::lemma_from_value(cumulative(f, index + 1) as u64);
        Frequency::lemma_from_value(total_of(f) as u64);
    }
}

/// A frequency table is anything that assigns Cumulative-Frequency-Intervals to indices. The
/// following trait defines its required functions.
pub trait FrequencyTable {
    /// What the table needs to hold of itself to work. The sum of its frequencies then fits in a
    /// `Frequency`.
    spec fn wf(&self) -> bool;

    /// The frequency of each index.
    spec fn frequencies(&self) -> Seq<nat>;

    /// Returns the CFI assigned to the given index, or None if such CFI is empty (start == end)
    /// or the index is out of the table's bounds.
    fn get_cfi(&self, index: usize) -> (r: Option<Cfi>)
        requires
            self.wf(),
        ensures
            r == cfi_at(self.frequencies(), index as int),
    ;

    /// Given a cumulative frequency value, return the index whose assigned CFI contains the
    /// value. If such CFI is not found, None is returned.
    fn get_index(&self, cumulative_frequency: Frequency) -> (r: Option<usize>)
        requires
            self.wf(),
        ensures
            r matches Some(i) ==> cfi_contains(
                self.frequencies(),
                i as int,
                cumulative_frequency@ as nat,
            ),
            r is None <==> cumulative_frequency@ >= total_of(self.frequencies()),
    ;

    /// Returns the total cumulative number of frequencies saved in the table.
    fn get_total(&self) -> (r: Frequency)
        requires
            self.wf(),
        ensures
            r@ == total_of(self.frequencies()),
    ;

    /// The frequencies of a table sum up to at most the largest frequency.
    proof fn lemma_total_fits(&self)
        requires
            self.wf(),
        ensures
            total_of(self.frequencies()) <= max_frequency(),
    ;
}

} // verus!
