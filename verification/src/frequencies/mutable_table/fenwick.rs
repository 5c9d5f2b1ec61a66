//! A Fenwick tree: prefix sums and point updates, each in logarithmic time.

use crate::frequencies::{
    cumulative, lemma_cumulative_monotonic, lemma_cumulative_update, total_of,
};
use crate::number_types::CalculationsType;
use vstd::prelude::*;

verus! {

/// The least significant set bit of a number (0 for 0).
pub open spec fn lsb_of(n: u64) -> u64 {
    if n == 0 {
        0
    } else {
        n & !((n - 1) as u64)
    }
}

/// Computes the least significant set bit of a number
pub fn lsb(n: usize) -> (r: usize)
    ensures
        r == lsb_of(n as u64),
        n > 0 ==> 0 < r <= n,
{
    if n == 0 {
        0
    } else {
        let wide: u64 = n as u64;
        assert(0 < wide & !((wide - 1) as u64) <= wide) by (bit_vector)
            requires
                wide > 0,
        ;
        (wide & !(wide - 1)) as usize
    }
}

/// The values that a sequence of numbers holds.
pub open spec fn numbers_of(values: Seq<CalculationsType>) -> Seq<nat> {
    Seq::new(values.len(), |i: int| values[i] as nat)
}

/// What node `j` of the tree holds: the sum of the `lsb_of(j)` values that end at value `j`
/// (the values counted from 1).
pub open spec fn node_sum(values: Seq<nat>, j: int) -> int {
    cumulative(values, j) - cumulative(values, j - lsb_of(j as u64))
}

/// Whether node `j` counts value `p` (the values counted from 1).
pub open spec fn covers(j: u64, p: u64) -> bool {
    j - lsb_of(j) < p <= j
}

/// Whether node `c` hands its sum up to node `j`.
pub open spec fn child_of(c: u64, j: u64) -> bool {
    c > 0 && c + lsb_of(c) == j
}

/// The node after `i` on the way up counts what `i` counts.
proof fn lemma_covers_next(i: u64, p: u64)
    by (bit_vector)
    requires
        0 < i,
        i + lsb_of(i) <= 0xffff_ffff_ffff_ffffu64,
        covers(i, p),
    ensures
        covers((i + lsb_of(i)) as u64, p),
{
}

/// No node between `i` and the next one on the way up counts what `i` counts.
proof fn lemma_covers_gap(i: u64, j: u64, p: u64)
    by (bit_vector)
    requires
        0 < i < j,
        j < i + lsb_of(i),
        covers(i, p),
    ensures
        !covers(j, p),
{
}

/// The values that a child counts lie among the values of its parent, and they begin where the
/// parent's begin or where another child's end.
proof fn lemma_child_start(c: u64, j: u64)
    by (bit_vector)
    requires
        child_of(c, j),
    ensures
        c - lsb_of(c) >= j - lsb_of(j),
        c > j - lsb_of(j),
        c < j,
        c - lsb_of(c) == j - lsb_of(j) || child_of((c - lsb_of(c)) as u64, j),
{
}

/// No node among the values of a child is a child of the same parent.
proof fn lemma_child_gap(c: u64, x: u64, j: u64)
    by (bit_vector)
    requires
        child_of(c, j),
        c - lsb_of(c) < x < c,
    ensures
        !child_of(x, j),
{
}

/// The node before `j` is a child of `j`, unless `j` counts one value only.
proof fn lemma_last_child(j: u64)
    by (bit_vector)
    requires
        j > 0,
    ensures
        j - 1 == j - lsb_of(j) || child_of((j - 1) as u64, j),
        lsb_of(j) <= j,
        lsb_of(j) > 0,
{
}

/// Whether node `c` hands its sum up to node `j`.
spec fn is_child(c: int, j: int) -> bool {
    child_of(c as u64, j as u64)
}

/// The sum that the children of node `j` before node `i` have handed up to it.
spec fn child_sum(values: Seq<nat>, j: int, i: int) -> int
    decreases i,
{
    if i <= 1 {
        0
    } else {
        child_sum(values, j, i - 1) + (if child_of((i - 1) as u64, j as u64) {
            node_sum(values, i - 1)
        } else {
            0
        })
    }
}

/// The last value that node `j` has been handed by its children before node `i`: the last
/// child before `i`, or where the values of `j` begin when there is none.
spec fn handed_up_to(j: int, i: int) -> int
    decreases i,
{
    if i <= 1 {
        j - lsb_of(j as u64)
    } else if child_of((i - 1) as u64, j as u64) {
        i - 1
    } else {
        handed_up_to(j, i - 1)
    }
}

/// What the children before `i` have handed up is one run of values, from the first value of
/// `j` on.
proof fn lemma_child_sum(values: Seq<nat>, j: int, i: int)
    requires
        1 <= i <= j <= u64::MAX,
    ensures
        child_sum(values, j, i) == cumulative(values, handed_up_to(j, i)) - cumulative(
            values,
            j - lsb_of(j as u64),
        ),
        j - lsb_of(j as u64) <= handed_up_to(j, i) < j,
        handed_up_to(j, i) < i || handed_up_to(j, i) == j - lsb_of(j as u64),
        handed_up_to(j, i) == j - lsb_of(j as u64) || child_of(
            handed_up_to(j, i) as u64,
            j as u64,
        ),
        forall|x: int| handed_up_to(j, i) < x < i ==> !#[trigger] is_child(x, j),
        i == j ==> handed_up_to(j, i) == j - 1,
    decreases i,
{
    lemma_last_child(j as u64);
    if i > 1 {
        lemma_child_sum(values, j, i - 1);
        let c = i - 1;
        let before = handed_up_to(j, c);
        if child_of(c as u64, j as u64) {
            lemma_child_start(c as u64, j as u64);
            let start = c - lsb_of(c as u64);
            if before < start {
                // `start` would be a child that was passed over
                assert(is_child(start, j));
                assert(false);
            } else if before > start {
                lemma_child_gap(c as u64, before as u64, j as u64);
                assert(false);
            }
        } else {
            assert(!is_child(c, j));
        }
    }
    if i == j {
        let last = handed_up_to(j, i);
        if last != j - 1 {
            if child_of((j - 1) as u64, j as u64) {
            } else {
                // then `j` counts one value only
                if last != j - lsb_of(j as u64) {
                    lemma_child_start(last as u64, j as u64);
                }
            }
        }
    }
}

/// A data structure that allows efficient calculation of cumulative summation AND mutation of
/// values
pub struct FenwickTree {
    /// Values of the tree: node `j` holds the sum of the `lsb_of(j)` values that end at value
    /// `j`. Node 0 is not used, the index calculations depend on the indices starting at 1.
    data: Vec<CalculationsType>,
    /// The values that the tree stands for.
    values: Ghost<Seq<nat>>,
}

impl FenwickTree {
    /// Every node holds its sum, and the sum of all values fits in `CalculationsType`.
    pub closed spec fn wf(&self) -> bool {
        &&& self.data@.len() == self.values@.len() + 1
        &&& total_of(self.values@) <= u64::MAX
        &&& forall|j: int|
            1 <= j < self.data@.len() ==> #[trigger] self.data@[j] == node_sum(self.values@, j)
    }

    /// The values that the tree stands for.
    pub closed spec fn view(&self) -> Seq<nat> {
        self.values@
    }

    /// Creates a new FenwickTree with the given size, all of whose values are 0.
    pub fn new(size: usize) -> (r: Self)
        requires
            size < usize::MAX,
        ensures
            r.wf(),
            r@ == Seq::new(size as nat, |i: int| 0nat),
            total_of(r@) == 0,
    {
        // Fenwick trees index calculations depend on the indices starting at 1, so add an extra
        // element to ensure this:
        let data: Vec<CalculationsType> = vec![0; size + 1];
        let ghost values = Seq::new(size as nat, |i: int| 0nat);
        proof {
            assert forall|j: int| 0 <= j <= size implies cumulative(values, j) == 0 by {
                lemma_zeros(size as nat, j);
            }
        }
        Self { data, values: Ghost(values) }
    }

    /// Computes the cumulative sum of all values up to (but not including) the given index; 0 if
    /// the index exceeds the length of the tree.
    /// This function's time complexity is **O(log n)**.
    pub fn get_sum(&self, index: usize) -> (r: CalculationsType)
        requires
            self.wf(),
        ensures
            r == (if index <= self@.len() {
                cumulative(self@, index as int)
            } else {
                0
            }),
    {
        let mut sum: CalculationsType = 0;
        let mut i: usize = index;
        while 0 < i && i < self.data.len()
            invariant
                self.wf(),
                i <= index,
                index <= self@.len() ==> sum + cumulative(self@, i as int) == cumulative(
                    self@,
                    index as int,
                ),
                index > self@.len() ==> sum == 0 && i == index,
            decreases i,
        {
            proof {
                lemma_cumulative_monotonic(self@, i - lsb_of(i as u64), i as int);
                lemma_cumulative_monotonic(self@, index as int, self@.len() as int);
            }
            sum += self.data[i];
            i -= lsb(i);
        }
        sum
    }

    /// Returns the length of the tree, i.e: how many elements it contains
    pub fn len(&self) -> (r: usize)
        requires
            self.wf(),
        ensures
            r == self@.len(),
    {
        self.data.len() - 1
    }

    /// Adds a certain amount to an index in the tree in **O(log n)** time complexity. An index
    /// that the tree does not have changes nothing.
    pub fn add(&mut self, index: usize, amount: CalculationsType)
        requires
            old(self).wf(),
            index < old(self)@.len() ==> total_of(old(self)@) + amount <= u64::MAX,
        ensures
            final(self).wf(),
            final(self)@ == (if index < old(self)@.len() {
                old(self)@.update(index as int, old(self)@[index as int] + amount as nat)
            } else {
                old(self)@
            }),
    {
        let len: usize = self.data.len();
        if index >= len - 1 {
            return ;
        }
        let ghost before = self.values@;
        let ghost after = before.update(index as int, before[index as int] + amount as nat);
        let ghost p = (index + 1) as u64;
        // Shift the index by one since the fenwick tree is 1-based:
        let mut i: usize = index + 1;
        proof {
            lemma_last_child(p);
        }
        while i < len
            invariant
                len == self.data@.len(),
                len == before.len() + 1,
                self.values@ == before,
                p == index + 1,
                p <= i,
                i < len ==> covers(i as u64, p),
                total_of(before) + amount <= u64::MAX,
                forall|j: int|
                    1 <= j < len ==> #[trigger] self.data@[j] == node_sum(before, j) + (if j < i
                        && covers(j as u64, p) {
                        amount as int
                    } else {
                        0
                    }),
            decreases len - i,
        {
            proof {
                lemma_cumulative_monotonic(before, i - lsb_of(i as u64), i as int);
                lemma_cumulative_monotonic(before, i as int, before.len() as int);
            }
            let ghost previous = self.data@;
            self.data[i] += amount;
            let step: usize = lsb(i);
            let next: usize = if step >= len - i {
                len
            } else {
                i + step
            };
            proof {
                if next < len {
                    lemma_covers_next(i as u64, p);
                }
                assert forall|j: int| 1 <= j < len implies #[trigger] self.data@[j] == node_sum(
                    before,
                    j,
                ) + (if j < next && covers(j as u64, p) {
                    amount as int
                } else {
                    0
                }) by {
                    assert(previous[j] == node_sum(before, j) + (if j < i && covers(j as u64, p) {
                        amount as int
                    } else {
                        0
                    }));
                    if i < j < next {
                        lemma_covers_gap(i as u64, j as u64, p);
                    }
                }
            }
            i = next;
        }
        proof {
            assert forall|j: int| 1 <= j < len implies #[trigger] self.data@[j] == node_sum(
                after,
                j,
            ) by {
                lemma_last_child(j as u64);
                lemma_cumulative_update(before, index as int, amount as nat, j);
                lemma_cumulative_update(
                    before,
                    index as int,
                    amount as nat,
                    j - lsb_of(j as u64),
                );
            }
            lemma_cumulative_update(before, index as int, amount as nat, before.len() as int);
        }
        self.values = Ghost(after);
    }

    /// Constructs a FenwickTree containing the given values.
    ///
    /// This function is more efficient than adding them manually to an empty tree, as this
    /// function optimizes the operation and reduces the time complexity from **O(n log n)** to
    /// **O(n)**.
    pub fn from(values: &[CalculationsType]) -> (r: Self)
        requires
            total_of(numbers_of(values@)) <= u64::MAX,
        ensures
            r.wf(),
            r@ == numbers_of(values@),
    {
        let ghost numbers = numbers_of(values@);
        let len: usize = values.len();
        // Initialize data to be all zeroes. Fenwick trees are 1-based, so there is one more
        // node than there are values:
        let mut data: Vec<CalculationsType> = Vec::new();
        data.push(0);
        let mut k: usize = 0;
        while k < len
            invariant
                k <= len,
                data@.len() == k + 1,
                forall|j: int| 0 <= j <= k ==> #[trigger] data@[j] == 0,
            decreases len - k,
        {
            data.push(0);
            k += 1;
        }

        let mut i: usize = 1;
        while i <= len
            invariant
                len == values@.len(),
                numbers == numbers_of(values@),
                data@.len() == len + 1,
                total_of(numbers) <= u64::MAX,
                1 <= i <= len + 1,
                forall|j: int| 1 <= j < i ==> #[trigger] data@[j] == node_sum(numbers, j),
                forall|j: int| i <= j <= len ==> #[trigger] data@[j] == child_sum(numbers, j, i as int),
            decreases len + 1 - i,
        {
            proof {
                lemma_child_sum(numbers, i as int, i as int);
                lemma_cumulative_monotonic(numbers, i - lsb_of(i as u64), i as int);
                lemma_cumulative_monotonic(numbers, i as int, len as int);
            }
            // Copy from values:
            let ghost previous = data@;
            data[i] += values[i - 1];
            assert(data@[i as int] == node_sum(numbers, i as int));

            // Find the parent index, and add to it as well:
            let step: usize = lsb(i);
            if step <= len - i {
                let parent_idx: usize = i + step;
                let add_to_parent: CalculationsType = data[i];
                proof {
                    lemma_child_sum(numbers, parent_idx as int, i as int);
                    lemma_child_sum(numbers, parent_idx as int, i + 1);
                    lemma_cumulative_monotonic(
                        numbers,
                        parent_idx - lsb_of(parent_idx as u64),
                        handed_up_to(parent_idx as int, i + 1),
                    );
                    lemma_cumulative_monotonic(
                        numbers,
                        handed_up_to(parent_idx as int, i + 1),
                        len as int,
                    );
                }
                data[parent_idx] += add_to_parent;
            }
            proof {
                assert forall|j: int| i + 1 <= j <= len implies #[trigger] data@[j] == child_sum(
                    numbers,
                    j,
                    i + 1,
                ) by {
                    assert(previous[j] == child_sum(numbers, j, i as int));
                }
                assert(data.len() == len + 1);
            }
            i += 1;
        }

        Self { data, values: Ghost(numbers) }
    }
}

/// Zeros sum up to zero.
proof fn lemma_zeros(size: nat, j: int)
    requires
        0 <= j <= size,
    ensures
        cumulative(Seq::new(size, |i: int| 0nat), j) == 0,
    decreases j,
{
    if j > 0 {
        lemma_zeros(size, j - 1);
    }
}

} // verus!
