//! Equality and order of bounded integers: those of the numbers they hold.

use super::ConstrainedNum;
use core::cmp::Ordering;
use vstd::prelude::*;
use vstd::std_specs::cmp::{PartialEqSpecImpl, PartialOrdSpecImpl};

verus! {

impl<const BITS: u32> PartialEq for ConstrainedNum<BITS> {
    fn eq(&self, other: &Self) -> (r: bool) {
        let a: u64 = self.value();
        let b: u64 = other.value();
        a == b
    }
}

impl<const BITS: u32> PartialEqSpecImpl for ConstrainedNum<BITS> {
    open spec fn obeys_eq_spec() -> bool {
        true
    }

    open spec fn eq_spec(&self, other: &Self) -> bool {
        self@ == other@
    }
}

impl<const BITS: u32> PartialOrd for ConstrainedNum<BITS> {
    fn partial_cmp(&self, other: &Self) -> (r: Option<Ordering>) {
        let a: u64 = self.value();
        let b: u64 = other.value();
        if a < b {
            Some(Ordering::Less)
        } else if a == b {
            Some(Ordering::Equal)
        } else {
            Some(Ordering::Greater)
        }
    }
}

impl<const BITS: u32> PartialOrdSpecImpl for ConstrainedNum<BITS> {
    open spec fn obeys_partial_cmp_spec() -> bool {
        true
    }

    open spec fn partial_cmp_spec(&self, other: &Self) -> Option<Ordering> {
        if self@ < other@ {
            Some(Ordering::Less)
        } else if self@ == other@ {
            Some(Ordering::Equal)
        } else {
            Some(Ordering::Greater)
        }
    }
}

} // verus!
