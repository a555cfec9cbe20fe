//! Fuzzy hits compare by address alone: two samples of one place are the same
//! hit, and hits are ordered as their places are.

use vstd::prelude::*;
use std::cmp::Ordering;
use crate::item::FuzzySearchResultItem;

verus! {

impl PartialEq for FuzzySearchResultItem {
    fn eq(&self, other: &Self) -> (r: bool) {
        self.address == other.address
    }
}

impl Eq for FuzzySearchResultItem {

}

impl vstd::std_specs::cmp::PartialEqSpecImpl for FuzzySearchResultItem {
    open spec fn obeys_eq_spec() -> bool {
        true
    }

    open spec fn eq_spec(&self, other: &Self) -> bool {
        self.address == other.address
    }
}

impl PartialOrd for FuzzySearchResultItem {
    fn partial_cmp(&self, other: &Self) -> (r: Option<Ordering>) {
        if self.address < other.address {
            Some(Ordering::Less)
        } else if self.address > other.address {
            Some(Ordering::Greater)
        } else {
            Some(Ordering::Equal)
        }
    }
}

impl vstd::std_specs::cmp::PartialOrdSpecImpl for FuzzySearchResultItem {
    open spec fn obeys_partial_cmp_spec() -> bool {
        true
    }

    open spec fn partial_cmp_spec(&self, other: &Self) -> Option<Ordering> {
        if self.address < other.address {
            Some(Ordering::Less)
        } else if self.address > other.address {
            Some(Ordering::Greater)
        } else {
            Some(Ordering::Equal)
        }
    }
}

} // verus!
