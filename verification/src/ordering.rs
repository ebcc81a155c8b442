//! Chronological comparison of date strings as a standard `Ordering`.
use vstd::prelude::*;
use std::cmp::Ordering;
use crate::date::{date_str_order, date_strings_order};

verus! {

/// The comparison result that an `Ordering` stands for.
pub open spec fn ordering_sign(o: Ordering) -> int {
    match o {
        Ordering::Less => -1,
        Ordering::Equal => 0,
        Ordering::Greater => 1,
    }
}

/// Compare two date strings chronologically. Dates that parse come first,
/// in date order; strings that do not parse sort last and tie with each
/// other.
pub fn cmp_date_strings(a: &str, b: &str) -> (r: Ordering)
    ensures
        ordering_sign(r) == date_str_order(a@, b@),
{
    let o = date_strings_order(a, b);
    proof {
        crate::date::lemma_date_str_order(a@, b@, b@);
    }
    if o < 0 {
        Ordering::Less
    } else if o == 0 {
        Ordering::Equal
    } else {
        Ordering::Greater
    }
}

} // verus!
