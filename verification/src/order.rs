//! The order of the calendar as a three-way comparison.

use crate::cal::before;
use crate::cal::same_key;
use crate::cal::Event;
use std::cmp::Ordering;
use vstd::prelude::*;

verus! {

/// Compares two events as the calendar orders them: by date, and among
/// equal dates by duration. Events with the same date and duration are equal
/// to the calendar, whatever else they hold.
pub fn key_order(a: &Event, b: &Event) -> (order: Ordering)
    ensures
        order == Ordering::Less <==> before(*a, *b),
        order == Ordering::Equal <==> same_key(*a, *b),
        order == Ordering::Greater <==> before(*b, *a),
{
    if a.date < b.date {
        Ordering::Less
    } else if a.date > b.date {
        Ordering::Greater
    } else if a.duration < b.duration {
        Ordering::Less
    } else if a.duration > b.duration {
        Ordering::Greater
    } else {
        Ordering::Equal
    }
}

} // verus!
