//! Keeping a value within bounds.

use core::cmp::Ordering;
use vstd::prelude::*;
use vstd::std_specs::cmp::PartialOrdSpec;

verus! {

/// `value`, or the bound that it lies beyond: `min` if `value` is less than
/// `min`, else `max` if `value` is greater than `max`.
pub fn clamp<T: PartialOrd>(min: T, value: T, max: T) -> (kept: T)
    ensures
        T::obeys_partial_cmp_spec() ==> kept == if value.partial_cmp_spec(&min) == Some(
            Ordering::Less,
        ) {
            min
        } else if value.partial_cmp_spec(&max) == Some(Ordering::Greater) {
            max
        } else {
            value
        },
{
    if value < min {
        return min;
    }
    if value > max {
        return max;
    }
    value
}

} // verus!
