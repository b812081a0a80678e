//! Clamping a value into a closed interval.

use vstd::prelude::*;
use vstd::std_specs::cmp::{PartialOrdIs, PartialOrdSpec};

verus! {

/// What [`clamp`] returns: `min` when `input` lies below it, `max` when
/// `input` lies above it, and `input` itself otherwise.
pub open spec fn spec_clamp<T: PartialOrd>(input: T, min: T, max: T) -> T {
    if input.is_lt(&min) {
        min
    } else if input.is_gt(&max) {
        max
    } else {
        input
    }
}

/// Restricts `input` to the closed interval from `min` to `max`.
///
/// The order of `T` has to be one that the verifier knows, and `min` must
/// not lie above `max`.
pub fn clamp<T: PartialOrd>(input: T, min: T, max: T) -> (r: T)
    requires
        T::obeys_partial_cmp_spec(),
        min.is_le(&max),
    ensures
        r == spec_clamp(input, min, max),
{
    if input < min {
        min
    } else if input > max {
        max
    } else {
        input
    }
}

} // verus!
