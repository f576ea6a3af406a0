//! Helpers.
use vstd::prelude::*;
use crate::scalar::{above, below, gt_gives, lt_gives, ordered};

verus! {

/// The value that limiting `x` to the interval from `min` to `max` yields.
pub open spec fn clamp_spec<T: PartialOrd>(x: T, min: T, max: T) -> T {
    if below(x, min) {
        min
    } else if above(x, max) {
        max
    } else {
        x
    }
}

/// Whether `r` is `x` limited to the interval from `min` to `max`, going by
/// the verdicts of the two tests `x < min` and `x > max`.
pub open spec fn clamps_to<T: PartialOrd>(x: T, min: T, max: T, r: T) -> bool {
    ||| lt_gives(x, min, true) && r == min
    ||| lt_gives(x, min, false) && gt_gives(x, max, true) && r == max
    ||| lt_gives(x, min, false) && gt_gives(x, max, false) && r == x
}

/// Limits `x` to the interval from `min` to `max`: `min` where `x` is below
/// it, else `max` where `x` is above it, else `x` itself.
pub fn clamp<T: PartialOrd>(x: T, min: T, max: T) -> (r: T)
    ensures
        clamps_to(x, min, max, r),
        ordered::<T>() ==> r == clamp_spec(x, min, max),
{
    if x < min {
        min
    } else if x > max {
        max
    } else {
        x
    }
}

} // verus!
