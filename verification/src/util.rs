//! Tolerance-based scalar comparison.
//!
//! Chains of transformations accumulate rounding error, so every equality
//! in this kernel compares scalars up to a fixed tolerance instead of
//! exactly.

use vstd::prelude::*;
use crate::scalar::Scalar;

verus! {

/// Tolerance for scalar equality, in raw units: a hundred-thousandth.
pub const THRESHOLD_RAW: i64 = 10_000;

/// Two raw values are equal up to the tolerance.
pub open spec fn feq_raw(a: int, b: int) -> bool {
    -(THRESHOLD_RAW as int) < a - b < THRESHOLD_RAW as int
}

/// Tolerance-based equality: true iff `|f1 - f2|` is under the threshold.
pub fn feq(f1: Scalar, f2: Scalar) -> (r: bool)
    ensures
        r == feq_raw(f1.raw as int, f2.raw as int),
{
    let d: i128 = f1.raw as i128 - f2.raw as i128;
    -(THRESHOLD_RAW as i128) < d && d < THRESHOLD_RAW as i128
}

} // verus!
