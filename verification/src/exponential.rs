//! Scaled-integer arithmetic: quantities that stand for fractions carry
//! eight decimal places (a value `x` means `x / SCALE`).

use vstd::prelude::*;

verus! {

/// The fixed-point scale, ten to the eighth.
pub const SCALE: u128 = 100_000_000;

/// Mathematical model of [`truncate`]: division by the scale, rounding
/// toward zero.
pub open spec fn spec_truncate(a: int) -> int {
    a / (SCALE as int)
}

/// Drop the scale from a product of two scaled quantities.
///
/// Integer division: the fractional part is discarded, never rounded up.
pub fn truncate(a: u128) -> (r: u128)
    ensures
        r == spec_truncate(a as int),
{
    a / SCALE
}

} // verus!
