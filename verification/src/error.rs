//! The ways an input can be refused.

use vstd::prelude::*;

verus! {

/// A malformed input, with the offending values. Doubles are carried as
/// their binary64 bit patterns.
#[derive(Debug, Clone, Copy, PartialEq, Eq, Structural)]
pub enum Error {
    /// An aspect ratio that is not a positive number.
    InvalidRatio(u64),
    /// Two sizes that should agree, as found and as expected.
    DimensionMismatch(usize, usize),
    /// A value outside a support interval: the value, then the interval's
    /// lower and upper end.
    OutsideSupport(u64, u64, u64),
}

} // verus!
