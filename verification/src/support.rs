//! Where the limiting densities are carried by their formulas and where they
//! vanish.

use vstd::prelude::*;
use crate::ieee::{abs, absolute, at_most, is_nan, less, less_than, nan, no_more_than, positive};

verus! {

/// The aspect ratio folded onto `(0, 1]`: the smaller of a ratio and its
/// inverse as doubles. A NaN gives way to the other side, and of two equal
/// values the ratio is taken.
pub open spec fn folded(ratio: u64, inverse: u64) -> u64 {
    if is_nan(ratio) {
        inverse
    } else if is_nan(inverse) {
        ratio
    } else if less(inverse, ratio) {
        inverse
    } else {
        ratio
    }
}

/// The Marchenko-Pastur density at `lambda` is given by its formula: ratio
/// and `lambda` are not at or below zero, and `lambda` lies neither below
/// `lower` nor above `upper`.
pub open spec fn on_marchenko_pastur_support(
    lambda: u64,
    ratio: u64,
    lower: u64,
    upper: u64,
) -> bool {
    &&& !at_most(ratio, 0)
    &&& !at_most(lambda, 0)
    &&& !less(lambda, lower)
    &&& !less(upper, lambda)
}

/// The semicircle density at `lambda` is given by its formula: `|lambda|`
/// does not exceed the radius.
pub open spec fn on_semicircle_support(lambda: u64, radius: u64) -> bool {
    !less(radius, absolute(lambda))
}

/// The effective aspect ratio `min(ratio, 1 / ratio)`, given the ratio and
/// its inverse.
pub fn effective_ratio(ratio: u64, inverse: u64) -> (gamma: u64)
    ensures
        gamma == folded(ratio, inverse),
{
    if nan(ratio) {
        inverse
    } else if nan(inverse) {
        ratio
    } else if less_than(inverse, ratio) {
        inverse
    } else {
        ratio
    }
}

/// Folding does not care which of an aspect ratio and its inverse it is
/// handed first: a positive ratio and its inverse fold onto the same value,
/// so both give the same support.
pub proof fn lemma_fold_symmetric(ratio: u64, inverse: u64)
    requires
        positive(ratio),
    ensures
        folded(ratio, inverse) == folded(inverse, ratio),
{
}

/// The folded ratio of a positive ratio and a positive inverse is positive
/// and exceeds neither.
pub proof fn lemma_fold_least(ratio: u64, inverse: u64)
    requires
        positive(ratio),
        positive(inverse),
    ensures
        positive(folded(ratio, inverse)),
        at_most(folded(ratio, inverse), ratio),
        at_most(folded(ratio, inverse), inverse),
{
}

/// Whether the Marchenko-Pastur density at `lambda` is given by its formula
/// rather than being zero. `lower` and `upper` are the ends of the support
/// for the given ratio.
pub fn marchenko_pastur_contains(lambda: u64, ratio: u64, lower: u64, upper: u64) -> (inside: bool)
    ensures
        inside == on_marchenko_pastur_support(lambda, ratio, lower, upper),
{
    if no_more_than(ratio, 0) || no_more_than(lambda, 0) {
        return false;
    }
    !(less_than(lambda, lower) || less_than(upper, lambda))
}

/// Whether the semicircle density at `lambda` is given by its formula rather
/// than being zero.
pub fn semicircle_contains(lambda: u64, radius: u64) -> (inside: bool)
    ensures
        inside == on_semicircle_support(lambda, radius),
{
    !less_than(radius, abs(lambda))
}

} // verus!
