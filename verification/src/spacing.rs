//! Ratios of consecutive level spacings.

use vstd::prelude::*;
use crate::ieee::{is_positive, less, less_than, positive, rank};

verus! {

/// A spacing ratio before the division: the patterns of the smaller and of
/// the larger of two consecutive spacings.
#[derive(Debug, Clone, Copy, PartialEq, Eq, Structural)]
pub struct SpacingRatio {
    pub numerator: u64,
    pub denominator: u64,
}

impl SpacingRatio {
    /// Both terms are positive and the numerator does not exceed the
    /// denominator, so their quotient lies between zero and one.
    pub open spec fn proper(&self) -> bool {
        &&& positive(self.numerator)
        &&& positive(self.denominator)
        &&& rank(self.numerator) <= rank(self.denominator)
    }
}

/// The number of windows of two consecutive spacings.
pub open spec fn window_count(spacings: Seq<u64>) -> nat {
    if spacings.len() >= 2 {
        (spacings.len() - 1) as nat
    } else {
        0
    }
}

/// The ratio that window `i`, made of spacings `i` and `i + 1`, gives: the
/// smaller over the larger where both are strictly positive, and none
/// otherwise.
pub open spec fn ratio_at(spacings: Seq<u64>, i: int) -> Option<SpacingRatio> {
    let first = spacings[i];
    let second = spacings[i + 1];
    if positive(first) && positive(second) {
        if less(second, first) {
            Some(SpacingRatio { numerator: second, denominator: first })
        } else {
            Some(SpacingRatio { numerator: first, denominator: second })
        }
    } else {
        None
    }
}

/// The ratios of the first `windows` windows, in order.
pub open spec fn ratios(spacings: Seq<u64>, windows: nat) -> Seq<SpacingRatio>
    decreases windows,
{
    if windows == 0 {
        Seq::empty()
    } else {
        let before = ratios(spacings, (windows - 1) as nat);
        match ratio_at(spacings, windows - 1) {
            Some(ratio) => before.push(ratio),
            None => before,
        }
    }
}

/// Every ratio is proper, and there is at most one per window.
pub proof fn lemma_ratios_proper(spacings: Seq<u64>, windows: nat)
    requires
        windows <= window_count(spacings),
    ensures
        ratios(spacings, windows).len() <= windows,
        forall|k: int|
            0 <= k < ratios(spacings, windows).len() ==> (#[trigger] ratios(
                spacings,
                windows,
            )[k]).proper(),
    decreases windows,
{
    if windows > 0 {
        lemma_ratios_proper(spacings, (windows - 1) as nat);
    }
}

/// The level-spacing ratios of a spectrum, given its consecutive spacings
/// `spacings[i] = level[i + 1] - level[i]`.
///
/// For every two consecutive spacings that are both strictly positive, in
/// order, the smaller and the larger of the two; a window with a spacing
/// that is zero, negative or NaN gives nothing. Fewer than two spacings,
/// that is fewer than three levels, give no ratio.
pub fn level_spacing_ratios(spacings: &[u64]) -> (found: Vec<SpacingRatio>)
    ensures
        found@ == ratios(spacings@, window_count(spacings@)),
        spacings@.len() < 2 ==> found@.len() == 0,
        found@.len() <= window_count(spacings@),
        forall|k: int| 0 <= k < found@.len() ==> (#[trigger] found@[k]).proper(),
{
    let mut found: Vec<SpacingRatio> = Vec::new();
    if spacings.len() < 2 {
        return found;
    }
    let windows: usize = spacings.len() - 1;
    let mut i: usize = 0;
    while i < windows
        invariant
            windows == window_count(spacings@),
            windows + 1 == spacings@.len(),
            i <= windows,
            found@ == ratios(spacings@, i as nat),
        decreases windows - i,
    {
        let first: u64 = spacings[i];
        let second: u64 = spacings[i + 1];
        if is_positive(first) && is_positive(second) {
            if less_than(second, first) {
                found.push(SpacingRatio { numerator: second, denominator: first });
            } else {
                found.push(SpacingRatio { numerator: first, denominator: second });
            }
        }
        i += 1;
    }
    proof {
        lemma_ratios_proper(spacings@, windows as nat);
    }
    found
}

} // verus!
