//! Fixed-width binning of a spectrum: the bounds of the data, the degenerate
//! shapes, and the per-bin counts.

use vstd::prelude::*;
use crate::ieee::{abs, capped_floor, capped_floor_of, is_nan, lemma_capped_floor_bounds};
use crate::ieee::{less_than, magnitude, rank, NEGATIVE_INFINITY, POSITIVE_INFINITY};

verus! {

/// The pattern of `1e-10`: a spectrum whose range is narrower counts as a
/// single point.
pub const FLAT_RANGE: u64 = 0x3ddb_7cdf_d9d7_bdbb;

/// What a histogram of a spectrum looks like.
#[derive(Debug)]
pub enum Histogram {
    /// No samples, or no bins: nothing to report.
    Empty,
    /// All samples coincide: one centre, at the minimum, with density one.
    Point,
    /// One count per bin, in bin order.
    Binned(Vec<usize>),
}

/// `|range| < 1e-10` as doubles. A NaN range is not flat.
pub open spec fn flat(range: u64) -> bool {
    magnitude(range) < FLAT_RANGE
}

/// The bin of a sample that lies `quotient` bin widths above the minimum:
/// the floor of the quotient, clamped into the last bin, so that the maximum
/// of the data lands in the last bin rather than in a bin of its own. A
/// quotient that is negative or NaN falls into the first bin.
pub open spec fn bin_of(quotient: u64, bins: usize) -> int
    recommends
        bins > 0,
{
    capped_floor_of(quotient, (bins - 1) as usize)
}

/// How many of the samples fall into bin `k`.
pub open spec fn occupancy(quotients: Seq<u64>, bins: usize, k: int) -> nat
    decreases quotients.len(),
{
    if quotients.len() == 0 {
        0
    } else {
        let rest = occupancy(quotients.drop_last(), bins, k);
        if bin_of(quotients.last(), bins) == k {
            rest + 1
        } else {
            rest
        }
    }
}

/// The sum of the counts.
pub open spec fn total(counts: Seq<usize>) -> nat
    decreases counts.len(),
{
    if counts.len() == 0 {
        0
    } else {
        total(counts.drop_last()) + counts.last() as nat
    }
}

/// The counts a binned histogram of samples with these quotients holds.
pub open spec fn counts_of(quotients: Seq<u64>, bins: usize) -> Seq<usize> {
    Seq::new(bins as nat, |k: int| occupancy(quotients, bins, k) as usize)
}

/// No bin holds more samples than there are.
pub proof fn lemma_occupancy_bounded(quotients: Seq<u64>, bins: usize, k: int)
    ensures
        occupancy(quotients, bins, k) <= quotients.len(),
    decreases quotients.len(),
{
    if quotients.len() > 0 {
        lemma_occupancy_bounded(quotients.drop_last(), bins, k);
    }
}

/// Raising one count by one raises the total by one.
proof fn lemma_total_bump(counts: Seq<usize>, k: int)
    requires
        0 <= k < counts.len(),
        counts[k] < usize::MAX,
    ensures
        total(counts.update(k, (counts[k] + 1) as usize)) == total(counts) + 1,
    decreases counts.len(),
{
    let bumped = counts.update(k, (counts[k] + 1) as usize);
    if k == counts.len() - 1 {
        assert(bumped.drop_last() =~= counts.drop_last());
    } else {
        lemma_total_bump(counts.drop_last(), k);
        assert(bumped.drop_last() =~= counts.drop_last().update(
            k,
            (counts[k] + 1) as usize,
        ));
    }
}

/// Counts that are all zero add up to zero.
proof fn lemma_total_zeros(counts: Seq<usize>)
    requires
        forall|k: int| 0 <= k < counts.len() ==> counts[k] == 0,
    ensures
        total(counts) == 0,
    decreases counts.len(),
{
    if counts.len() > 0 {
        lemma_total_zeros(counts.drop_last());
    }
}

/// Every sample is counted in exactly one bin: the counts of a binned
/// histogram add up to the number of samples, so the densities read off them
/// integrate to one over the bins.
pub proof fn lemma_counts_total(quotients: Seq<u64>, bins: usize)
    requires
        bins > 0,
        quotients.len() <= usize::MAX,
    ensures
        total(counts_of(quotients, bins)) == quotients.len(),
    decreases quotients.len(),
{
    if quotients.len() == 0 {
        lemma_total_zeros(counts_of(quotients, bins));
    } else {
        let rest = quotients.drop_last();
        let k = bin_of(quotients.last(), bins);
        lemma_capped_floor_bounds(quotients.last(), (bins - 1) as usize);
        lemma_counts_total(rest, bins);
        lemma_occupancy_bounded(rest, bins, k);
        lemma_total_bump(counts_of(rest, bins), k);
        assert forall|j: int| 0 <= j < bins implies #[trigger] counts_of(quotients, bins)[j]
            == counts_of(rest, bins).update(k, (counts_of(rest, bins)[k] + 1) as usize)[j] by {
            lemma_occupancy_bounded(rest, bins, j);
            lemma_occupancy_bounded(quotients, bins, j);
        }
        assert(counts_of(quotients, bins) =~= counts_of(rest, bins).update(
            k,
            (counts_of(rest, bins)[k] + 1) as usize,
        ));
    }
}

/// `lower` is the least of the samples that are numbers, or positive infinity
/// where there is none below it. Samples that are NaN are passed over. Of two
/// zeros of opposite sign either may stand for the other.
pub open spec fn is_minimum(samples: Seq<u64>, lower: u64) -> bool {
    &&& !is_nan(lower)
    &&& (lower == POSITIVE_INFINITY || exists|i: int|
        0 <= i < samples.len() && samples[i] == lower)
    &&& (forall|i: int|
        0 <= i < samples.len() && !is_nan(samples[i]) ==> rank(lower) <= rank(
            #[trigger] samples[i],
        ))
}

/// `upper` is the greatest of the samples that are numbers, or negative
/// infinity where there is none above it.
pub open spec fn is_maximum(samples: Seq<u64>, upper: u64) -> bool {
    &&& !is_nan(upper)
    &&& (upper == NEGATIVE_INFINITY || exists|i: int|
        0 <= i < samples.len() && samples[i] == upper)
    &&& (forall|i: int|
        0 <= i < samples.len() && !is_nan(samples[i]) ==> rank(#[trigger] samples[i]) <= rank(
            upper,
        ))
}

/// The least and the greatest sample of a spectrum, as the pair
/// `(min, max)`. An empty spectrum, or one of NaNs only, gives
/// `(+inf, -inf)`.
pub fn spectral_bounds(samples: &[u64]) -> (bounds: (u64, u64))
    ensures
        is_minimum(samples@, bounds.0),
        is_maximum(samples@, bounds.1),
{
    let mut lower: u64 = POSITIVE_INFINITY;
    let mut upper: u64 = NEGATIVE_INFINITY;
    let mut i: usize = 0;
    while i < samples.len()
        invariant
            i <= samples@.len(),
            is_minimum(samples@.take(i as int), lower),
            is_maximum(samples@.take(i as int), upper),
        decreases samples@.len() - i,
    {
        let sample: u64 = samples[i];
        let ghost seen = samples@.take(i as int);
        let ghost next = samples@.take(i + 1);
        assert(forall|j: int| 0 <= j < seen.len() ==> seen[j] == next[j]);
        if less_than(sample, lower) {
            lower = sample;
            assert(next[i as int] == lower);
        } else {
            assert(lower == POSITIVE_INFINITY || exists|j: int|
                0 <= j < next.len() && next[j] == lower) by {
                if lower != POSITIVE_INFINITY {
                    let j = choose|j: int| 0 <= j < seen.len() && seen[j] == lower;
                    assert(next[j] == lower);
                }
            }
        }
        if less_than(upper, sample) {
            upper = sample;
            assert(next[i as int] == upper);
        } else {
            assert(upper == NEGATIVE_INFINITY || exists|j: int|
                0 <= j < next.len() && next[j] == upper) by {
                if upper != NEGATIVE_INFINITY {
                    let j = choose|j: int| 0 <= j < seen.len() && seen[j] == upper;
                    assert(next[j] == upper);
                }
            }
        }
        i += 1;
    }
    assert(samples@.take(i as int) =~= samples@);
    (lower, upper)
}

/// Histogram of a spectrum over `bins` bins of equal width between its
/// least and its greatest sample.
///
/// `range` is the pattern of `max - min`, and `quotients[i]` that of
/// `(sample[i] - min) / bin_width`. With no samples or no bins the histogram
/// is empty; with a range narrower than `1e-10` it is a single point;
/// otherwise it holds, for each bin, the number of samples whose quotient has
/// that floor, a sample whose quotient reaches past the last bin being
/// counted in the last one.
pub fn empirical_spectral_density(range: u64, quotients: &[u64], bins: usize) -> (h: Histogram)
    ensures
        quotients@.len() == 0 || bins == 0 ==> h is Empty,
        quotients@.len() > 0 && bins > 0 && flat(range) ==> h is Point,
        quotients@.len() > 0 && bins > 0 && !flat(range) ==> h is Binned,
        h is Binned ==> h->Binned_0@ == counts_of(quotients@, bins),
        h is Binned ==> total(h->Binned_0@) == quotients@.len(),
{
    if quotients.len() == 0 || bins == 0 {
        return Histogram::Empty;
    }
    if abs(range) < FLAT_RANGE {
        return Histogram::Point;
    }
    let mut counts: Vec<usize> = Vec::new();
    let mut k: usize = 0;
    while k < bins
        invariant
            k <= bins,
            counts@.len() == k,
            forall|j: int| 0 <= j < k ==> counts@[j] == 0,
        decreases bins - k,
    {
        counts.push(0);
        k += 1;
    }
    let mut i: usize = 0;
    while i < quotients.len()
        invariant
            bins > 0,
            i <= quotients@.len(),
            counts@.len() == bins,
            forall|j: int|
                0 <= j < bins ==> counts@[j] == occupancy(quotients@.take(i as int), bins, j),
        decreases quotients@.len() - i,
    {
        let idx: usize = capped_floor(quotients[i], bins - 1);
        proof {
            assert(quotients@.take(i + 1).drop_last() =~= quotients@.take(i as int));
            lemma_occupancy_bounded(quotients@.take(i as int), bins, idx as int);
        }
        let bumped: usize = counts[idx] + 1;
        counts.set(idx, bumped);
        i += 1;
    }
    proof {
        assert(quotients@.take(i as int) =~= quotients@);
        assert forall|j: int| 0 <= j < bins implies counts@[j] == #[trigger] counts_of(
            quotients@,
            bins,
        )[j] by {}
        assert(counts@ =~= counts_of(quotients@, bins));
        lemma_counts_total(quotients@, bins);
    }
    Histogram::Binned(counts)
}

} // verus!
