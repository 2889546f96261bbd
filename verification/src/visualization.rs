//! What a chart of the results needs to know before it is drawn: the extent
//! of its axes, the heights of its bars and the labels under them.

use vstd::prelude::*;
use vstd::string::StringExecFns;
use crate::optimization::OptimizationResults;
use crate::scalar::{Scalar, INFINITY_BITS, LOWEST_BITS, NAN_BITS, NEG_INFINITY_BITS, ONE_BITS};

verus! {

/// The largest of `seed` and the numbers among `values`.
pub open spec fn largest_from(seed: Scalar, values: Seq<Scalar>) -> Scalar
    decreases values.len(),
{
    if values.len() == 0 {
        seed
    } else {
        largest_from(seed, values.drop_last()).spec_larger(values.last())
    }
}

/// The smallest of `seed` and the numbers among `values`.
pub open spec fn smallest_from(seed: Scalar, values: Seq<Scalar>) -> Scalar
    decreases values.len(),
{
    if values.len() == 0 {
        seed
    } else {
        smallest_from(seed, values.drop_last()).spec_smaller(values.last())
    }
}

/// The largest of `seed` and the numbers among `values`.
pub fn largest(seed: Scalar, values: &Vec<Scalar>) -> (r: Scalar)
    ensures
        r == largest_from(seed, values@),
{
    let mut best = seed;
    let mut i: usize = 0;
    while i < values.len()
        invariant
            i <= values.len(),
            best == largest_from(seed, values@.take(i as int)),
        decreases values.len() - i,
    {
        assert(values@.take(i + 1).drop_last() == values@.take(i as int));
        best = best.larger(values[i]);
        i += 1;
    }
    assert(values@.take(i as int) == values@);
    best
}

/// The smallest of `seed` and the numbers among `values`.
pub fn smallest(seed: Scalar, values: &Vec<Scalar>) -> (r: Scalar)
    ensures
        r == smallest_from(seed, values@),
{
    let mut best = seed;
    let mut i: usize = 0;
    while i < values.len()
        invariant
            i <= values.len(),
            best == smallest_from(seed, values@.take(i as int)),
        decreases values.len() - i,
    {
        assert(values@.take(i + 1).drop_last() == values@.take(i as int));
        best = best.smaller(values[i]);
        i += 1;
    }
    assert(values@.take(i as int) == values@);
    best
}

/// The largest is the seed or one of the values, and no number among the
/// seed and the values is above it.
pub proof fn lemma_largest_bounds(seed: Scalar, values: Seq<Scalar>)
    ensures
        largest_from(seed, values) == seed || values.contains(largest_from(seed, values)),
        !seed.spec_is_nan() ==> seed.spec_le(largest_from(seed, values)),
        forall|i: int|
            0 <= i < values.len() && !(#[trigger] values[i]).spec_is_nan() ==> values[i].spec_le(
                largest_from(seed, values),
            ),
    decreases values.len(),
{
    if values.len() > 0 {
        let earlier = values.drop_last();
        lemma_largest_bounds(seed, earlier);
        let before = largest_from(seed, earlier);
        let now = largest_from(seed, values);
        if now == values.last() {
            assert(values[values.len() - 1] == now);
        } else if earlier.contains(before) {
            let i = choose|i: int| 0 <= i < earlier.len() && earlier[i] == before;
            assert(values[i] == now);
        }
        assert forall|i: int| 0 <= i < values.len() && !(#[trigger] values[i]).spec_is_nan() implies values[i].spec_le(
            now,
        ) by {
            if i < values.len() - 1 {
                assert(earlier[i] == values[i]);
            }
        }
    }
}

/// The smallest is the seed or one of the values, and no number among the
/// seed and the values is below it.
pub proof fn lemma_smallest_bounds(seed: Scalar, values: Seq<Scalar>)
    ensures
        smallest_from(seed, values) == seed || values.contains(smallest_from(seed, values)),
        !seed.spec_is_nan() ==> smallest_from(seed, values).spec_le(seed),
        forall|i: int|
            0 <= i < values.len() && !(#[trigger] values[i]).spec_is_nan() ==> smallest_from(
                seed,
                values,
            ).spec_le(values[i]),
    decreases values.len(),
{
    if values.len() > 0 {
        let earlier = values.drop_last();
        lemma_smallest_bounds(seed, earlier);
        let before = smallest_from(seed, earlier);
        let now = smallest_from(seed, values);
        if now == values.last() {
            assert(values[values.len() - 1] == now);
        } else if earlier.contains(before) {
            let i = choose|i: int| 0 <= i < earlier.len() && earlier[i] == before;
            assert(values[i] == now);
        }
        assert forall|i: int| 0 <= i < values.len() && !(#[trigger] values[i]).spec_is_nan() implies now.spec_le(
            values[i],
        ) by {
            if i < values.len() - 1 {
                assert(earlier[i] == values[i]);
            }
        }
    }
}

/// The standard deviations of the points of a frontier, point by point.
pub open spec fn frontier_stds(results: OptimizationResults) -> Seq<Scalar> {
    Seq::new(results.frontier@.len(), |k: int| results.frontier@[k].portfolio_std)
}

/// The expected returns of the points of a frontier, point by point.
pub open spec fn frontier_returns(results: OptimizationResults) -> Seq<Scalar> {
    Seq::new(results.frontier@.len(), |k: int| results.frontier@[k].expected_return)
}

/// How far the chart of a frontier reaches before padding: the largest
/// standard deviation of its points, which is not a number where there is
/// none, and their largest expected return, or the least finite number
/// where there is none.
pub fn frontier_extent(results: &OptimizationResults) -> (r: (Scalar, Scalar))
    ensures
        r.0 == largest_from(Scalar { bits: NAN_BITS }, frontier_stds(*results)),
        r.1 == largest_from(Scalar { bits: LOWEST_BITS }, frontier_returns(*results)),
{
    let mut max_std = Scalar::from_bits(NAN_BITS);
    let mut max_return = Scalar::from_bits(LOWEST_BITS);
    let mut k: usize = 0;
    while k < results.frontier.len()
        invariant
            k <= results.frontier.len(),
            max_std == largest_from(Scalar { bits: NAN_BITS }, frontier_stds(*results).take(k as int)),
            max_return == largest_from(
                Scalar { bits: LOWEST_BITS },
                frontier_returns(*results).take(k as int),
            ),
        decreases results.frontier.len() - k,
    {
        assert(frontier_stds(*results).take(k + 1).drop_last() == frontier_stds(*results).take(
            k as int,
        ));
        assert(frontier_returns(*results).take(k + 1).drop_last() == frontier_returns(
            *results,
        ).take(k as int));
        max_std = max_std.larger(results.frontier[k].portfolio_std);
        max_return = max_return.larger(results.frontier[k].expected_return);
        k += 1;
    }
    assert(frontier_stds(*results).take(k as int) == frontier_stds(*results));
    assert(frontier_returns(*results).take(k as int) == frontier_returns(*results));
    (max_std, max_return)
}

/// How far the chart of the weights reaches before padding: the largest
/// weight, and one at least.
pub fn weight_extent(weights: &Vec<Scalar>) -> (r: Scalar)
    ensures
        r == largest_from(Scalar { bits: NAN_BITS }, weights@).spec_larger(Scalar { bits: ONE_BITS }),
{
    largest(Scalar::from_bits(NAN_BITS), weights).larger(Scalar::one())
}

/// The span of a series of returns: its smallest and its largest number.
/// An empty series spans from positive to negative infinity.
pub fn return_extent(series: &Vec<Scalar>) -> (r: (Scalar, Scalar))
    ensures
        r.0 == smallest_from(Scalar { bits: INFINITY_BITS }, series@),
        r.1 == largest_from(Scalar { bits: NEG_INFINITY_BITS }, series@),
{
    (
        smallest(Scalar::from_bits(INFINITY_BITS), series),
        largest(Scalar::from_bits(NEG_INFINITY_BITS), series),
    )
}

/// The label under bar `index`: the name of the asset in that place, and
/// the empty text where there is none.
pub fn label_at(asset_labels: &Vec<String>, index: usize) -> (r: String)
    ensures
        index < asset_labels@.len() ==> r@ == asset_labels@[index as int]@,
        index >= asset_labels@.len() ==> r@ == Seq::<char>::empty(),
{
    if index < asset_labels.len() {
        asset_labels[index].clone()
    } else {
        String::new()
    }
}

/// The number of bars in the chart of a return distribution.
pub const HISTOGRAM_BINS: usize = 50;

/// The bar that a return falls into, given the number of whole bar widths
/// that it lies above the smallest return: the bar of that number, and the
/// last bar for a return that lies on the upper edge or beyond.
pub open spec fn bin_of(widths: usize) -> int {
    if widths >= HISTOGRAM_BINS {
        HISTOGRAM_BINS - 1
    } else {
        widths as int
    }
}

/// The number of returns that fall into bar `bin`.
pub open spec fn count_in_bin(widths: Seq<usize>, bin: int) -> nat
    decreases widths.len(),
{
    if widths.len() == 0 {
        0
    } else if bin_of(widths.last()) == bin {
        count_in_bin(widths.drop_last(), bin) + 1
    } else {
        count_in_bin(widths.drop_last(), bin)
    }
}

proof fn lemma_count_bounded(widths: Seq<usize>, bin: int)
    ensures
        count_in_bin(widths, bin) <= widths.len(),
    decreases widths.len(),
{
    if widths.len() > 0 {
        lemma_count_bounded(widths.drop_last(), bin);
    }
}

/// The heights of the bars: for each bar the number of returns that fall
/// into it. `widths` holds for each return the number of whole bar widths
/// that it lies above the smallest return.
pub fn histogram(widths: &Vec<usize>) -> (counts: Vec<usize>)
    ensures
        counts@.len() == HISTOGRAM_BINS,
        forall|bin: int|
            0 <= bin < HISTOGRAM_BINS ==> (#[trigger] counts@[bin]) == count_in_bin(widths@, bin),
{
    let mut counts: Vec<usize> = Vec::new();
    let mut b: usize = 0;
    while b < HISTOGRAM_BINS
        invariant
            b <= HISTOGRAM_BINS,
            counts@.len() == b,
            forall|bin: int| 0 <= bin < b ==> (#[trigger] counts@[bin]) == 0,
        decreases HISTOGRAM_BINS - b,
    {
        counts.push(0);
        b += 1;
    }
    let mut i: usize = 0;
    while i < widths.len()
        invariant
            i <= widths.len(),
            counts@.len() == HISTOGRAM_BINS,
            forall|bin: int|
                0 <= bin < HISTOGRAM_BINS ==> (#[trigger] counts@[bin]) == count_in_bin(
                    widths@.take(i as int),
                    bin,
                ),
        decreases widths.len() - i,
    {
        let bin: usize = if widths[i] >= HISTOGRAM_BINS {
            HISTOGRAM_BINS - 1
        } else {
            widths[i]
        };
        proof {
            lemma_count_bounded(widths@.take(i as int), bin as int);
            assert(widths@.take(i + 1).drop_last() == widths@.take(i as int));
        }
        let raised: usize = counts[bin] + 1;
        counts.set(bin, raised);
        i += 1;
    }
    assert(widths@.take(i as int) == widths@);
    counts
}

/// Whether `height` is the height of the tallest of the bars `counts`.
pub open spec fn is_tallest(counts: Seq<usize>, height: usize) -> bool {
    &&& exists|bin: int| 0 <= bin < counts.len() && counts[bin] == height
    &&& forall|bin: int| 0 <= bin < counts.len() ==> counts[bin] <= height
}

/// The height of the tallest bar, and one where there is no bar at all.
pub fn tallest(counts: &Vec<usize>) -> (height: usize)
    ensures
        counts@.len() == 0 ==> height == 1,
        counts@.len() > 0 ==> is_tallest(counts@, height),
{
    if counts.len() == 0 {
        return 1;
    }
    let mut height: usize = counts[0];
    let mut i: usize = 1;
    while i < counts.len()
        invariant
            1 <= i <= counts.len(),
            exists|bin: int| 0 <= bin < i && counts@[bin] == height,
            forall|bin: int| 0 <= bin < i ==> counts@[bin] <= height,
        decreases counts.len() - i,
    {
        if counts[i] > height {
            height = counts[i];
        }
        i += 1;
    }
    height
}

} // verus!
