//! Helpers for passing the data into plots.
//!
//! A histogram groups y-values into equal-width buckets, and the two
//! interpolants turn a finite point list into a function over its
//! x-interval: `interpolate` linearly, `staircase` as a step function
//! whose level over each interval is the mean of the interval's
//! endpoint values.

use crate::scale::{floor_div_i128, in_coord_range};
use crate::shape::data_wf;
use vstd::arithmetic::div_mod::{
    lemma_div_is_ordered, lemma_div_multiples_vanish, lemma_div_nonincreasing,
    lemma_div_pos_is_pos, lemma_fundamental_div_mod,
};
use vstd::arithmetic::mul::lemma_mul_inequality;
use vstd::prelude::*;

verus! {

/// The bucket a y-value falls into: the index of one of `bins`
/// equal-width buckets spanning `[min, max]`.
pub open spec fn bucket_of(y: int, min: int, max: int, bins: int) -> int {
    (y - min) * bins / (max - min)
}

/// Whether bucket `b` counts a sample's y-value: it lies within
/// `[min, max]` and its bucket index is `b`.
pub open spec fn counted_in(y: int, min: int, max: int, bins: int, b: int) -> bool {
    min <= y <= max && bucket_of(y, min, max, bins) == b
}

/// How many samples of `d` bucket `b` counts.
pub open spec fn bucket_count(d: Seq<(i64, i64)>, min: int, max: int, bins: int, b: int) -> int
    decreases d.len(),
{
    if d.len() == 0 {
        0
    } else {
        bucket_count(d.drop_last(), min, max, bins, b) + (if counted_in(
            d.last().1 as int,
            min,
            max,
            bins,
            b,
        ) {
            1int
        } else {
            0int
        })
    }
}

/// The sum of the counts of buckets `0 .. nb` of a `bins`-bucket
/// histogram.
pub open spec fn counts_sum(d: Seq<(i64, i64)>, min: int, max: int, bins: int, nb: int) -> int
    decreases nb,
{
    if nb <= 0 {
        0
    } else {
        counts_sum(d, min, max, bins, nb - 1) + bucket_count(d, min, max, bins, nb - 1)
    }
}

/// How many samples of `d` lie within `[min, max)` — the samples a
/// histogram counts.  A value exactly on `max` falls past the last
/// bucket and is excluded, per the half-open bucket convention.
pub open spec fn in_range_count(d: Seq<(i64, i64)>, min: int, max: int) -> int
    decreases d.len(),
{
    if d.len() == 0 {
        0
    } else {
        in_range_count(d.drop_last(), min, max) + (if min <= d.last().1 as int
            && (d.last().1 as int) < max {
            1int
        } else {
            0int
        })
    }
}

/// An in-range value lands in one of the `bins` buckets exactly when
/// it lies strictly below `max`; the boundary value `max` itself lands
/// one past the last bucket.
proof fn lemma_bucket_classifies(y: int, min: int, max: int, bins: int)
    requires
        min <= y <= max,
        min < max,
        bins >= 1,
    ensures
        y < max ==> 0 <= bucket_of(y, min, max, bins) < bins,
        y == max ==> bucket_of(y, min, max, bins) == bins,
{
    let d = max - min;
    let a = y - min;
    assert(a * bins >= 0) by (nonlinear_arith)
        requires
            a >= 0,
            bins >= 0,
    ;
    lemma_div_pos_is_pos(a * bins, d);
    if y < max {
        assert(a * bins <= d * bins - bins) by (nonlinear_arith)
            requires
                a <= d - 1,
                bins >= 0,
        ;
        lemma_div_is_ordered(a * bins, d * bins - 1, d);
        assert(d * bins - 1 == (bins - 1) * d + (d - 1)) by (nonlinear_arith);
        vstd::arithmetic::div_mod::lemma_fundamental_div_mod_converse(
            d * bins - 1,
            d,
            bins - 1,
            d - 1,
        );
    } else {
        lemma_div_multiples_vanish(bins, d);
        assert(a * bins == d * bins) by (nonlinear_arith)
            requires
                a == d,
        ;
    }
}

/// Appending one sample raises the sum of the first `nb` bucket counts
/// by one exactly when the sample is in range and lands below `nb`.
proof fn lemma_counts_sum_snoc(d: Seq<(i64, i64)>, min: int, max: int, bins: int, nb: int)
    requires
        d.len() > 0,
    ensures
        counts_sum(d, min, max, bins, nb) == counts_sum(d.drop_last(), min, max, bins, nb) + (
        if min <= d.last().1 as int <= max && 0 <= bucket_of(d.last().1 as int, min, max, bins)
            < nb {
            1int
        } else {
            0int
        }),
    decreases nb,
{
    if nb <= 0 {
    } else {
        lemma_counts_sum_snoc(d, min, max, bins, nb - 1);
    }
}

/// The bucket counts of a histogram sum to the number of its in-range
/// samples: every sample within `[min, max)` is counted exactly once,
/// and no other sample is counted.
pub proof fn lemma_histogram_counts_sum(d: Seq<(i64, i64)>, min: int, max: int, bins: int)
    requires
        min < max,
        bins >= 1,
    ensures
        counts_sum(d, min, max, bins, bins) == in_range_count(d, min, max),
    decreases d.len(),
{
    if d.len() == 0 {
        lemma_counts_sum_empty(d, min, max, bins, bins);
        assert(in_range_count(d, min, max) == 0);
    } else {
        let y = d.last().1 as int;
        lemma_histogram_counts_sum(d.drop_last(), min, max, bins);
        lemma_counts_sum_snoc(d, min, max, bins, bins);
        if min <= y <= max {
            lemma_bucket_classifies(y, min, max, bins);
        }
        let ind = if min <= y < max {
            1int
        } else {
            0int
        };
        assert(counts_sum(d, min, max, bins, bins) == counts_sum(
            d.drop_last(),
            min,
            max,
            bins,
            bins,
        ) + ind);
        assert(in_range_count(d, min, max) == in_range_count(d.drop_last(), min, max) + ind);
    }
}

/// An empty sample list has all bucket counts zero.
proof fn lemma_counts_sum_empty(d: Seq<(i64, i64)>, min: int, max: int, bins: int, nb: int)
    requires
        d.len() == 0,
    ensures
        counts_sum(d, min, max, bins, nb) == 0,
    decreases nb,
{
    if nb > 0 {
        lemma_counts_sum_empty(d, min, max, bins, nb - 1);
    }
}

/// The index product of an in-range offset and a bucket count fits
/// comfortably in 128 bits.
proof fn lemma_index_product_fits(a: int, b: int)
    requires
        0 <= a <= 2 * (crate::scale::COORD_LIMIT as int),
        0 <= b <= 1_000_000,
    ensures
        a * b <= 0x8_0000_0000_0000_0000_0000,
{
    lemma_mul_inequality(a, 2 * (crate::scale::COORD_LIMIT as int), b);
    assert(2 * (crate::scale::COORD_LIMIT as int) * b <= 0x8_0000_0000_0000_0000_0000)
        by (nonlinear_arith)
        requires
            0 <= b <= 1_000_000,
    ;
}

/// Transforms points into a frequency distribution (for use in
/// histograms).  Y-values outside of `[min, max]` are ignored;
/// everything that falls into the interval is grouped into `bins`
/// buckets of equal width over `[min, max]`, each returned as its left
/// edge and its count.  The sample on the upper boundary itself lands
/// one past the last bucket and is excluded.
pub fn histogram(data: &Vec<(i64, i64)>, min: i64, max: i64, bins: usize) -> (r: Vec<(i64, u64)>)
    requires
        data_wf(data@),
        in_coord_range(min as int),
        in_coord_range(max as int),
        min < max,
        1 <= bins <= 1_000_000,
    ensures
        r@.len() == bins,
        forall|b: int|
            0 <= b < bins ==> (#[trigger] r@[b]).0 == min + b * (max - min) / (bins as int),
        forall|b: int|
            0 <= b < bins ==> (#[trigger] r@[b]).1 == bucket_count(
                data@,
                min as int,
                max as int,
                bins as int,
                b,
            ),
{
    let diff_all: i128 = (max as i128) - (min as i128);
    let mut counts: Vec<u64> = Vec::new();
    let mut b: usize = 0;
    while b < bins
        invariant
            b <= bins,
            counts@.len() == b,
            forall|t: int| 0 <= t < b ==> counts@[t] == 0,
        decreases bins - b,
    {
        counts.push(0);
        b = b + 1;
    }
    let mut k: usize = 0;
    while k < data.len()
        invariant
            k <= data@.len(),
            data_wf(data@),
            diff_all == (max as int) - (min as int),
            min < max,
            1 <= bins <= 1_000_000,
            in_coord_range(min as int),
            in_coord_range(max as int),
            counts@.len() == bins,
            forall|t: int|
                0 <= t < bins ==> #[trigger] counts@[t] == bucket_count(
                    data@.take(k as int),
                    min as int,
                    max as int,
                    bins as int,
                    t,
                ),
        decreases data@.len() - k,
    {
        proof {
            assert(data@.take(k as int + 1).drop_last() =~= data@.take(k as int));
            lemma_bucket_count_le_len(data@.take(k as int), min as int, max as int, bins as int);
        }
        let (_x, y) = data[k];
        if y >= min && y <= max {
            let a: i128 = (y as i128) - (min as i128);
            proof {
                lemma_index_product_fits(a as int, bins as int);
            }
            let num: i128 = a * (bins as i128);
            let bid128: i128 = ((num as u128) / (diff_all as u128)) as i128;
            proof {
                lemma_div_pos_is_pos(num as int, diff_all as int);
            }
            if bid128 < bins as i128 {
                let bid = bid128 as usize;
                let c = counts[bid];
                counts[bid] = c + 1;
            }
        }
        proof {
            assert forall|t: int|
                0 <= t < bins implies #[trigger] counts@[t] == bucket_count(
                data@.take(k as int + 1),
                min as int,
                max as int,
                bins as int,
                t,
            ) by {
                assert(bucket_count(
                    data@.take(k as int + 1),
                    min as int,
                    max as int,
                    bins as int,
                    t,
                ) == bucket_count(data@.take(k as int), min as int, max as int, bins as int, t) + (
                if counted_in(data@[k as int].1 as int, min as int, max as int, bins as int, t) {
                    1int
                } else {
                    0int
                }));
            }
        }
        k = k + 1;
    }
    proof {
        assert(data@.take(data@.len() as int) =~= data@);
    }
    let mut r: Vec<(i64, u64)> = Vec::new();
    let mut b: usize = 0;
    while b < bins
        invariant
            b <= bins,
            diff_all == (max as int) - (min as int),
            min < max,
            1 <= bins <= 1_000_000,
            in_coord_range(min as int),
            in_coord_range(max as int),
            counts@.len() == bins,
            forall|t: int|
                0 <= t < bins ==> #[trigger] counts@[t] == bucket_count(
                    data@,
                    min as int,
                    max as int,
                    bins as int,
                    t,
                ),
            r@.len() == b,
            forall|t: int|
                0 <= t < b ==> (#[trigger] r@[t]).0 == min + t * (max - min) / (bins as int),
            forall|t: int|
                0 <= t < b ==> (#[trigger] r@[t]).1 == bucket_count(
                    data@,
                    min as int,
                    max as int,
                    bins as int,
                    t,
                ),
        decreases bins - b,
    {
        proof {
            lemma_index_product_fits(diff_all as int, b as int);
            assert((b as int) * (diff_all as int) == (diff_all as int) * (b as int))
                by (nonlinear_arith);
            crate::scale::lemma_quotient_within(b as int, diff_all as int, bins as int);
        }
        let off: i128 = ((((b as i128) * diff_all) as u128) / (bins as u128)) as i128;
        let edge: i64 = ((min as i128) + off) as i64;
        r.push((edge, counts[b]));
        b = b + 1;
    }
    r
}

/// A bucket's count never exceeds the number of samples.
proof fn lemma_bucket_count_le_len(d: Seq<(i64, i64)>, min: int, max: int, bins: int)
    ensures
        forall|t: int| 0 <= #[trigger] bucket_count(d, min, max, bins, t) <= d.len(),
    decreases d.len(),
{
    if d.len() > 0 {
        lemma_bucket_count_le_len(d.drop_last(), min, max, bins);
        assert forall|t: int| 0 <= #[trigger] bucket_count(d, min, max, bins, t) <= d.len() by {
            assert(0 <= bucket_count(d.drop_last(), min, max, bins, t) <= d.drop_last().len());
        }
    }
}

/// All x-coordinates strictly increase along the list.
pub open spec fn x_sorted(d: Seq<(i64, i64)>) -> bool {
    forall|k: int| 0 <= k < d.len() - 1 ==> (#[trigger] d[k]).0 < d[k + 1].0
}

/// The linear interpolant between two points at `x`, rounding toward
/// negative infinity.
pub open spec fn lerp(a: (i64, i64), b: (i64, i64), x: int) -> int {
    a.1 + (x - a.0) * (b.1 as int - a.1 as int) / (b.0 as int - a.0 as int)
}

/// The value of the piecewise-linear interpolant through `d` at `x`:
/// the linear blend on the segment whose x-interval contains `x`.
pub open spec fn interp_spec(d: Seq<(i64, i64)>, x: int) -> int
    decreases d.len(),
{
    if d.len() <= 1 {
        if d.len() == 1 {
            d[0].1 as int
        } else {
            0
        }
    } else if x <= d[1].0 {
        lerp(d[0], d[1], x)
    } else {
        interp_spec(d.skip(1), x)
    }
}

/// The value of the staircase interpolant through `d` at `x`: over
/// each x-interval the level is the mean of the interval's endpoint
/// y-values, rounded toward negative infinity.
pub open spec fn staircase_spec(d: Seq<(i64, i64)>, x: int) -> int
    decreases d.len(),
{
    if d.len() <= 1 {
        if d.len() == 1 {
            d[0].1 as int
        } else {
            0
        }
    } else if x <= d[1].0 {
        (d[0].1 as int + d[1].1 as int) / 2
    } else {
        staircase_spec(d.skip(1), x)
    }
}

/// The interpolation quotient lies between 0 and the y-difference,
/// whatever that difference's sign.
proof fn lemma_lerp_within(a: int, dy: int, dx: int)
    requires
        0 <= a <= dx,
        0 < dx,
    ensures
        dy >= 0 ==> 0 <= a * dy / dx <= dy,
        dy < 0 ==> dy <= a * dy / dx <= 0,
{
    if dy >= 0 {
        lemma_mul_inequality(a, dx, dy);
        lemma_div_is_ordered(a * dy, dx * dy, dx);
        lemma_div_multiples_vanish(dy, dx);
        assert(dx * dy == dy * dx) by (nonlinear_arith);
        lemma_div_pos_is_pos(a * dy, dx);
        assert(a * dy >= 0) by (nonlinear_arith)
            requires
                0 <= a,
                0 <= dy,
        ;
    } else {
        assert(dx * dy <= a * dy) by (nonlinear_arith)
            requires
                a <= dx,
                dy < 0,
        ;
        assert(a * dy <= 0) by (nonlinear_arith)
            requires
                0 <= a,
                dy < 0,
        ;
        lemma_div_is_ordered(dx * dy, a * dy, dx);
        lemma_div_multiples_vanish(dy, dx);
        assert(dx * dy == dy * dx) by (nonlinear_arith);
        lemma_div_is_ordered(a * dy, 0, dx);
        vstd::arithmetic::div_mod::lemma_div_of0(dx);
    }
}

/// Evaluates the piecewise-linear interpolant through `points` at `x`.
/// The points must ascend strictly in x, and `x` must lie within their
/// x-interval.
#[verifier::rlimit(50)]
pub fn interpolate(points: &Vec<(i64, i64)>, x: i64) -> (y: i64)
    requires
        data_wf(points@),
        x_sorted(points@),
        points@.len() >= 1,
        in_coord_range(x as int),
        points@[0].0 <= x <= points@[points@.len() - 1].0,
    ensures
        y as int == interp_spec(points@, x as int),
{
    proof {
        assert(points@.skip(0) =~= points@);
    }
    let mut i: usize = 0;
    while i < points.len() - 1
        invariant
            data_wf(points@),
            x_sorted(points@),
            points@.len() >= 1,
            i < points@.len(),
            in_coord_range(x as int),
            points@[i as int].0 <= x <= points@[points@.len() - 1].0,
            interp_spec(points@.skip(i as int), x as int) == interp_spec(points@, x as int),
        decreases points@.len() - i,
    {
        let a = points[i];
        let b = points[i + 1];
        proof {
            assert(in_coord_range(points@[i as int].0 as int));
            assert(in_coord_range(points@[i as int + 1].0 as int));
            assert(points@.skip(i as int)[1] == points@[i as int + 1]);
            assert(points@.skip(i as int).skip(1) =~= points@.skip(i as int + 1));
        }
        if x <= b.0 {
            let dx: i128 = (b.0 as i128) - (a.0 as i128);
            let dy: i128 = (b.1 as i128) - (a.1 as i128);
            let off: i128 = (x as i128) - (a.0 as i128);
            proof {
                crate::scale::lemma_product_abs_fits(dy as int, off as int);
                assert(off * dy == dy * off) by (nonlinear_arith);
                lemma_lerp_within(off as int, dy as int, dx as int);
            }
            let q = floor_div_i128(off * dy, dx);
            let res: i128 = (a.1 as i128) + q;
            return res as i64;
        }
        i = i + 1;
    }
    points[i].1
}

/// Evaluates the staircase interpolant through `points` at `x`: the
/// level over each x-interval is the mean of the interval's endpoint
/// y-values.  The points must ascend strictly in x, and `x` must lie
/// within their x-interval.
#[verifier::rlimit(50)]
pub fn staircase(points: &Vec<(i64, i64)>, x: i64) -> (y: i64)
    requires
        data_wf(points@),
        x_sorted(points@),
        points@.len() >= 1,
        in_coord_range(x as int),
        points@[0].0 <= x <= points@[points@.len() - 1].0,
    ensures
        y as int == staircase_spec(points@, x as int),
{
    proof {
        assert(points@.skip(0) =~= points@);
    }
    let mut i: usize = 0;
    while i < points.len() - 1
        invariant
            data_wf(points@),
            x_sorted(points@),
            points@.len() >= 1,
            i < points@.len(),
            in_coord_range(x as int),
            points@[i as int].0 <= x <= points@[points@.len() - 1].0,
            staircase_spec(points@.skip(i as int), x as int) == staircase_spec(
                points@,
                x as int,
            ),
        decreases points@.len() - i,
    {
        let a = points[i];
        let b = points[i + 1];
        proof {
            assert(in_coord_range(points@[i as int].0 as int));
            assert(in_coord_range(points@[i as int + 1].0 as int));
            assert(points@.skip(i as int)[1] == points@[i as int + 1]);
            assert(points@.skip(i as int).skip(1) =~= points@.skip(i as int + 1));
        }
        if x <= b.0 {
            let sum: i128 = (a.1 as i128) + (b.1 as i128);
            let q = floor_div_i128(sum, 2);
            return q as i64;
        }
        i = i + 1;
    }
    points[i].1
}

} // verus!
