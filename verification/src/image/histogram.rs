//! Histograms, cumulative counts and rank lookup.

use vstd::prelude::*;

use crate::buffer::{lemma_packed_index, lemma_packed_len, unsupported_format, ImageBuffer, ImageModel};
use crate::error::{PerceptionError, PerceptionResult};
use crate::types::PixelFormat;

verus! {

/// Fixed 256-bin count histogram.
#[derive(Clone, Debug, PartialEq, Eq)]
pub struct Histogram {
    /// Bins indexed by sample value.
    pub bins: [u32; 256],
}

/// How many of the first `n` samples equal `value`.
pub open spec fn occurrences(samples: Seq<u8>, n: int, value: int) -> nat
    decreases n,
{
    if n <= 0 {
        0
    } else {
        occurrences(samples, n - 1, value) + if samples[n - 1] == value {
            1nat
        } else {
            0nat
        }
    }
}

/// Sum over the values `0..k` of their occurrences among the first `n` samples.
pub open spec fn occurrences_below(samples: Seq<u8>, n: int, k: int) -> nat
    decreases k,
{
    if k <= 0 {
        0
    } else {
        occurrences_below(samples, n, k - 1) + occurrences(samples, n, k - 1)
    }
}

/// Sum of the first `k` bins.
pub open spec fn bin_prefix_sum(bins: Seq<u32>, k: int) -> int
    decreases k,
{
    if k <= 0 {
        0
    } else {
        bin_prefix_sum(bins, k - 1) + bins[k - 1]
    }
}

/// The histogram of a sample sequence: bin `v` counts the samples equal to `v`.
pub open spec fn is_histogram_of(bins: Seq<u32>, samples: Seq<u8>) -> bool {
    &&& bins.len() == 256
    &&& forall|v: int| 0 <= v < 256 ==> #[trigger] bins[v] == occurrences(samples, samples.len() as int, v)
}

/// Components of channel `channel` in a packed sequence of `channels`-component pixels.
pub open spec fn channel_samples(samples: Seq<u8>, channels: int, channel: int) -> Seq<u8> {
    Seq::new((samples.len() as int / channels) as nat, |p: int| samples[p * channels + channel])
}

/// Adding one sample increments the running sum of counts below `k` exactly when the
/// sample is below `k`.
proof fn lemma_occurrences_below_step(samples: Seq<u8>, n: int, k: int)
    requires
        1 <= n <= samples.len(),
        0 <= k,
    ensures
        occurrences_below(samples, n, k) == occurrences_below(samples, n - 1, k) + if samples[n
            - 1] < k {
            1nat
        } else {
            0nat
        },
    decreases k,
{
    if k > 0 {
        lemma_occurrences_below_step(samples, n, k - 1);
    }
}

/// Every sample is counted by exactly one of the 256 values: the counts add up to `n`.
pub proof fn lemma_counts_cover_samples(samples: Seq<u8>, n: int)
    requires
        0 <= n <= samples.len(),
    ensures
        occurrences_below(samples, n, 256) == n,
    decreases n,
{
    if n == 0 {
        lemma_occurrences_below_zero(samples, 256);
    } else {
        lemma_counts_cover_samples(samples, n - 1);
        lemma_occurrences_below_step(samples, n, 256);
    }
}

proof fn lemma_occurrences_below_zero(samples: Seq<u8>, k: int)
    requires
        0 <= k,
    ensures
        occurrences_below(samples, 0, k) == 0,
    decreases k,
{
    if k > 0 {
        lemma_occurrences_below_zero(samples, k - 1);
    }
}

/// The bins of a histogram of `samples` add up, value by value, to the running counts.
pub proof fn lemma_histogram_prefix_sums(bins: Seq<u32>, samples: Seq<u8>, k: int)
    requires
        is_histogram_of(bins, samples),
        0 <= k <= 256,
    ensures
        bin_prefix_sum(bins, k) == occurrences_below(samples, samples.len() as int, k),
    decreases k,
{
    if k > 0 {
        lemma_histogram_prefix_sums(bins, samples, k - 1);
        assert(bins[k - 1] == occurrences(samples, samples.len() as int, k - 1));
    }
}

/// A histogram counts every sample once: its bins sum to the number of samples.
pub proof fn lemma_histogram_total(bins: Seq<u32>, samples: Seq<u8>)
    requires
        is_histogram_of(bins, samples),
    ensures
        bin_prefix_sum(bins, 256) == samples.len(),
{
    lemma_histogram_prefix_sums(bins, samples, 256);
    lemma_counts_cover_samples(samples, samples.len() as int);
}

/// Every value occurs at most `u32::MAX` times in `samples`, so each bin fits a `u32`.
pub open spec fn bins_fit(samples: Seq<u8>) -> bool {
    forall|v: int| 0 <= v < 256 ==> #[trigger] occurrences(samples, samples.len() as int, v) <= u32::MAX
}

/// Counts of a prefix never exceed the counts of a longer prefix.
proof fn lemma_occurrences_monotone(samples: Seq<u8>, k: int, n: int, value: int)
    requires
        0 <= k <= n,
    ensures
        occurrences(samples, k, value) <= occurrences(samples, n, value),
    decreases n - k,
{
    if k < n {
        lemma_occurrences_monotone(samples, k, n - 1, value);
    }
}

/// Computes a Gray8 histogram.
pub fn histogram_gray(input: &ImageBuffer) -> (result: PerceptionResult<Histogram>)
    requires
        input.wf(),
        input.model().pixel_format == PixelFormat::Gray8 ==> bins_fit(input.model().packed()),
    ensures
        input.model().pixel_format != PixelFormat::Gray8 ==> (result matches Err(e) && unsupported_format(
            e,
            "histogram_gray",
            input.model().pixel_format,
        )),
        input.model().pixel_format == PixelFormat::Gray8 ==> (result matches Ok(histogram)
            && is_histogram_of(histogram.bins@, input.model().packed())),
{
    if input.pixel_format() != PixelFormat::Gray8 {
        return Err(
            PerceptionError::UnsupportedFormat {
                operation: "histogram_gray",
                format: input.pixel_format().to_text(),
            },
        );
    }
    let ghost m = input.model();
    let ghost packed = m.packed();
    proof {
        lemma_packed_len(m);
    }
    let mut bins = [0u32; 256];
    let view = input.view();
    let mut y: u32 = 0;
    while y < input.height()
        invariant
            m == input.model(),
            m == view.model(),
            m.wf(),
            packed == m.packed(),
            m.pixel_format == PixelFormat::Gray8,
            bins_fit(packed),
            y <= m.shape.height,
            forall|v: int| 0 <= v < 256 ==> #[trigger] bins@[v] == occurrences(packed, y * m.row_len(), v),
        decreases m.shape.height - y,
    {
        let row = view.row(y).unwrap();
        proof {
            crate::buffer::lemma_row_in_footprint(m, y as int);
            assert((y + 1) * m.row_len() == y * m.row_len() + m.row_len()) by (nonlinear_arith);
            assert((y + 1) * m.row_len() <= packed.len()) by (nonlinear_arith)
                requires
                    y + 1 <= m.shape.height,
                    packed.len() == m.shape.height * m.row_len(),
            ;
        }
        let mut k: usize = 0;
        while k < row.len()
            invariant
                m.wf(),
                packed == m.packed(),
                m.pixel_format == PixelFormat::Gray8,
                bins_fit(packed),
                y < m.shape.height,
                (y + 1) * m.row_len() <= packed.len(),
                0 <= y * m.stride,
                y * m.stride + m.row_len() <= m.data.len(),
                row@.len() == m.row_len(),
                row@ == m.data.subrange(y * m.stride, y * m.stride + m.row_len()),
                k <= row@.len(),
                forall|v: int| 0 <= v < 256 ==> #[trigger] bins@[v] == occurrences(packed, y * m.row_len() + k, v),
            decreases row@.len() - k,
        {
            let value = row[k];
            proof {
                lemma_packed_index(m, y as int, k as int);
                let n = y * m.row_len() + k + 1;
                lemma_occurrences_monotone(packed, n, packed.len() as int, value as int);
                assert(occurrences(packed, packed.len() as int, value as int) <= u32::MAX);
                assert(row@[k as int] == m.data[y * m.stride + k]);
                assert(packed[n - 1] == value);
            }
            bins[value as usize] = bins[value as usize] + 1;
            k = k + 1;
        }
        y = y + 1;
    }
    proof {
        assert(m.shape.height * m.row_len() == packed.len());
    }
    Ok(Histogram { bins })
}

/// Computes one histogram per RGB or BGR channel in storage order.
pub fn histogram_per_channel(input: &ImageBuffer) -> (result: PerceptionResult<[Histogram; 3]>)
    requires
        input.wf(),
        input.model().pixel_format == PixelFormat::Rgb8 || input.model().pixel_format == PixelFormat::Bgr8
            ==> forall|c: int| 0 <= c < 3 ==> bins_fit(#[trigger] channel_samples(input.model().packed(), 3, c)),
    ensures
        !(input.model().pixel_format == PixelFormat::Rgb8 || input.model().pixel_format
            == PixelFormat::Bgr8) ==> (result matches Err(e) && unsupported_format(
            e,
            "histogram_per_channel",
            input.model().pixel_format,
        )),
        input.model().pixel_format == PixelFormat::Rgb8 || input.model().pixel_format
            == PixelFormat::Bgr8 ==> (result matches Ok(histograms) && forall|c: int|
            0 <= c < 3 ==> is_histogram_of(
                #[trigger] histograms[c].bins@,
                channel_samples(input.model().packed(), 3, c),
            )),
{
    if !(input.pixel_format() == PixelFormat::Rgb8 || input.pixel_format() == PixelFormat::Bgr8) {
        return Err(
            PerceptionError::UnsupportedFormat {
                operation: "histogram_per_channel",
                format: input.pixel_format().to_text(),
            },
        );
    }
    let ghost m = input.model();
    let ghost packed = m.packed();
    let ghost w = m.shape.width as int;
    proof {
        lemma_packed_len(m);
        assert(m.shape.height * (m.shape.width * 3) == (m.shape.width * m.shape.height) * 3)
            by (nonlinear_arith);
        vstd::arithmetic::div_mod::lemma_div_multiples_vanish(m.shape.width * m.shape.height, 3);
        assert(packed.len() as int / 3 == m.shape.width * m.shape.height);
    }
    let ghost red = channel_samples(packed, 3, 0);
    let ghost green = channel_samples(packed, 3, 1);
    let ghost blue = channel_samples(packed, 3, 2);
    let mut first = [0u32; 256];
    let mut second = [0u32; 256];
    let mut third = [0u32; 256];
    let view = input.view();
    let mut y: u32 = 0;
    while y < input.height()
        invariant
            m == input.model(),
            m == view.model(),
            m.wf(),
            packed == m.packed(),
            m.bpp() == 3,
            w == m.shape.width,
            packed.len() as int / 3 == w * m.shape.height,
            red == channel_samples(packed, 3, 0),
            green == channel_samples(packed, 3, 1),
            blue == channel_samples(packed, 3, 2),
            bins_fit(red),
            bins_fit(green),
            bins_fit(blue),
            y <= m.shape.height,
            forall|v: int| 0 <= v < 256 ==> #[trigger] first@[v] == occurrences(red, y * w, v),
            forall|v: int| 0 <= v < 256 ==> #[trigger] second@[v] == occurrences(green, y * w, v),
            forall|v: int| 0 <= v < 256 ==> #[trigger] third@[v] == occurrences(blue, y * w, v),
        decreases m.shape.height - y,
    {
        let row = view.row(y).unwrap();
        proof {
            crate::buffer::lemma_row_in_footprint(m, y as int);
            assert((y + 1) * w <= w * m.shape.height) by (nonlinear_arith)
                requires
                    y + 1 <= m.shape.height,
                    w >= 0,
            ;
        }
        let pixels = input.width() as usize;
        let mut p: usize = 0;
        while p < pixels
            invariant
                m.wf(),
                packed == m.packed(),
                m.bpp() == 3,
                w == m.shape.width,
                pixels == w,
                packed.len() as int / 3 == w * m.shape.height,
                red == channel_samples(packed, 3, 0),
                green == channel_samples(packed, 3, 1),
                blue == channel_samples(packed, 3, 2),
                bins_fit(red),
                bins_fit(green),
                bins_fit(blue),
                y < m.shape.height,
                (y + 1) * w <= w * m.shape.height,
                0 <= y * m.stride,
                y * m.stride + m.row_len() <= m.data.len(),
                row@.len() == m.row_len(),
                row@ == m.data.subrange(y * m.stride, y * m.stride + m.row_len()),
                p <= pixels,
                forall|v: int| 0 <= v < 256 ==> #[trigger] first@[v] == occurrences(red, y * w + p, v),
                forall|v: int| 0 <= v < 256 ==> #[trigger] second@[v] == occurrences(green, y * w + p, v),
                forall|v: int| 0 <= v < 256 ==> #[trigger] third@[v] == occurrences(blue, y * w + p, v),
            decreases pixels - p,
        {
            let ghost q = y * w + p;
            proof {
                assert(3 * p + 2 < m.row_len()) by (nonlinear_arith)
                    requires
                        p < w,
                        m.row_len() == w * 3,
                ;
                assert(3 * q == y * m.row_len() + 3 * p) by (nonlinear_arith)
                    requires
                        q == y * w + p,
                        m.row_len() == w * 3,
                ;
                lemma_packed_index(m, y as int, 3 * p);
                lemma_packed_index(m, y as int, 3 * p + 1);
                lemma_packed_index(m, y as int, 3 * p + 2);
                assert(row@[3 * p] == m.data[y * m.stride + 3 * p]);
                assert(row@[3 * p + 1] == m.data[y * m.stride + 3 * p + 1]);
                assert(row@[3 * p + 2] == m.data[y * m.stride + 3 * p + 2]);
                assert(q < w * m.shape.height);
                assert(red[q] == row@[3 * p]);
                assert(green[q] == row@[3 * p + 1]);
                assert(blue[q] == row@[3 * p + 2]);
                lemma_occurrences_monotone(red, q + 1, red.len() as int, row@[3 * p] as int);
                lemma_occurrences_monotone(green, q + 1, green.len() as int, row@[3 * p + 1] as int);
                lemma_occurrences_monotone(blue, q + 1, blue.len() as int, row@[3 * p + 2] as int);
                assert(occurrences(red, red.len() as int, row@[3 * p] as int) <= u32::MAX);
                assert(occurrences(green, green.len() as int, row@[3 * p + 1] as int) <= u32::MAX);
                assert(occurrences(blue, blue.len() as int, row@[3 * p + 2] as int) <= u32::MAX);
            }
            let r = row[3 * p];
            let g = row[3 * p + 1];
            let b = row[3 * p + 2];
            first[r as usize] = first[r as usize] + 1;
            second[g as usize] = second[g as usize] + 1;
            third[b as usize] = third[b as usize] + 1;
            p = p + 1;
        }
        proof {
            assert((y + 1) * w == y * w + w) by (nonlinear_arith);
        }
        y = y + 1;
    }
    proof {
        assert(red.len() == w * m.shape.height);
        assert(m.shape.height * w == w * m.shape.height) by (nonlinear_arith);
        assert(is_histogram_of(first@, red));
        assert(is_histogram_of(second@, green));
        assert(is_histogram_of(third@, blue));
    }
    let histograms = [Histogram { bins: first }, Histogram { bins: second }, Histogram { bins: third }];
    proof {
        assert(histograms[0].bins@ == first@);
        assert(histograms[1].bins@ == second@);
        assert(histograms[2].bins@ == third@);
        assert forall|c: int| 0 <= c < 3 implies is_histogram_of(
            #[trigger] histograms[c].bins@,
            channel_samples(packed, 3, c),
        ) by {
            if c == 0 {
            } else if c == 1 {
            } else {
            }
        }
    }
    Ok(histograms)
}

/// Accumulates bin counts from low to high values: entry `i` is the sum of bins `0..=i`.
pub fn cumulative_histogram(histogram: &Histogram) -> (cumulative: [u32; 256])
    requires
        bin_prefix_sum(histogram.bins@, 256) <= u32::MAX,
    ensures
        forall|i: int| 0 <= i < 256 ==> #[trigger] cumulative@[i] == cumulative_count(histogram.bins@, i),
{
    let mut output = [0u32; 256];
    let mut total: u32 = 0;
    let mut index: usize = 0;
    while index < 256
        invariant
            index <= 256,
            histogram.bins@.len() == 256,
            bin_prefix_sum(histogram.bins@, 256) <= u32::MAX,
            total == bin_prefix_sum(histogram.bins@, index as int),
            forall|i: int| 0 <= i < index ==> #[trigger] output@[i] == cumulative_count(histogram.bins@, i),
        decreases 256 - index,
    {
        proof {
            lemma_prefix_sum_monotone(histogram.bins@, index + 1, 256);
        }
        total = total + histogram.bins[index];
        output[index] = total;
        index = index + 1;
    }
    output
}

/// Prefix sums of counts never decrease.
pub proof fn lemma_prefix_sum_monotone(bins: Seq<u32>, i: int, j: int)
    requires
        0 <= i <= j <= bins.len(),
    ensures
        bin_prefix_sum(bins, i) <= bin_prefix_sum(bins, j),
    decreases j - i,
{
    if i < j {
        lemma_prefix_sum_monotone(bins, i, j - 1);
    }
}

/// Number of samples at most `value`: the sum of bins `0..=value`.
pub open spec fn cumulative_count(bins: Seq<u32>, value: int) -> int {
    bin_prefix_sum(bins, value + 1)
}

/// The value of rank `target` in a histogram: the smallest `v` whose cumulative count
/// exceeds `target`, or 255 when no cumulative count does.
pub open spec fn rank_value(bins: Seq<u32>, target: int) -> u8 {
    if exists|v: int| 0 <= v < 256 && cumulative_count(bins, v) > target {
        (choose|v: int| 0 <= v < 256 && cumulative_count(bins, v) > target && forall|u: int|
            0 <= u < v ==> cumulative_count(bins, u) <= target) as u8
    } else {
        255
    }
}

/// Walks the cumulative counts to the first value whose count exceeds `target`.
pub fn value_at_rank(histogram: &Histogram, target: u32) -> (value: u8)
    requires
        bin_prefix_sum(histogram.bins@, 256) <= u32::MAX,
    ensures
        value == rank_value(histogram.bins@, target as int),
        (exists|v: int| 0 <= v < 256 && cumulative_count(histogram.bins@, v) > target) ==> (
        cumulative_count(histogram.bins@, value as int) > target && forall|u: int|
            0 <= u < value ==> cumulative_count(histogram.bins@, u) <= target),
{
    let mut cumulative: u32 = 0;
    let mut index: usize = 0;
    while index < 256
        invariant
            index <= 256,
            histogram.bins@.len() == 256,
            bin_prefix_sum(histogram.bins@, 256) <= u32::MAX,
            cumulative == bin_prefix_sum(histogram.bins@, index as int),
            forall|u: int| 0 <= u < index ==> cumulative_count(histogram.bins@, u) <= target,
        decreases 256 - index,
    {
        proof {
            lemma_prefix_sum_monotone(histogram.bins@, index + 1, 256);
        }
        cumulative = cumulative + histogram.bins[index];
        if cumulative > target {
            proof {
                let v = index as int;
                assert(0 <= v < 256 && cumulative_count(histogram.bins@, v) > target && forall|u: int|
                    0 <= u < v ==> cumulative_count(histogram.bins@, u) <= target);
                let w = choose|w: int| 0 <= w < 256 && cumulative_count(histogram.bins@, w) > target
                    && forall|u: int| 0 <= u < w ==> cumulative_count(histogram.bins@, u) <= target;
                if w < v {
                    assert(cumulative_count(histogram.bins@, w) <= target);
                } else if w > v {
                    assert(cumulative_count(histogram.bins@, v) <= target);
                }
            }
            return index as u8;
        }
        index = index + 1;
    }
    255
}

} // verus!
