//! Fixed thresholding.

use vstd::prelude::*;

use crate::buffer::{packed_model, unsupported_format, ImageBuffer, ImageModel};
use crate::error::{PerceptionError, PerceptionResult};
use crate::image::operations::{
    border_pick, border_sample, lemma_border_source_inside, lemma_gray_packed_fits, packed_u8, require_gray,
    BorderMode, BorderRule,
};
use crate::types::PixelFormat;

verus! {

/// 255 for samples at or above `threshold`, 0 below it.
pub open spec fn binarize(value: u8, threshold: u8) -> u8 {
    if value >= threshold {
        255
    } else {
        0
    }
}

/// Applies an inclusive fixed threshold to Gray8 input.
pub fn threshold_gray(input: &ImageBuffer, threshold: u8) -> (result: PerceptionResult<ImageBuffer>)
    requires
        input.wf(),
    ensures
        input.model().pixel_format != PixelFormat::Gray8 ==> (result matches Err(e) && unsupported_format(
            e,
            "threshold_gray",
            input.model().pixel_format,
        )),
        input.model().pixel_format == PixelFormat::Gray8 && input.model().is_empty() ==> result == Err::<
            ImageBuffer,
            PerceptionError,
        >(input.model().empty_error()),
        input.model().pixel_format == PixelFormat::Gray8 && !input.model().is_empty() ==> (result matches Ok(
            output,
        ) && output.wf() && output.model() == packed_model(
            input.model().shape.width,
            input.model().shape.height,
            PixelFormat::Gray8,
            input.model().packed().map_values(|value: u8| binarize(value, threshold)),
        )),
{
    require_gray(input, "threshold_gray")?;
    proof {
        lemma_gray_packed_fits(input.model());
    }
    let packed = packed_u8(input)?;
    let count = packed.len();
    let mut output: Vec<u8> = Vec::with_capacity(count);
    let mut j: usize = 0;
    while j < count
        invariant
            count == packed@.len(),
            j <= count,
            output@.len() == j,
            forall|k: int| 0 <= k < j ==> output@[k] == binarize(packed@[k], threshold),
        decreases count - j,
    {
        output.push(if packed[j] >= threshold { 255 } else { 0 });
        j = j + 1;
    }
    proof {
        assert(output@ =~= packed@.map_values(|value: u8| binarize(value, threshold)));
    }
    crate::buffer::ImageBuffer::new(input.width(), input.height(), PixelFormat::Gray8, output)
}

/// Fixed thresholding is exact: a sample becomes white (255) when it is at least the
/// threshold and black (0) when it is below it, for every sample and threshold.
pub proof fn lemma_threshold_exact(value: u8, threshold: u8)
    ensures
        (binarize(value, threshold) == 255) == (value >= threshold),
        (binarize(value, threshold) == 0) == (value < threshold),
{
}

/// Each sample of a thresholded sample sequence is 255 exactly where the input sample is
/// at least the threshold, and 0 everywhere else; the length is kept.
pub proof fn lemma_threshold_samples_exact(samples: Seq<u8>, threshold: u8)
    ensures
        samples.map_values(|value: u8| binarize(value, threshold)).len() == samples.len(),
        forall|k: int|
            0 <= k < samples.len() ==> {
                let out = samples.map_values(|value: u8| binarize(value, threshold))[k];
                &&& (out == 255) == (#[trigger] samples[k] >= threshold)
                &&& (out == 0) == (samples[k] < threshold)
            },
{
}

/// A thresholded sample is 0 or 255, and thresholding it again with the same
/// threshold changes nothing.
pub proof fn lemma_threshold_idempotent(value: u8, threshold: u8)
    ensures
        binarize(value, threshold) == 0 || binarize(value, threshold) == 255,
        binarize(binarize(value, threshold), threshold) == binarize(value, threshold),
{
}

/// The packed samples of a thresholded image are its thresholded samples, so
/// thresholding an image twice gives the image thresholded once.
pub proof fn lemma_threshold_image_idempotent(samples: Seq<u8>, threshold: u8)
    ensures
        samples.map_values(|value: u8| binarize(value, threshold)).map_values(
            |value: u8| binarize(value, threshold),
        ) == samples.map_values(|value: u8| binarize(value, threshold)),
{
    assert(samples.map_values(|value: u8| binarize(value, threshold)).map_values(
        |value: u8| binarize(value, threshold),
    ) =~= samples.map_values(|value: u8| binarize(value, threshold)));
}

/// Thresholding a thresholded Gray8 image with the same threshold gives it back unchanged.
pub proof fn lemma_threshold_twice(m: crate::buffer::ImageModel, threshold: u8)
    requires
        m.wf(),
        m.pixel_format == PixelFormat::Gray8,
    ensures
        ({
            let once = packed_model(
                m.shape.width,
                m.shape.height,
                PixelFormat::Gray8,
                m.packed().map_values(|value: u8| binarize(value, threshold)),
            );
            packed_model(
                once.shape.width,
                once.shape.height,
                PixelFormat::Gray8,
                once.packed().map_values(|value: u8| binarize(value, threshold)),
            ) == once
        }),
{
    let once = packed_model(
        m.shape.width,
        m.shape.height,
        PixelFormat::Gray8,
        m.packed().map_values(|value: u8| binarize(value, threshold)),
    );
    assert(m.shape.height * (m.shape.width * 1) == m.shape.height * m.shape.width) by (nonlinear_arith);
    crate::buffer::lemma_packed_of_packed(once);
    lemma_threshold_image_idempotent(m.packed(), threshold);
}

/// Sum of the `n` replicated-border samples of row `y` starting at column `x0`.
pub open spec fn run_sum(m: ImageModel, x0: int, y: int, n: int) -> int
    decreases n,
{
    if n <= 0 {
        0
    } else {
        run_sum(m, x0, y, n - 1) + border_pick(m, x0 + n - 1, y, 0, BorderRule::Replicate)
    }
}

/// Sum of the replicated-border samples of the `width` x `rows` block whose top-left
/// corner is (`x0`, `y0`).
pub open spec fn block_sum(m: ImageModel, x0: int, y0: int, width: int, rows: int) -> int
    decreases rows,
{
    if rows <= 0 {
        0
    } else {
        block_sum(m, x0, y0, width, rows - 1) + run_sum(m, x0, y0 + rows - 1, width)
    }
}

/// Sum of the replicated-border samples of the `window` x `window` square centred on
/// (`x`, `y`).
pub open spec fn window_sum(m: ImageModel, x: int, y: int, window: int) -> int {
    block_sum(m, x - window / 2, y - window / 2, window, window)
}

/// A run of `n` eight-bit samples sums to at most `255 * n`.
proof fn lemma_run_sum_bound(m: ImageModel, x0: int, y: int, n: int)
    ensures
        0 <= run_sum(m, x0, y, n) <= 255 * if n < 0 {
            0
        } else {
            n
        },
    decreases n,
{
    if n > 0 {
        lemma_run_sum_bound(m, x0, y, n - 1);
    }
}

/// A block of `width * rows` eight-bit samples sums to at most `255 * width * rows`.
proof fn lemma_block_sum_bound(m: ImageModel, x0: int, y0: int, width: int, rows: int)
    requires
        width >= 0,
    ensures
        0 <= block_sum(m, x0, y0, width, rows) <= 255 * width * if rows < 0 {
            0
        } else {
            rows
        },
    decreases rows,
{
    if rows > 0 {
        lemma_block_sum_bound(m, x0, y0, width, rows - 1);
        lemma_run_sum_bound(m, x0, y0 + rows - 1, width);
        assert(255 * width * (rows - 1) + 255 * width == 255 * width * rows) by (nonlinear_arith);
    }
}

/// Entries of earlier rows come before row `y` in row-major order.
proof fn lemma_row_major_before(width: int, x: int, y: int, row: int)
    requires
        0 <= x < width,
        0 <= y < row,
    ensures
        y * width + x < row * width,
{
    assert(y * width + x < row * width) by (nonlinear_arith)
        requires
            0 <= x < width,
            0 <= y < row,
    ;
}

/// Sums of the replicated-border `window` x `window` neighbourhood of every pixel of a
/// Gray8 image, in row-major order: the integer part of local mean thresholding.
pub fn window_sums(input: &ImageBuffer, window: u32) -> (sums: Vec<u32>)
    requires
        input.wf(),
        input.model().pixel_format == PixelFormat::Gray8,
        input.model().shape.width < 0x4000_0000,
        input.model().shape.height < 0x4000_0000,
        window % 2 == 1,
        window * window * 255 <= u32::MAX,
    ensures
        sums@.len() == input.model().shape.width * input.model().shape.height,
        forall|x: int, y: int|
            0 <= x < input.model().shape.width && 0 <= y < input.model().shape.height ==> #[trigger] sums@[y
                * input.model().shape.width + x] == window_sum(input.model(), x, y, window as int),
{
    let ghost m = input.model();
    let width = input.width();
    let height = input.height();
    let radius = (window / 2) as i32;
    let border = BorderMode::Replicate;
    proof {
        lemma_gray_packed_fits(m);
        assert(m.shape.width * 1 * m.shape.height == m.shape.width * m.shape.height) by (nonlinear_arith);
        assert(window <= 4105) by (nonlinear_arith)
            requires
                window * window * 255 <= u32::MAX,
        ;
    }
    let mut sums: Vec<u32> = Vec::new();
    let mut y: u32 = 0;
    while y < height
        invariant
            m == input.model(),
            input.wf(),
            m.pixel_format == PixelFormat::Gray8,
            border == BorderMode::Replicate,
            width == m.shape.width,
            height == m.shape.height,
            width < 0x4000_0000,
            height < 0x4000_0000,
            window % 2 == 1,
            window <= 4105,
            window * window * 255 <= u32::MAX,
            radius == window / 2,
            width * height <= usize::MAX,
            y <= height,
            sums@.len() == y * width,
            forall|xx: int, yy: int|
                0 <= xx < width && 0 <= yy < y ==> #[trigger] sums@[yy * width + xx] == window_sum(m, xx, yy, window as int),
        decreases height - y,
    {
        let mut x: u32 = 0;
        while x < width
            invariant
                m == input.model(),
                input.wf(),
                m.pixel_format == PixelFormat::Gray8,
                border == BorderMode::Replicate,
                width == m.shape.width,
                height == m.shape.height,
                width < 0x4000_0000,
                height < 0x4000_0000,
                window % 2 == 1,
                window <= 4105,
                window * window * 255 <= u32::MAX,
                radius == window / 2,
                y < height,
                x <= width,
                sums@.len() == y * width + x,
                forall|xx: int, yy: int|
                    0 <= xx < width && 0 <= yy < y ==> #[trigger] sums@[yy * width + xx] == window_sum(m, xx, yy, window as int),
                forall|xx: int| 0 <= xx < x ==> #[trigger] sums@[y * width + xx] == window_sum(m, xx, y as int, window as int),
            decreases width - x,
        {
            let mut sum: u32 = 0;
            let mut oy: i32 = -radius;
            while oy <= radius
                invariant
                    m == input.model(),
                    input.wf(),
                    m.pixel_format == PixelFormat::Gray8,
                    border == BorderMode::Replicate,
                    width == m.shape.width,
                    height == m.shape.height,
                    width < 0x4000_0000,
                    height < 0x4000_0000,
                    window <= 4105,
                    window * window * 255 <= u32::MAX,
                    radius == window / 2,
                    window == 2 * radius + 1,
                    x < width,
                    y < height,
                    -radius <= oy <= radius + 1,
                    sum == block_sum(m, x - radius, y - radius, window as int, oy + radius),
                decreases radius + 1 - oy,
            {
                let mut ox: i32 = -radius;
                proof {
                    lemma_block_sum_bound(m, x - radius, y - radius, window as int, oy + radius);
                    assert(255 * window * (oy + radius) + 255 * window <= 255 * window * window) by (nonlinear_arith)
                        requires
                            oy + radius + 1 <= window,
                            window >= 0,
                    ;
                }
                while ox <= radius
                    invariant
                        m == input.model(),
                        input.wf(),
                        m.pixel_format == PixelFormat::Gray8,
                        border == BorderMode::Replicate,
                        width == m.shape.width,
                        height == m.shape.height,
                        width < 0x4000_0000,
                        height < 0x4000_0000,
                        window <= 4105,
                        window * window * 255 <= u32::MAX,
                        radius == window / 2,
                        window == 2 * radius + 1,
                        x < width,
                        y < height,
                        -radius <= oy <= radius,
                        -radius <= ox <= radius + 1,
                        0 <= block_sum(m, x - radius, y - radius, window as int, oy + radius) <= 255 * window * (oy + radius),
                        255 * window * (oy + radius) + 255 * window <= 255 * window * window,
                        sum == block_sum(m, x - radius, y - radius, window as int, oy + radius) + run_sum(
                            m,
                            x - radius,
                            y + oy,
                            ox + radius,
                        ),
                    decreases radius + 1 - ox,
                {
                    let sx = x as i32 + ox;
                    let sy = y as i32 + oy;
                    proof {
                        lemma_border_source_inside(m, sx as int, sy as int, BorderRule::Replicate);
                        crate::types::lemma_u8_interleaved_one_byte_per_channel(m.pixel_format);
                        lemma_run_sum_bound(m, x - radius, y + oy, ox + radius);
                    }
                    let value = border_sample(input, sx, sy, 0, &border).unwrap();
                    proof {
                        assert(x - radius + (ox + radius + 1) - 1 == sx);
                        assert(run_sum(m, x - radius, y + oy, ox + radius) <= 255 * (ox + radius));
                        assert(255 * (ox + radius) + 255 <= 255 * window);
                        assert(sum + value <= 255 * window * window);
                        assert(255 * window * window == window * window * 255) by (nonlinear_arith);
                    }
                    sum = sum + value as u32;
                    ox = ox + 1;
                }
                proof {
                    assert(y - radius + (oy + radius + 1) - 1 == y + oy);
                }
                oy = oy + 1;
            }
            proof {
                assert(window_sum(m, x as int, y as int, window as int) == block_sum(
                    m,
                    x - radius,
                    y - radius,
                    window as int,
                    window as int,
                ));
                assert(y * width + x + 1 <= width * height) by (nonlinear_arith)
                    requires
                        x < width,
                        y < height,
                ;
            }
            let ghost before = sums@;
            sums.push(sum);
            proof {
                assert forall|xx: int, yy: int| 0 <= xx < width && 0 <= yy < y implies #[trigger] sums@[yy * width + xx]
                    == window_sum(m, xx, yy, window as int) by {
                    lemma_row_major_before(width as int, xx, yy, y as int);
                    assert(sums@[yy * width + xx] == before[yy * width + xx]);
                }
            }
            x = x + 1;
        }
        proof {
            assert forall|xx: int, yy: int|
                0 <= xx < width && 0 <= yy < y + 1 implies #[trigger] sums@[yy * width + xx] == window_sum(
                m,
                xx,
                yy,
                window as int,
            ) by {
                if yy == y {
                    assert(sums@[y * width + xx] == window_sum(m, xx, y as int, window as int));
                }
            }
            assert((y + 1) * width == y * width + width) by (nonlinear_arith);
        }
        y = y + 1;
    }
    sums
}

} // verus!
