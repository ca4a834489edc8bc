//! Cropping, borders, normalization and the shared sampling helpers.

use vstd::prelude::*;
use vstd::arithmetic::div_mod::{lemma_fundamental_div_mod, lemma_fundamental_div_mod_converse};

use crate::buffer::{
    lemma_packed_index, lemma_packed_len, unsupported_format, ImageBuffer, ImageModel,
};
use crate::error::{PerceptionError, PerceptionResult};
use crate::image::grid::{grid, lemma_grid_index, lemma_grid_next, lemma_grid_sample};
use crate::text::roi_outside_text;
use crate::types::{PixelFormat, RegionOfInterest};

verus! {

/// Border behavior for scalar filters and padding.
#[derive(Clone, Debug, PartialEq, Eq)]
pub enum BorderMode {
    /// Constant component values, one for every image channel.
    Constant(Vec<u8>),
    /// Replicate nearest valid edge pixel.
    Replicate,
    /// Reflect coordinates around image edges without repeating endpoints.
    Reflect,
}

/// Mathematical model of a border rule.
pub enum BorderRule {
    /// Fill outside coordinates with these components, one per channel.
    Constant(Seq<u8>),
    /// Read the nearest edge pixel.
    Replicate,
    /// Read the mirrored pixel.
    Reflect,
}

impl BorderMode {
    /// The rule this border mode applies.
    pub open spec fn rule(&self) -> BorderRule {
        match self {
            BorderMode::Constant(values) => BorderRule::Constant(values@),
            BorderMode::Replicate => BorderRule::Replicate,
            BorderMode::Reflect => BorderRule::Reflect,
        }
    }
}

/// Mirror `index` into `[0, length)` without repeating the end points
/// (period `2 * length - 2`); lengths of at most one map everything to zero.
pub open spec fn reflect_index(index: int, length: int) -> int {
    if length <= 1 {
        0
    } else {
        let period = 2 * length - 2;
        let value = index % period;
        if value >= length {
            period - value
        } else {
            value
        }
    }
}

/// `value` limited to `[low, high]`.
pub open spec fn clamp_int(value: int, low: int, high: int) -> int {
    if value < low {
        low
    } else if value > high {
        high
    } else {
        value
    }
}

/// (`x`, `y`) lies inside the image.
pub open spec fn inside(m: ImageModel, x: int, y: int) -> bool {
    0 <= x < m.shape.width && 0 <= y < m.shape.height
}

/// The pixel a border rule reads for coordinate (`x`, `y`).
pub open spec fn border_source(m: ImageModel, x: int, y: int, border: BorderRule) -> (int, int) {
    if inside(m, x, y) {
        (x, y)
    } else {
        match border {
            BorderRule::Replicate => (
                clamp_int(x, 0, m.shape.width - 1),
                clamp_int(y, 0, m.shape.height - 1),
            ),
            BorderRule::Reflect => (
                reflect_index(x, m.shape.width as int),
                reflect_index(y, m.shape.height as int),
            ),
            BorderRule::Constant(_) => (x, y),
        }
    }
}

/// The component a border rule yields at (`x`, `y`, `channel`).
pub open spec fn border_pick(m: ImageModel, x: int, y: int, channel: int, border: BorderRule) -> u8 {
    match border {
        BorderRule::Constant(values) => if inside(m, x, y) {
            m.sample(x, y, channel)
        } else {
            values[channel]
        },
        _ => m.sample(border_source(m, x, y, border).0, border_source(m, x, y, border).1, channel),
    }
}

/// Reflection stays inside `[0, length)` and leaves in-range indices unchanged.
pub proof fn lemma_reflect_in_range(index: int, length: int)
    requires
        length >= 1,
    ensures
        0 <= reflect_index(index, length) < length,
        0 <= index < length ==> reflect_index(index, length) == index,
{
    if length > 1 {
        let period = 2 * length - 2;
        if 0 <= index < length {
            if index < period {
                lemma_fundamental_div_mod_converse(index, period, 0, index);
            } else {
                lemma_fundamental_div_mod_converse(index, period, 1, index - period);
            }
        }
    }
}

/// Border rules other than a constant always read a pixel inside the image.
pub proof fn lemma_border_source_inside(m: ImageModel, x: int, y: int, border: BorderRule)
    requires
        m.shape.width >= 1,
        m.shape.height >= 1,
        inside(m, x, y) || !(border is Constant),
    ensures
        inside(m, border_source(m, x, y, border).0, border_source(m, x, y, border).1),
{
    lemma_reflect_in_range(x, m.shape.width as int);
    lemma_reflect_in_range(y, m.shape.height as int);
}

/// Rejects every format but Gray8.
pub fn require_gray(input: &ImageBuffer, operation: &'static str) -> (result: PerceptionResult<()>)
    ensures
        input.model().pixel_format == PixelFormat::Gray8 ==> result is Ok,
        input.model().pixel_format != PixelFormat::Gray8 ==> (result matches Err(e)
            && unsupported_format(e, operation, input.model().pixel_format)),
{
    if input.pixel_format() != PixelFormat::Gray8 {
        return Err(
            PerceptionError::UnsupportedFormat {
                operation,
                format: input.pixel_format().to_text(),
            },
        );
    }
    Ok(())
}

/// Rejects every format that does not store one byte per interleaved channel.
pub fn require_u8(input: &ImageBuffer, operation: &'static str) -> (result: PerceptionResult<()>)
    ensures
        input.model().pixel_format.spec_is_u8_interleaved() ==> result is Ok,
        !input.model().pixel_format.spec_is_u8_interleaved() ==> (result matches Err(e)
            && unsupported_format(e, operation, input.model().pixel_format)),
{
    if !input.pixel_format().is_u8_interleaved() {
        return Err(
            PerceptionError::UnsupportedFormat {
                operation,
                format: input.pixel_format().to_text(),
            },
        );
    }
    Ok(())
}

/// Mirrors an index into `[0, length)` without repeating endpoints.
pub fn reflect(index: i32, length: i32) -> (reflected: i32)
    requires
        length < 0x4000_0000,
    ensures
        reflected == reflect_index(index as int, length as int),
{
    if length <= 1 {
        return 0;
    }
    let period: i64 = 2 * (length as i64) - 2;
    let wide = index as i64;
    let value: i64 = if wide >= 0 {
        wide % period
    } else {
        let shifted: i64 = -wide - 1;
        let rest: i64 = shifted % period;
        proof {
            let q = shifted as int / period as int;
            vstd::arithmetic::div_mod::lemma_fundamental_div_mod(shifted as int, period as int);
            vstd::arithmetic::div_mod::lemma_mod_pos_bound(shifted as int, period as int);
            assert(wide == (-q - 1) * period + (period - 1 - rest)) by (nonlinear_arith)
                requires
                    shifted == period * q + rest,
                    shifted == -wide - 1,
            ;
            lemma_fundamental_div_mod_converse(
                wide as int,
                period as int,
                -q - 1,
                period - 1 - rest,
            );
        }
        period - 1 - rest
    };
    if value >= length as i64 {
        (period - value) as i32
    } else {
        value as i32
    }
}

/// Copies only logical image rows, excluding any per-row stride padding.
pub fn packed_u8(input: &ImageBuffer) -> (result: PerceptionResult<Vec<u8>>)
    requires
        input.wf(),
    ensures
        input.model().shape.width * input.model().channels() > usize::MAX
            || input.model().shape.width * input.model().channels() * input.model().shape.height
            > usize::MAX ==> result == Err::<Vec<u8>, PerceptionError>(PerceptionError::Overflow),
        input.model().shape.width * input.model().channels() <= usize::MAX
            && input.model().shape.width * input.model().channels() * input.model().shape.height
            <= usize::MAX ==> (result matches Ok(bytes) && bytes@ == input.model().packed()),
{
    let channels = input.pixel_format().channel_count().unwrap();
    let row_length = match (input.width() as usize).checked_mul(channels) {
        Some(length) => length,
        None => {
            return Err(PerceptionError::Overflow);
        },
    };
    let capacity = match row_length.checked_mul(input.height() as usize) {
        Some(capacity) => capacity,
        None => {
            return Err(PerceptionError::Overflow);
        },
    };
    let view = input.view();
    let mut output: Vec<u8> = Vec::with_capacity(capacity);
    let ghost m = input.model();
    proof {
        lemma_packed_len(m);
    }
    let mut y: u32 = 0;
    while y < input.height()
        invariant
            m == input.model(),
            m == view.model(),
            m.wf(),
            y <= m.shape.height,
            output@.len() == y * m.row_len(),
            forall|i: int| 0 <= i < output@.len() ==> output@[i] == m.packed()[i],
        decreases m.shape.height - y,
    {
        let row = view.row(y).unwrap();
        let ghost before = output@;
        output.extend_from_slice(row);
        proof {
            crate::buffer::lemma_row_in_footprint(m, y as int);
            assert forall|i: int| 0 <= i < output@.len() implies output@[i] == m.packed()[i] by {
                if i >= before.len() {
                    let k = i - before.len();
                    lemma_packed_index(m, y as int, k);
                    assert(i == y * m.row_len() + k);
                }
            }
            assert(output@.len() == (y + 1) * m.row_len()) by (nonlinear_arith)
                requires
                    output@.len() == y * m.row_len() + m.row_len(),
            ;
        }
        y = y + 1;
    }
    proof {
        assert(output@ =~= m.packed());
    }
    Ok(output)
}

/// Samples a component, resolving coordinates outside the image with `border`.
pub fn border_sample(input: &ImageBuffer, x: i32, y: i32, channel: usize, border: &BorderMode) -> (result:
    PerceptionResult<u8>)
    requires
        input.wf(),
        input.model().shape.width <= i32::MAX,
        input.model().shape.height <= i32::MAX,
        *border is Replicate ==> !input.model().is_empty(),
        *border is Reflect ==> input.model().shape.width < 0x4000_0000 && input.model().shape.height
            < 0x4000_0000,
    ensures
        inside(input.model(), x as int, y as int) || !(*border is Constant) ==> ({
            let (sx, sy) = border_source(input.model(), x as int, y as int, border.rule());
            &&& input.model().addresses(sx, sy, channel as int) ==> result == Ok::<
                u8,
                PerceptionError,
            >(input.model().sample(sx, sy, channel as int))
            &&& !input.model().addresses(sx, sy, channel as int) ==> (result matches Err(e)
                && input.model().lookup_error(sx as u32, sy as u32, channel, e))
        }),
        !inside(input.model(), x as int, y as int) && *border is Constant ==> ({
            let values = border->Constant_0;
            &&& channel < values@.len() ==> result == Ok::<u8, PerceptionError>(values@[channel as int])
            &&& channel >= values@.len() ==> result == Err::<u8, PerceptionError>(
                PerceptionError::InvalidBuffer {
                    expected: match input.model().pixel_format.spec_channel_count() {
                        Some(count) => count,
                        None => 0,
                    },
                    actual: values@.len() as usize,
                },
            )
        }),
        result matches Ok(value) ==> value == border_pick(input.model(), x as int, y as int, channel as int, border.rule()),
{
    let width = input.width() as i32;
    let height = input.height() as i32;
    if x >= 0 && y >= 0 && x < width && y < height {
        return input.get_u8(x as u32, y as u32, channel);
    }
    match border {
        BorderMode::Constant(values) => {
            if channel < values.len() {
                Ok(values[channel])
            } else {
                Err(
                    PerceptionError::InvalidBuffer {
                        expected: match input.pixel_format().channel_count() {
                            Some(count) => count,
                            None => 0,
                        },
                        actual: values.len(),
                    },
                )
            }
        },
        BorderMode::Replicate => {
            proof {
                lemma_border_source_inside(input.model(), x as int, y as int, border.rule());
            }
            let sx = if x < 0 {
                0
            } else if x > width - 1 {
                width - 1
            } else {
                x
            };
            let sy = if y < 0 {
                0
            } else if y > height - 1 {
                height - 1
            } else {
                y
            };
            input.get_u8(sx as u32, sy as u32, channel)
        },
        BorderMode::Reflect => {
            proof {
                if !input.model().is_empty() {
                    lemma_border_source_inside(input.model(), x as int, y as int, border.rule());
                }
            }
            let sx = reflect(x, width);
            let sy = reflect(y, height);
            input.get_u8(sx as u32, sy as u32, channel)
        },
    }
}

/// Copies a checked region of interest into a packed owned image.
pub fn crop(input: &ImageBuffer, roi: RegionOfInterest) -> (result: PerceptionResult<ImageBuffer>)
    requires
        input.wf(),
    ensures
        !RegionOfInterest::fits(input.model().shape, roi.x, roi.y, roi.width, roi.height) ==> (result matches Err(
            PerceptionError::OutOfBounds { reason },
        ) && reason@ == roi_outside_text(
            roi.x,
            roi.y,
            roi.width,
            roi.height,
            input.model().shape.width,
            input.model().shape.height,
        )),
        RegionOfInterest::fits(input.model().shape, roi.x, roi.y, roi.width, roi.height) ==> (result matches Ok(
            cropped,
        ) && cropped.wf() && cropped.model() == input.model().region(roi).packed_copy()),
{
    input.roi(roi)?.to_owned()
}

/// Validates an x/y/width/height region, then crops it.
pub fn crop_xywh(input: &ImageBuffer, x: u32, y: u32, width: u32, height: u32) -> (result:
    PerceptionResult<ImageBuffer>)
    requires
        input.wf(),
    ensures
        !RegionOfInterest::fits(input.model().shape, x, y, width, height) ==> (result matches Err(
            PerceptionError::OutOfBounds { reason },
        ) && reason@ == roi_outside_text(
            x,
            y,
            width,
            height,
            input.model().shape.width,
            input.model().shape.height,
        )),
        RegionOfInterest::fits(input.model().shape, x, y, width, height) ==> (result matches Ok(
            cropped,
        ) && cropped.wf() && cropped.model() == input.model().region(
            RegionOfInterest { x, y, width, height },
        ).packed_copy()),
{
    crop(input, RegionOfInterest::within(input.shape(), x, y, width, height)?)
}

/// Cropping copies exactly the region: component (`x`, `y`, `c`) of the crop is the
/// input's component at (`roi.x + x`, `roi.y + y`, `c`).
pub proof fn lemma_crop_copies_region(m: ImageModel, roi: RegionOfInterest, x: int, y: int, channel: int)
    requires
        m.wf(),
        RegionOfInterest::fits(m.shape, roi.x, roi.y, roi.width, roi.height),
        0 <= x < roi.width,
        0 <= y < roi.height,
        0 <= channel < m.bpp(),
    ensures
        m.region(roi).packed_copy().sample(x, y, channel) == m.sample(roi.x + x, roi.y + y, channel),
{
    crate::buffer::lemma_region_packed_sample(m, roi, x, y, channel);
}

/// Component (`x`, `y`, `c`) of `m` padded by `left` and `top`: the border rule applied
/// at (`x - left`, `y - top`).
pub open spec fn pad_pick(m: ImageModel, left: u32, top: u32, border: BorderRule) -> spec_fn(int, int, int) -> u8 {
    |x: int, y: int, c: int| border_pick(m, x - left, y - top, c, border)
}

/// The model of `m` padded on all sides with `border`.
pub open spec fn padded(m: ImageModel, left: u32, top: u32, right: u32, bottom: u32, border: BorderRule) -> ImageModel {
    let width = (m.shape.width + left + right) as u32;
    let height = (m.shape.height + top + bottom) as u32;
    crate::buffer::packed_model(
        width,
        height,
        m.pixel_format,
        grid(width as nat, height as nat, m.channels(), pad_pick(m, left, top, border)),
    )
}

/// Padding leaves an image with no pixels.
pub open spec fn padded_empty(m: ImageModel, left: u32, top: u32, right: u32, bottom: u32) -> bool {
    m.shape.width + left + right == 0 || m.shape.height + top + bottom == 0
}

/// The error reported for a padded size with no pixels.
pub open spec fn padded_error(m: ImageModel, left: u32, top: u32, right: u32, bottom: u32) -> PerceptionError {
    PerceptionError::InvalidDimensions {
        width: (m.shape.width + left + right) as u32,
        height: (m.shape.height + top + bottom) as u32,
    }
}

/// Pads all sides with the selected border behavior.
pub fn pad(input: &ImageBuffer, left: u32, top: u32, right: u32, bottom: u32, border: BorderMode) -> (result:
    PerceptionResult<ImageBuffer>)
    requires
        input.wf(),
        input.model().shape.width + left + right <= u32::MAX ==> input.model().shape.width + left + right
            <= i32::MAX,
        input.model().shape.height + top + bottom <= u32::MAX ==> input.model().shape.height + top
            + bottom <= i32::MAX,
        input.model().shape.width + left + right <= u32::MAX && input.model().shape.height + top
            + bottom <= u32::MAX ==> (input.model().shape.width + left + right) * (
        input.model().shape.height + top + bottom) * input.model().channels() <= usize::MAX,
        border is Reflect ==> input.model().shape.width < 0x4000_0000 && input.model().shape.height
            < 0x4000_0000,
        border is Replicate && input.model().pixel_format.spec_is_u8_interleaved()
            && input.model().shape.width + left + right <= u32::MAX && input.model().shape.height + top
            + bottom <= u32::MAX && input.model().shape.width + left + right > 0
            && input.model().shape.height + top + bottom > 0 ==> !input.model().is_empty(),
    ensures
        !input.model().pixel_format.spec_is_u8_interleaved() ==> (result matches Err(e)
            && unsupported_format(e, "pad", input.model().pixel_format)),
        input.model().pixel_format.spec_is_u8_interleaved() ==> {
            let m = input.model();
            let too_wide = m.shape.width + left + right > u32::MAX;
            let too_tall = m.shape.height + top + bottom > u32::MAX;
            let bad_constant = border is Constant && border->Constant_0@.len() != m.channels();
            &&& too_wide || too_tall ==> result == Err::<ImageBuffer, PerceptionError>(
                PerceptionError::Overflow,
            )
            &&& !too_wide && !too_tall && bad_constant ==> result == Err::<
                ImageBuffer,
                PerceptionError,
            >(
                PerceptionError::InvalidBuffer {
                    expected: m.channels() as usize,
                    actual: border->Constant_0@.len() as usize,
                },
            )
            &&& !too_wide && !too_tall && !bad_constant && padded_empty(m, left, top, right, bottom)
                ==> result == Err::<ImageBuffer, PerceptionError>(
                padded_error(m, left, top, right, bottom),
            )
            &&& !too_wide && !too_tall && !bad_constant && !padded_empty(m, left, top, right, bottom)
                && m.is_empty() && border is Reflect ==> (result matches Err(e) && m.lookup_error(
                reflect_index(-(left as int), m.shape.width as int) as u32,
                reflect_index(-(top as int), m.shape.height as int) as u32,
                0,
                e,
            ))
            &&& !too_wide && !too_tall && !bad_constant && !padded_empty(m, left, top, right, bottom)
                && !(m.is_empty() && border is Reflect) ==> (result matches Ok(padded_image)
                && padded_image.wf() && padded_image.model() == padded(
                m,
                left,
                top,
                right,
                bottom,
                border.rule(),
            ))
        },
{
    require_u8(input, "pad")?;
    let ghost m = input.model();
    proof {
        crate::types::lemma_u8_interleaved_one_byte_per_channel(m.pixel_format);
    }
    let width = match input.width().checked_add(left) {
        Some(partial) => match partial.checked_add(right) {
            Some(total) => total,
            None => {
                return Err(PerceptionError::Overflow);
            },
        },
        None => {
            return Err(PerceptionError::Overflow);
        },
    };
    let height = match input.height().checked_add(top) {
        Some(partial) => match partial.checked_add(bottom) {
            Some(total) => total,
            None => {
                return Err(PerceptionError::Overflow);
            },
        },
        None => {
            return Err(PerceptionError::Overflow);
        },
    };
    let channels = input.pixel_format().channel_count().unwrap();
    if let BorderMode::Constant(values) = &border {
        if values.len() != channels {
            return Err(PerceptionError::InvalidBuffer { expected: channels, actual: values.len() });
        }
    }
    let ghost f = pad_pick(m, left, top, border.rule());
    proof {
        assert(width * height <= width * height * channels) by (nonlinear_arith)
            requires
                channels >= 1,
        ;
        assert((0 * width + 0) * channels == 0) by (nonlinear_arith);
    }
    let mut data: Vec<u8> = Vec::with_capacity(width as usize * height as usize * channels);
    let mut y: u32 = 0;
    while y < height
        invariant
            m == input.model(),
            input.wf(),
            m.pixel_format.spec_is_u8_interleaved(),
            channels == m.channels(),
            1 <= channels <= 4,
            width == m.shape.width + left + right,
            height == m.shape.height + top + bottom,
            width <= i32::MAX,
            height <= i32::MAX,
            border is Reflect ==> m.shape.width < 0x4000_0000 && m.shape.height < 0x4000_0000,
            border is Replicate && width > 0 && height > 0 ==> !m.is_empty(),
            m.is_empty() && border is Reflect && width > 0 ==> y == 0,
            border is Constant ==> border->Constant_0@.len() == channels,
            f == pad_pick(m, left, top, border.rule()),
            y <= height,
            data@.len() == (y * width + 0) * channels,
            forall|i: int| 0 <= i < data@.len() ==> data@[i] == grid(width as nat, height as nat, channels as nat, f)[i],
        decreases height - y,
    {
        let mut x: u32 = 0;
        while x < width
            invariant
                m == input.model(),
                input.wf(),
                m.pixel_format.spec_is_u8_interleaved(),
                channels == m.channels(),
                1 <= channels <= 4,
                width == m.shape.width + left + right,
                height == m.shape.height + top + bottom,
                width <= i32::MAX,
                height <= i32::MAX,
                border is Reflect ==> m.shape.width < 0x4000_0000 && m.shape.height < 0x4000_0000,
                border is Replicate && width > 0 && height > 0 ==> !m.is_empty(),
                m.is_empty() && border is Reflect && width > 0 ==> x == 0 && y == 0,
                border is Constant ==> border->Constant_0@.len() == channels,
                f == pad_pick(m, left, top, border.rule()),
                y < height,
                x <= width,
                data@.len() == (y * width + x) * channels,
                forall|i: int| 0 <= i < data@.len() ==> data@[i] == grid(width as nat, height as nat, channels as nat, f)[i],
            decreases width - x,
        {
            let source_x = x as i32 - left as i32;
            let source_y = y as i32 - top as i32;
            let mut channel: usize = 0;
            while channel < channels
                invariant
                    m == input.model(),
                    input.wf(),
                    m.pixel_format.spec_is_u8_interleaved(),
                    channels == m.channels(),
                    1 <= channels <= 4,
                    width == m.shape.width + left + right,
                    height == m.shape.height + top + bottom,
                    width <= i32::MAX,
                    height <= i32::MAX,
                    border is Reflect ==> m.shape.width < 0x4000_0000 && m.shape.height < 0x4000_0000,
                    border is Replicate && width > 0 && height > 0 ==> !m.is_empty(),
                    m.is_empty() && border is Reflect ==> x == 0 && y == 0 && channel == 0,
                    border is Constant ==> border->Constant_0@.len() == channels,
                    f == pad_pick(m, left, top, border.rule()),
                    y < height,
                    x < width,
                    source_x == x - left,
                    source_y == y - top,
                    channel <= channels,
                    data@.len() == (y * width + x) * channels + channel,
                    forall|i: int| 0 <= i < data@.len() ==> data@[i] == grid(width as nat, height as nat, channels as nat, f)[i],
                decreases channels - channel,
            {
                proof {
                    if !m.is_empty() && (inside(m, source_x as int, source_y as int) || !(border is Constant)) {
                        lemma_border_source_inside(m, source_x as int, source_y as int, border.rule());
                    }
                }
                let value = match border_sample(input, source_x, source_y, channel, &border) {
                    Ok(value) => value,
                    Err(error) => {
                        proof {
                            assert(m.is_empty() && border is Reflect);
                        }
                        return Err(error);
                    },
                };
                proof {
                    lemma_grid_index(width as nat, height as nat, channels as nat, x as int, y as int, channel as int);
                    lemma_grid_next(width as nat, channels as nat, x as int, y as int, channel as int);
                }
                data.push(value);
                channel = channel + 1;
            }
            proof {
                lemma_grid_next(width as nat, channels as nat, x as int, y as int, channel as int);
            }
            x = x + 1;
        }
        proof {
            lemma_grid_next(width as nat, channels as nat, x as int, y as int, 0);
        }
        y = y + 1;
    }
    proof {
        assert(data@.len() == width * height * channels) by (nonlinear_arith)
            requires
                data@.len() == (height * width + 0) * channels,
        ;
        assert(data@ =~= grid(width as nat, height as nat, channels as nat, f));
        assert(width * channels * height == width * height * channels) by (nonlinear_arith);
        if height >= 1 {
            assert(width * channels <= width * channels * height) by (nonlinear_arith)
                requires
                    height >= 1,
                    width * channels >= 0,
            ;
        }
    }
    ImageBuffer::new(width, height, input.pixel_format(), data)
}

/// Padding keeps the original image: component (`x`, `y`, `c`) of the input reappears at
/// (`x + left`, `y + top`, `c`) of the padded image, whatever the border rule.
pub proof fn lemma_pad_keeps_interior(
    m: ImageModel,
    left: u32,
    top: u32,
    right: u32,
    bottom: u32,
    border: BorderRule,
    x: int,
    y: int,
    channel: int,
)
    requires
        m.wf(),
        m.pixel_format.spec_is_u8_interleaved(),
        m.shape.width + left + right <= u32::MAX,
        m.shape.height + top + bottom <= u32::MAX,
        0 <= x < m.shape.width,
        0 <= y < m.shape.height,
        0 <= channel < m.channels(),
    ensures
        padded(m, left, top, right, bottom, border).sample(x + left, y + top, channel) == m.sample(
            x,
            y,
            channel,
        ),
{
    crate::types::lemma_u8_interleaved_one_byte_per_channel(m.pixel_format);
    let p = padded(m, left, top, right, bottom, border);
    lemma_grid_sample(p, pad_pick(m, left, top, border), x + left, y + top, channel);
}

/// Cropping a padded image at the padding offset, to the input's size, undoes the padding:
/// the crop is the input stored tightly packed, whatever the border rule.
pub proof fn lemma_crop_undoes_pad(m: ImageModel, left: u32, top: u32, right: u32, bottom: u32, border: BorderRule)
    requires
        m.wf(),
        !m.is_empty(),
        m.pixel_format.spec_is_u8_interleaved(),
        m.shape.width + left + right <= u32::MAX,
        m.shape.height + top + bottom <= u32::MAX,
        (m.shape.width + left + right) * (m.shape.height + top + bottom) * m.channels() <= usize::MAX,
    ensures
        padded(m, left, top, right, bottom, border).region(
            RegionOfInterest { x: left, y: top, width: m.shape.width, height: m.shape.height },
        ).packed_copy() == m.packed_copy(),
{
    crate::types::lemma_u8_interleaved_one_byte_per_channel(m.pixel_format);
    let p = padded(m, left, top, right, bottom, border);
    let roi = RegionOfInterest { x: left, y: top, width: m.shape.width, height: m.shape.height };
    let a = p.region(roi).packed_copy();
    let b = m.packed_copy();
    let w = m.shape.width as int;
    let h = m.shape.height as int;
    let big_w = (m.shape.width + left + right) as int;
    let big_h = (m.shape.height + top + bottom) as int;
    let c = m.channels() as int;
    let rl = m.row_len() as int;
    assert(p.bpp() == c);
    assert(rl == w * c);
    assert(p.stride == big_w * c);
    assert(p.data.len() == big_w * big_h * c);
    assert(p.wf()) by {
        assert((big_h - 1) * (big_w * c) + big_w * c == big_w * big_h * c) by (nonlinear_arith);
        assert(big_w * c >= 0) by (nonlinear_arith)
            requires
                big_w >= 0,
                c >= 0,
        ;
    }
    assert(a.row_len() == rl);
    assert(a.data.len() == h * rl);
    assert(b.data.len() == h * rl);
    assert forall|i: int| 0 <= i < h * rl implies a.data[i] == b.data[i] by {
        let y = i / rl;
        let k = i % rl;
        let x = k / c;
        let ch = k % c;
        assert(rl > 0) by (nonlinear_arith)
            requires
                0 <= i < h * rl,
                h >= 0,
        ;
        assert(c > 0) by (nonlinear_arith)
            requires
                rl == w * c,
                rl > 0,
                w >= 0,
        ;
        lemma_fundamental_div_mod(i, rl);
        lemma_fundamental_div_mod(k, c);
        assert(0 <= y < h) by (nonlinear_arith)
            requires
                0 <= i < h * rl,
                rl > 0,
                i == rl * y + k,
                0 <= k < rl,
        ;
        assert(0 <= x < w) by (nonlinear_arith)
            requires
                0 <= k < rl,
                rl == w * c,
                c > 0,
                k == c * x + ch,
                0 <= ch < c,
        ;
        assert(i == y * rl + (x * c + ch)) by (nonlinear_arith)
            requires
                i == rl * y + k,
                k == c * x + ch,
        ;
        assert(x * c + ch == k) by (nonlinear_arith)
            requires
                k == c * x + ch,
        ;
        crate::buffer::lemma_region_packed_sample(p, roi, x, y, ch);
        lemma_pad_keeps_interior(m, left, top, right, bottom, border, x, y, ch);
        lemma_packed_index(m, y, x * c + ch);
        assert(a.offset(x, y, ch) == i);
        assert(m.offset(x, y, ch) == y * m.stride + (x * c + ch));
    }
    assert(a.data =~= b.data);
}

/// Constant-value padding; the supplied value is repeated in every channel.
pub fn pad_constant(input: &ImageBuffer, left: u32, top: u32, right: u32, bottom: u32, value: u8) -> (result:
    PerceptionResult<ImageBuffer>)
    requires
        input.wf(),
        input.model().shape.width + left + right <= u32::MAX ==> input.model().shape.width + left + right
            <= i32::MAX,
        input.model().shape.height + top + bottom <= u32::MAX ==> input.model().shape.height + top
            + bottom <= i32::MAX,
        input.model().shape.width + left + right <= u32::MAX && input.model().shape.height + top
            + bottom <= u32::MAX ==> (input.model().shape.width + left + right) * (
        input.model().shape.height + top + bottom) * input.model().channels() <= usize::MAX,
    ensures
        !input.model().pixel_format.spec_is_u8_interleaved() ==> (result matches Err(e)
            && unsupported_format(e, "pad", input.model().pixel_format)),
        input.model().pixel_format.spec_is_u8_interleaved() ==> {
            let m = input.model();
            let too_wide = m.shape.width + left + right > u32::MAX;
            let too_tall = m.shape.height + top + bottom > u32::MAX;
            &&& too_wide || too_tall ==> result == Err::<ImageBuffer, PerceptionError>(
                PerceptionError::Overflow,
            )
            &&& !too_wide && !too_tall && padded_empty(m, left, top, right, bottom) ==> result == Err::<
                ImageBuffer,
                PerceptionError,
            >(padded_error(m, left, top, right, bottom))
            &&& !too_wide && !too_tall && !padded_empty(m, left, top, right, bottom) ==> (result matches Ok(
                padded_image,
            ) && padded_image.wf() && padded_image.model() == padded(
                m,
                left,
                top,
                right,
                bottom,
                BorderRule::Constant(Seq::new(m.channels(), |i: int| value)),
            ))
        },
{
    let channels = match input.pixel_format().channel_count() {
        Some(count) => count,
        None => {
            return Err(
                PerceptionError::UnsupportedFormat {
                    operation: "pad_constant",
                    format: input.pixel_format().to_text(),
                },
            );
        },
    };
    let values = vec![value; channels];
    proof {
        assert(values@ =~= Seq::new(channels as nat, |i: int| value));
    }
    pad(input, left, top, right, bottom, BorderMode::Constant(values))
}

/// Smallest of the first `n` samples (255 when there are none).
pub open spec fn prefix_min(samples: Seq<u8>, n: int) -> u8
    decreases n,
{
    if n <= 0 {
        255
    } else {
        let rest = prefix_min(samples, n - 1);
        if samples[n - 1] < rest {
            samples[n - 1]
        } else {
            rest
        }
    }
}

/// Largest of the first `n` samples (0 when there are none).
pub open spec fn prefix_max(samples: Seq<u8>, n: int) -> u8
    decreases n,
{
    if n <= 0 {
        0
    } else {
        let rest = prefix_max(samples, n - 1);
        if samples[n - 1] > rest {
            samples[n - 1]
        } else {
            rest
        }
    }
}

/// The prefix minimum and maximum bound every sample of the prefix and are attained in it.
pub proof fn lemma_prefix_extrema(samples: Seq<u8>, n: int)
    requires
        1 <= n <= samples.len(),
    ensures
        forall|i: int| 0 <= i < n ==> prefix_min(samples, n) <= #[trigger] samples[i] <= prefix_max(samples, n),
        exists|i: int| 0 <= i < n && samples[i] == prefix_min(samples, n),
        exists|i: int| 0 <= i < n && samples[i] == prefix_max(samples, n),
    decreases n,
{
    if n > 1 {
        lemma_prefix_extrema(samples, n - 1);
        let a = choose|i: int| 0 <= i < n - 1 && samples[i] == prefix_min(samples, n - 1);
        let b = choose|i: int| 0 <= i < n - 1 && samples[i] == prefix_max(samples, n - 1);
        if samples[n - 1] < prefix_min(samples, n - 1) {
            assert(samples[n - 1] == prefix_min(samples, n));
        } else {
            assert(samples[a] == prefix_min(samples, n));
        }
        if samples[n - 1] > prefix_max(samples, n - 1) {
            assert(samples[n - 1] == prefix_max(samples, n));
        } else {
            assert(samples[b] == prefix_max(samples, n));
        }
    } else {
        reveal_with_fuel(prefix_min, 2);
        reveal_with_fuel(prefix_max, 2);
        assert(samples[0] == prefix_min(samples, 1));
        assert(samples[0] == prefix_max(samples, 1));
    }
}

/// Linear stretch of `value` from `[low, high]` onto `[0, 255]`, rounding down.
pub open spec fn stretch_sample(value: u8, low: u8, high: u8) -> u8 {
    (((value - low) * 255) / ((high - low) as int)) as u8
}

/// Each sample stretched from the sample range onto the full eight-bit range.
pub open spec fn stretched(samples: Seq<u8>) -> Seq<u8> {
    let low = prefix_min(samples, samples.len() as int);
    let high = prefix_max(samples, samples.len() as int);
    samples.map_values(|value: u8| stretch_sample(value, low, high))
}

/// Min/max normalizes Gray8 values into the full eight-bit range.
pub fn min_max_normalize_gray(input: &ImageBuffer) -> (result: PerceptionResult<ImageBuffer>)
    requires
        input.wf(),
    ensures
        input.model().pixel_format != PixelFormat::Gray8 ==> (result matches Err(e) && unsupported_format(
            e,
            "min_max_normalize_gray",
            input.model().pixel_format,
        )),
        input.model().pixel_format == PixelFormat::Gray8 ==> {
            let m = input.model();
            let samples = m.packed();
            let low = prefix_min(samples, samples.len() as int);
            let high = prefix_max(samples, samples.len() as int);
            &&& m.is_empty() ==> result == Err::<ImageBuffer, PerceptionError>(
                PerceptionError::InvalidBuffer { expected: 1, actual: 0 },
            )
            &&& !m.is_empty() && low == high ==> (result matches Ok(output) && output.wf() && output.model()
                == m.packed_copy())
            &&& !m.is_empty() && low != high ==> (result matches Ok(output) && output.wf() && output.model()
                == crate::buffer::packed_model(
                m.shape.width,
                m.shape.height,
                PixelFormat::Gray8,
                stretched(samples),
            ))
        },
{
    require_gray(input, "min_max_normalize_gray")?;
    let ghost m = input.model();
    proof {
        lemma_gray_packed_fits(m);
    }
    let packed = packed_u8(input)?;
    let count = packed.len();
    if count == 0 {
        return Err(PerceptionError::InvalidBuffer { expected: 1, actual: 0 });
    }
    let mut low: u8 = 255;
    let mut high: u8 = 0;
    let mut i: usize = 0;
    while i < count
        invariant
            count == packed@.len(),
            i <= count,
            low == prefix_min(packed@, i as int),
            high == prefix_max(packed@, i as int),
        decreases count - i,
    {
        if packed[i] < low {
            low = packed[i];
        }
        if packed[i] > high {
            high = packed[i];
        }
        i = i + 1;
    }
    if low == high {
        return input.view().to_owned();
    }
    proof {
        lemma_prefix_extrema(packed@, count as int);
    }
    let mut output: Vec<u8> = Vec::with_capacity(count);
    let mut j: usize = 0;
    while j < count
        invariant
            count == packed@.len(),
            1 <= count,
            j <= count,
            low == prefix_min(packed@, count as int),
            high == prefix_max(packed@, count as int),
            low < high,
            forall|k: int| 0 <= k < count ==> low <= #[trigger] packed@[k] <= high,
            output@.len() == j,
            forall|k: int| 0 <= k < j ==> output@[k] == stretch_sample(packed@[k], low, high),
        decreases count - j,
    {
        let value = packed[j];
        let scaled = ((value - low) as u16 * 255) / ((high - low) as u16);
        proof {
            assert((value - low) * 255 <= (high - low) * 255) by (nonlinear_arith)
                requires
                    value - low <= high - low,
            ;
            vstd::arithmetic::div_mod::lemma_div_is_ordered(
                (value - low) * 255,
                (high - low) * 255,
                (high - low) as int,
            );
            vstd::arithmetic::div_mod::lemma_div_multiples_vanish(255, (high - low) as int);
            assert(((high - low) as int) * 255 == 255 * ((high - low) as int));
        }
        output.push(scaled as u8);
        j = j + 1;
    }
    proof {
        assert(output@ =~= stretched(packed@));
    }
    ImageBuffer::new(input.width(), input.height(), PixelFormat::Gray8, output)
}

/// Compatibility alias for min/max normalization.
pub fn normalize_gray(input: &ImageBuffer) -> (result: PerceptionResult<ImageBuffer>)
    requires
        input.wf(),
    ensures
        input.model().pixel_format != PixelFormat::Gray8 ==> (result matches Err(e) && unsupported_format(
            e,
            "min_max_normalize_gray",
            input.model().pixel_format,
        )),
        input.model().pixel_format == PixelFormat::Gray8 ==> {
            let m = input.model();
            let samples = m.packed();
            let low = prefix_min(samples, samples.len() as int);
            let high = prefix_max(samples, samples.len() as int);
            &&& m.is_empty() ==> result == Err::<ImageBuffer, PerceptionError>(
                PerceptionError::InvalidBuffer { expected: 1, actual: 0 },
            )
            &&& !m.is_empty() && low == high ==> (result matches Ok(output) && output.wf() && output.model()
                == m.packed_copy())
            &&& !m.is_empty() && low != high ==> (result matches Ok(output) && output.wf() && output.model()
                == crate::buffer::packed_model(
                m.shape.width,
                m.shape.height,
                PixelFormat::Gray8,
                stretched(samples),
            ))
        },
{
    min_max_normalize_gray(input)
}

/// Stretching a non-constant image reaches both ends of the eight-bit range: some
/// sample becomes 0 and some sample becomes 255.
pub proof fn lemma_stretch_spans_full_range(samples: Seq<u8>)
    requires
        samples.len() >= 1,
        prefix_min(samples, samples.len() as int) < prefix_max(samples, samples.len() as int),
    ensures
        exists|i: int| 0 <= i < samples.len() && stretched(samples)[i] == 0,
        exists|i: int| 0 <= i < samples.len() && stretched(samples)[i] == 255,
{
    let n = samples.len() as int;
    lemma_prefix_extrema(samples, n);
    let low = prefix_min(samples, n);
    let high = prefix_max(samples, n);
    let a = choose|i: int| 0 <= i < n && samples[i] == low;
    let b = choose|i: int| 0 <= i < n && samples[i] == high;
    assert(stretched(samples)[a] == 0);
    vstd::arithmetic::div_mod::lemma_div_multiples_vanish(255, (high - low) as int);
    assert(((high - low) as int) * 255 == 255 * ((high - low) as int));
    assert(stretched(samples)[b] == 255);
}

/// `value` limited to `[minimum, maximum]`.
pub open spec fn clamp_sample(value: u8, minimum: u8, maximum: u8) -> u8 {
    if value < minimum {
        minimum
    } else if value > maximum {
        maximum
    } else {
        value
    }
}

/// Clamps Gray8 values into an inclusive range.
pub fn clamp_gray(input: &ImageBuffer, minimum: u8, maximum: u8) -> (result: PerceptionResult<ImageBuffer>)
    requires
        input.wf(),
    ensures
        input.model().pixel_format != PixelFormat::Gray8 ==> (result matches Err(e) && unsupported_format(
            e,
            "clamp_gray",
            input.model().pixel_format,
        )),
        input.model().pixel_format == PixelFormat::Gray8 && minimum > maximum ==> (result matches Err(
            PerceptionError::NumericFailure { reason },
        ) && reason@ == "clamp minimum exceeds maximum"@),
        input.model().pixel_format == PixelFormat::Gray8 && minimum <= maximum && input.model().is_empty()
            ==> result == Err::<ImageBuffer, PerceptionError>(input.model().empty_error()),
        input.model().pixel_format == PixelFormat::Gray8 && minimum <= maximum && !input.model().is_empty()
            ==> (result matches Ok(output) && output.wf() && output.model() == crate::buffer::packed_model(
            input.model().shape.width,
            input.model().shape.height,
            PixelFormat::Gray8,
            input.model().packed().map_values(|value: u8| clamp_sample(value, minimum, maximum)),
        )),
{
    require_gray(input, "clamp_gray")?;
    if minimum > maximum {
        return Err(
            PerceptionError::NumericFailure {
                reason: String::from_str("clamp minimum exceeds maximum"),
            },
        );
    }
    proof {
        lemma_gray_packed_fits(input.model());
    }
    let packed = packed_u8(input)?;
    let count = packed.len();
    let mut output: Vec<u8> = Vec::with_capacity(count);
    let mut j: usize = 0;
    while j < count
        invariant
            count == packed@.len(),
            j <= count,
            output@.len() == j,
            forall|k: int| 0 <= k < j ==> output@[k] == clamp_sample(packed@[k], minimum, maximum),
        decreases count - j,
    {
        let value = packed[j];
        let clamped = if value < minimum {
            minimum
        } else if value > maximum {
            maximum
        } else {
            value
        };
        output.push(clamped);
        j = j + 1;
    }
    proof {
        assert(output@ =~= packed@.map_values(|value: u8| clamp_sample(value, minimum, maximum)));
    }
    ImageBuffer::new(input.width(), input.height(), PixelFormat::Gray8, output)
}

/// Clamping lands inside the range, and clamping again changes nothing.
pub proof fn lemma_clamp_idempotent(value: u8, minimum: u8, maximum: u8)
    requires
        minimum <= maximum,
    ensures
        minimum <= clamp_sample(value, minimum, maximum) <= maximum,
        clamp_sample(clamp_sample(value, minimum, maximum), minimum, maximum) == clamp_sample(
            value,
            minimum,
            maximum,
        ),
{
}

/// The packed samples of a Gray8 image fit in memory, and a packed copy is a valid buffer.
pub proof fn lemma_gray_packed_fits(m: ImageModel)
    requires
        m.wf(),
        m.pixel_format == PixelFormat::Gray8,
    ensures
        m.shape.width * m.channels() * m.shape.height <= usize::MAX,
        m.shape.width * m.channels() * m.shape.height == m.packed().len(),
        m.shape.width * m.bpp() <= usize::MAX,
        !m.is_empty() ==> m.packed().len() >= 1,
        m.is_empty() ==> m.packed().len() == 0,
{
    crate::buffer::lemma_packed_len(m);
    assert(m.shape.width * 1 * m.shape.height == m.shape.height * m.shape.width) by (nonlinear_arith);
    if m.is_empty() {
        assert(m.shape.height * m.shape.width == 0) by (nonlinear_arith)
            requires
                m.shape.height == 0 || m.shape.width == 0,
        ;
    } else {
        assert(m.shape.height * m.shape.width >= 1) by (nonlinear_arith)
            requires
                m.shape.height >= 1,
                m.shape.width >= 1,
        ;
    }
}

} // verus!
