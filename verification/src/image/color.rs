//! Color layout conversions between the interleaved eight-bit formats.

use vstd::prelude::*;

use crate::buffer::{packed_model, unsupported_format, ImageBuffer, ImageModel};
use crate::error::{PerceptionError, PerceptionResult};
use crate::image::grid::{grid, lemma_grid_index, lemma_grid_next, lemma_grid_sample};
use crate::types::PixelFormat;

verus! {

/// Marks an output channel that is filled with an opaque 255 instead of copied.
pub const OPAQUE: u8 = 255;

/// Output component (`x`, `y`, `c`) of a channel remap: input channel `sources[c]` of the
/// same pixel, or 255 where `sources[c]` is `OPAQUE`.
pub open spec fn remap_pick(m: ImageModel, sources: Seq<u8>) -> spec_fn(int, int, int) -> u8 {
    |x: int, y: int, c: int|
        if sources[c] == OPAQUE {
            255u8
        } else {
            m.sample(x, y, sources[c] as int)
        }
}

/// The tightly packed image whose pixels are `m`'s pixels with channels remapped by `sources`.
pub open spec fn remapped(m: ImageModel, sources: Seq<u8>, target: PixelFormat) -> ImageModel {
    packed_model(
        m.shape.width,
        m.shape.height,
        target,
        grid(m.shape.width as nat, m.shape.height as nat, sources.len(), remap_pick(m, sources)),
    )
}

/// `sources` is a valid remap from `m`'s layout to `target`'s.
pub open spec fn valid_remap(m: ImageModel, sources: Seq<u8>, target: PixelFormat) -> bool {
    &&& m.pixel_format.spec_is_u8_interleaved()
    &&& target.spec_is_u8_interleaved()
    &&& target.spec_channel_count() matches Some(n) && n == sources.len()
    &&& forall|c: int| 0 <= c < sources.len() ==> #[trigger] sources[c] == OPAQUE || sources[c] < m.channels()
}

/// Builds a packed image whose channels are copied from (or set opaque instead of) the
/// input's channels as `sources` directs.
fn remap_channels(input: &ImageBuffer, sources: &[u8], target: PixelFormat) -> (result: PerceptionResult<
    ImageBuffer,
>)
    requires
        input.wf(),
        valid_remap(input.model(), sources@, target),
        input.model().shape.width * input.model().shape.height * sources@.len() <= usize::MAX,
    ensures
        input.model().is_empty() ==> result == Err::<ImageBuffer, PerceptionError>(input.model().empty_error()),
        !input.model().is_empty() ==> (result matches Ok(output) && output.wf() && output.model() == remapped(
            input.model(),
            sources@,
            target,
        )),
{
    let ghost m = input.model();
    let ghost f = remap_pick(m, sources@);
    proof {
        crate::types::lemma_u8_interleaved_one_byte_per_channel(m.pixel_format);
        crate::types::lemma_u8_interleaved_one_byte_per_channel(target);
    }
    let in_channels = input.pixel_format().channel_count().unwrap();
    let out_channels = sources.len();
    let width = input.width();
    let height = input.height();
    proof {
        assert(width * height <= width * height * out_channels) by (nonlinear_arith)
            requires
                out_channels >= 1,
        ;
        assert((0 * width + 0) * out_channels == 0) by (nonlinear_arith);
    }
    let mut data: Vec<u8> = Vec::with_capacity(width as usize * height as usize * out_channels);
    let view = input.view();
    let mut y: u32 = 0;
    while y < height
        invariant
            m == input.model(),
            m == view.model(),
            m.wf(),
            valid_remap(m, sources@, target),
            f == remap_pick(m, sources@),
            in_channels == m.channels(),
            in_channels == m.bpp(),
            1 <= out_channels <= 4,
            out_channels == sources@.len(),
            width == m.shape.width,
            height == m.shape.height,
            y <= height,
            data@.len() == (y * width + 0) * out_channels,
            forall|i: int| 0 <= i < data@.len() ==> data@[i] == grid(width as nat, height as nat, out_channels as nat, f)[i],
        decreases height - y,
    {
        let row = view.row(y).unwrap();
        proof {
            crate::buffer::lemma_row_in_footprint(m, y as int);
        }
        let mut x: u32 = 0;
        while x < width
            invariant
                m.wf(),
                valid_remap(m, sources@, target),
                f == remap_pick(m, sources@),
                in_channels == m.channels(),
                in_channels == m.bpp(),
                1 <= out_channels <= 4,
                out_channels == sources@.len(),
                width == m.shape.width,
                height == m.shape.height,
                y < height,
                x <= width,
                0 <= y * m.stride,
                y * m.stride + m.row_len() <= m.data.len(),
                row@ == m.data.subrange(y * m.stride, y * m.stride + m.row_len()),
                data@.len() == (y * width + x) * out_channels,
                forall|i: int| 0 <= i < data@.len() ==> data@[i] == grid(width as nat, height as nat, out_channels as nat, f)[i],
            decreases width - x,
        {
            let mut c: usize = 0;
            while c < out_channels
                invariant
                    m.wf(),
                    valid_remap(m, sources@, target),
                    f == remap_pick(m, sources@),
                    in_channels == m.channels(),
                    in_channels == m.bpp(),
                    1 <= out_channels <= 4,
                    out_channels == sources@.len(),
                    width == m.shape.width,
                    height == m.shape.height,
                    y < height,
                    x < width,
                    0 <= y * m.stride,
                    y * m.stride + m.row_len() <= m.data.len(),
                    row@ == m.data.subrange(y * m.stride, y * m.stride + m.row_len()),
                    c <= out_channels,
                    data@.len() == (y * width + x) * out_channels + c,
                    forall|i: int| 0 <= i < data@.len() ==> data@[i] == grid(width as nat, height as nat, out_channels as nat, f)[i],
                decreases out_channels - c,
            {
                let source = sources[c];
                let value = if source == OPAQUE {
                    255u8
                } else {
                    proof {
                        assert(x * in_channels + source < m.row_len()) by (nonlinear_arith)
                            requires
                                x < width,
                                source < in_channels,
                                m.row_len() == width * in_channels,
                        ;
                        assert(row@[x * in_channels + source] == m.data[y * m.stride + (x * in_channels + source)]);
                    }
                    row[x as usize * in_channels + source as usize]
                };
                proof {
                    lemma_grid_index(width as nat, height as nat, out_channels as nat, x as int, y as int, c as int);
                    lemma_grid_next(width as nat, out_channels as nat, x as int, y as int, c as int);
                }
                data.push(value);
                c = c + 1;
            }
            proof {
                lemma_grid_next(width as nat, out_channels as nat, x as int, y as int, c as int);
            }
            x = x + 1;
        }
        proof {
            lemma_grid_next(width as nat, out_channels as nat, x as int, y as int, 0);
        }
        y = y + 1;
    }
    proof {
        assert(data@.len() == width * height * out_channels) by (nonlinear_arith)
            requires
                data@.len() == (height * width + 0) * out_channels,
        ;
        assert(data@ =~= grid(width as nat, height as nat, out_channels as nat, f));
        assert(width * out_channels * height == width * height * out_channels) by (nonlinear_arith);
        if height >= 1 {
            assert(width * out_channels <= width * out_channels * height) by (nonlinear_arith)
                requires
                    height >= 1,
                    width * out_channels >= 0,
            ;
        }
    }
    ImageBuffer::new(width, height, target, data)
}

/// Reading a remapped image: component (`x`, `y`, `c`) is input channel `sources[c]` of
/// pixel (`x`, `y`), or 255 for an opaque channel.
pub proof fn lemma_remapped_sample(m: ImageModel, sources: Seq<u8>, target: PixelFormat, x: int, y: int, c: int)
    requires
        m.wf(),
        valid_remap(m, sources, target),
        0 <= x < m.shape.width,
        0 <= y < m.shape.height,
        0 <= c < sources.len(),
    ensures
        remapped(m, sources, target).sample(x, y, c) == (if sources[c] == OPAQUE {
            255u8
        } else {
            m.sample(x, y, sources[c] as int)
        }),
{
    crate::types::lemma_u8_interleaved_one_byte_per_channel(target);
    let r = remapped(m, sources, target);
    assert(r.bpp() == sources.len());
    assert(r.stride == r.shape.width * r.bpp());
    lemma_grid_sample(r, remap_pick(m, sources), x, y, c);
}

/// Channel order that exchanges red and blue, keeping green (and alpha).
pub open spec fn red_blue_swap(channels: nat) -> Seq<u8> {
    if channels == 4 {
        seq![2u8, 1u8, 0u8, 3u8]
    } else {
        seq![2u8, 1u8, 0u8]
    }
}

/// Exchanges the red and blue channels of a three- or four-channel image.
pub fn swap_red_blue(input: &ImageBuffer, channels: usize, has_alpha: bool, target: PixelFormat) -> (result:
    PerceptionResult<ImageBuffer>)
    requires
        input.wf(),
        input.model().pixel_format.spec_is_u8_interleaved(),
        input.model().channels() == channels,
        (channels == 3 && !has_alpha) || (channels == 4 && has_alpha),
        target.spec_is_u8_interleaved(),
        target.spec_channel_count() == Some(channels),
    ensures
        input.model().is_empty() ==> result == Err::<ImageBuffer, PerceptionError>(input.model().empty_error()),
        !input.model().is_empty() ==> (result matches Ok(output) && output.wf() && output.model() == remapped(
            input.model(),
            red_blue_swap(channels as nat),
            target,
        )),
{
    proof {
        crate::buffer::lemma_packed_len(input.model());
    }
    let sources = if has_alpha {
        vec![2u8, 1u8, 0u8, 3u8]
    } else {
        vec![2u8, 1u8, 0u8]
    };
    proof {
        assert(sources@ =~= red_blue_swap(channels as nat));
        assert(input.model().shape.width * input.model().shape.height * channels == input.model().shape.height * (input.model().shape.width * channels)) by (nonlinear_arith);
    }
    remap_channels(input, sources.as_slice(), target)
}

/// Drops the alpha channel of a four-channel image.
pub fn drop_alpha(input: &ImageBuffer, target: PixelFormat) -> (result: PerceptionResult<ImageBuffer>)
    requires
        input.wf(),
        input.model().pixel_format.spec_is_u8_interleaved(),
        input.model().channels() == 4,
        target.spec_is_u8_interleaved(),
        target.spec_channel_count() == Some(3usize),
    ensures
        input.model().is_empty() ==> result == Err::<ImageBuffer, PerceptionError>(input.model().empty_error()),
        !input.model().is_empty() ==> (result matches Ok(output) && output.wf() && output.model() == remapped(
            input.model(),
            seq![0u8, 1u8, 2u8],
            target,
        )),
{
    proof {
        crate::buffer::lemma_packed_len(input.model());
        assert(input.model().shape.width * input.model().shape.height * 3 <= input.model().shape.height * (input.model().shape.width * 4)) by (nonlinear_arith);
    }
    let sources = vec![0u8, 1u8, 2u8];
    proof {
        assert(sources@ =~= seq![0u8, 1u8, 2u8]);
    }
    remap_channels(input, sources.as_slice(), target)
}

/// Appends an opaque alpha channel to a three-channel image.
pub fn add_alpha(input: &ImageBuffer, target: PixelFormat) -> (result: PerceptionResult<ImageBuffer>)
    requires
        input.wf(),
        input.model().pixel_format.spec_is_u8_interleaved(),
        input.model().channels() == 3,
        target.spec_is_u8_interleaved(),
        target.spec_channel_count() == Some(4usize),
        input.model().shape.width * input.model().shape.height * 4 <= usize::MAX,
    ensures
        input.model().is_empty() ==> result == Err::<ImageBuffer, PerceptionError>(input.model().empty_error()),
        !input.model().is_empty() ==> (result matches Ok(output) && output.wf() && output.model() == remapped(
            input.model(),
            seq![0u8, 1u8, 2u8, OPAQUE],
            target,
        )),
{
    let sources = vec![0u8, 1u8, 2u8, OPAQUE];
    proof {
        assert(sources@ =~= seq![0u8, 1u8, 2u8, OPAQUE]);
    }
    remap_channels(input, sources.as_slice(), target)
}

/// Converts Gray8 to RGB8 by replicating the gray component into each color channel.
pub fn gray_to_rgb(input: &ImageBuffer) -> (result: PerceptionResult<ImageBuffer>)
    requires
        input.wf(),
        input.model().shape.width * input.model().shape.height * 3 <= usize::MAX,
    ensures
        input.model().pixel_format != PixelFormat::Gray8 ==> (result matches Err(e) && unsupported_format(
            e,
            "gray_to_rgb",
            input.model().pixel_format,
        )),
        input.model().pixel_format == PixelFormat::Gray8 && input.model().is_empty() ==> result == Err::<
            ImageBuffer,
            PerceptionError,
        >(input.model().empty_error()),
        input.model().pixel_format == PixelFormat::Gray8 && !input.model().is_empty() ==> (result matches Ok(
            output,
        ) && output.wf() && output.model() == remapped(input.model(), seq![0u8, 0u8, 0u8], PixelFormat::Rgb8)),
{
    if input.pixel_format() != PixelFormat::Gray8 {
        return Err(
            PerceptionError::UnsupportedFormat {
                operation: "gray_to_rgb",
                format: input.pixel_format().to_text(),
            },
        );
    }
    let sources = vec![0u8, 0u8, 0u8];
    proof {
        assert(sources@ =~= seq![0u8, 0u8, 0u8]);
    }
    remap_channels(input, sources.as_slice(), PixelFormat::Rgb8)
}

/// How `convert_color` turns one layout into another.
#[derive(Clone, Copy, Debug, PartialEq, Eq, Structural)]
pub enum ColorConversion {
    /// Same layout: a packed copy.
    Copy,
    /// Exchange red and blue, three channels.
    SwapRedBlue,
    /// Exchange red and blue, keeping alpha.
    SwapRedBlueAlpha,
    /// Drop the alpha channel.
    DropAlpha,
    /// Append an opaque alpha channel.
    AddAlpha,
    /// Luminance from a three-channel color layout.
    ToGray,
    /// Replicate gray into red, green and blue.
    GrayToRgb,
    /// No conversion exists between the layouts.
    Unsupported,
}

/// The conversion `convert_color` applies from `source` to `target`.
pub open spec fn spec_conversion(source: PixelFormat, target: PixelFormat) -> ColorConversion {
    if source == target {
        ColorConversion::Copy
    } else {
        match (source, target) {
            (PixelFormat::Rgb8, PixelFormat::Bgr8) | (PixelFormat::Bgr8, PixelFormat::Rgb8) => ColorConversion::SwapRedBlue,
            (PixelFormat::Rgba8, PixelFormat::Bgra8) | (PixelFormat::Bgra8, PixelFormat::Rgba8) => ColorConversion::SwapRedBlueAlpha,
            (PixelFormat::Rgba8, PixelFormat::Rgb8) | (PixelFormat::Bgra8, PixelFormat::Bgr8) => ColorConversion::DropAlpha,
            (PixelFormat::Rgb8, PixelFormat::Rgba8) | (PixelFormat::Bgr8, PixelFormat::Bgra8) => ColorConversion::AddAlpha,
            (PixelFormat::Rgb8, PixelFormat::Gray8) | (PixelFormat::Bgr8, PixelFormat::Gray8) => ColorConversion::ToGray,
            (PixelFormat::Gray8, PixelFormat::Rgb8) => ColorConversion::GrayToRgb,
            _ => ColorConversion::Unsupported,
        }
    }
}

/// Chooses the conversion between two pixel layouts.
pub fn plan_color_conversion(source: PixelFormat, target: PixelFormat) -> (conversion: ColorConversion)
    ensures
        conversion == spec_conversion(source, target),
{
    if source == target {
        return ColorConversion::Copy;
    }
    match (source, target) {
        (PixelFormat::Rgb8, PixelFormat::Bgr8) | (PixelFormat::Bgr8, PixelFormat::Rgb8) => ColorConversion::SwapRedBlue,
        (PixelFormat::Rgba8, PixelFormat::Bgra8) | (PixelFormat::Bgra8, PixelFormat::Rgba8) => ColorConversion::SwapRedBlueAlpha,
        (PixelFormat::Rgba8, PixelFormat::Rgb8) | (PixelFormat::Bgra8, PixelFormat::Bgr8) => ColorConversion::DropAlpha,
        (PixelFormat::Rgb8, PixelFormat::Rgba8) | (PixelFormat::Bgr8, PixelFormat::Bgra8) => ColorConversion::AddAlpha,
        (PixelFormat::Rgb8, PixelFormat::Gray8) | (PixelFormat::Bgr8, PixelFormat::Gray8) => ColorConversion::ToGray,
        (PixelFormat::Gray8, PixelFormat::Rgb8) => ColorConversion::GrayToRgb,
        _ => ColorConversion::Unsupported,
    }
}

/// Colour channels of an eight-bit colour layout: 3 for RGB/BGR, 4 with alpha, 0 otherwise.
pub open spec fn color_channels(format: PixelFormat) -> int {
    match format {
        PixelFormat::Rgb8 | PixelFormat::Bgr8 => 3,
        PixelFormat::Rgba8 | PixelFormat::Bgra8 => 4,
        _ => 0,
    }
}

/// The layout stores blue before red.
pub open spec fn blue_first(format: PixelFormat) -> bool {
    format is Bgr8 || format is Bgra8
}

/// Each conversion is planned for exactly the pairs of layouts it fits:
/// equal layouts are copied; colour layouts with the same channel count but opposite
/// red/blue order swap red and blue; colour layouts of the same order gain or lose alpha;
/// three-channel colour goes to gray; gray goes to RGB; every other pair is unsupported.
pub proof fn lemma_conversion_fits_layouts(source: PixelFormat, target: PixelFormat)
    ensures
        (spec_conversion(source, target) == ColorConversion::Copy) == (source == target),
        (spec_conversion(source, target) == ColorConversion::SwapRedBlue) == (source != target
            && color_channels(source) == 3 && color_channels(target) == 3),
        (spec_conversion(source, target) == ColorConversion::SwapRedBlueAlpha) == (source != target
            && color_channels(source) == 4 && color_channels(target) == 4),
        (spec_conversion(source, target) == ColorConversion::DropAlpha) == (color_channels(source) == 4
            && color_channels(target) == 3 && blue_first(source) == blue_first(target)),
        (spec_conversion(source, target) == ColorConversion::AddAlpha) == (color_channels(source) == 3
            && color_channels(target) == 4 && blue_first(source) == blue_first(target)),
        (spec_conversion(source, target) == ColorConversion::ToGray) == (color_channels(source) == 3
            && target == PixelFormat::Gray8),
        (spec_conversion(source, target) == ColorConversion::GrayToRgb) == (source == PixelFormat::Gray8
            && target == PixelFormat::Rgb8),
{
}

/// Conversions between colour layouts come in matching pairs: a red/blue swap is planned
/// in both directions, and adding alpha one way is dropping it the other way.
pub proof fn lemma_conversion_symmetry(source: PixelFormat, target: PixelFormat)
    ensures
        (spec_conversion(source, target) == ColorConversion::SwapRedBlue) == (spec_conversion(target, source)
            == ColorConversion::SwapRedBlue),
        (spec_conversion(source, target) == ColorConversion::SwapRedBlueAlpha) == (spec_conversion(
            target,
            source,
        ) == ColorConversion::SwapRedBlueAlpha),
        (spec_conversion(source, target) == ColorConversion::AddAlpha) == (spec_conversion(target, source)
            == ColorConversion::DropAlpha),
{
}

/// Exchanging red and blue twice restores every component.
pub proof fn lemma_swap_red_blue_involution(m: ImageModel, target: PixelFormat, x: int, y: int, c: int)
    requires
        m.wf(),
        valid_remap(m, red_blue_swap(m.channels()), target),
        m.channels() == 3 || m.channels() == 4,
        valid_remap(remapped(m, red_blue_swap(m.channels()), target), red_blue_swap(m.channels()), m.pixel_format),
        0 <= x < m.shape.width,
        0 <= y < m.shape.height,
        0 <= c < m.channels(),
    ensures
        remapped(remapped(m, red_blue_swap(m.channels()), target), red_blue_swap(m.channels()), m.pixel_format).sample(x, y, c)
            == m.sample(x, y, c),
{
    let s = red_blue_swap(m.channels());
    let once = remapped(m, s, target);
    crate::types::lemma_u8_interleaved_one_byte_per_channel(target);
    assert(once.wf()) by {
        crate::image::grid::lemma_grid_index(m.shape.width as nat, m.shape.height as nat, s.len(), 0, 0, 0);
        assert(once.data.len() == m.shape.width * m.shape.height * s.len());
        assert(m.shape.height * (m.shape.width * s.len()) == m.shape.width * m.shape.height * s.len()) by (nonlinear_arith);
        assert((m.shape.height - 1) * (m.shape.width * s.len()) + m.shape.width * s.len() == m.shape.height * (m.shape.width * s.len())) by (nonlinear_arith);
        assert(once.data.len() <= usize::MAX) by {
            crate::buffer::lemma_packed_len(m);
            crate::types::lemma_u8_interleaved_one_byte_per_channel(m.pixel_format);
            assert(m.shape.height * (m.shape.width * m.channels()) <= m.data.len());
        }
    }
    lemma_remapped_sample(once, s, m.pixel_format, x, y, c);
    lemma_remapped_sample(m, s, target, x, y, s[c] as int);
}

/// Appending an opaque alpha channel and dropping it again restores every color component.
pub proof fn lemma_add_then_drop_alpha(m: ImageModel, with_alpha: PixelFormat, x: int, y: int, c: int)
    requires
        m.wf(),
        m.channels() == 3,
        m.shape.width * m.shape.height * 4 <= usize::MAX,
        valid_remap(m, seq![0u8, 1u8, 2u8, OPAQUE], with_alpha),
        valid_remap(remapped(m, seq![0u8, 1u8, 2u8, OPAQUE], with_alpha), seq![0u8, 1u8, 2u8], m.pixel_format),
        0 <= x < m.shape.width,
        0 <= y < m.shape.height,
        0 <= c < 3,
    ensures
        remapped(remapped(m, seq![0u8, 1u8, 2u8, OPAQUE], with_alpha), seq![0u8, 1u8, 2u8], m.pixel_format).sample(x, y, c)
            == m.sample(x, y, c),
{
    let once = remapped(m, seq![0u8, 1u8, 2u8, OPAQUE], with_alpha);
    crate::types::lemma_u8_interleaved_one_byte_per_channel(with_alpha);
    crate::types::lemma_u8_interleaved_one_byte_per_channel(m.pixel_format);
    assert(once.wf()) by {
        crate::buffer::lemma_packed_len(m);
        assert(m.shape.height * (m.shape.width * 4) == m.shape.width * m.shape.height * 4) by (nonlinear_arith);
        assert((m.shape.height - 1) * (m.shape.width * 4) + m.shape.width * 4 == m.shape.height * (m.shape.width * 4)) by (nonlinear_arith);
    }
    lemma_remapped_sample(once, seq![0u8, 1u8, 2u8], m.pixel_format, x, y, c);
    lemma_remapped_sample(m, seq![0u8, 1u8, 2u8, OPAQUE], with_alpha, x, y, c);
}

} // verus!
