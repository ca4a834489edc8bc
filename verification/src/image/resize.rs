//! Resampling of interleaved eight-bit images: argument validation and the gather step of
//! nearest-neighbour resizing.

use vstd::prelude::*;

use crate::buffer::{packed_model, unsupported_format, ImageBuffer, ImageModel};
use crate::error::{PerceptionError, PerceptionResult};
use crate::image::grid::{grid, lemma_grid_index, lemma_grid_next};
use crate::types::PixelFormat;

verus! {

/// Rejects an empty target size, then any format that is not one byte per interleaved
/// channel.
pub fn validate_resize(input: &ImageBuffer, width: u32, height: u32, operation: &'static str) -> (result:
    PerceptionResult<()>)
    ensures
        width == 0 || height == 0 ==> result == Err::<(), PerceptionError>(
            PerceptionError::InvalidDimensions { width, height },
        ),
        width != 0 && height != 0 && !input.model().pixel_format.spec_is_u8_interleaved() ==> (result matches Err(
            e,
        ) && unsupported_format(e, operation, input.model().pixel_format)),
        width != 0 && height != 0 && input.model().pixel_format.spec_is_u8_interleaved() ==> result is Ok,
{
    if width == 0 || height == 0 {
        return Err(PerceptionError::InvalidDimensions { width, height });
    }
    if !input.pixel_format().is_u8_interleaved() {
        return Err(PerceptionError::UnsupportedFormat { operation, format: input.pixel_format().to_text() });
    }
    Ok(())
}

/// Component (`x`, `y`, `c`) of an image gathered from the source pixels
/// (`source_x[x]`, `source_y[y]`).
pub open spec fn gather_pick(m: ImageModel, source_x: Seq<u32>, source_y: Seq<u32>) -> spec_fn(int, int, int) -> u8 {
    |x: int, y: int, c: int| m.sample(source_x[x] as int, source_y[y] as int, c)
}

/// Builds a `width` x `height` image whose pixel (`x`, `y`) copies source pixel
/// (`source_x[x]`, `source_y[y]`): the gather step of nearest-neighbour resizing, once
/// each output column and row has been mapped to its nearest source column and row.
pub fn resample_nearest(input: &ImageBuffer, width: u32, height: u32, source_x: &Vec<u32>, source_y: &Vec<u32>) -> (result:
    PerceptionResult<ImageBuffer>)
    requires
        input.wf(),
        input.model().pixel_format.spec_is_u8_interleaved(),
        width > 0,
        height > 0,
        source_x@.len() == width,
        source_y@.len() == height,
        forall|i: int| 0 <= i < width ==> #[trigger] source_x@[i] < input.model().shape.width,
        forall|j: int| 0 <= j < height ==> #[trigger] source_y@[j] < input.model().shape.height,
        width * height * input.model().channels() <= usize::MAX,
    ensures
        result matches Ok(output) && output.wf() && output.model() == packed_model(
            width,
            height,
            input.model().pixel_format,
            grid(width as nat, height as nat, input.model().channels(), gather_pick(input.model(), source_x@, source_y@)),
        ),
{
    let ghost m = input.model();
    let ghost f = gather_pick(m, source_x@, source_y@);
    proof {
        crate::types::lemma_u8_interleaved_one_byte_per_channel(m.pixel_format);
        assert((0 * width + 0) * m.channels() == 0) by (nonlinear_arith);
    }
    let channels = input.pixel_format().channel_count().unwrap();
    let view = input.view();
    let mut data: Vec<u8> = Vec::new();
    let mut y: u32 = 0;
    while y < height
        invariant
            m == input.model(),
            m == view.model(),
            m.wf(),
            m.pixel_format.spec_is_u8_interleaved(),
            channels == m.channels(),
            channels == m.bpp(),
            1 <= channels <= 4,
            f == gather_pick(m, source_x@, source_y@),
            source_x@.len() == width,
            source_y@.len() == height,
            forall|i: int| 0 <= i < width ==> #[trigger] source_x@[i] < m.shape.width,
            forall|j: int| 0 <= j < height ==> #[trigger] source_y@[j] < m.shape.height,
            y <= height,
            data@.len() == (y * width + 0) * channels,
            forall|i: int| 0 <= i < data@.len() ==> data@[i] == grid(width as nat, height as nat, channels as nat, f)[i],
        decreases height - y,
    {
        let sy = source_y[y as usize];
        let row = view.row(sy).unwrap();
        proof {
            crate::buffer::lemma_row_in_footprint(m, sy as int);
        }
        let mut x: u32 = 0;
        while x < width
            invariant
                m.wf(),
                channels == m.channels(),
                channels == m.bpp(),
                1 <= channels <= 4,
                f == gather_pick(m, source_x@, source_y@),
                source_x@.len() == width,
                source_y@.len() == height,
                forall|i: int| 0 <= i < width ==> #[trigger] source_x@[i] < m.shape.width,
                y < height,
                sy == source_y@[y as int],
                sy < m.shape.height,
                0 <= sy * m.stride,
                sy * m.stride + m.row_len() <= m.data.len(),
                row@ == m.data.subrange(sy * m.stride, sy * m.stride + m.row_len()),
                x <= width,
                data@.len() == (y * width + x) * channels,
                forall|i: int| 0 <= i < data@.len() ==> data@[i] == grid(width as nat, height as nat, channels as nat, f)[i],
            decreases width - x,
        {
            let sx = source_x[x as usize];
            let mut c: usize = 0;
            while c < channels
                invariant
                    m.wf(),
                    channels == m.channels(),
                    channels == m.bpp(),
                    1 <= channels <= 4,
                    f == gather_pick(m, source_x@, source_y@),
                    source_x@.len() == width,
                    source_y@.len() == height,
                    y < height,
                    x < width,
                    sy == source_y@[y as int],
                    sx == source_x@[x as int],
                    sx < m.shape.width,
                    sy < m.shape.height,
                    0 <= sy * m.stride,
                    sy * m.stride + m.row_len() <= m.data.len(),
                    row@ == m.data.subrange(sy * m.stride, sy * m.stride + m.row_len()),
                    c <= channels,
                    data@.len() == (y * width + x) * channels + c,
                    forall|i: int| 0 <= i < data@.len() ==> data@[i] == grid(width as nat, height as nat, channels as nat, f)[i],
                decreases channels - c,
            {
                proof {
                    assert(sx * channels + c < m.row_len()) by (nonlinear_arith)
                        requires
                            sx < m.shape.width,
                            c < channels,
                            m.row_len() == m.shape.width * channels,
                    ;
                    assert(row@[sx * channels + c] == m.data[sy * m.stride + (sx * channels + c)]);
                    lemma_grid_index(width as nat, height as nat, channels as nat, x as int, y as int, c as int);
                    lemma_grid_next(width as nat, channels as nat, x as int, y as int, c as int);
                }
                data.push(row[sx as usize * channels + c]);
                c = c + 1;
            }
            proof {
                lemma_grid_next(width as nat, channels as nat, x as int, y as int, c as int);
            }
            x = x + 1;
        }
        proof {
            lemma_grid_next(width as nat, channels as nat, x as int, y as int, 0);
        }
        y = y + 1;
    }
    proof {
        assert(data@.len() == width * height * channels) by (nonlinear_arith)
            requires
                data@.len() == (height * width + 0) * channels,
        ;
        assert(data@ =~= grid(width as nat, height as nat, channels as nat, f));
        assert(width * channels * height == width * height * channels) by (nonlinear_arith);
        assert(width * channels <= width * channels * height) by (nonlinear_arith)
            requires
                height >= 1,
                width * channels >= 0,
        ;
    }
    ImageBuffer::new(width, height, input.pixel_format(), data)
}

} // verus!
