//! Owned image buffers and non-owning views with checked shape and row-stride invariants.

use vstd::prelude::*;
use vstd::arithmetic::div_mod::lemma_fundamental_div_mod_converse;

use crate::error::{PerceptionError, PerceptionResult};
use crate::text::{
    roi_outside_text, channel_exceeds_reason, channel_exceeds_text, pixel_exceeds_reason, pixel_exceeds_text,
    row_exceeds_reason, row_exceeds_text,
};
use crate::types::{ImageShape, PixelFormat, RegionOfInterest, Stride};

verus! {

/// Mathematical model of an image: its shape, layout and the bytes that back it.
pub struct ImageModel {
    /// Logical width and height.
    pub shape: ImageShape,
    /// Pixel layout.
    pub pixel_format: PixelFormat,
    /// Distance in bytes between the starts of adjacent rows.
    pub stride: nat,
    /// Backing bytes; rows start at multiples of `stride`.
    pub data: Seq<u8>,
}

impl ImageModel {
    /// Bytes per pixel (meaningful when the format has one).
    pub open spec fn bpp(self) -> nat {
        self.pixel_format.spec_bytes_per_pixel().unwrap() as nat
    }

    /// Bytes in the logical part of one row.
    pub open spec fn row_len(self) -> nat {
        (self.shape.width * self.bpp()) as nat
    }

    /// Bytes from the first logical byte to one past the last.
    pub open spec fn footprint(self) -> int {
        (self.shape.height - 1) * self.stride + self.row_len()
    }

    /// The format is interleaved and the rows fit the stride and the data.
    pub open spec fn wf(self) -> bool {
        &&& self.pixel_format.spec_bytes_per_pixel() is Some
        &&& self.stride >= self.row_len()
        &&& self.stride <= usize::MAX
        &&& self.footprint() <= self.data.len()
        &&& self.data.len() <= usize::MAX
    }

    /// Byte index of component `channel` of pixel (`x`, `y`).
    pub open spec fn offset(self, x: int, y: int, channel: int) -> int {
        y * self.stride + x * self.bpp() + channel
    }

    /// The image has no pixels: its width or its height is zero.
    pub open spec fn is_empty(self) -> bool {
        self.shape.width == 0 || self.shape.height == 0
    }

    /// The error that building an image of this model's shape reports when it has no pixels.
    pub open spec fn empty_error(self) -> PerceptionError {
        PerceptionError::InvalidDimensions { width: self.shape.width, height: self.shape.height }
    }

    /// Component `channel` of pixel (`x`, `y`).
    pub open spec fn sample(self, x: int, y: int, channel: int) -> u8 {
        self.data[self.offset(x, y, channel)]
    }

    /// The logical rows, concatenated without stride padding.
    pub open spec fn packed(self) -> Seq<u8> {
        Seq::new(
            (self.shape.height * self.row_len()) as nat,
            |i: int|
                self.data[(i / (self.row_len() as int)) * self.stride + i % (self.row_len() as int)],
        )
    }

    /// The same shape and layout over other bytes.
    pub open spec fn with_data(self, data: Seq<u8>) -> ImageModel {
        ImageModel { data, ..self }
    }

    /// Number of interleaved components per pixel (meaningful when the format has one).
    pub open spec fn channels(self) -> nat {
        self.pixel_format.spec_channel_count().unwrap() as nat
    }

    /// (`x`, `y`, `channel`) names a component of a one-byte-per-channel image.
    pub open spec fn addresses(self, x: int, y: int, channel: int) -> bool {
        &&& self.pixel_format.spec_is_u8_interleaved()
        &&& 0 <= x < self.shape.width
        &&& 0 <= y < self.shape.height
        &&& 0 <= channel < self.channels()
    }

    /// The error a component lookup reports for a coordinate that names no component.
    pub open spec fn lookup_error(self, x: u32, y: u32, channel: usize, error: PerceptionError) -> bool {
        if !self.pixel_format.spec_is_u8_interleaved() {
            unsupported_format(error, "ImageView::pixel_offset", self.pixel_format)
        } else if x >= self.shape.width || y >= self.shape.height {
            error matches PerceptionError::OutOfBounds { reason } && reason@ == pixel_exceeds_text(
                x,
                y,
                self.shape.width,
                self.shape.height,
            )
        } else {
            error matches PerceptionError::OutOfBounds { reason } && reason@
                == channel_exceeds_text(channel, self.channels() as usize)
        }
    }

    /// The sub-image covered by `roi`, sharing this image's stride.
    pub open spec fn region(self, roi: RegionOfInterest) -> ImageModel {
        let start = self.offset(roi.x as int, roi.y as int, 0);
        let required = (roi.height - 1) * self.stride + roi.width * self.bpp();
        ImageModel {
            shape: ImageShape { width: roi.width, height: roi.height },
            pixel_format: self.pixel_format,
            stride: self.stride,
            data: self.data.subrange(start, start + required),
        }
    }

    /// The same image stored tightly packed: stride equals the row length.
    pub open spec fn packed_copy(self) -> ImageModel {
        ImageModel {
            shape: self.shape,
            pixel_format: self.pixel_format,
            stride: self.row_len(),
            data: self.packed(),
        }
    }
}

/// The model of a tightly packed image built from `data`.
pub open spec fn packed_model(width: u32, height: u32, pixel_format: PixelFormat, data: Seq<u8>) -> ImageModel {
    ImageModel {
        shape: ImageShape { width, height },
        pixel_format,
        stride: (width * pixel_format.spec_bytes_per_pixel().unwrap()) as nat,
        data,
    }
}

/// `error` reports that `operation` does not support `format`.
pub open spec fn unsupported_format(error: PerceptionError, operation: &str, format: PixelFormat) -> bool {
    error matches PerceptionError::UnsupportedFormat { operation: op, format: text }
        && op@ == operation@ && text@ == format.spec_name()
}

/// Every in-range component index lies inside the image's footprint.
pub proof fn lemma_offset_in_footprint(m: ImageModel, x: int, y: int, channel: int)
    requires
        m.wf(),
        0 <= x < m.shape.width,
        0 <= y < m.shape.height,
        0 <= channel < m.bpp(),
    ensures
        0 <= m.offset(x, y, channel) < m.footprint(),
        m.footprint() <= m.data.len(),
{
    let s = m.stride as int;
    let b = m.bpp() as int;
    let w = m.shape.width as int;
    let h = m.shape.height as int;
    assert(0 <= y * s + x * b + channel < (h - 1) * s + w * b) by (nonlinear_arith)
        requires
            0 <= x < w,
            0 <= y < h,
            0 <= channel < b,
            s >= 0,
    ;
}

/// Position `y * row_len + k` of the packed rows is byte `k` of row `y`.
pub proof fn lemma_packed_index(m: ImageModel, y: int, k: int)
    requires
        0 <= y < m.shape.height,
        0 <= k < m.row_len(),
    ensures
        0 <= y * m.row_len() + k < m.packed().len(),
        m.packed()[y * m.row_len() + k] == m.data[y * m.stride + k],
{
    let rl = m.row_len() as int;
    let h = m.shape.height as int;
    lemma_fundamental_div_mod_converse(y * rl + k, rl, y, k);
    assert(0 <= y * rl + k < h * rl) by (nonlinear_arith)
        requires
            0 <= y < h,
            0 <= k < rl,
    ;
}

/// Row `y` of the logical rows occupies `[y * stride, y * stride + row_len)` inside the footprint.
pub proof fn lemma_row_in_footprint(m: ImageModel, y: int)
    requires
        m.wf(),
        0 <= y < m.shape.height,
    ensures
        0 <= y * m.stride,
        y * m.stride + m.row_len() <= m.footprint(),
{
    let s = m.stride as int;
    let h = m.shape.height as int;
    assert(0 <= y * s <= (h - 1) * s) by (nonlinear_arith)
        requires
            0 <= y < h,
            s >= 0,
    ;
}

/// The packed rows of a well-formed image fit in its backing data.
pub proof fn lemma_packed_len(m: ImageModel)
    requires
        m.wf(),
    ensures
        m.shape.height > 0 ==> m.shape.height * m.row_len() <= m.footprint(),
        m.shape.height * m.row_len() <= m.data.len(),
{
    let s = m.stride as int;
    let rl = m.row_len() as int;
    let h = m.shape.height as int;
    if h >= 1 {
        assert(h * rl <= (h - 1) * s + rl) by (nonlinear_arith)
            requires
                h >= 1,
                s >= rl,
                rl >= 0,
        ;
    } else {
        assert(h * rl == 0) by (nonlinear_arith)
            requires
                h == 0,
        ;
    }
}

/// A region of a well-formed image is well formed, and its components are the
/// image's components shifted by the region's origin.
pub proof fn lemma_region(m: ImageModel, roi: RegionOfInterest)
    requires
        m.wf(),
        RegionOfInterest::fits(m.shape, roi.x, roi.y, roi.width, roi.height),
    ensures
        m.region(roi).wf(),
        0 <= m.offset(roi.x as int, roi.y as int, 0),
        m.offset(roi.x as int, roi.y as int, 0) + m.region(roi).footprint() <= m.footprint(),
        forall|i: int, j: int, c: int|
            0 <= i < roi.width && 0 <= j < roi.height && 0 <= c < m.bpp() ==> #[trigger] m.region(
                roi,
            ).sample(i, j, c) == m.sample(roi.x + i, roi.y + j, c),
{
    let s = m.stride as int;
    let b = m.bpp() as int;
    let x = roi.x as int;
    let y = roi.y as int;
    let w = roi.width as int;
    let h = roi.height as int;
    let start = y * s + x * b;
    assert(0 <= start) by (nonlinear_arith)
        requires
            start == y * s + x * b,
            x >= 0,
            y >= 0,
            s >= 0,
            b >= 0,
    ;
    assert(start + (h - 1) * s + w * b <= (m.shape.height - 1) * s + m.shape.width * b)
        by (nonlinear_arith)
        requires
            x + w <= m.shape.width,
            y + h <= m.shape.height,
            h >= 1,
            start == y * s + x * b,
            s >= 0,
            b >= 0,
    ;
    assert(w * b <= s) by (nonlinear_arith)
        requires
            x + w <= m.shape.width,
            m.shape.width * b <= s,
            b >= 0,
            x >= 0,
    ;
    assert forall|i: int, j: int, c: int|
        0 <= i < roi.width && 0 <= j < roi.height && 0 <= c < m.bpp() implies #[trigger] m.region(
            roi,
        ).sample(i, j, c) == m.sample(roi.x + i, roi.y + j, c) by {
        assert(start + (j * s + i * b + c) == (y + j) * s + (x + i) * b + c) by (nonlinear_arith)
            requires
                start == y * s + x * b,
        ;
        assert(0 <= j * s + i * b + c < (h - 1) * s + w * b) by (nonlinear_arith)
            requires
                0 <= i < w,
                0 <= j < h,
                0 <= c < b,
                s >= 0,
        ;
    }
}

/// Component (`x`, `y`, `channel`) of the packed copy of a region is the image's
/// component at (`roi.x + x`, `roi.y + y`, `channel`).
pub proof fn lemma_region_packed_sample(m: ImageModel, roi: RegionOfInterest, x: int, y: int, channel: int)
    requires
        m.wf(),
        RegionOfInterest::fits(m.shape, roi.x, roi.y, roi.width, roi.height),
        0 <= x < roi.width,
        0 <= y < roi.height,
        0 <= channel < m.bpp(),
    ensures
        m.region(roi).packed_copy().sample(x, y, channel) == m.sample(roi.x + x, roi.y + y, channel),
{
    let r = m.region(roi);
    lemma_region(m, roi);
    let b = m.bpp() as int;
    assert(0 <= x * b + channel < roi.width * b) by (nonlinear_arith)
        requires
            0 <= x < roi.width,
            0 <= channel < b,
    ;
    lemma_packed_index(r, y, x * b + channel);
    assert(r.sample(x, y, channel) == m.sample(roi.x + x, roi.y + y, channel));
    assert(r.packed_copy().offset(x, y, channel) == y * r.row_len() + (x * b + channel));
}

/// A tightly packed image's packed rows are its data.
pub proof fn lemma_packed_of_packed(m: ImageModel)
    requires
        m.stride == m.row_len(),
        m.data.len() == m.shape.height * m.row_len(),
    ensures
        m.packed() == m.data,
{
    let rl = m.row_len() as int;
    if rl == 0 {
        assert(m.shape.height * m.row_len() == 0) by (nonlinear_arith)
            requires
                m.row_len() == 0,
        ;
    }
    assert forall|i: int| 0 <= i < m.data.len() implies m.packed()[i] == m.data[i] by {
        if rl > 0 {
            vstd::arithmetic::div_mod::lemma_fundamental_div_mod(i, rl);
        }
    }
    assert(m.packed() =~= m.data);
}

/// Owned image bytes with checked shape and row-stride invariants.
#[derive(Debug, PartialEq)]
pub struct ImageBuffer {
    shape: ImageShape,
    pixel_format: PixelFormat,
    stride: Stride,
    data: Vec<u8>,
}

impl ImageBuffer {
    /// The buffer's shape, layout and bytes.
    pub closed spec fn model(&self) -> ImageModel {
        ImageModel {
            shape: self.shape,
            pixel_format: self.pixel_format,
            stride: self.stride.0 as nat,
            data: self.data@,
        }
    }
}

impl ImageBuffer {
    /// The buffer's model is well formed and its data holds exactly `height` strides.
    pub open spec fn wf(&self) -> bool {
        &&& self.model().wf()
        &&& self.model().data.len() == self.model().stride * self.model().shape.height
    }

    /// Creates a tightly packed image buffer.
    pub fn new(width: u32, height: u32, pixel_format: PixelFormat, data: Vec<u8>) -> (result:
        PerceptionResult<Self>)
        ensures
            width == 0 || height == 0 ==> result == Err::<Self, PerceptionError>(
                PerceptionError::InvalidDimensions { width, height },
            ),
            width != 0 && height != 0 && pixel_format.spec_bytes_per_pixel() is None ==> (result matches Err(e)
                && unsupported_format(e, "ImageBuffer::new", pixel_format)),
            width != 0 && height != 0 && pixel_format.spec_bytes_per_pixel() is Some ==> ({
                let row = width * pixel_format.spec_bytes_per_pixel().unwrap();
                &&& row > usize::MAX ==> result == Err::<Self, PerceptionError>(PerceptionError::Overflow)
                &&& row <= usize::MAX && row * height > usize::MAX ==> result == Err::<
                    Self,
                    PerceptionError,
                >(PerceptionError::Overflow)
                &&& row * height <= usize::MAX && data@.len() != row * height ==> result == Err::<
                    Self,
                    PerceptionError,
                >(
                    PerceptionError::InvalidBuffer {
                        expected: (row * height) as usize,
                        actual: data@.len() as usize,
                    },
                )
                &&& row * height <= usize::MAX && data@.len() == row * height ==> (result matches Ok(
                    buffer,
                ) && buffer.wf() && buffer.model() == packed_model(width, height, pixel_format, data@))
            }),
    {
        let shape = ImageShape::new(width, height)?;
        let bytes_per_pixel = match pixel_format.bytes_per_pixel() {
            Some(bytes) => bytes,
            None => {
                return Err(
                    PerceptionError::UnsupportedFormat {
                        operation: "ImageBuffer::new",
                        format: pixel_format.to_text(),
                    },
                );
            },
        };
        proof {
            let row = width * bytes_per_pixel;
            assert(row * height >= row) by (nonlinear_arith)
                requires
                    height >= 1,
                    row >= 0,
            ;
        }
        let stride = match (width as usize).checked_mul(bytes_per_pixel) {
            Some(stride) => stride,
            None => {
                return Err(PerceptionError::Overflow);
            },
        };
        Self::new_with_stride(shape, pixel_format, Stride(stride), data)
    }

    /// Creates an image buffer with an explicit validated row stride.
    pub fn new_with_stride(shape: ImageShape, pixel_format: PixelFormat, stride: Stride, data: Vec<
        u8,
    >) -> (result: PerceptionResult<Self>)
        ensures
            pixel_format.spec_bytes_per_pixel() is None ==> (result matches Err(e) && unsupported_format(
                e,
                "ImageBuffer::new_with_stride",
                pixel_format,
            )),
            pixel_format.spec_bytes_per_pixel() is Some ==> ({
                let minimum = shape.width * pixel_format.spec_bytes_per_pixel().unwrap();
                let expected = stride.0 * shape.height;
                &&& minimum > usize::MAX ==> result == Err::<Self, PerceptionError>(PerceptionError::Overflow)
                &&& minimum <= usize::MAX && stride.0 < minimum ==> result == Err::<Self, PerceptionError>(
                    PerceptionError::StrideMismatch { minimum: minimum as usize, actual: stride.0 },
                )
                &&& stride.0 >= minimum && expected > usize::MAX ==> result == Err::<
                    Self,
                    PerceptionError,
                >(PerceptionError::Overflow)
                &&& stride.0 >= minimum && expected <= usize::MAX && data@.len() != expected
                    ==> result == Err::<Self, PerceptionError>(
                    PerceptionError::InvalidBuffer {
                        expected: expected as usize,
                        actual: data@.len() as usize,
                    },
                )
                &&& stride.0 >= minimum && expected <= usize::MAX && data@.len() == expected ==> (result matches Ok(buffer)
                    && buffer.wf() && buffer.model() == ImageModel {
                    shape,
                    pixel_format,
                    stride: stride.0 as nat,
                    data: data@,
                })
            }),
    {
        let bytes_per_pixel = match pixel_format.bytes_per_pixel() {
            Some(bytes) => bytes,
            None => {
                return Err(
                    PerceptionError::UnsupportedFormat {
                        operation: "ImageBuffer::new_with_stride",
                        format: pixel_format.to_text(),
                    },
                );
            },
        };
        let minimum = match (shape.width as usize).checked_mul(bytes_per_pixel) {
            Some(minimum) => minimum,
            None => {
                return Err(PerceptionError::Overflow);
            },
        };
        if stride.0 < minimum {
            return Err(PerceptionError::StrideMismatch { minimum, actual: stride.0 });
        }
        let expected = match stride.0.checked_mul(shape.height as usize) {
            Some(expected) => expected,
            None => {
                return Err(PerceptionError::Overflow);
            },
        };
        if data.len() != expected {
            return Err(PerceptionError::InvalidBuffer { expected, actual: data.len() });
        }
        proof {
            let s = stride.0 as int;
            let h = shape.height as int;
            let rl = minimum as int;
            assert((h - 1) * s + rl <= s * h) by (nonlinear_arith)
                requires
                    h >= 0,
                    s >= rl,
            ;
        }
        Ok(Self { shape, pixel_format, stride, data })
    }

    /// Image shape.
    pub fn shape(&self) -> (shape: ImageShape)
        ensures
            shape == self.model().shape,
    {
        self.shape
    }

    /// Pixel width.
    pub fn width(&self) -> (width: u32)
        ensures
            width == self.model().shape.width,
    {
        self.shape.width
    }

    /// Pixel height.
    pub fn height(&self) -> (height: u32)
        ensures
            height == self.model().shape.height,
    {
        self.shape.height
    }

    /// Pixel format.
    pub fn pixel_format(&self) -> (format: PixelFormat)
        ensures
            format == self.model().pixel_format,
    {
        self.pixel_format
    }

    /// Row stride in bytes.
    pub fn stride(&self) -> (stride: Stride)
        ensures
            stride.0 == self.model().stride,
    {
        self.stride
    }

    /// Immutable encoded bytes.
    pub fn as_bytes(&self) -> (bytes: &[u8])
        ensures
            bytes@ == self.model().data,
    {
        self.data.as_slice()
    }

    /// Validated immutable full-image view.
    pub fn view(&self) -> (view: ImageView<'_>)
        requires
            self.wf(),
        ensures
            view.model() == self.model(),
    {
        ImageView {
            shape: self.shape,
            pixel_format: self.pixel_format,
            stride: self.stride,
            data: self.data.as_slice(),
        }
    }
}

impl ImageBuffer {
    /// Mutable encoded bytes. Length and stride remain unchanged.
    pub fn as_bytes_mut(&mut self) -> (bytes: &mut [u8])
        requires
            old(self).wf(),
        ensures
            bytes@ == old(self).model().data,
            final(self).model() == old(self).model().with_data(final(bytes)@),

    {
        self.data.as_mut_slice()
    }

    /// Validated mutable full-image view. Once the view is no longer used, the buffer holds
    /// the bytes its storage ends with, in the same shape, format and stride.
    pub fn view_mut(&mut self) -> (view: ImageViewMut<'_>)
        requires
            old(self).wf(),
        ensures
            view.model() == old(self).model(),
            final(self).model().shape == old(self).model().shape,
            final(self).model().pixel_format == old(self).model().pixel_format,
            final(self).model().stride == old(self).model().stride,
            final(self).model().data == final(view.data)@,
    {
        ImageViewMut {
            shape: self.shape,
            pixel_format: self.pixel_format,
            stride: self.stride,
            data: self.data.as_mut_slice(),
        }
    }

    /// Returns a checked mutable row of this buffer containing only the logical width;
    /// bytes written through it are the buffer's bytes.
    pub fn row_mut(&mut self, y: u32) -> (row: PerceptionResult<&mut [u8]>)
        requires
            old(self).wf(),
        ensures
            y >= old(self).model().shape.height ==> {
                &&& row matches Err(PerceptionError::OutOfBounds { reason })
                &&& reason@ == row_exceeds_text(y, old(self).model().shape.height)
                &&& final(self).model() == old(self).model()
            },
            y < old(self).model().shape.height ==> {
                let start = y * old(self).model().stride;
                let end = start + old(self).model().row_len();
                &&& row matches Ok(bytes)
                &&& bytes@ == old(self).model().data.subrange(start, end)
                &&& final(self).model().with_data(old(self).model().data) == old(self).model()
                &&& final(self).model().data =~= old(self).model().data.subrange(0, start)
                    + final(bytes)@ + old(self).model().data.subrange(
                    end,
                    old(self).model().data.len() as int,
                )
            },
    {
        if y >= self.shape.height {
            return Err(
                PerceptionError::OutOfBounds { reason: row_exceeds_reason(y, self.shape.height) },
            );
        }
        let bytes_per_pixel = self.pixel_format.bytes_per_pixel().unwrap();
        proof {
            lemma_row_in_footprint(self.model(), y as int);
        }
        let row_bytes = self.shape.width as usize * bytes_per_pixel;
        let start = y as usize * self.stride.0;
        let data = self.data.as_mut_slice();
        let (head, tail) = data.split_at_mut(start);
        let (row, rest) = tail.split_at_mut(row_bytes);
        Ok(row)
    }

    /// Creates an immutable region-of-interest view without copying pixels.
    pub fn roi(&self, roi: RegionOfInterest) -> (result: PerceptionResult<ImageView<'_>>)
        requires
            self.wf(),
        ensures
            !RegionOfInterest::fits(self.model().shape, roi.x, roi.y, roi.width, roi.height)
                ==> (result matches Err(PerceptionError::OutOfBounds { reason }) && reason@
                == roi_outside_text(
                roi.x,
                roi.y,
                roi.width,
                roi.height,
                self.model().shape.width,
                self.model().shape.height,
            )),
            RegionOfInterest::fits(self.model().shape, roi.x, roi.y, roi.width, roi.height)
                ==> (result matches Ok(view) && view.model() == self.model().region(roi)),
    {
        self.view().roi(roi)
    }

    /// Returns a checked byte offset to a u8 interleaved pixel channel.
    pub fn pixel_offset(&self, x: u32, y: u32, channel: usize) -> (result: PerceptionResult<usize>)
        requires
            self.wf(),
        ensures
            self.model().addresses(x as int, y as int, channel as int) ==> result == Ok::<
                usize,
                PerceptionError,
            >(self.model().offset(x as int, y as int, channel as int) as usize),
            !self.model().addresses(x as int, y as int, channel as int) ==> (result matches Err(e)
                && self.model().lookup_error(x, y, channel, e)),
            result matches Ok(index) ==> index < self.model().data.len(),
    {
        self.view().pixel_offset(x, y, channel)
    }

    /// Gets one u8 interleaved component.
    pub fn get_u8(&self, x: u32, y: u32, channel: usize) -> (result: PerceptionResult<u8>)
        requires
            self.wf(),
        ensures
            self.model().addresses(x as int, y as int, channel as int) ==> result == Ok::<
                u8,
                PerceptionError,
            >(self.model().sample(x as int, y as int, channel as int)),
            !self.model().addresses(x as int, y as int, channel as int) ==> (result matches Err(e)
                && self.model().lookup_error(x, y, channel, e)),
    {
        let index = self.pixel_offset(x, y, channel)?;
        proof {
            crate::types::lemma_u8_interleaved_one_byte_per_channel(self.model().pixel_format);
            lemma_offset_in_footprint(self.model(), x as int, y as int, channel as int);
        }
        Ok(self.data[index])
    }

    /// Sets one u8 interleaved component.
    pub fn set_u8(&mut self, x: u32, y: u32, channel: usize, value: u8) -> (result: PerceptionResult<()>)
        requires
            old(self).wf(),
        ensures
            final(self).wf(),
            old(self).model().addresses(x as int, y as int, channel as int) ==> {
                &&& result is Ok
                &&& final(self).model() == old(self).model().with_data(
                    old(self).model().data.update(
                        old(self).model().offset(x as int, y as int, channel as int),
                        value,
                    ),
                )
            },
            !old(self).model().addresses(x as int, y as int, channel as int) ==> {
                &&& result matches Err(e) && old(self).model().lookup_error(x, y, channel, e)
                &&& final(self).model() == old(self).model()
            },
    {
        let index = self.pixel_offset(x, y, channel)?;
        proof {
            crate::types::lemma_u8_interleaved_one_byte_per_channel(self.model().pixel_format);
            lemma_offset_in_footprint(self.model(), x as int, y as int, channel as int);
        }
        self.data.set(index, value);
        Ok(())
    }
}

/// Writing one component and reading any component back: the written component
/// reads as the written value, every other component is unchanged.
pub proof fn lemma_write_then_read(m: ImageModel, x: int, y: int, channel: int, value: u8, x2: int, y2: int, channel2: int)
    requires
        m.wf(),
        m.addresses(x, y, channel),
        m.addresses(x2, y2, channel2),
    ensures
        ({
            let written = m.with_data(m.data.update(m.offset(x, y, channel), value));
            &&& written.wf()
            &&& written.sample(x, y, channel) == value
            &&& (x2 != x || y2 != y || channel2 != channel) ==> written.sample(x2, y2, channel2)
                == m.sample(x2, y2, channel2)
        }),
{
    crate::types::lemma_u8_interleaved_one_byte_per_channel(m.pixel_format);
    lemma_offset_in_footprint(m, x, y, channel);
    lemma_offset_in_footprint(m, x2, y2, channel2);
    let s = m.stride as int;
    let b = m.bpp() as int;
    if x2 != x || y2 != y || channel2 != channel {
        assert(y * s + x * b + channel != y2 * s + x2 * b + channel2) by (nonlinear_arith)
            requires
                0 <= x < m.shape.width,
                0 <= x2 < m.shape.width,
                0 <= channel < b,
                0 <= channel2 < b,
                m.shape.width * b <= s,
                x2 != x || y2 != y || channel2 != channel,
        {
            if y != y2 {
                if y < y2 {
                    assert(y * s + s <= y2 * s);
                } else {
                    assert(y2 * s + s <= y * s);
                }
            } else if x != x2 {
                if x < x2 {
                    assert(x * b + b <= x2 * b);
                } else {
                    assert(x2 * b + b <= x * b);
                }
            }
        }
    }
}

impl Clone for ImageBuffer {
    /// Copies the buffer, bytes included.
    fn clone(&self) -> (copy: Self)
        ensures
            copy.model() == self.model(),
    {
        let data = self.data.clone();
        proof {
            assert(data@ =~= self.data@);
        }
        ImageBuffer { shape: self.shape, pixel_format: self.pixel_format, stride: self.stride, data }
    }
}

/// Non-owning immutable image view that can represent a strided region of interest.
#[derive(Clone, Copy, Debug)]
pub struct ImageView<'a> {
    shape: ImageShape,
    pixel_format: PixelFormat,
    stride: Stride,
    data: &'a [u8],
}

impl<'a> ImageView<'a> {
    /// The view's shape, layout and the bytes from its first logical byte on.
    pub closed spec fn model(&self) -> ImageModel {
        ImageModel {
            shape: self.shape,
            pixel_format: self.pixel_format,
            stride: self.stride.0 as nat,
            data: self.data@,
        }
    }
}

impl<'a> ImageView<'a> {
    /// A view's model is well formed.
    #[verifier::type_invariant]
    pub open spec fn inv(self) -> bool {
        self.model().wf()
    }

    /// Shape of this view.
    pub fn shape(&self) -> (shape: ImageShape)
        ensures
            shape == self.model().shape,
    {
        self.shape
    }

    /// Pixel format of this view.
    pub fn pixel_format(&self) -> (format: PixelFormat)
        ensures
            format == self.model().pixel_format,
    {
        self.pixel_format
    }

    /// Original row stride in bytes.
    pub fn stride(&self) -> (stride: Stride)
        ensures
            stride.0 == self.model().stride,
    {
        self.stride
    }

    /// Returns a checked row containing only this view's logical width.
    pub fn row(&self, y: u32) -> (row: PerceptionResult<&'a [u8]>)
        ensures
            y >= self.model().shape.height ==> (row matches Err(PerceptionError::OutOfBounds { reason })
                && reason@ == row_exceeds_text(y, self.model().shape.height)),
            y < self.model().shape.height ==> (row matches Ok(bytes) && bytes@ == self.model().data.subrange(
                y * self.model().stride,
                y * self.model().stride + self.model().row_len(),
            )),
    {
        proof {
            use_type_invariant(self);
        }
        if y >= self.shape.height {
            return Err(
                PerceptionError::OutOfBounds { reason: row_exceeds_reason(y, self.shape.height) },
            );
        }
        let bytes_per_pixel = self.pixel_format.bytes_per_pixel().unwrap();
        proof {
            lemma_row_in_footprint(self.model(), y as int);
        }
        let row_bytes = self.shape.width as usize * bytes_per_pixel;
        let start = y as usize * self.stride.0;
        Ok(&self.data[start..start + row_bytes])
    }

    /// Returns a non-copying nested region-of-interest view.
    pub fn roi(&self, roi: RegionOfInterest) -> (result: PerceptionResult<Self>)
        ensures
            !RegionOfInterest::fits(self.model().shape, roi.x, roi.y, roi.width, roi.height)
                ==> (result matches Err(PerceptionError::OutOfBounds { reason }) && reason@
                == roi_outside_text(
                roi.x,
                roi.y,
                roi.width,
                roi.height,
                self.model().shape.width,
                self.model().shape.height,
            )),
            RegionOfInterest::fits(self.model().shape, roi.x, roi.y, roi.width, roi.height)
                ==> (result matches Ok(view) && view.model() == self.model().region(roi)),
    {
        proof {
            use_type_invariant(self);
        }
        RegionOfInterest::within(self.shape, roi.x, roi.y, roi.width, roi.height)?;
        let bytes_per_pixel = self.pixel_format.bytes_per_pixel().unwrap();
        proof {
            lemma_region(self.model(), roi);
        }
        let start = roi.y as usize * self.stride.0 + roi.x as usize * bytes_per_pixel;
        let required = (roi.height as usize - 1) * self.stride.0 + roi.width as usize
            * bytes_per_pixel;
        let data = &self.data[start..start + required];
        let shape = ImageShape::new(roi.width, roi.height)?;
        Ok(ImageView { shape, pixel_format: self.pixel_format, stride: self.stride, data })
    }

    /// Copies this possibly-strided view into a tightly packed owned buffer.
    pub fn to_owned(&self) -> (result: PerceptionResult<ImageBuffer>)
        ensures
            self.model().is_empty() ==> result == Err::<ImageBuffer, PerceptionError>(self.model().empty_error()),
            !self.model().is_empty() ==> (result matches Ok(buffer) && buffer.wf() && buffer.model()
                == self.model().packed_copy()),
    {
        proof {
            use_type_invariant(self);
            lemma_packed_len(self.model());
        }
        let bytes_per_pixel = self.pixel_format.bytes_per_pixel().unwrap();
        let row_len = self.shape.width as usize * bytes_per_pixel;
        proof {
            assert(row_len * self.shape.height == self.shape.height * row_len) by (nonlinear_arith);
        }
        let mut data: Vec<u8> = Vec::with_capacity(row_len * self.shape.height as usize);
        let ghost m = self.model();
        let mut y: u32 = 0;
        while y < self.shape.height
            invariant
                m == self.model(),
                m.wf(),
                row_len == m.row_len(),
                y <= m.shape.height,
                data@.len() == y * m.row_len(),
                forall|i: int| 0 <= i < data@.len() ==> data@[i] == m.packed()[i],
            decreases m.shape.height - y,
        {
            let row = self.row(y).unwrap();
            let ghost before = data@;
            data.extend_from_slice(row);
            proof {
                lemma_row_in_footprint(m, y as int);
                assert forall|i: int| 0 <= i < data@.len() implies data@[i] == m.packed()[i] by {
                    if i >= before.len() {
                        let k = i - before.len();
                        lemma_packed_index(m, y as int, k);
                        assert(i == y * m.row_len() + k);
                    }
                }
                assert(data@.len() == (y + 1) * m.row_len()) by (nonlinear_arith)
                    requires
                        data@.len() == y * m.row_len() + m.row_len(),
                ;
            }
            y = y + 1;
        }
        proof {
            assert(data@ =~= m.packed());
        }
        ImageBuffer::new(self.shape.width, self.shape.height, self.pixel_format, data)
    }

    /// Returns a checked component offset for u8 interleaved formats.
    pub fn pixel_offset(&self, x: u32, y: u32, channel: usize) -> (result: PerceptionResult<usize>)
        ensures
            self.model().addresses(x as int, y as int, channel as int) ==> result == Ok::<
                usize,
                PerceptionError,
            >(self.model().offset(x as int, y as int, channel as int) as usize),
            !self.model().addresses(x as int, y as int, channel as int) ==> (result matches Err(e)
                && self.model().lookup_error(x, y, channel, e)),
            result matches Ok(index) ==> index < self.model().data.len(),
    {
        proof {
            use_type_invariant(self);
        }
        if !self.pixel_format.is_u8_interleaved() {
            return Err(
                PerceptionError::UnsupportedFormat {
                    operation: "ImageView::pixel_offset",
                    format: self.pixel_format.to_text(),
                },
            );
        }
        if x >= self.shape.width || y >= self.shape.height {
            return Err(
                PerceptionError::OutOfBounds {
                    reason: pixel_exceeds_reason(x, y, self.shape.width, self.shape.height),
                },
            );
        }
        let channels = self.pixel_format.channel_count().unwrap();
        if channel >= channels {
            return Err(
                PerceptionError::OutOfBounds { reason: channel_exceeds_reason(channel, channels) },
            );
        }
        proof {
            crate::types::lemma_u8_interleaved_one_byte_per_channel(self.pixel_format);
            lemma_offset_in_footprint(self.model(), x as int, y as int, channel as int);
        }
        Ok(y as usize * self.stride.0 + x as usize * channels + channel)
    }
}

/// Non-owning mutable image view that can expose checked rows.
#[derive(Debug)]
pub struct ImageViewMut<'a> {
    /// Logical width and height.
    pub shape: ImageShape,
    /// Pixel layout.
    pub pixel_format: PixelFormat,
    /// Distance in bytes between the starts of adjacent rows.
    pub stride: Stride,
    /// The viewed bytes.
    pub data: &'a mut [u8],
}

impl<'a> ImageViewMut<'a> {
    /// The view's shape, layout and bytes.
    pub open spec fn model(&self) -> ImageModel {
        ImageModel {
            shape: self.shape,
            pixel_format: self.pixel_format,
            stride: self.stride.0 as nat,
            data: self.data@,
        }
    }

    /// Returns a checked mutable row containing only the logical width. The view keeps
    /// its storage: what that storage finally holds is unchanged by the call.
    pub fn row_mut(&mut self, y: u32) -> (row: PerceptionResult<&mut [u8]>)
        requires
            old(self).model().wf(),
        ensures
            final(final(self).data)@ == final(old(self).data)@,
            y >= old(self).model().shape.height ==> {
                &&& row matches Err(PerceptionError::OutOfBounds { reason })
                &&& reason@ == row_exceeds_text(y, old(self).model().shape.height)
                &&& final(self).model() == old(self).model()
            },
            y < old(self).model().shape.height ==> {
                let start = y * old(self).model().stride;
                let end = start + old(self).model().row_len();
                &&& row matches Ok(bytes)
                &&& bytes@ == old(self).model().data.subrange(start, end)
                &&& final(self).model().with_data(old(self).model().data) == old(self).model()
                &&& final(self).model().data =~= old(self).model().data.subrange(0, start)
                    + final(bytes)@ + old(self).model().data.subrange(
                    end,
                    old(self).model().data.len() as int,
                )
            },
    {
        if y >= self.shape.height {
            return Err(
                PerceptionError::OutOfBounds { reason: row_exceeds_reason(y, self.shape.height) },
            );
        }
        let bytes_per_pixel = self.pixel_format.bytes_per_pixel().unwrap();
        proof {
            lemma_row_in_footprint(self.model(), y as int);
        }
        let row_bytes = self.shape.width as usize * bytes_per_pixel;
        let start = y as usize * self.stride.0;
        let (head, tail) = self.data.split_at_mut(start);
        let (row, rest) = tail.split_at_mut(row_bytes);
        Ok(row)
    }
}

} // verus!
