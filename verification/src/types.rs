//! Pixel formats, validated shapes, strides and regions of interest.

use std::collections::BTreeMap;

use vstd::prelude::*;

use crate::diagnostics::PipelineTrace;
use crate::error::{PerceptionError, PerceptionResult};
use crate::text::{multiband_reason, multiband_text, roi_outside_reason, roi_outside_text};

verus! {

/// Pixel layouts supported by the owned image model.
#[derive(Clone, Copy, Debug, PartialEq, Eq, Structural)]
pub enum PixelFormat {
    /// One unsigned eight-bit gray channel.
    Gray8,
    /// Three unsigned eight-bit red/green/blue channels.
    Rgb8,
    /// Three unsigned eight-bit blue/green/red channels.
    Bgr8,
    /// Four unsigned eight-bit red/green/blue/alpha channels.
    Rgba8,
    /// Four unsigned eight-bit blue/green/red/alpha channels.
    Bgra8,
    /// One native-endian IEEE 754 f32 gray channel.
    GrayF32,
    /// Three native-endian IEEE 754 f32 red/green/blue channels.
    RgbF32,
    /// Placeholder packed YUV 4:2:0 format; plane layout is not implemented.
    Yuv420,
    /// Placeholder packed YUV 4:2:2 format; plane layout is not implemented.
    Yuv422,
    /// Placeholder packed YUV 4:4:4 format; plane layout is not implemented.
    Yuv444,
    /// Placeholder unsigned sixteen-bit single-channel format.
    U16,
    /// Placeholder IEEE 754 half-float single-channel format.
    F16,
    /// Placeholder IEEE 754 single-float single-channel format.
    F32,
    /// Extension point for interleaved multi-band rasters.
    MultiBand { channels: u8, bytes_per_channel: u8 },
}

impl PixelFormat {
    /// Logical channel count of an interleaved layout; planar YUV layouts have none.
    pub open spec fn spec_channel_count(self) -> Option<usize> {
        match self {
            PixelFormat::Gray8 | PixelFormat::GrayF32 | PixelFormat::U16 | PixelFormat::F16
            | PixelFormat::F32 => Some(1),
            PixelFormat::Rgb8 | PixelFormat::Bgr8 | PixelFormat::RgbF32 | PixelFormat::Yuv444 => Some(
                3,
            ),
            PixelFormat::Rgba8 | PixelFormat::Bgra8 => Some(4),
            PixelFormat::Yuv420 | PixelFormat::Yuv422 => None,
            PixelFormat::MultiBand { channels, .. } => Some(channels as usize),
        }
    }

    /// Bytes of one pixel of an interleaved layout; planar YUV layouts have none.
    pub open spec fn spec_bytes_per_pixel(self) -> Option<usize> {
        match self {
            PixelFormat::Gray8 => Some(1),
            PixelFormat::Rgb8 | PixelFormat::Bgr8 | PixelFormat::Yuv444 => Some(3),
            PixelFormat::Rgba8 | PixelFormat::Bgra8 => Some(4),
            PixelFormat::GrayF32 | PixelFormat::F32 => Some(4),
            PixelFormat::RgbF32 => Some(12),
            PixelFormat::U16 | PixelFormat::F16 => Some(2),
            PixelFormat::Yuv420 | PixelFormat::Yuv422 => None,
            PixelFormat::MultiBand { channels, bytes_per_channel } => Some(
                (channels * bytes_per_channel) as usize,
            ),
        }
    }

    /// The five layouts whose every component is one byte.
    pub open spec fn spec_is_u8_interleaved(self) -> bool {
        self is Gray8 || self is Rgb8 || self is Bgr8 || self is Rgba8 || self is Bgra8
    }

    /// The text that names the format, as its `Debug` rendering spells it.
    pub open spec fn spec_name(self) -> Seq<char> {
        match self {
            PixelFormat::Gray8 => "Gray8"@,
            PixelFormat::Rgb8 => "Rgb8"@,
            PixelFormat::Bgr8 => "Bgr8"@,
            PixelFormat::Rgba8 => "Rgba8"@,
            PixelFormat::Bgra8 => "Bgra8"@,
            PixelFormat::GrayF32 => "GrayF32"@,
            PixelFormat::RgbF32 => "RgbF32"@,
            PixelFormat::Yuv420 => "Yuv420"@,
            PixelFormat::Yuv422 => "Yuv422"@,
            PixelFormat::Yuv444 => "Yuv444"@,
            PixelFormat::U16 => "U16"@,
            PixelFormat::F16 => "F16"@,
            PixelFormat::F32 => "F32"@,
            PixelFormat::MultiBand { channels, bytes_per_channel } => multiband_text(
                channels,
                bytes_per_channel,
            ),
        }
    }

    /// Number of logical channels for supported interleaved layouts.
    pub fn channel_count(self) -> (count: Option<usize>)
        ensures
            count == self.spec_channel_count(),
    {
        match self {
            PixelFormat::Gray8 | PixelFormat::GrayF32 | PixelFormat::U16 | PixelFormat::F16
            | PixelFormat::F32 => Some(1),
            PixelFormat::Rgb8 | PixelFormat::Bgr8 | PixelFormat::RgbF32 | PixelFormat::Yuv444 => Some(
                3,
            ),
            PixelFormat::Rgba8 | PixelFormat::Bgra8 => Some(4),
            PixelFormat::Yuv420 | PixelFormat::Yuv422 => None,
            PixelFormat::MultiBand { channels, .. } => Some(channels as usize),
        }
    }

    /// Bytes required for one pixel for supported interleaved layouts.
    pub fn bytes_per_pixel(self) -> (bytes: Option<usize>)
        ensures
            bytes == self.spec_bytes_per_pixel(),
    {
        match self {
            PixelFormat::Gray8 => Some(1),
            PixelFormat::Rgb8 | PixelFormat::Bgr8 | PixelFormat::Yuv444 => Some(3),
            PixelFormat::Rgba8 | PixelFormat::Bgra8 => Some(4),
            PixelFormat::GrayF32 | PixelFormat::F32 => Some(4),
            PixelFormat::RgbF32 => Some(12),
            PixelFormat::U16 | PixelFormat::F16 => Some(2),
            PixelFormat::Yuv420 | PixelFormat::Yuv422 => None,
            PixelFormat::MultiBand { channels, bytes_per_channel } => {
                assert(channels * bytes_per_channel <= 255 * 255) by (nonlinear_arith)
                    requires
                        channels <= 255,
                        bytes_per_channel <= 255,
                ;
                Some(channels as usize * bytes_per_channel as usize)
            },
        }
    }

    /// Returns true for operations that work on interleaved u8 pixels.
    pub fn is_u8_interleaved(self) -> (interleaved: bool)
        ensures
            interleaved == self.spec_is_u8_interleaved(),
    {
        match self {
            PixelFormat::Gray8 | PixelFormat::Rgb8 | PixelFormat::Bgr8 | PixelFormat::Rgba8
            | PixelFormat::Bgra8 => true,
            _ => false,
        }
    }

    /// The format's name, as `Display` renders it.
    pub fn to_text(self) -> (text: String)
        ensures
            text@ == self.spec_name(),
    {
        match self {
            PixelFormat::Gray8 => String::from_str("Gray8"),
            PixelFormat::Rgb8 => String::from_str("Rgb8"),
            PixelFormat::Bgr8 => String::from_str("Bgr8"),
            PixelFormat::Rgba8 => String::from_str("Rgba8"),
            PixelFormat::Bgra8 => String::from_str("Bgra8"),
            PixelFormat::GrayF32 => String::from_str("GrayF32"),
            PixelFormat::RgbF32 => String::from_str("RgbF32"),
            PixelFormat::Yuv420 => String::from_str("Yuv420"),
            PixelFormat::Yuv422 => String::from_str("Yuv422"),
            PixelFormat::Yuv444 => String::from_str("Yuv444"),
            PixelFormat::U16 => String::from_str("U16"),
            PixelFormat::F16 => String::from_str("F16"),
            PixelFormat::F32 => String::from_str("F32"),
            PixelFormat::MultiBand { channels, bytes_per_channel } => multiband_reason(
                channels,
                bytes_per_channel,
            ),
        }
    }
}

/// Every u8-interleaved format stores exactly one byte per channel.
pub proof fn lemma_u8_interleaved_one_byte_per_channel(format: PixelFormat)
    requires
        format.spec_is_u8_interleaved(),
    ensures
        format.spec_channel_count() is Some,
        format.spec_bytes_per_pixel() == format.spec_channel_count(),
        1 <= format.spec_channel_count().unwrap() <= 4,
{
}

/// Validated image width and height.
#[derive(Clone, Copy, Debug, PartialEq, Eq, Structural)]
pub struct ImageShape {
    /// Pixel width.
    pub width: u32,
    /// Pixel height.
    pub height: u32,
}

impl ImageShape {
    /// Creates non-zero image dimensions.
    pub fn new(width: u32, height: u32) -> (shape: PerceptionResult<Self>)
        ensures
            width == 0 || height == 0 ==> shape == Err::<Self, PerceptionError>(
                PerceptionError::InvalidDimensions { width, height },
            ),
            width != 0 && height != 0 ==> shape == Ok::<Self, PerceptionError>(
                ImageShape { width, height },
            ),
    {
        if width == 0 || height == 0 {
            return Err(PerceptionError::InvalidDimensions { width, height });
        }
        Ok(Self { width, height })
    }
}

/// Validated byte distance between adjacent image rows.
#[derive(Clone, Copy, Debug, PartialEq, Eq, Structural)]
pub struct Stride(pub usize);

/// Region within an image, measured in pixels.
#[derive(Clone, Copy, Debug, PartialEq, Eq, Structural)]
pub struct RegionOfInterest {
    /// Left edge in pixels.
    pub x: u32,
    /// Top edge in pixels.
    pub y: u32,
    /// Width in pixels.
    pub width: u32,
    /// Height in pixels.
    pub height: u32,
}

impl RegionOfInterest {
    /// A non-empty region that lies inside a shape.
    pub open spec fn fits(shape: ImageShape, x: u32, y: u32, width: u32, height: u32) -> bool {
        &&& width != 0
        &&& height != 0
        &&& x + width <= shape.width
        &&& y + height <= shape.height
    }

    /// Creates a region and validates it against an image shape.
    pub fn within(shape: ImageShape, x: u32, y: u32, width: u32, height: u32) -> (roi:
        PerceptionResult<Self>)
        ensures
            Self::fits(shape, x, y, width, height) ==> roi == Ok::<Self, PerceptionError>(
                RegionOfInterest { x, y, width, height },
            ),
            !Self::fits(shape, x, y, width, height) ==> (roi matches Err(
                PerceptionError::OutOfBounds { reason },
            ) && reason@ == roi_outside_text(x, y, width, height, shape.width, shape.height)),
    {
        let right_outside = match x.checked_add(width) {
            None => true,
            Some(right) => right > shape.width,
        };
        let bottom_outside = match y.checked_add(height) {
            None => true,
            Some(bottom) => bottom > shape.height,
        };
        if width == 0 || height == 0 || right_outside || bottom_outside {
            return Err(
                PerceptionError::OutOfBounds {
                    reason: roi_outside_reason(x, y, width, height, shape.width, shape.height),
                },
            );
        }
        Ok(Self { x, y, width, height })
    }
}

/// Stable identifier for an observation supplied to the pipeline.
#[derive(Clone, Debug, PartialEq, Eq, PartialOrd, Ord, Hash)]
pub struct ObservationId(pub String);

/// Timestamp supplied by an input provider in Unix milliseconds or another declared epoch.
#[derive(Clone, Copy, Debug, PartialEq, Eq, PartialOrd, Ord, Hash)]
pub struct Timestamp(pub i64);

/// Monotonic frame index within an input sequence.
#[derive(Clone, Copy, Debug, Default, PartialEq, Eq, PartialOrd, Ord, Hash)]
pub struct FrameIndex(pub u64);

/// Origin of an observation. New variants can be represented by `External`.
#[derive(Clone, Debug, PartialEq, Eq)]
pub enum ObservationSource {
    /// Live camera source.
    Camera,
    /// File or local media source.
    File,
    /// Video sequence source.
    Video,
    /// Generic sensor source.
    Sensor,
    /// Network-delivered source.
    Network,
    /// Future or domain-specific source.
    External(String),
}

/// Device information that may affect quality, timing, or model routing.
#[derive(Clone, Debug, Default, PartialEq, Eq)]
pub struct DeviceMetadata {
    /// Stable device family or class identifier.
    pub device_class: Option<String>,
    /// Optional vendor/model identifier.
    pub model: Option<String>,
    /// Extensible capability metadata.
    pub attributes: BTreeMap<String, String>,
}

/// Processing information carried with an observation without binding to a UI platform.
#[derive(Clone, Debug, Default, PartialEq, Eq)]
pub struct ProcessingMetadata {
    /// Optional run identifier.
    pub run_id: Option<String>,
    /// Trace carried forward by an orchestrator.
    pub trace: PipelineTrace,
    /// Extensible processing metadata.
    pub attributes: BTreeMap<String, String>,
}

/// Extensible metadata attached to an observation without leaking domain fields into core.
#[derive(Clone, Debug, Default, PartialEq, Eq)]
pub struct ObservationMetadata {
    /// Timestamp supplied by the input provider.
    pub timestamp: Option<Timestamp>,
    /// Sequence position when available.
    pub frame_index: Option<FrameIndex>,
    /// Input source.
    pub source: Option<ObservationSource>,
    /// Device properties.
    pub device: Option<DeviceMetadata>,
    /// Processing trace and run metadata.
    pub processing: ProcessingMetadata,
    /// Domain-neutral extension fields.
    pub attributes: BTreeMap<String, String>,
}

/// Descriptor for a future raster payload that need not be a 2D image buffer.
#[derive(Clone, Debug, PartialEq, Eq)]
pub struct RasterDescriptor {
    /// Raster dimensions.
    pub dimensions: Vec<u32>,
    /// Band count.
    pub bands: u32,
}

/// Descriptor for a future volume payload.
#[derive(Clone, Debug, PartialEq, Eq)]
pub struct VolumeDescriptor {
    /// Voxel dimensions.
    pub dimensions: [u32; 3],
    /// Scalar encoding name.
    pub scalar_type: String,
}

/// Standard quality metrics shared by all domain packs.
#[derive(Clone, Debug, PartialEq)]
pub enum QualityMetric {
    /// Blur measure.
    Blur,
    /// Noise measure.
    Noise,
    /// Exposure measure.
    Exposure,
    /// Saturation measure.
    Saturation,
    /// Contrast measure.
    Contrast,
    /// Motion measure.
    Motion,
    /// Glare measure.
    Glare,
    /// Occlusion measure.
    Occlusion,
    /// Confidence measure.
    Confidence,
    /// Domain-defined metric.
    DomainSpecific(String),
}

/// A binary image mask; coordinate mapping belongs to associated output.
#[derive(Clone, Debug, PartialEq)]
pub struct Mask {
    /// Width.
    pub width: u32,
    /// Height.
    pub height: u32,
    /// One byte per mask sample.
    pub values: Vec<u8>,
}

/// How a detector obtained a candidate.
#[derive(Clone, Debug, PartialEq, Eq)]
pub enum DetectionSource {
    /// Classical algorithm.
    Classical,
    /// Machine-learning runtime.
    Ml,
    /// Temporal estimator.
    Temporal,
    /// User correction.
    Manual,
    /// Other module.
    External(String),
}

/// Domain-selected mathematical reconstruction model.
#[derive(Clone, Debug, PartialEq, Eq)]
pub enum GeometryModel {
    /// Planar model.
    Planar,
    /// Surface model.
    Surface,
    /// Volume model.
    Volumetric,
    /// Geospatial model.
    Geospatial,
    /// Photogrammetric model.
    Photogrammetric,
    /// Domain-defined model.
    Custom(String),
}

/// Ordered processor identifiers selected by the router.
#[derive(Clone, Debug, Default, PartialEq)]
pub struct ProcessingPlan {
    /// Processor ids.
    pub processor_ids: Vec<String>,
    /// Diagnostics.
    pub diagnostics: Vec<String>,
}

/// Exportable, domain-owned structured output.
#[derive(Clone, Debug, Default, PartialEq)]
pub struct StructuredOutput {
    /// Schema identifier.
    pub schema: String,
    /// Serialized payload.
    pub payload: String,
    /// Diagnostics.
    pub diagnostics: Vec<String>,
}

/// Immutable per-run context passed across pipeline stages.
#[derive(Clone, Debug, Default, PartialEq)]
pub struct PipelineContext {
    /// Run id.
    pub run_id: String,
    /// Selected domain pack id.
    pub domain: String,
    /// Extension attributes.
    pub attributes: BTreeMap<String, String>,
}

/// Ordered pipeline stages. Packs may intentionally omit stages.
#[derive(Clone, Copy, Debug, PartialEq, Eq, Structural)]
pub enum PipelineStage {
    /// Input acquisition.
    Input,
    /// Quality analysis.
    Quality,
    /// Candidate detection.
    Detection,
    /// Candidate fusion.
    Fusion,
    /// Precision refinement.
    Refinement,
    /// Temporal update.
    Temporal,
    /// Geometry reconstruction.
    Reconstruction,
    /// Condition analysis.
    Condition,
    /// Processor routing.
    Routing,
    /// Restoration.
    Restoration,
    /// Semantic analysis.
    Semantics,
    /// Structured export.
    Export,
}

/// Installs domain-specific behavior while retaining generic core contracts.
pub trait DomainPack {
    /// Stable pack identifier.
    fn id(&self) -> &str;

    /// Stages the pack implements, in pipeline order.
    fn supported_stages(&self) -> &[PipelineStage];

    /// Identifier of the schema the pack exports.
    fn output_schema(&self) -> &str;
}

} // verus!
