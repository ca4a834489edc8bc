//! Runtime bridge shared by the C and WASM bindings: image decoding and materialization,
//! request validation, configuration parsing and the stable wire labels.

use vstd::prelude::*;
use vstd::string::{StringExecFns, StringSliceAdditionalSpecFns};

use crate::boundary::{BoundaryDiagnosticStatus, BoundaryKind};
use crate::buffer::{ImageBuffer, ImageModel};
use crate::error::{error_text, PerceptionError};
use crate::readiness::{CaptureGuidance, CaptureReadiness};
use crate::text::{text_is, text_of};
use crate::types::{ImageShape, PixelFormat, Stride};

verus! {

/// Maximum decoded image bytes accepted by the runtime bridge before image allocation.
pub const MAX_RUNTIME_IMAGE_BYTES: usize = 64 * 1024 * 1024;

/// Maximum accepted size of a JSON request, in bytes.
pub const MAX_REQUEST_BYTES: usize = 256 * 1024;

/// Runtime image as exchanged with bindings.
#[derive(Clone, Debug, PartialEq)]
pub struct RuntimeImage {
    /// Pixel width.
    pub width: u32,
    /// Pixel height.
    pub height: u32,
    /// Bytes between row starts.
    pub stride: u32,
    /// Pixel format name.
    pub pixel_format: String,
    /// Backing bytes, `stride * height` of them.
    pub bytes: Vec<u8>,
}

/// Implemented document filter request.
#[derive(Clone, Debug, PartialEq)]
pub struct ApplyFilterRequest {
    /// Preset name, such as `"clean"` or `"B&W"`.
    pub preset: String,
}

/// Restoration output; advanced requests return an explicit deferred diagnostic.
#[derive(Clone, Debug, PartialEq)]
pub struct ApplyFilterResponse {
    /// Wire schema version.
    pub schema_version: u32,
    /// Engine name.
    pub engine: String,
    /// Engine mode.
    pub engine_mode: String,
    /// Filtered image.
    pub image: RuntimeImage,
    /// Processors applied, in order.
    pub applied_processor_ids: Vec<String>,
    /// Diagnostics.
    pub diagnostics: Vec<String>,
}

/// Structured runtime error response shared by C and WASM adapters.
#[derive(Clone, Debug, PartialEq)]
pub struct RuntimeError {
    /// Wire schema version.
    pub schema_version: u32,
    /// The failure.
    pub error: RuntimeDiagnostic,
}

/// Runtime failure diagnostic; image bytes are intentionally never included.
#[derive(Clone, Debug, PartialEq)]
pub struct RuntimeDiagnostic {
    /// Machine-readable code.
    pub code: String,
    /// Human-readable message.
    pub message: String,
}

/// Document filter presets the runtime accepts.
#[derive(Clone, Copy, Debug, PartialEq, Eq, Structural)]
pub enum DocumentFilterPreset {
    /// The image as captured.
    Original,
    /// Automatically chosen cleanup.
    Auto,
    /// Clean document background.
    Clean,
    /// Color document.
    Color,
    /// Gray levels only.
    Grayscale,
    /// Two-level black and white.
    BlackAndWhite,
    /// Narrow thermal receipts.
    Receipt,
    /// Bound book pages.
    Book,
    /// Whiteboards.
    Whiteboard,
    /// Photographed documents.
    PhotoDocument,
}

/// Output aspect-ratio policies the runtime accepts.
#[derive(Clone, Copy, Debug, PartialEq, Eq, Structural)]
pub enum AspectRatioPolicy {
    /// Aspect ratio measured from the selected quad.
    FreeFromQuad,
}

/// Output orientation policies the runtime accepts.
#[derive(Clone, Copy, Debug, PartialEq, Eq, Structural)]
pub enum OrientationPolicy {
    /// Keep the source orientation.
    PreserveSource,
    /// Rotate so that the long edge is vertical.
    LongEdgeVertical,
    /// Rotate so that the long edge is horizontal.
    LongEdgeHorizontal,
}

/// Crop margin policies the runtime accepts.
#[derive(Clone, Copy, Debug, PartialEq, Eq, Structural)]
pub enum CropMarginPolicy {
    /// No margin (wire name `"none"`).
    NoMargin,
    /// Crop slightly inside the page edges.
    SafeInner,
    /// Keep the page border.
    IncludeBorder,
}

/// Thin runtime engine; algorithms stay in their owning modules.
#[derive(Clone, Debug, Default)]
pub struct RuntimeEngine;

/// What parsing `text` as a JSON document gives: `Ok(is_object)` when it is valid JSON,
/// otherwise `Err` with the parser's error message.
pub uninterp spec fn json_document_kind(text: Seq<char>) -> Result<bool, Seq<char>>;

/// Views a parse outcome with its message as characters.
pub open spec fn parse_view(outcome: Result<bool, String>) -> Result<bool, Seq<char>> {
    match outcome {
        Ok(is_object) => Ok(is_object),
        Err(message) => Err(message@),
    }
}

/// Calls `serde_json::from_str::<serde_json::Value>` on `text` and reports whether the
/// parsed value is a JSON object, or the parse error's `Display` text; the contract claims
/// only that this outcome is the one named by `json_document_kind` for the text.
#[verifier::external_body]
fn parse_json_document(text: &str) -> (outcome: Result<bool, String>)
    ensures
        parse_view(outcome) == json_document_kind(text@),
{
    match serde_json::from_str::<serde_json::Value>(text) {
        Ok(serde_json::Value::Object(_)) => Ok(true),
        Ok(serde_json::Value::Null) => Ok(false),
        Ok(serde_json::Value::Bool(_)) => Ok(false),
        Ok(serde_json::Value::Number(_)) => Ok(false),
        Ok(serde_json::Value::String(_)) => Ok(false),
        Ok(serde_json::Value::Array(_)) => Ok(false),
        Err(error) => Err(error.to_string()),
    }
}

/// The outcome of configuring an engine from a parse outcome of its configuration.
pub open spec fn engine_outcome(parsed: Result<bool, Seq<char>>) -> Result<(), Seq<char>> {
    match parsed {
        Ok(true) => Ok(()),
        Ok(false) => Err("config JSON must be an object"@),
        Err(message) => Err("invalid config JSON: "@ + message),
    }
}

/// Views an engine result as its outcome.
pub open spec fn engine_result_view(result: Result<RuntimeEngine, String>) -> Result<(), Seq<char>> {
    match result {
        Ok(_) => Ok(()),
        Err(message) => Err(message@),
    }
}

impl RuntimeEngine {
    /// Configures an engine from the outcome of parsing its JSON configuration: only a
    /// JSON object is accepted.
    pub fn from_parsed_config(parsed: Result<bool, String>) -> (result: Result<RuntimeEngine, String>)
        ensures
            engine_result_view(result) == engine_outcome(parse_view(parsed)),
    {
        match parsed {
            Ok(true) => Ok(RuntimeEngine),
            Ok(false) => Err(text_of("config JSON must be an object")),
            Err(message) => {
                let text = text_of("invalid config JSON: ");
                Err(text.concat(message.as_str()))
            },
        }
    }

    /// Parses and bounds the configuration object; no unchecked tuning knobs are exposed.
    pub fn new(config_json: &str) -> (result: Result<RuntimeEngine, String>)
        ensures
            engine_result_view(result) == engine_outcome(json_document_kind(config_json@)),
    {
        let parsed = parse_json_document(config_json);
        Self::from_parsed_config(parsed)
    }
}

/// Default reconstruction long edge, in pixels.
pub fn default_output_long_edge() -> (edge: u32)
    ensures
        edge == 1600,
{
    1600
}

/// `text` with ASCII capitals mapped to lower case and every other character unchanged.
pub open spec fn ascii_lowercase(text: Seq<char>) -> Seq<char> {
    text.map_values(|c: char| if 'A' <= c && c <= 'Z' {
        ((c as int) + 32) as char
    } else {
        c
    })
}

/// Calls `str::to_ascii_lowercase` (std), whose documentation states that ASCII letters
/// 'A' to 'Z' are mapped to 'a' to 'z' and every other character is unchanged.
#[verifier::external_body]
fn to_ascii_lowercase(text: &str) -> (lower: String)
    ensures
        lower@ == ascii_lowercase(text@),
{
    text.to_ascii_lowercase()
}

/// Lower-casing is idempotent, so a format name and its lower-case form select the same
/// pixel format: runtime format names are matched without regard to ASCII case.
pub proof fn lemma_format_ignores_case(name: Seq<char>)
    ensures
        ascii_lowercase(ascii_lowercase(name)) == ascii_lowercase(name),
        runtime_format(ascii_lowercase(ascii_lowercase(name))) == runtime_format(ascii_lowercase(name)),
{
    assert(ascii_lowercase(ascii_lowercase(name)) =~= ascii_lowercase(name));
}

/// The pixel format a lower-cased runtime format name selects.
pub open spec fn runtime_format(lower: Seq<char>) -> Option<PixelFormat> {
    if lower == "gray8"@ || lower == "gray_8"@ {
        Some(PixelFormat::Gray8)
    } else if lower == "rgb8"@ || lower == "rgb_8"@ {
        Some(PixelFormat::Rgb8)
    } else if lower == "bgr8"@ || lower == "bgr_8"@ {
        Some(PixelFormat::Bgr8)
    } else if lower == "rgba8"@ || lower == "rgba_8"@ {
        Some(PixelFormat::Rgba8)
    } else {
        None
    }
}

/// Selects the pixel format named by `pixel_format`, ignoring ASCII case.
pub fn parse_runtime_format(pixel_format: &str) -> (format: Option<PixelFormat>)
    ensures
        format == runtime_format(ascii_lowercase(pixel_format@)),
{
    let lower = to_ascii_lowercase(pixel_format);
    if text_is(&lower, "gray8") || text_is(&lower, "gray_8") {
        Some(PixelFormat::Gray8)
    } else if text_is(&lower, "rgb8") || text_is(&lower, "rgb_8") {
        Some(PixelFormat::Rgb8)
    } else if text_is(&lower, "bgr8") || text_is(&lower, "bgr_8") {
        Some(PixelFormat::Bgr8)
    } else if text_is(&lower, "rgba8") || text_is(&lower, "rgba_8") {
        Some(PixelFormat::Rgba8)
    } else {
        None
    }
}

/// What decoding raw runtime pixels gives: the image's model, or the error message.
pub open spec fn decode_outcome(bytes: Seq<u8>, width: u32, height: u32, stride: u32, pixel_format: Seq<char>) -> Result<
    ImageModel,
    Seq<char>,
> {
    if bytes.len() > MAX_RUNTIME_IMAGE_BYTES {
        Err("image exceeds 67108864 byte runtime limit"@)
    } else {
        match runtime_format(ascii_lowercase(pixel_format)) {
            None => Err("unsupported runtime pixel format: "@ + pixel_format),
            Some(format) => {
                let minimum = width * format.spec_bytes_per_pixel().unwrap();
                let expected = stride * height;
                if width == 0 || height == 0 {
                    Err(error_text(PerceptionError::InvalidDimensions { width, height }))
                } else if minimum > usize::MAX {
                    Err(error_text(PerceptionError::Overflow))
                } else if stride < minimum {
                    Err(error_text(PerceptionError::StrideMismatch { minimum: minimum as usize, actual: stride as usize }))
                } else if expected > usize::MAX {
                    Err(error_text(PerceptionError::Overflow))
                } else if bytes.len() != expected {
                    Err(error_text(PerceptionError::InvalidBuffer { expected: expected as usize, actual: bytes.len() as usize }))
                } else {
                    Ok(
                        ImageModel {
                            shape: ImageShape { width, height },
                            pixel_format: format,
                            stride: stride as nat,
                            data: bytes,
                        },
                    )
                }
            },
        }
    }
}

/// Decodes raw runtime pixels into a checked image buffer.
pub fn decode_image(bytes: &[u8], width: u32, height: u32, stride: u32, pixel_format: &str) -> (result: Result<
    ImageBuffer,
    String,
>)
    ensures
        match decode_outcome(bytes@, width, height, stride, pixel_format@) {
            Ok(model) => result matches Ok(image) && image.wf() && image.model() == model,
            Err(message) => result matches Err(text) && text@ == message,
        },
{
    if bytes.len() > MAX_RUNTIME_IMAGE_BYTES {
        return Err(text_of("image exceeds 67108864 byte runtime limit"));
    }
    let format = match parse_runtime_format(pixel_format) {
        Some(format) => format,
        None => {
            let text = text_of("unsupported runtime pixel format: ");
            return Err(text.concat(pixel_format));
        },
    };
    let shape = match ImageShape::new(width, height) {
        Ok(shape) => shape,
        Err(error) => {
            return Err(error.to_text());
        },
    };
    match ImageBuffer::new_with_stride(shape, format, Stride(stride as usize), vstd::slice::slice_to_vec(bytes)) {
        Ok(image) => Ok(image),
        Err(error) => Err(error.to_text()),
    }
}

/// The fields a materialized runtime image carries for a model, if its stride fits `u32`.
pub open spec fn runtime_fields(m: ImageModel) -> Option<(u32, u32, u32, Seq<char>, Seq<u8>)> {
    if m.stride > u32::MAX {
        None
    } else {
        Some((m.shape.width, m.shape.height, m.stride as u32, m.pixel_format.spec_name(), m.data))
    }
}

/// Views a runtime image as its fields.
pub open spec fn runtime_image_fields(image: RuntimeImage) -> (u32, u32, u32, Seq<char>, Seq<u8>) {
    (image.width, image.height, image.stride, image.pixel_format@, image.bytes@)
}

/// Materializes an image buffer for the bindings.
pub fn runtime_image(image: &ImageBuffer) -> (result: Result<RuntimeImage, String>)
    requires
        image.wf(),
    ensures
        match runtime_fields(image.model()) {
            Some(fields) => result matches Ok(materialized) && runtime_image_fields(materialized) == fields,
            None => result matches Err(message) && message@ == "stride exceeds u32"@,
        },
{
    let stride = image.stride().0;
    if stride > u32::MAX as usize {
        return Err(text_of("stride exceeds u32"));
    }
    Ok(
        RuntimeImage {
            width: image.width(),
            height: image.height(),
            stride: stride as u32,
            pixel_format: image.pixel_format().to_text(),
            bytes: vstd::slice::slice_to_vec(image.as_bytes()),
        },
    )
}

/// Decoding and then materializing an image gives back the caller's dimensions, stride and
/// bytes, with the format under its canonical name.
pub proof fn lemma_decode_then_materialize(bytes: Seq<u8>, width: u32, height: u32, stride: u32, pixel_format: Seq<char>)
    requires
        decode_outcome(bytes, width, height, stride, pixel_format) is Ok,
    ensures
        runtime_fields(decode_outcome(bytes, width, height, stride, pixel_format)->Ok_0) == Some(
            (
                width,
                height,
                stride,
                runtime_format(ascii_lowercase(pixel_format)).unwrap().spec_name(),
                bytes,
            ),
        ),
{
}

/// Rejects requests larger than [`MAX_REQUEST_BYTES`].
pub fn check_request_size(json: &str, name: &str) -> (result: Result<(), String>)
    ensures
        json.len() > MAX_REQUEST_BYTES ==> (result matches Err(message) && message@ == name@
            + " exceeds 262144 bytes"@),
        json.len() <= MAX_REQUEST_BYTES ==> result is Ok,
{
    if json.len() > MAX_REQUEST_BYTES {
        let text = text_of(name);
        return Err(text.concat(" exceeds 262144 bytes"));
    }
    Ok(())
}

/// Accepts reconstruction long edges within `256..=4096`.
pub fn check_output_long_edge(edge: u32) -> (result: Result<(), String>)
    ensures
        256 <= edge <= 4096 ==> result is Ok,
        !(256 <= edge <= 4096) ==> (result matches Err(message) && message@ == "output_long_edge must be within 256..=4096"@),
{
    if edge < 256 || edge > 4096 {
        return Err(text_of("output_long_edge must be within 256..=4096"));
    }
    Ok(())
}

/// The filter preset a request name selects.
pub open spec fn filter_preset(name: Seq<char>) -> Option<DocumentFilterPreset> {
    if name == "Original"@ || name == "original"@ {
        Some(DocumentFilterPreset::Original)
    } else if name == "Auto"@ || name == "auto"@ {
        Some(DocumentFilterPreset::Auto)
    } else if name == "Clean"@ || name == "clean"@ {
        Some(DocumentFilterPreset::Clean)
    } else if name == "Color"@ || name == "color"@ {
        Some(DocumentFilterPreset::Color)
    } else if name == "Grayscale"@ || name == "grayscale"@ {
        Some(DocumentFilterPreset::Grayscale)
    } else if name == "B&W"@ || name == "black_and_white"@ || name == "black-and-white"@ {
        Some(DocumentFilterPreset::BlackAndWhite)
    } else if name == "Receipt"@ || name == "receipt"@ {
        Some(DocumentFilterPreset::Receipt)
    } else if name == "Book"@ || name == "book"@ {
        Some(DocumentFilterPreset::Book)
    } else if name == "Whiteboard"@ || name == "whiteboard"@ {
        Some(DocumentFilterPreset::Whiteboard)
    } else if name == "PhotoDocument"@ || name == "photo_document"@ {
        Some(DocumentFilterPreset::PhotoDocument)
    } else {
        None
    }
}

/// Selects the filter preset named by a request.
pub fn parse_filter(value: &str) -> (result: Result<DocumentFilterPreset, String>)
    ensures
        match filter_preset(value@) {
            Some(preset) => result == Ok::<DocumentFilterPreset, String>(preset),
            None => result matches Err(message) && message@ == "unsupported filter preset: "@ + value@,
        },
{
    let name = text_of(value);
    if text_is(&name, "Original") || text_is(&name, "original") {
        Ok(DocumentFilterPreset::Original)
    } else if text_is(&name, "Auto") || text_is(&name, "auto") {
        Ok(DocumentFilterPreset::Auto)
    } else if text_is(&name, "Clean") || text_is(&name, "clean") {
        Ok(DocumentFilterPreset::Clean)
    } else if text_is(&name, "Color") || text_is(&name, "color") {
        Ok(DocumentFilterPreset::Color)
    } else if text_is(&name, "Grayscale") || text_is(&name, "grayscale") {
        Ok(DocumentFilterPreset::Grayscale)
    } else if text_is(&name, "B&W") || text_is(&name, "black_and_white") || text_is(&name, "black-and-white") {
        Ok(DocumentFilterPreset::BlackAndWhite)
    } else if text_is(&name, "Receipt") || text_is(&name, "receipt") {
        Ok(DocumentFilterPreset::Receipt)
    } else if text_is(&name, "Book") || text_is(&name, "book") {
        Ok(DocumentFilterPreset::Book)
    } else if text_is(&name, "Whiteboard") || text_is(&name, "whiteboard") {
        Ok(DocumentFilterPreset::Whiteboard)
    } else if text_is(&name, "PhotoDocument") || text_is(&name, "photo_document") {
        Ok(DocumentFilterPreset::PhotoDocument)
    } else {
        let text = text_of("unsupported filter preset: ");
        Err(text.concat(value))
    }
}

/// The name a policy option selects, or `default` when it is absent.
pub open spec fn option_or(value: Option<&str>, default: &str) -> Seq<char> {
    match value {
        Some(text) => text@,
        None => default@,
    }
}

/// Selects the aspect-ratio policy; only `"free_from_quad"` (the default) is supported.
pub fn parse_aspect(value: Option<&str>) -> (result: Result<AspectRatioPolicy, String>)
    ensures
        option_or(value, "free_from_quad") == "free_from_quad"@ ==> result == Ok::<AspectRatioPolicy, String>(
            AspectRatioPolicy::FreeFromQuad,
        ),
        option_or(value, "free_from_quad") != "free_from_quad"@ ==> (result matches Err(message) && message@
            == "unsupported aspect_policy for MP10 runtime"@),
{
    let name = match value {
        Some(text) => text_of(text),
        None => text_of("free_from_quad"),
    };
    if text_is(&name, "free_from_quad") {
        Ok(AspectRatioPolicy::FreeFromQuad)
    } else {
        Err(text_of("unsupported aspect_policy for MP10 runtime"))
    }
}

/// The orientation policy a name selects.
pub open spec fn orientation_policy(name: Seq<char>) -> Option<OrientationPolicy> {
    if name == "preserve_source"@ {
        Some(OrientationPolicy::PreserveSource)
    } else if name == "long_edge_vertical"@ {
        Some(OrientationPolicy::LongEdgeVertical)
    } else if name == "long_edge_horizontal"@ {
        Some(OrientationPolicy::LongEdgeHorizontal)
    } else {
        None
    }
}

/// Selects the orientation policy; `"preserve_source"` is the default.
pub fn parse_orientation(value: Option<&str>) -> (result: Result<OrientationPolicy, String>)
    ensures
        match orientation_policy(option_or(value, "preserve_source")) {
            Some(policy) => result == Ok::<OrientationPolicy, String>(policy),
            None => result matches Err(message) && message@ == "unsupported orientation_policy for MP10 runtime"@,
        },
{
    let name = match value {
        Some(text) => text_of(text),
        None => text_of("preserve_source"),
    };
    if text_is(&name, "preserve_source") {
        Ok(OrientationPolicy::PreserveSource)
    } else if text_is(&name, "long_edge_vertical") {
        Ok(OrientationPolicy::LongEdgeVertical)
    } else if text_is(&name, "long_edge_horizontal") {
        Ok(OrientationPolicy::LongEdgeHorizontal)
    } else {
        Err(text_of("unsupported orientation_policy for MP10 runtime"))
    }
}

/// The crop margin policy a name selects.
pub open spec fn margin_policy(name: Seq<char>) -> Option<CropMarginPolicy> {
    if name == "none"@ {
        Some(CropMarginPolicy::NoMargin)
    } else if name == "safe_inner"@ {
        Some(CropMarginPolicy::SafeInner)
    } else if name == "include_border"@ {
        Some(CropMarginPolicy::IncludeBorder)
    } else {
        None
    }
}

/// Selects the crop margin policy; `"safe_inner"` is the default.
pub fn parse_margin(value: Option<&str>) -> (result: Result<CropMarginPolicy, String>)
    ensures
        match margin_policy(option_or(value, "safe_inner")) {
            Some(policy) => result == Ok::<CropMarginPolicy, String>(policy),
            None => result matches Err(message) && message@ == "unsupported crop_margin_policy for MP10 runtime"@,
        },
{
    let name = match value {
        Some(text) => text_of(text),
        None => text_of("safe_inner"),
    };
    if text_is(&name, "none") {
        Ok(CropMarginPolicy::NoMargin)
    } else if text_is(&name, "safe_inner") {
        Ok(CropMarginPolicy::SafeInner)
    } else if text_is(&name, "include_border") {
        Ok(CropMarginPolicy::IncludeBorder)
    } else {
        Err(text_of("unsupported crop_margin_policy for MP10 runtime"))
    }
}

/// Builds the structured error response for `code` and `message`.
pub fn runtime_error(code: &str, message: &str) -> (error: RuntimeError)
    ensures
        error.schema_version == 1,
        error.error.code@ == code@,
        error.error.message@ == message@,
{
    RuntimeError { schema_version: 1, error: RuntimeDiagnostic { code: text_of(code), message: text_of(message) } }
}

/// Wire label of a guidance item.
pub open spec fn guidance_label(value: CaptureGuidance) -> Seq<char> {
    match value {
        CaptureGuidance::NoDocument => "NO_DOCUMENT"@,
        CaptureGuidance::DocumentCutOff => "DOCUMENT_CUT_OFF"@,
        CaptureGuidance::MoveCloser => "MOVE_CLOSER"@,
        CaptureGuidance::MoveFarther => "MOVE_FARTHER"@,
        CaptureGuidance::HoldSteady => "HOLD_STEADY"@,
        CaptureGuidance::TooBlurry => "TOO_BLURRY"@,
        CaptureGuidance::TooDark => "TOO_DARK"@,
        CaptureGuidance::TooBright => "TOO_BRIGHT"@,
        CaptureGuidance::GlareDetected => "GLARE_DETECTED"@,
        CaptureGuidance::LowConfidence => "LOW_CONFIDENCE"@,
        CaptureGuidance::LowDetectorAgreement => "LOW_DETECTOR_AGREEMENT"@,
        CaptureGuidance::Ready => "READY"@,
    }
}

/// Wire label of a guidance item.
pub fn format_guidance(value: CaptureGuidance) -> (label: &'static str)
    ensures
        label@ == guidance_label(value),
{
    match value {
        CaptureGuidance::NoDocument => "NO_DOCUMENT",
        CaptureGuidance::DocumentCutOff => "DOCUMENT_CUT_OFF",
        CaptureGuidance::MoveCloser => "MOVE_CLOSER",
        CaptureGuidance::MoveFarther => "MOVE_FARTHER",
        CaptureGuidance::HoldSteady => "HOLD_STEADY",
        CaptureGuidance::TooBlurry => "TOO_BLURRY",
        CaptureGuidance::TooDark => "TOO_DARK",
        CaptureGuidance::TooBright => "TOO_BRIGHT",
        CaptureGuidance::GlareDetected => "GLARE_DETECTED",
        CaptureGuidance::LowConfidence => "LOW_CONFIDENCE",
        CaptureGuidance::LowDetectorAgreement => "LOW_DETECTOR_AGREEMENT",
        CaptureGuidance::Ready => "READY",
    }
}

/// Wire label of a readiness class.
pub open spec fn readiness_label(value: CaptureReadiness) -> Seq<char> {
    match value {
        CaptureReadiness::NotReady => "NOT_READY"@,
        CaptureReadiness::AlmostReady => "ALMOST_READY"@,
        CaptureReadiness::Ready => "READY"@,
        CaptureReadiness::CaptureNow => "CAPTURE_NOW"@,
    }
}

/// Wire label of a readiness class.
pub fn format_readiness(value: CaptureReadiness) -> (label: &'static str)
    ensures
        label@ == readiness_label(value),
{
    match value {
        CaptureReadiness::NotReady => "NOT_READY",
        CaptureReadiness::AlmostReady => "ALMOST_READY",
        CaptureReadiness::Ready => "READY",
        CaptureReadiness::CaptureNow => "CAPTURE_NOW",
    }
}

/// Wire label of a boundary kind.
pub open spec fn boundary_kind_label(value: BoundaryKind) -> Seq<char> {
    match value {
        BoundaryKind::Point => "point"@,
        BoundaryKind::Line => "line"@,
        BoundaryKind::Segment => "segment"@,
        BoundaryKind::Quad => "quad"@,
        BoundaryKind::Polygon => "polygon"@,
        BoundaryKind::Circle => "circle"@,
        BoundaryKind::Ellipse => "ellipse"@,
        BoundaryKind::FreeformContour => "freeform_contour"@,
        BoundaryKind::Mask => "mask"@,
        BoundaryKind::SurfaceOutline => "surface_outline"@,
        BoundaryKind::Unknown => "unknown"@,
    }
}

/// Wire label of a boundary kind.
pub fn boundary_kind(value: BoundaryKind) -> (label: &'static str)
    ensures
        label@ == boundary_kind_label(value),
{
    match value {
        BoundaryKind::Point => "point",
        BoundaryKind::Line => "line",
        BoundaryKind::Segment => "segment",
        BoundaryKind::Quad => "quad",
        BoundaryKind::Polygon => "polygon",
        BoundaryKind::Circle => "circle",
        BoundaryKind::Ellipse => "ellipse",
        BoundaryKind::FreeformContour => "freeform_contour",
        BoundaryKind::Mask => "mask",
        BoundaryKind::SurfaceOutline => "surface_outline",
        BoundaryKind::Unknown => "unknown",
    }
}

/// Wire label of a boundary diagnostic status.
pub open spec fn boundary_status_label(value: BoundaryDiagnosticStatus) -> Seq<char> {
    match value {
        BoundaryDiagnosticStatus::VisibleEdgeFound => "visible_edge_found"@,
        BoundaryDiagnosticStatus::WeakEdge => "weak_edge"@,
        BoundaryDiagnosticStatus::AmbiguousBoundary => "ambiguous_boundary"@,
        BoundaryDiagnosticStatus::OccludedBoundary => "occluded_boundary"@,
        BoundaryDiagnosticStatus::SaturatedBoundary => "saturated_boundary"@,
        BoundaryDiagnosticStatus::LowContrastBoundary => "low_contrast_boundary"@,
        BoundaryDiagnosticStatus::OutOfFrame => "out_of_frame"@,
        BoundaryDiagnosticStatus::InsufficientEvidence => "insufficient_evidence"@,
        BoundaryDiagnosticStatus::ManualRequired => "manual_required"@,
    }
}

/// Wire label of a boundary diagnostic status.
pub fn boundary_status(value: BoundaryDiagnosticStatus) -> (label: &'static str)
    ensures
        label@ == boundary_status_label(value),
{
    match value {
        BoundaryDiagnosticStatus::VisibleEdgeFound => "visible_edge_found",
        BoundaryDiagnosticStatus::WeakEdge => "weak_edge",
        BoundaryDiagnosticStatus::AmbiguousBoundary => "ambiguous_boundary",
        BoundaryDiagnosticStatus::OccludedBoundary => "occluded_boundary",
        BoundaryDiagnosticStatus::SaturatedBoundary => "saturated_boundary",
        BoundaryDiagnosticStatus::LowContrastBoundary => "low_contrast_boundary",
        BoundaryDiagnosticStatus::OutOfFrame => "out_of_frame",
        BoundaryDiagnosticStatus::InsufficientEvidence => "insufficient_evidence",
        BoundaryDiagnosticStatus::ManualRequired => "manual_required",
    }
}

} // verus!
