use wellfriend_perception::boundary::{BoundaryDiagnosticStatus, BoundaryKind};
use wellfriend_perception::buffer::ImageBuffer;
use wellfriend_perception::readiness::{CaptureGuidance, CaptureReadiness};
use wellfriend_perception::runtime::{
    boundary_kind, boundary_status, check_output_long_edge, check_request_size, decode_image,
    default_output_long_edge, format_guidance, format_readiness, parse_aspect, parse_filter,
    parse_margin, parse_orientation, parse_runtime_format, runtime_error, runtime_image,
    AspectRatioPolicy, CropMarginPolicy, DocumentFilterPreset, OrientationPolicy, RuntimeEngine,
    MAX_RUNTIME_IMAGE_BYTES,
};
use wellfriend_perception::types::{PixelFormat, Stride};

#[test]
fn engine_accepts_only_json_objects() {
    assert!(RuntimeEngine::new("{}").is_ok());
    assert!(RuntimeEngine::new("{\"mode\": \"scalar\"}").is_ok());
    assert_eq!(
        RuntimeEngine::new("[1, 2]").unwrap_err(),
        "config JSON must be an object"
    );
    let error = RuntimeEngine::new("{").unwrap_err();
    assert!(error.starts_with("invalid config JSON: "));
    assert!(error.len() > "invalid config JSON: ".len());
    assert!(RuntimeEngine::from_parsed_config(Ok(true)).is_ok());
    assert_eq!(
        RuntimeEngine::from_parsed_config(Ok(false)).unwrap_err(),
        "config JSON must be an object"
    );
    assert_eq!(
        RuntimeEngine::from_parsed_config(Err("EOF while parsing".to_string())).unwrap_err(),
        "invalid config JSON: EOF while parsing"
    );
}

#[test]
fn runtime_formats_are_matched_without_case() {
    assert_eq!(parse_runtime_format("Gray8"), Some(PixelFormat::Gray8));
    assert_eq!(parse_runtime_format("GRAY_8"), Some(PixelFormat::Gray8));
    assert_eq!(parse_runtime_format("rgb_8"), Some(PixelFormat::Rgb8));
    assert_eq!(parse_runtime_format("Bgr8"), Some(PixelFormat::Bgr8));
    assert_eq!(parse_runtime_format("RGBA8"), Some(PixelFormat::Rgba8));
    assert_eq!(parse_runtime_format("bgra8"), None);
    assert_eq!(parse_runtime_format("gray16"), None);
}

#[test]
fn decode_image_validates_before_allocating() {
    let image = decode_image(&[1, 2, 0, 3, 4, 0], 2, 2, 3, "gray8").unwrap();
    assert_eq!(image.stride(), Stride(3));
    assert_eq!(image.view().row(1).unwrap(), &[3, 4]);
    assert_eq!(
        decode_image(&[0; 4], 2, 2, 2, "yuv").unwrap_err(),
        "unsupported runtime pixel format: yuv"
    );
    assert_eq!(
        decode_image(&[0; 4], 0, 2, 2, "Gray8").unwrap_err(),
        "invalid dimensions 0x2"
    );
    assert_eq!(
        decode_image(&[0; 4], 2, 2, 1, "Gray8").unwrap_err(),
        "invalid stride: minimum 2, got 1"
    );
    assert_eq!(
        decode_image(&[0; 5], 2, 2, 2, "Gray8").unwrap_err(),
        "invalid buffer length: expected 4, got 5"
    );
    let too_big = vec![0u8; MAX_RUNTIME_IMAGE_BYTES + 1];
    assert_eq!(
        decode_image(&too_big, 1, 1, 1, "Gray8").unwrap_err(),
        "image exceeds 67108864 byte runtime limit"
    );
}

#[test]
fn decoded_images_materialize_back_unchanged() {
    let bytes = vec![9, 8, 7, 0, 6, 5, 4, 0];
    let image = decode_image(&bytes, 1, 2, 4, "RGB8").unwrap();
    let runtime = runtime_image(&image).unwrap();
    assert_eq!(runtime.width, 1);
    assert_eq!(runtime.height, 2);
    assert_eq!(runtime.stride, 4);
    assert_eq!(runtime.pixel_format, "Rgb8");
    assert_eq!(runtime.bytes, bytes);
    let packed = ImageBuffer::new(2, 1, PixelFormat::Rgba8, vec![1; 8]).unwrap();
    assert_eq!(runtime_image(&packed).unwrap().stride, 8);
}

#[test]
fn request_limits_and_policies_are_explicit() {
    assert_eq!(default_output_long_edge(), 1600);
    assert!(check_output_long_edge(256).is_ok());
    assert!(check_output_long_edge(4096).is_ok());
    assert_eq!(
        check_output_long_edge(255).unwrap_err(),
        "output_long_edge must be within 256..=4096"
    );
    assert!(check_output_long_edge(4097).is_err());
    assert!(check_request_size("{}", "ApplyFilterRequest").is_ok());
    let large = " ".repeat(256 * 1024 + 1);
    assert_eq!(
        check_request_size(&large, "ApplyFilterRequest").unwrap_err(),
        "ApplyFilterRequest exceeds 262144 bytes"
    );
    assert!(check_request_size(&" ".repeat(256 * 1024), "x").is_ok());
    assert_eq!(parse_aspect(None), Ok(AspectRatioPolicy::FreeFromQuad));
    assert_eq!(
        parse_aspect(Some("square")).unwrap_err(),
        "unsupported aspect_policy for MP10 runtime"
    );
    assert_eq!(parse_orientation(None), Ok(OrientationPolicy::PreserveSource));
    assert_eq!(
        parse_orientation(Some("long_edge_vertical")),
        Ok(OrientationPolicy::LongEdgeVertical)
    );
    assert!(parse_orientation(Some("upside_down")).is_err());
    assert_eq!(parse_margin(None), Ok(CropMarginPolicy::SafeInner));
    assert_eq!(parse_margin(Some("none")), Ok(CropMarginPolicy::NoMargin));
    assert_eq!(
        parse_margin(Some("wide")).unwrap_err(),
        "unsupported crop_margin_policy for MP10 runtime"
    );
}

#[test]
fn filter_presets_accept_display_and_wire_names() {
    assert_eq!(parse_filter("B&W"), Ok(DocumentFilterPreset::BlackAndWhite));
    assert_eq!(parse_filter("black-and-white"), Ok(DocumentFilterPreset::BlackAndWhite));
    assert_eq!(parse_filter("Grayscale"), Ok(DocumentFilterPreset::Grayscale));
    assert_eq!(parse_filter("photo_document"), Ok(DocumentFilterPreset::PhotoDocument));
    assert_eq!(
        parse_filter("sepia").unwrap_err(),
        "unsupported filter preset: sepia"
    );
}

#[test]
fn wire_labels_are_stable() {
    assert_eq!(format_guidance(CaptureGuidance::NoDocument), "NO_DOCUMENT");
    assert_eq!(format_guidance(CaptureGuidance::LowDetectorAgreement), "LOW_DETECTOR_AGREEMENT");
    assert_eq!(format_guidance(CaptureGuidance::Ready), "READY");
    assert_eq!(format_readiness(CaptureReadiness::CaptureNow), "CAPTURE_NOW");
    assert_eq!(format_readiness(CaptureReadiness::AlmostReady), "ALMOST_READY");
    assert_eq!(boundary_kind(BoundaryKind::FreeformContour), "freeform_contour");
    assert_eq!(boundary_kind(BoundaryKind::Unknown), "unknown");
    assert_eq!(
        boundary_status(BoundaryDiagnosticStatus::InsufficientEvidence),
        "insufficient_evidence"
    );
    assert_eq!(boundary_status(BoundaryDiagnosticStatus::ManualRequired), "manual_required");
    let error = runtime_error("invalid_request", "bad stride");
    assert_eq!(error.schema_version, 1);
    assert_eq!(error.error.code, "invalid_request");
    assert_eq!(error.error.message, "bad stride");
}
