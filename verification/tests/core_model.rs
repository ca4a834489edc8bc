use wellfriend_perception::buffer::ImageBuffer;
use wellfriend_perception::diagnostics::{Diagnostic, DiagnosticCode, DiagnosticLevel, PipelineTrace, StageTiming};
use wellfriend_perception::error::PerceptionError;
use wellfriend_perception::types::{ImageShape, PipelineStage, PixelFormat, RegionOfInterest, Stride};

#[test]
fn image_shape_stride_and_roi_are_validated() {
    assert!(matches!(
        ImageShape::new(0, 2),
        Err(PerceptionError::InvalidDimensions { .. })
    ));
    let shape = ImageShape::new(2, 2).unwrap();
    assert!(matches!(
        ImageBuffer::new_with_stride(shape, PixelFormat::Gray8, Stride(1), vec![0; 2]),
        Err(PerceptionError::StrideMismatch { .. })
    ));
    let image = ImageBuffer::new_with_stride(
        shape,
        PixelFormat::Gray8,
        Stride(3),
        vec![1, 2, 99, 3, 4, 99],
    )
    .unwrap();
    assert_eq!(image.view().row(1).unwrap(), &[3, 4]);
    let roi = RegionOfInterest::within(shape, 1, 0, 1, 2).unwrap();
    assert_eq!(
        image.roi(roi).unwrap().to_owned().unwrap().as_bytes(),
        &[2, 4]
    );
    assert!(RegionOfInterest::within(shape, 2, 0, 1, 1).is_err());
}

#[test]
fn mutable_view_and_f32_buffers_are_safe() {
    let mut image = ImageBuffer::new(2, 1, PixelFormat::Gray8, vec![1, 2]).unwrap();
    image.view_mut().row_mut(0).unwrap()[1] = 8;
    assert_eq!(image.get_u8(1, 0, 0).unwrap(), 8);
}

#[test]
fn diagnostics_collect_stage_events() {
    let mut trace = PipelineTrace::default();
    trace.push(Diagnostic {
        level: DiagnosticLevel::Info,
        code: DiagnosticCode("CORE_READY".into()),
        message: "ready".into(),
    });
    trace.record_timing(StageTiming {
        stage: PipelineStage::Input,
        started_at_us: 100,
        duration_us: 25,
    });
    assert_eq!(trace.diagnostics.len(), 1);
    assert_eq!(trace.timings[0].duration_us, 25);
}

#[test]
fn image_buffer_rejects_invalid_storage() {
    assert!(ImageBuffer::new(2, 2, PixelFormat::Rgb8, vec![0; 11]).is_err());
}

#[test]
fn buffer_errors_carry_exact_values_and_messages() {
    let error = ImageBuffer::new(2, 2, PixelFormat::Rgb8, vec![0; 11]).unwrap_err();
    assert_eq!(error, PerceptionError::InvalidBuffer { expected: 12, actual: 11 });
    assert_eq!(error.to_text(), "invalid buffer length: expected 12, got 11");
    let error = ImageShape::new(0, 7).unwrap_err();
    assert_eq!(error.to_text(), "invalid dimensions 0x7");
    let shape = ImageShape::new(2, 2).unwrap();
    let error = ImageBuffer::new_with_stride(shape, PixelFormat::Rgba8, Stride(5), vec![0; 10]).unwrap_err();
    assert_eq!(error, PerceptionError::StrideMismatch { minimum: 8, actual: 5 });
    assert_eq!(error.to_text(), "invalid stride: minimum 8, got 5");
    assert_eq!(PerceptionError::Overflow.to_text(), "checked arithmetic overflow");
    assert_eq!(
        PerceptionError::InsufficientPoints { required: 4, actual: 130 }.to_text(),
        "insufficient points: need 4, got 130"
    );
    let error = ImageBuffer::new(1, 1, PixelFormat::Yuv420, vec![0]).unwrap_err();
    assert_eq!(error.to_text(), "ImageBuffer::new does not support Yuv420");
}

#[test]
fn out_of_range_lookups_name_the_coordinate() {
    let image = ImageBuffer::new(3, 2, PixelFormat::Rgb8, (0..18).collect()).unwrap();
    assert_eq!(image.get_u8(2, 1, 2).unwrap(), 17);
    match image.get_u8(3, 0, 0) {
        Err(PerceptionError::OutOfBounds { reason }) => assert_eq!(reason, "pixel 3,0 exceeds 3x2"),
        other => panic!("unexpected {other:?}"),
    }
    match image.get_u8(0, 0, 3) {
        Err(PerceptionError::OutOfBounds { reason }) => assert_eq!(reason, "channel 3 exceeds 3"),
        other => panic!("unexpected {other:?}"),
    }
    match image.view().row(2) {
        Err(PerceptionError::OutOfBounds { reason }) => assert_eq!(reason, "row 2 exceeds height 2"),
        other => panic!("unexpected {other:?}"),
    }
    match RegionOfInterest::within(image.shape(), 2, 1, 2, 1) {
        Err(PerceptionError::OutOfBounds { reason }) => {
            assert_eq!(reason, "ROI 2,1 2x1 is outside 3x2")
        }
        other => panic!("unexpected {other:?}"),
    }
}

#[test]
fn a_write_is_read_back_and_leaves_other_components_alone() {
    let mut image = ImageBuffer::new(2, 2, PixelFormat::Rgb8, vec![7; 12]).unwrap();
    image.set_u8(1, 1, 2, 200).unwrap();
    assert_eq!(image.get_u8(1, 1, 2).unwrap(), 200);
    assert_eq!(image.get_u8(1, 1, 1).unwrap(), 7);
    assert_eq!(image.get_u8(0, 0, 0).unwrap(), 7);
    assert!(image.set_u8(2, 0, 0, 1).is_err());
}

#[test]
fn every_error_renders_its_message() {
    let image = ImageBuffer::new(1, 1, PixelFormat::Gray8, vec![5]).unwrap();
    let error = wellfriend_perception::image::operations::clamp_gray(&image, 9, 3).unwrap_err();
    assert_eq!(
        error,
        PerceptionError::NumericFailure { reason: "clamp minimum exceeds maximum".into() }
    );
    assert_eq!(error.to_text(), "numeric failure: clamp minimum exceeds maximum");
    assert_eq!(
        PerceptionError::DegenerateGeometry { reason: "flat".into() }.to_text(),
        "degenerate geometry: flat"
    );
    assert_eq!(
        PerceptionError::UnsupportedOperation { operation: "warp" }.to_text(),
        "unsupported operation: warp"
    );
    assert_eq!(
        PerceptionError::InvalidConfidence { value: "1.5".into() }.to_text(),
        "invalid confidence 1.5"
    );
    assert_eq!(PerceptionError::NonInvertibleMatrix.to_text(), "matrix is non-invertible");
    assert_eq!(
        PerceptionError::OutOfBounds { reason: "row 9 exceeds height 2".into() }.to_text(),
        "out of bounds: row 9 exceeds height 2"
    );
}

#[test]
fn buffer_rows_write_through_and_keep_the_layout() {
    let mut image = ImageBuffer::new(2, 2, PixelFormat::Gray8, vec![1, 2, 3, 4]).unwrap();
    image.row_mut(1).unwrap()[0] = 9;
    assert_eq!(image.as_bytes(), &[1, 2, 9, 4]);
    assert!(image.row_mut(2).is_err());
    {
        let mut view = image.view_mut();
        view.row_mut(0).unwrap()[1] = 7;
    }
    assert_eq!(image.as_bytes(), &[1, 7, 9, 4]);
    assert_eq!(image.stride(), Stride(2));
    assert_eq!(image.width(), 2);
    assert_eq!(image.height(), 2);
    assert_eq!(image.pixel_format(), PixelFormat::Gray8);
}

#[test]
fn zero_sized_shapes_are_accepted_with_empty_storage() {
    let empty = ImageBuffer::new_with_stride(
        ImageShape { width: 0, height: 3 },
        PixelFormat::Gray8,
        Stride(0),
        Vec::new(),
    )
    .unwrap();
    assert!(empty.as_bytes().is_empty());
    assert!(matches!(
        empty.view().to_owned(),
        Err(PerceptionError::InvalidDimensions { width: 0, height: 3 })
    ));
    assert!(matches!(
        ImageBuffer::new_with_stride(ImageShape { width: 0, height: 3 }, PixelFormat::Gray8, Stride(1), Vec::new()),
        Err(PerceptionError::InvalidBuffer { expected: 3, actual: 0 })
    ));
}

#[test]
fn buffers_compare_by_layout_and_bytes() {
    let a = ImageBuffer::new(2, 1, PixelFormat::Gray8, vec![1, 2]).unwrap();
    let b = ImageBuffer::new(2, 1, PixelFormat::Gray8, vec![1, 2]).unwrap();
    let c = ImageBuffer::new(1, 2, PixelFormat::Gray8, vec![1, 2]).unwrap();
    assert_eq!(a, b);
    assert_ne!(a, c);
}
