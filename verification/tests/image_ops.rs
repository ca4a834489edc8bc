use wellfriend_perception::buffer::ImageBuffer;
use wellfriend_perception::error::PerceptionError;
use wellfriend_perception::image::color::{
    add_alpha, drop_alpha, gray_to_rgb, plan_color_conversion, swap_red_blue, ColorConversion,
};
use wellfriend_perception::image::filtering::{median_blur_3x3, middle_of_nine};
use wellfriend_perception::image::histogram::{
    cumulative_histogram, histogram_gray, histogram_per_channel, value_at_rank,
};
use wellfriend_perception::image::operations::{
    border_sample, clamp_gray, crop, crop_xywh, min_max_normalize_gray, normalize_gray, pad,
    pad_constant, packed_u8, reflect, BorderMode,
};
use wellfriend_perception::image::resize::{resample_nearest, validate_resize};
use wellfriend_perception::image::threshold::{threshold_gray, window_sums};
use wellfriend_perception::types::{ImageShape, PixelFormat, RegionOfInterest, Stride};

fn gray(width: u32, height: u32, data: Vec<u8>) -> ImageBuffer {
    ImageBuffer::new(width, height, PixelFormat::Gray8, data).unwrap()
}

#[test]
fn color_conversion_and_normalized_formats_are_correct() {
    let rgb = ImageBuffer::new(1, 1, PixelFormat::Rgb8, vec![255, 0, 0]).unwrap();
    assert_eq!(
        plan_color_conversion(PixelFormat::Rgb8, PixelFormat::Bgr8),
        ColorConversion::SwapRedBlue
    );
    let bgr = swap_red_blue(&rgb, 3, false, PixelFormat::Bgr8).unwrap();
    assert_eq!(bgr.as_bytes(), &[0, 0, 255]);
    let grayscale = gray(1, 1, vec![54]);
    assert_eq!(
        plan_color_conversion(PixelFormat::Gray8, PixelFormat::Rgb8),
        ColorConversion::GrayToRgb
    );
    let restored = gray_to_rgb(&grayscale).unwrap();
    assert_eq!(restored.as_bytes(), &[54, 54, 54]);

    let rgba = ImageBuffer::new(1, 1, PixelFormat::Rgba8, vec![4, 5, 6, 7]).unwrap();
    assert_eq!(
        plan_color_conversion(PixelFormat::Rgba8, PixelFormat::Rgb8),
        ColorConversion::DropAlpha
    );
    assert_eq!(drop_alpha(&rgba, PixelFormat::Rgb8).unwrap().as_bytes(), &[4, 5, 6]);
}

#[test]
fn crop_padding_resize_and_stride_sensitive_ops_are_correct() {
    let input = gray(3, 2, vec![1, 2, 3, 4, 5, 6]);
    let cropped = crop(
        &input,
        RegionOfInterest::within(input.shape(), 1, 0, 2, 2).unwrap(),
    )
    .unwrap();
    assert_eq!(cropped.as_bytes(), &[2, 3, 5, 6]);
    let padded = pad(&input, 1, 1, 1, 1, BorderMode::Replicate).unwrap();
    assert_eq!(padded.shape().width, 5);
    assert_eq!(
        padded.as_bytes(),
        &[1, 1, 2, 3, 3, 1, 1, 2, 3, 3, 4, 4, 5, 6, 6, 4, 4, 5, 6, 6]
    );

    let strided = ImageBuffer::new_with_stride(
        ImageShape::new(2, 2).unwrap(),
        PixelFormat::Gray8,
        Stride(4),
        vec![10, 20, 99, 99, 30, 40, 99, 99],
    )
    .unwrap();
    assert_eq!(histogram_gray(&strided).unwrap().bins[99], 0);
    assert_eq!(
        threshold_gray(&strided, 25).unwrap().as_bytes(),
        &[0, 0, 255, 255]
    );
}

#[test]
fn histogram_convolution_filters_gradients_and_thresholds_are_correct() {
    let input = gray(3, 3, vec![0, 0, 0, 0, 255, 0, 0, 0, 0]);
    let histogram = histogram_gray(&input).unwrap();
    assert_eq!(histogram.bins[0], 8);
    assert_eq!(histogram.bins[255], 1);
    // The 1.0 quantile of nine samples is rank round(1.0 * 8) = 8.
    assert_eq!(value_at_rank(&histogram, 8), 255);
    assert_eq!(cumulative_histogram(&histogram)[255], 9);
    assert_eq!(median_blur_3x3(&input).unwrap().get_u8(1, 1, 0).unwrap(), 0);

    let bimodal = gray(4, 1, vec![0, 0, 255, 255]);
    assert_eq!(
        threshold_gray(&bimodal, 128).unwrap().as_bytes(),
        &[0, 0, 255, 255]
    );
    assert_eq!(window_sums(&bimodal, 3).len(), 4);
}

#[test]
fn normalization_and_error_paths_are_explicit() {
    let input = gray(3, 1, vec![10, 20, 30]);
    assert_eq!(
        min_max_normalize_gray(&input).unwrap().as_bytes(),
        &[0, 127, 255]
    );
    assert_eq!(
        clamp_gray(&input, 15, 25).unwrap().as_bytes(),
        &[15, 20, 25]
    );
    assert!(matches!(
        validate_resize(&input, 0, 1, "resize_nearest"),
        Err(PerceptionError::InvalidDimensions { .. })
    ));
    let rgb = ImageBuffer::new(1, 1, PixelFormat::Rgb8, vec![1, 2, 3]).unwrap();
    assert!(matches!(
        histogram_gray(&rgb),
        Err(PerceptionError::UnsupportedFormat { .. })
    ));
}

#[test]
fn color_layout_conversions_round_trip() {
    let rgb = ImageBuffer::new(2, 1, PixelFormat::Rgb8, vec![1, 2, 3, 4, 5, 6]).unwrap();
    let rgba = add_alpha(&rgb, PixelFormat::Rgba8).unwrap();
    assert_eq!(rgba.as_bytes(), &[1, 2, 3, 255, 4, 5, 6, 255]);
    let back = drop_alpha(&rgba, PixelFormat::Rgb8).unwrap();
    assert_eq!(back.as_bytes(), rgb.as_bytes());
    let bgr = swap_red_blue(&rgb, 3, false, PixelFormat::Bgr8).unwrap();
    assert_eq!(bgr.as_bytes(), &[3, 2, 1, 6, 5, 4]);
    let twice = swap_red_blue(&bgr, 3, false, PixelFormat::Rgb8).unwrap();
    assert_eq!(twice.as_bytes(), rgb.as_bytes());
    assert_eq!(
        plan_color_conversion(PixelFormat::Gray8, PixelFormat::Rgba8),
        ColorConversion::Unsupported
    );
    assert_eq!(plan_color_conversion(PixelFormat::Bgr8, PixelFormat::Bgr8), ColorConversion::Copy);
    assert!(matches!(
        gray_to_rgb(&rgb),
        Err(PerceptionError::UnsupportedFormat { operation: "gray_to_rgb", .. })
    ));
}

#[test]
fn histograms_count_every_sample_once() {
    let image = ImageBuffer::new(2, 1, PixelFormat::Rgb8, vec![1, 2, 3, 1, 9, 3]).unwrap();
    let [red, green, blue] = histogram_per_channel(&image).unwrap();
    assert_eq!(red.bins[1], 2);
    assert_eq!(green.bins[2], 1);
    assert_eq!(green.bins[9], 1);
    assert_eq!(blue.bins[3], 2);
    let samples = gray(4, 1, vec![5, 5, 7, 200]);
    let histogram = histogram_gray(&samples).unwrap();
    let total: u32 = histogram.bins.iter().sum();
    assert_eq!(total, 4);
    let cumulative = cumulative_histogram(&histogram);
    assert_eq!(cumulative[4], 0);
    assert_eq!(cumulative[5], 2);
    assert_eq!(cumulative[199], 3);
    assert_eq!(value_at_rank(&histogram, 0), 5);
    assert_eq!(value_at_rank(&histogram, 2), 7);
    assert_eq!(value_at_rank(&histogram, 4), 255);
}

#[test]
fn borders_reflect_replicate_and_fill() {
    assert_eq!(reflect(-1, 4), 1);
    assert_eq!(reflect(4, 4), 2);
    assert_eq!(reflect(7, 4), 1);
    assert_eq!(reflect(5, 1), 0);
    let input = gray(3, 1, vec![10, 20, 30]);
    assert_eq!(border_sample(&input, -2, 0, 0, &BorderMode::Replicate).unwrap(), 10);
    assert_eq!(border_sample(&input, 1, 5, 0, &BorderMode::Reflect).unwrap(), 20);
    assert_eq!(border_sample(&input, -1, 0, 0, &BorderMode::Reflect).unwrap(), 20);
    assert_eq!(border_sample(&input, 9, 0, 0, &BorderMode::Constant(vec![77])).unwrap(), 77);
    assert_eq!(
        border_sample(&input, 9, 0, 0, &BorderMode::Constant(vec![])),
        Err(PerceptionError::InvalidBuffer { expected: 1, actual: 0 })
    );
    let padded = pad_constant(&input, 1, 0, 0, 1, 9).unwrap();
    assert_eq!(padded.as_bytes(), &[9, 10, 20, 30, 9, 9, 9, 9]);
    let reflected = pad(&input, 2, 0, 2, 0, BorderMode::Reflect).unwrap();
    assert_eq!(reflected.as_bytes(), &[30, 20, 10, 20, 30, 20, 10]);
}

#[test]
fn crops_and_packing_skip_stride_padding() {
    let strided = ImageBuffer::new_with_stride(
        ImageShape::new(2, 2).unwrap(),
        PixelFormat::Gray8,
        Stride(3),
        vec![1, 2, 0, 3, 4, 0],
    )
    .unwrap();
    assert_eq!(packed_u8(&strided).unwrap(), vec![1, 2, 3, 4]);
    assert_eq!(crop_xywh(&strided, 1, 0, 1, 2).unwrap().as_bytes(), &[2, 4]);
    assert!(crop_xywh(&strided, 1, 1, 2, 1).is_err());
}

#[test]
fn normalization_spans_the_full_range_and_clamping_is_idempotent() {
    let flat = gray(2, 1, vec![42, 42]);
    assert_eq!(min_max_normalize_gray(&flat).unwrap().as_bytes(), &[42, 42]);
    let ramp = gray(4, 1, vec![50, 60, 70, 90]);
    let stretched = normalize_gray(&ramp).unwrap();
    assert_eq!(stretched.as_bytes(), &[0, 63, 127, 255]);
    let once = clamp_gray(&ramp, 55, 75).unwrap();
    assert_eq!(once.as_bytes(), &[55, 60, 70, 75]);
    let twice = clamp_gray(&once, 55, 75).unwrap();
    assert_eq!(twice.as_bytes(), once.as_bytes());
}

#[test]
fn thresholding_twice_changes_nothing() {
    let input = gray(4, 1, vec![0, 99, 100, 250]);
    let once = threshold_gray(&input, 100).unwrap();
    assert_eq!(once.as_bytes(), &[0, 0, 255, 255]);
    let twice = threshold_gray(&once, 100).unwrap();
    assert_eq!(twice.as_bytes(), once.as_bytes());
}

#[test]
fn median_takes_the_fifth_smallest_sample() {
    assert_eq!(middle_of_nine(&vec![9, 1, 8, 2, 7, 3, 6, 4, 5]), 5);
    assert_eq!(middle_of_nine(&vec![0, 0, 0, 0, 255, 255, 255, 255, 255]), 255);
    assert_eq!(middle_of_nine(&vec![3, 3, 3, 3, 3, 3, 3, 3, 3]), 3);
    let input = gray(3, 3, vec![1, 2, 3, 4, 5, 6, 7, 8, 9]);
    let output = median_blur_3x3(&input).unwrap();
    assert_eq!(output.as_bytes(), &[2, 3, 3, 4, 5, 6, 7, 7, 8]);
    let flat = gray(2, 2, vec![17; 4]);
    assert_eq!(median_blur_3x3(&flat).unwrap().as_bytes(), &[17; 4]);
    let rgb = ImageBuffer::new(1, 1, PixelFormat::Rgb8, vec![1, 2, 3]).unwrap();
    assert!(matches!(
        median_blur_3x3(&rgb),
        Err(PerceptionError::UnsupportedFormat { operation: "median_blur_3x3", .. })
    ));
}

#[test]
fn window_sums_use_replicated_borders() {
    let input = gray(2, 1, vec![1, 10]);
    // 3x3 window over a 2x1 image: rows replicate, so each row contributes x-1, x, x+1.
    assert_eq!(window_sums(&input, 3), vec![3 * (1 + 1 + 10), 3 * (1 + 10 + 10)]);
    assert_eq!(window_sums(&input, 1), vec![1, 10]);
}

#[test]
fn nearest_resampling_gathers_the_mapped_pixels() {
    let input = ImageBuffer::new(2, 1, PixelFormat::Rgb8, vec![1, 2, 3, 4, 5, 6]).unwrap();
    let output = resample_nearest(&input, 3, 2, &vec![1, 0, 1], &vec![0, 0]).unwrap();
    assert_eq!(output.shape().width, 3);
    assert_eq!(
        output.as_bytes(),
        &[4, 5, 6, 1, 2, 3, 4, 5, 6, 4, 5, 6, 1, 2, 3, 4, 5, 6]
    );
    let rgbf = ImageBuffer::new(1, 1, PixelFormat::GrayF32, vec![0; 4]).unwrap();
    assert!(matches!(
        validate_resize(&rgbf, 2, 2, "resize_nearest"),
        Err(PerceptionError::UnsupportedFormat { operation: "resize_nearest", .. })
    ));
    assert!(validate_resize(&input, 2, 2, "resize_nearest").is_ok());
}

#[test]
fn cropping_at_the_padding_offset_undoes_padding() {
    let input = ImageBuffer::new(2, 2, PixelFormat::Rgb8, (1..=12).collect()).unwrap();
    for border in [
        BorderMode::Replicate,
        BorderMode::Reflect,
        BorderMode::Constant(vec![9, 8, 7]),
    ] {
        let padded = pad(&input, 2, 1, 3, 2, border).unwrap();
        assert_eq!(padded.shape().width, 7);
        assert_eq!(padded.shape().height, 5);
        let back = crop_xywh(&padded, 2, 1, 2, 2).unwrap();
        assert_eq!(back.as_bytes(), input.as_bytes());
    }
}

fn empty_gray(width: u32, height: u32) -> ImageBuffer {
    ImageBuffer::new_with_stride(ImageShape { width, height }, PixelFormat::Gray8, Stride(width as usize), Vec::new())
        .unwrap()
}

#[test]
fn images_without_pixels_are_reported_or_padded() {
    let empty = empty_gray(0, 2);
    assert!(matches!(threshold_gray(&empty, 3), Err(PerceptionError::InvalidDimensions { width: 0, height: 2 })));
    assert!(matches!(clamp_gray(&empty, 1, 2), Err(PerceptionError::InvalidDimensions { .. })));
    assert!(matches!(median_blur_3x3(&empty), Err(PerceptionError::InvalidDimensions { .. })));
    assert!(matches!(gray_to_rgb(&empty), Err(PerceptionError::InvalidDimensions { .. })));
    assert!(matches!(
        min_max_normalize_gray(&empty),
        Err(PerceptionError::InvalidBuffer { expected: 1, actual: 0 })
    ));
    assert_eq!(packed_u8(&empty).unwrap(), Vec::<u8>::new());
    let filled = pad_constant(&empty, 1, 0, 1, 0, 5).unwrap();
    assert_eq!(filled.as_bytes(), &[5, 5, 5, 5]);
    assert!(matches!(pad(&empty, 1, 0, 1, 0, BorderMode::Reflect), Err(PerceptionError::OutOfBounds { .. })));
    assert!(matches!(
        pad_constant(&empty, 0, 1, 0, 0, 5),
        Err(PerceptionError::InvalidDimensions { width: 0, height: 3 })
    ));
    assert_eq!(border_sample(&empty, 0, 0, 0, &BorderMode::Constant(vec![4])).unwrap(), 4);
}
