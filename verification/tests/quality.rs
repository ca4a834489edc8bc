use wellfriend_perception::buffer::ImageBuffer;
use wellfriend_perception::document::count_dark_pixels;
use wellfriend_perception::quality::{count_exposure, packed_gray, ExposureCounts};
use wellfriend_perception::types::{ImageShape, PixelFormat, Stride};

#[test]
fn exposure_counts_use_strict_thresholds() {
    let samples = [0u8, 10, 25, 128, 230, 231, 255];
    assert_eq!(
        count_exposure(&samples, 25, 230),
        ExposureCounts { underexposed: 2, overexposed: 2, clipped: 2 }
    );
    assert_eq!(
        count_exposure(&[30u8; 1024], 30, 225),
        ExposureCounts { underexposed: 0, overexposed: 0, clipped: 0 }
    );
    assert_eq!(
        count_exposure(&[], 25, 230),
        ExposureCounts { underexposed: 0, overexposed: 0, clipped: 0 }
    );
}

#[test]
fn packed_gray_drops_stride_padding() {
    let image = ImageBuffer::new_with_stride(
        ImageShape::new(2, 2).unwrap(),
        PixelFormat::Gray8,
        Stride(4),
        vec![1, 2, 77, 77, 3, 4, 77, 77],
    )
    .unwrap();
    assert_eq!(packed_gray(&image).unwrap(), vec![1, 2, 3, 4]);
}

#[test]
fn dark_pixels_are_counted_inside_the_bounds_only() {
    let image = ImageBuffer::new(
        4,
        3,
        PixelFormat::Gray8,
        vec![0, 0, 200, 10, 100, 54, 55, 0, 0, 0, 0, 0],
    )
    .unwrap();
    assert_eq!(count_dark_pixels(&image, 1, 0, 3, 2, 55), (2, 4));
    assert_eq!(count_dark_pixels(&image, 0, 0, 4, 3, 55), (9, 12));
    assert_eq!(count_dark_pixels(&image, 3, 1, 3, 3, 55), (0, 0));
    assert_eq!(count_dark_pixels(&image, 2, 2, 4, 1, 55), (0, 0));
}
