use wellfriend_perception::buffer::ImageBuffer;
use wellfriend_perception::document::{
    close_binary, component_boundary, connected_components, dilate_binary, erode_binary,
    sample_mask, threshold_foreground,
};
use wellfriend_perception::types::PixelFormat;

fn mask(rows: &[&str]) -> Vec<bool> {
    rows.iter()
        .flat_map(|row| row.chars().map(|c| c == '#'))
        .collect()
}

#[test]
fn sample_mask_reads_background_outside_the_frame() {
    let m = mask(&["#.", ".#"]);
    assert!(sample_mask(&m, 2, 2, 0, 0));
    assert!(!sample_mask(&m, 2, 2, 1, 0));
    assert!(sample_mask(&m, 2, 2, 1, 1));
    assert!(!sample_mask(&m, 2, 2, -1, 0));
    assert!(!sample_mask(&m, 2, 2, 0, 2));
    assert!(!sample_mask(&m, 2, 2, 2, 1));
}

#[test]
fn dilation_and_erosion_use_the_full_3x3_neighbourhood() {
    let m = mask(&[".....", ".....", "..#..", ".....", "....."]);
    let dilated = dilate_binary(&m, 5, 5);
    assert_eq!(dilated, mask(&[".....", ".###.", ".###.", ".###.", "....."]));
    let eroded = erode_binary(&dilated, 5, 5);
    assert_eq!(eroded, m);
    let full = vec![true; 9];
    // Border pixels lose their out-of-frame neighbours.
    assert_eq!(erode_binary(&full, 3, 3), mask(&["...", ".#.", "..."]));
}

#[test]
fn closing_bridges_a_one_pixel_gap() {
    let m = mask(&[".......", ".##.##.", "......."]);
    let closed = close_binary(&m, 7, 3);
    assert!(closed[1 * 7 + 3]);
    assert!(closed[1 * 7 + 1]);
    assert!(!closed[0]);
}

#[test]
fn erosion_within_mask_within_dilation() {
    let m = mask(&["##..#", "###..", "..#.#", "....."]);
    let d = dilate_binary(&m, 5, 4);
    let e = erode_binary(&m, 5, 4);
    for i in 0..m.len() {
        assert!(!e[i] || m[i]);
        assert!(!m[i] || d[i]);
    }
}

#[test]
fn components_partition_the_foreground_in_scan_order() {
    let m = mask(&["##..#", "#...#", "..#..", "..##."]);
    let components = connected_components(&m, 5, 4);
    assert_eq!(components.len(), 3);
    let mut first: Vec<(u32, u32)> = components[0].pixels.clone();
    first.sort();
    assert_eq!(first, vec![(0, 0), (0, 1), (1, 0)]);
    assert_eq!(components[0].pixels[0], (0, 0));
    let mut second = components[1].pixels.clone();
    second.sort();
    assert_eq!(second, vec![(4, 0), (4, 1)]);
    assert_eq!(components[1].pixels[0], (4, 0));
    let mut third = components[2].pixels.clone();
    third.sort();
    assert_eq!(third, vec![(2, 2), (2, 3), (3, 3)]);
    let total: usize = components.iter().map(|c| c.pixels.len()).sum();
    assert_eq!(total, m.iter().filter(|v| **v).count());
    assert!(connected_components(&vec![false; 6], 3, 2).is_empty());
}

#[test]
fn diagonal_pixels_are_separate_components() {
    let m = mask(&["#.", ".#"]);
    let components = connected_components(&m, 2, 2);
    assert_eq!(components.len(), 2);
    assert_eq!(components[0].pixels, vec![(0, 0)]);
    assert_eq!(components[1].pixels, vec![(1, 1)]);
}

#[test]
fn boundary_keeps_pixels_touching_background() {
    let m = mask(&["###", "###", "###"]);
    let pixels: Vec<(u32, u32)> = (0..3).flat_map(|y| (0..3).map(move |x| (x, y))).collect();
    let boundary = component_boundary(&m, 3, 3, &pixels);
    assert_eq!(boundary.len(), 8);
    assert!(!boundary.contains(&(1, 1)));
    assert_eq!(boundary[0], (0, 0));
}

#[test]
fn foreground_threshold_closes_bright_regions_and_ignores_flat_images() {
    let flat = ImageBuffer::new(3, 2, PixelFormat::Gray8, vec![80; 6]).unwrap();
    assert_eq!(threshold_foreground(&flat, 10).unwrap(), vec![false; 6]);
    let mut data = vec![10u8; 25];
    for y in 1..4 {
        for x in 1..4 {
            data[y * 5 + x] = 200;
        }
    }
    data[2 * 5 + 2] = 10;
    let image = ImageBuffer::new(5, 5, PixelFormat::Gray8, data).unwrap();
    let foreground = threshold_foreground(&image, 100).unwrap();
    assert_eq!(foreground.len(), 25);
    assert!(foreground[2 * 5 + 2]);
    assert!(!foreground[0]);
}

#[test]
fn morphology_is_monotone() {
    let small = mask(&["#....", ".....", "...#."]);
    let large = mask(&["##...", "..#..", "...##"]);
    for (a, b) in small.iter().zip(&large) {
        assert!(!a || *b);
    }
    let (ds, dl) = (dilate_binary(&small, 5, 3), dilate_binary(&large, 5, 3));
    let (es, el) = (erode_binary(&small, 5, 3), erode_binary(&large, 5, 3));
    for i in 0..small.len() {
        assert!(!ds[i] || dl[i]);
        assert!(!es[i] || el[i]);
    }
}

#[test]
fn component_pixels_follow_the_depth_first_order() {
    let m = mask(&["##", "##"]);
    let components = connected_components(&m, 2, 2);
    assert_eq!(components.len(), 1);
    assert_eq!(components[0].pixels, vec![(0, 0), (0, 1), (1, 1), (1, 0)]);
    let m = mask(&["###", "#.#"]);
    let components = connected_components(&m, 3, 2);
    assert_eq!(components[0].pixels, vec![(0, 0), (0, 1), (1, 0), (2, 0), (2, 1)]);
}
