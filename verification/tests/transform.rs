use hypercalibrate::transform::{nearest_sample, warp_image_fast, SourcePixel};

fn identity_lut(width: usize, height: usize) -> Vec<SourcePixel> {
    let mut lut = Vec::new();
    for y in 0..height {
        for x in 0..width {
            lut.push(SourcePixel { x, y });
        }
    }
    lut
}

#[test]
fn nearest_sample_reads_the_named_pixel() {
    // 2x2 RGB image
    let src: Vec<u8> = vec![1, 2, 3, 4, 5, 6, 7, 8, 9, 10, 11, 12];
    assert_eq!(nearest_sample(&src, 6, 2, 2, 3, 0, 0), [1, 2, 3, 0]);
    assert_eq!(nearest_sample(&src, 6, 2, 2, 3, 1, 0), [4, 5, 6, 0]);
    assert_eq!(nearest_sample(&src, 6, 2, 2, 3, 0, 1), [7, 8, 9, 0]);
    assert_eq!(nearest_sample(&src, 6, 2, 2, 3, 1, 1), [10, 11, 12, 0]);
}

#[test]
fn nearest_sample_limits_coordinates_to_the_image() {
    let src: Vec<u8> = vec![1, 2, 3, 4, 5, 6, 7, 8, 9, 10, 11, 12];
    assert_eq!(nearest_sample(&src, 6, 2, 2, 3, 5, 0), [4, 5, 6, 0]);
    assert_eq!(nearest_sample(&src, 6, 2, 2, 3, 0, 9), [7, 8, 9, 0]);
    assert_eq!(nearest_sample(&src, 6, 2, 2, 3, usize::MAX, usize::MAX), [10, 11, 12, 0]);
}

#[test]
fn nearest_sample_reads_zero_past_the_buffer() {
    let src: Vec<u8> = vec![1, 2, 3, 4, 5];
    // second pixel of a 2x1 image, cut off after two of its bytes
    assert_eq!(nearest_sample(&src, 6, 2, 1, 3, 1, 0), [4, 5, 0, 0]);
    // a stride that leads far past the buffer
    assert_eq!(nearest_sample(&src, usize::MAX, 2, 2, 3, 1, 1), [0, 0, 0, 0]);
    assert_eq!(nearest_sample(&[], 6, 2, 2, 3, 0, 0), [0, 0, 0, 0]);
}

#[test]
fn nearest_sample_reads_at_most_four_channels() {
    let src: Vec<u8> = vec![1, 2, 3, 4, 5, 6, 7, 8];
    assert_eq!(nearest_sample(&src, 8, 1, 1, 4, 0, 0), [1, 2, 3, 4]);
    assert_eq!(nearest_sample(&src, 8, 1, 1, 6, 0, 0), [1, 2, 3, 4]);
    assert_eq!(nearest_sample(&src, 8, 1, 1, 1, 0, 0), [1, 0, 0, 0]);
    assert_eq!(nearest_sample(&src, 8, 1, 1, 0, 0, 0), [0, 0, 0, 0]);
}

#[test]
fn a_solid_image_stays_solid() {
    let src: Vec<u8> = (0..16).flat_map(|_| [255u8, 0, 0]).collect();
    let mut dst = vec![0u8; 48];
    // every destination pixel reads somewhere inside the image
    let lut: Vec<SourcePixel> = (0..16).map(|i| SourcePixel { x: (i * 7) % 5, y: (i * 3) % 6 }).collect();
    warp_image_fast(&lut, &src, 12, 4, 4, &mut dst, 12, 4, 4, 3);
    assert_eq!(dst, src);
}

#[test]
fn the_identity_table_copies_the_image() {
    let src: Vec<u8> = (0..24).collect();
    let mut dst = vec![0u8; 24];
    warp_image_fast(&identity_lut(4, 2), &src, 12, 4, 2, &mut dst, 12, 4, 2, 3);
    assert_eq!(dst, src);
}

#[test]
fn a_table_can_mirror_the_image() {
    let src: Vec<u8> = vec![1, 1, 1, 2, 2, 2, 3, 3, 3, 4, 4, 4];
    let mut dst = vec![0u8; 12];
    let lut = vec![
        SourcePixel { x: 1, y: 1 },
        SourcePixel { x: 0, y: 1 },
        SourcePixel { x: 1, y: 0 },
        SourcePixel { x: 0, y: 0 },
    ];
    warp_image_fast(&lut, &src, 6, 2, 2, &mut dst, 6, 2, 2, 3);
    assert_eq!(dst, vec![4, 4, 4, 3, 3, 3, 2, 2, 2, 1, 1, 1]);
}

#[test]
fn padding_and_extra_rows_are_left_alone() {
    let src: Vec<u8> = vec![10, 20, 30, 40];
    // rows of 3 bytes for 2 pixels of 1 channel, and a third row past the transform
    let mut dst = vec![9u8; 9];
    warp_image_fast(&identity_lut(2, 2), &src, 2, 2, 2, &mut dst, 3, 2, 2, 1);
    assert_eq!(dst, vec![10, 20, 9, 30, 40, 9, 9, 9, 9]);
}

#[test]
fn a_short_destination_takes_what_fits() {
    let src: Vec<u8> = (1..=12).collect();
    // room for one row and one pixel and a byte
    let mut dst = vec![0u8; 10];
    warp_image_fast(&identity_lut(2, 2), &src, 6, 2, 2, &mut dst, 6, 2, 2, 3);
    assert_eq!(dst, vec![1, 2, 3, 4, 5, 6, 7, 8, 9, 10]);
}

#[test]
fn a_source_past_the_buffer_leaves_the_destination() {
    let src: Vec<u8> = vec![1, 2, 3, 4];
    let mut dst = vec![7u8; 6];
    // the source claims 2x1 pixels of 3 bytes but holds 4 bytes
    warp_image_fast(&identity_lut(2, 1), &src, 6, 2, 1, &mut dst, 6, 2, 1, 3);
    assert_eq!(dst, vec![1, 2, 3, 4, 7, 7]);
}

#[test]
fn no_channels_no_change() {
    let src: Vec<u8> = vec![1, 2, 3, 4];
    let mut dst = vec![7u8; 4];
    warp_image_fast(&identity_lut(2, 2), &src, 2, 2, 2, &mut dst, 2, 2, 2, 0);
    assert_eq!(dst, vec![7u8; 4]);
}

#[test]
fn one_row_at_a_time_gives_the_same_image() {
    let src: Vec<u8> = (0..48).map(|i| (i * 5 % 251) as u8).collect();
    let lut: Vec<SourcePixel> = (0..16).map(|i| SourcePixel { x: (i * 7) % 6, y: (i * 3) % 5 }).collect();
    let mut whole = vec![0u8; 48];
    warp_image_fast(&lut, &src, 12, 4, 4, &mut whole, 12, 4, 4, 3);
    let mut by_rows = vec![0u8; 48];
    for (y, row) in by_rows.chunks_mut(12).enumerate() {
        warp_image_fast(&lut[y * 4..(y + 1) * 4], &src, 12, 4, 4, row, 12, 4, 1, 3);
    }
    assert_eq!(by_rows, whole);
}
