use longstitch::{overlay_image, RasterImage};

fn source() -> RasterImage {
    // Two by two pixels: 10.., 20.., 30.., 40..
    RasterImage::new(
        2,
        2,
        vec![10, 11, 12, 13, 20, 21, 22, 23, 30, 31, 32, 33, 40, 41, 42, 43],
    )
    .unwrap()
}

#[test]
fn overlay_paints_inside_a_four_channel_target() {
    let mut target = vec![0u8; 4 * 3 * 4];
    overlay_image(&mut target, 4, &source(), 1, 1, 4);
    let mut expected = vec![0u8; 48];
    expected[20..28].copy_from_slice(&[10, 11, 12, 13, 20, 21, 22, 23]);
    expected[36..44].copy_from_slice(&[30, 31, 32, 33, 40, 41, 42, 43]);
    assert_eq!(target, expected);
}

#[test]
fn overlay_leaves_alpha_out_of_three_channels() {
    let mut target = vec![9u8; 3 * 2 * 3];
    overlay_image(&mut target, 3, &source(), 0, 0, 3);
    assert_eq!(
        target,
        vec![10, 11, 12, 20, 21, 22, 9, 9, 9, 30, 31, 32, 40, 41, 42, 9, 9, 9]
    );
}

#[test]
fn overlay_keeps_extra_channels() {
    let mut target = vec![7u8; 2 * 1 * 5];
    overlay_image(&mut target, 2, &source(), 0, 0, 5);
    assert_eq!(target, vec![10, 11, 12, 7, 7, 20, 21, 22, 7, 7]);
}

#[test]
fn overlay_drops_what_falls_outside() {
    // The right column of the source falls beyond the row, the bottom row
    // beyond the buffer.
    let mut target = vec![0u8; 2 * 2 * 4];
    overlay_image(&mut target, 2, &source(), 1, 1, 4);
    assert_eq!(target, vec![0, 0, 0, 0, 0, 0, 0, 0, 0, 0, 0, 0, 10, 11, 12, 13]);

    // A buffer that ends inside a pixel does not get that pixel.
    let mut target = vec![0u8; 7];
    overlay_image(&mut target, 2, &source(), 0, 0, 4);
    assert_eq!(target, vec![10, 11, 12, 13, 0, 0, 0]);

    let mut target = vec![5u8; 8];
    overlay_image(&mut target, 0, &source(), 0, 0, 4);
    assert_eq!(target, vec![5u8; 8]);
    overlay_image(&mut target, 2, &source(), 2, 0, 4);
    assert_eq!(target, vec![5u8; 8]);
    overlay_image(&mut target, 2, &source(), usize::MAX, usize::MAX, 4);
    assert_eq!(target, vec![5u8; 8]);
}
