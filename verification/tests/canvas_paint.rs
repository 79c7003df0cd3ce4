use pawdesk::canvas::{blit_rgba, blit_rgba_clipped, put};
use pawdesk::shapes::{fill_circle, fill_round_rect, fill_rrect, fill_triangle, inside_rrect, point_in_tri, stroke_rrect};

#[test]
fn put_blends_source_over() {
    let mut px = vec![0u8; 4 * 4];
    put(&mut px, 2, 1, 1, [200, 100, 50, 255]);
    assert_eq!(&px[12..16], &[200, 100, 50, 255]);
    put(&mut px, 2, 1, 1, [0, 0, 0, 0]);
    assert_eq!(&px[12..16], &[200, 100, 50, 255]);
    // Half-transparent black over opaque white.
    let mut px = vec![255u8; 4];
    put(&mut px, 1, 0, 0, [0, 0, 0, 128]);
    assert_eq!(&px[..], &[127, 127, 127, 255]);
    // Off-canvas pixels are ignored.
    let mut px = vec![0u8; 4];
    put(&mut px, 1, 1, 0, [9, 9, 9, 255]);
    put(&mut px, 1, 0, 1, [9, 9, 9, 255]);
    put(&mut px, 1, -1, 0, [9, 9, 9, 255]);
    assert_eq!(&px[..], &[0, 0, 0, 0]);
}

#[test]
fn blit_places_and_clips() {
    let mut dest = vec![0u8; 3 * 2 * 4];
    let src = vec![10u8, 20, 30, 255, 1, 2, 3, 0];
    blit_rgba(&mut dest, 3, 2, &src, 2, 1, 2, 1);
    assert_eq!(&dest[20..24], &[10, 20, 30, 255]);
    assert_eq!(dest.iter().filter(|b| **b != 0).count(), 4);

    let mut dest = vec![0u8; 3 * 2 * 4];
    let src = vec![7u8; 2 * 2 * 4];
    blit_rgba_clipped(&mut dest, 3, 2, &src, 2, 2, -1, 0, (0, 1, 3, 1));
    assert_eq!(&dest[12..16], &[7, 7, 7, 7]);
    assert_eq!(dest.iter().filter(|b| **b != 0).count(), 4);
}

#[test]
fn shapes_cover_expected_pixels() {
    assert!(inside_rrect(5, 5, 0, 0, 10, 10, 3));
    assert!(!inside_rrect(0, 0, 0, 0, 10, 10, 3));
    assert!(inside_rrect(0, 0, 0, 0, 10, 10, -2));
    assert!(point_in_tri(1, 1, 0, 0, 4, 0, 0, 4));
    assert!(!point_in_tri(4, 4, 0, 0, 4, 0, 0, 4));

    let mut px = vec![0u8; 10 * 10 * 4];
    fill_circle(&mut px, 10, 10, 5, 5, 2, [255, 0, 0, 255]);
    assert_eq!(px[(5 * 10 + 5) * 4 + 3], 255);
    assert_eq!(px[(5 * 10 + 7) * 4 + 3], 255);
    assert_eq!(px[(7 * 10 + 7) * 4 + 3], 0);

    let mut px = vec![0u8; 10 * 10 * 4];
    fill_round_rect(&mut px, 10, 10, 1, 1, 8, 8, 3, [0, 255, 0, 255]);
    assert_eq!(px[(1 * 10 + 1) * 4 + 3], 0);
    assert_eq!(px[(5 * 10 + 5) * 4 + 3], 255);
    assert_eq!(px[(1 * 10 + 5) * 4 + 3], 255);

    let mut px = vec![0u8; 10 * 10 * 4];
    fill_rrect(&mut px, 10, 10, 0, 0, 10, 10, 0, [1, 2, 3, 255]);
    assert!(px.chunks(4).all(|p| p == [1, 2, 3, 255]));

    let mut px = vec![0u8; 10 * 10 * 4];
    stroke_rrect(&mut px, 10, 10, 0, 0, 10, 10, 0, [1, 2, 3, 255], 2);
    assert_eq!(px[(5 * 10 + 5) * 4 + 3], 0);
    assert_eq!(px[(5 * 10 + 1) * 4 + 3], 255);

    let mut px = vec![0u8; 10 * 10 * 4];
    fill_triangle(&mut px, 10, 10, 0, 0, 4, 0, 0, 4, [9, 9, 9, 255]);
    assert_eq!(px[(1 * 10 + 1) * 4 + 3], 255);
    assert_eq!(px[(4 * 10 + 4) * 4 + 3], 0);
}
