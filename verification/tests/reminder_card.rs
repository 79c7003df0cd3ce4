use pawdesk::text::crop_ink;
use pawdesk::card::{
    artwork_bbox, compose_reminder_card_frame, feed_hint_text, remove_bg_flood, ReminderCard, HINT_BG,
};
use pawdesk::card_fit::{fit_size, prepare_reminder_card, BG_MIN_RGB, CROP_PAD};

/// A `w`×`h` RGBA image of opaque white paper.
fn paper(w: u32, h: u32) -> Vec<u8> {
    vec![255u8; (w * h * 4) as usize]
}

fn paint(img: &mut [u8], w: u32, x: u32, y: u32, c: [u8; 4]) {
    let i = ((y * w + x) * 4) as usize;
    img[i..i + 4].copy_from_slice(&c);
}

const INK: [u8; 4] = [40, 30, 20, 255];

#[test]
fn flood_keys_border_paper_only() {
    // 5×5 paper with a dark ring around the centre pixel: the centre is
    // near-white but enclosed, so it stays opaque.
    let (w, h) = (5u32, 5u32);
    let mut img = paper(w, h);
    for (x, y) in [(1, 1), (2, 1), (3, 1), (1, 2), (3, 2), (1, 3), (2, 3), (3, 3)] {
        paint(&mut img, w, x, y, INK);
    }
    let mask = remove_bg_flood(&img, w, h, BG_MIN_RGB);
    assert_eq!(mask.len(), 25);
    for y in 0..5u32 {
        for x in 0..5u32 {
            let border = x == 0 || y == 0 || x == 4 || y == 4;
            let expect = if border { 0 } else { 255 };
            assert_eq!(mask[(y * w + x) as usize], expect, "pixel ({x}, {y})");
        }
    }
}

#[test]
fn flood_follows_paths_through_gaps() {
    // A ring with a gap lets the flood reach the centre.
    let (w, h) = (5u32, 5u32);
    let mut img = paper(w, h);
    for (x, y) in [(1, 1), (2, 1), (3, 1), (1, 2), (1, 3), (2, 3), (3, 3)] {
        paint(&mut img, w, x, y, INK);
    }
    let mask = remove_bg_flood(&img, w, h, BG_MIN_RGB);
    assert_eq!(mask[(2 * w + 2) as usize], 0);
    assert_eq!(mask[(2 * w + 3) as usize], 0);
    assert_eq!(mask[(w + 1) as usize], 255);
}

#[test]
fn flood_threshold_is_per_channel() {
    // A warm pixel with one channel under the threshold is not paper.
    let (w, h) = (3u32, 1u32);
    let mut img = paper(w, h);
    paint(&mut img, w, 1, 0, [255, 250, 243, 255]);
    let mask = remove_bg_flood(&img, w, h, BG_MIN_RGB);
    assert_eq!(mask, vec![0, 255, 0]);
    paint(&mut img, w, 1, 0, [244, 244, 244, 255]);
    assert_eq!(remove_bg_flood(&img, w, h, BG_MIN_RGB), vec![0, 0, 0]);
}

#[test]
fn flood_of_empty_image_is_empty() {
    assert!(remove_bg_flood(&[], 0, 0, BG_MIN_RGB).is_empty());
}

#[test]
fn bbox_pads_and_clamps() {
    let (w, h) = (20u32, 10u32);
    let mut mask = vec![0u8; (w * h) as usize];
    mask[(3 * w + 5) as usize] = 255;
    mask[(6 * w + 9) as usize] = 255;
    // Extent x 5..=9, y 3..=6; padded by 2: x 3..=11, y 1..=8.
    assert_eq!(artwork_bbox(&mask, w, h, 2), (3, 1, 9, 8));
    // Padding past the image is clamped to it.
    assert_eq!(artwork_bbox(&mask, w, h, 12), (0, 0, 20, 10));
}

#[test]
fn bbox_without_artwork_is_empty() {
    let mask = vec![0u8; 30];
    assert_eq!(artwork_bbox(&mask, 6, 5, CROP_PAD), (0, 0, 0, 0));
    // A single artwork column has no extent either.
    let mut mask = vec![0u8; 30];
    mask[7] = 255;
    mask[13] = 255;
    assert_eq!(artwork_bbox(&mask, 6, 5, 1), (0, 0, 0, 0));
}

#[test]
fn fit_keeps_small_art_and_shrinks_large() {
    assert_eq!(fit_size(40, 30, 360, 260), (40, 30));
    // Height-limited: scale 260/520 = 0.5.
    assert_eq!(fit_size(400, 520, 360, 260), (200, 260));
    // Width-limited: scale 360/720; 301 * 0.5 = 150.5 rounds up.
    assert_eq!(fit_size(720, 301, 360, 260), (360, 151));
    // Never below one pixel.
    assert_eq!(fit_size(1000, 1, 10, 10), (10, 1));
}

#[test]
fn card_zero_sizes_are_refused() {
    let img = paper(4, 4);
    assert!(prepare_reminder_card(&img, 4, 4, 0, 0).is_none());
    assert!(prepare_reminder_card(&img, 0, 0, 10, 10).is_none());
}

#[test]
fn card_of_blank_paper_is_refused() {
    let img = paper(30, 30);
    assert!(prepare_reminder_card(&img, 30, 30, 20, 20).is_none());
}

#[test]
fn small_card_is_cropped_and_centred() {
    // 40×40 paper with a 4×3 ink block at (18, 18); the padded crop is
    // x 6..=33, y 6..=32 (28×27), which fits a 50×41 window unscaled.
    let (iw, ih) = (40u32, 40u32);
    let mut img = paper(iw, ih);
    for y in 18..21 {
        for x in 18..22 {
            paint(&mut img, iw, x, y, INK);
        }
    }
    let card = prepare_reminder_card(&img, iw, ih, 50, 41).expect("card");
    assert_eq!((card.w, card.h), (50, 41));
    assert_eq!(card.rgba.len(), 50 * 41 * 4);
    // Crop origin (6, 6) lands at ((50 - 28) / 2, (41 - 27) / 2) = (11, 7).
    let at = |x: u32, y: u32| {
        let i = ((y * 50 + x) * 4) as usize;
        [card.rgba[i], card.rgba[i + 1], card.rgba[i + 2], card.rgba[i + 3]]
    };
    assert_eq!(at(11 + 12, 7 + 12), INK);
    assert_eq!(at(11 + 15, 7 + 14), INK);
    // Keyed paper inside the crop is transparent black, as is the margin.
    assert_eq!(at(11, 7), [0, 0, 0, 0]);
    assert_eq!(at(0, 0), [0, 0, 0, 0]);
    assert_eq!(at(49, 40), [0, 0, 0, 0]);
    let opaque = card.rgba.chunks_exact(4).filter(|p| p[3] == 255).count();
    assert_eq!(opaque, 12);
}

#[test]
fn large_card_is_downscaled_to_fit() {
    // 200×120 paper with ink everywhere but a 2-pixel paper frame: the
    // crop is the whole image, contain-fitted into 50×50 as 50×30.
    let (iw, ih) = (200u32, 120u32);
    let mut img = paper(iw, ih);
    for y in 2..ih - 2 {
        for x in 2..iw - 2 {
            paint(&mut img, iw, x, y, INK);
        }
    }
    let card = prepare_reminder_card(&img, iw, ih, 50, 50).expect("card");
    assert_eq!((card.w, card.h), (50, 50));
    let alpha = |x: u32, y: u32| card.rgba[((y * 50 + x) * 4 + 3) as usize];
    // Rows above and below the 50×30 image (placed at y 10..40) stay empty.
    for x in 0..50 {
        assert_eq!(alpha(x, 9), 0);
        assert_eq!(alpha(x, 40), 0);
    }
    // The middle of the downscaled artwork is solid ink.
    let i = ((25 * 50 + 25) * 4) as usize;
    assert_eq!(&card.rgba[i..i + 4], &INK);
}

fn cream_card(w: u32, h: u32) -> ReminderCard {
    ReminderCard { w, h, rgba: vec![0u8; (w * h * 4) as usize] }
}

#[test]
fn card_frame_without_label_is_the_card() {
    let card = cream_card(60, 40);
    let (w, h, frame) = compose_reminder_card_frame(&card, None);
    assert_eq!((w, h), (60, 40));
    assert_eq!(frame, card.rgba);
}

#[test]
fn card_frame_draws_hint_pill_and_text() {
    let card = cream_card(100, 60);
    // A 20×8 opaque text raster: the pill is 48×20, centred at x 26 and
    // 12 px above the bottom (y 28).
    let text = [9u8, 8, 7, 255].repeat(20 * 8);
    let (w, h, frame) = compose_reminder_card_frame(&card, Some((20, 8, text)));
    assert_eq!((w, h), (100, 60));
    assert_ne!(frame, card.rgba);
    let px = |x: u32, y: u32| {
        let i = ((y * 100 + x) * 4) as usize;
        [frame[i], frame[i + 1], frame[i + 2], frame[i + 3]]
    };
    // Text at (26 + 14, 28 + 6).
    assert_eq!(px(40, 34), [9, 8, 7, 255]);
    assert_eq!(px(59, 41), [9, 8, 7, 255]);
    // Pill padding around the text.
    assert_eq!(px(50, 29), HINT_BG);
    // Outside the pill nothing changes.
    assert_eq!(px(25, 35), [0, 0, 0, 0]);
    assert_eq!(px(50, 48), [0, 0, 0, 0]);
    assert_eq!(px(26, 28), [0, 0, 0, 0]);
}

#[test]
fn feed_hint_changes_when_feeding() {
    assert_eq!(feed_hint_text(false), "点击投喂");
    assert_eq!(feed_hint_text(true), "呼～活力恢复了！");
}

#[test]
fn crop_ink_trims_to_ink_plus_margin() {
    // 8×6 raster, ink (alpha > 10) at (3, 2) and (5, 3); faint alpha 10 at (0, 0).
    let (w, h) = (8u32, 6u32);
    let mut px = vec![0u8; (w * h * 4) as usize];
    paint(&mut px, w, 3, 2, [1, 2, 3, 200]);
    paint(&mut px, w, 5, 3, [4, 5, 6, 11]);
    paint(&mut px, w, 0, 0, [7, 7, 7, 10]);
    let (nw, nh, out) = crop_ink(&px, w, h).expect("ink");
    // Ink x 3..=5, y 2..=3 grown by one: x 2..=6, y 1..=4.
    assert_eq!((nw, nh), (5, 4));
    assert_eq!(out.len(), 5 * 4 * 4);
    assert_eq!(&out[((1 * 5 + 1) * 4) as usize..((1 * 5 + 1) * 4 + 4) as usize], &[1, 2, 3, 200]);
    assert_eq!(&out[((2 * 5 + 3) * 4) as usize..((2 * 5 + 3) * 4 + 4) as usize], &[4, 5, 6, 11]);
    // Ink on the raster's edge keeps the margin inside the raster.
    let mut px = vec![0u8; (w * h * 4) as usize];
    paint(&mut px, w, 0, 0, [9, 9, 9, 255]);
    assert_eq!(crop_ink(&px, w, h).map(|c| (c.0, c.1)), Some((2, 2)));
}

#[test]
fn crop_ink_refuses_blank_or_short() {
    assert!(crop_ink(&[0u8; 64], 4, 4).is_none());
    assert!(crop_ink(&[255u8; 60], 4, 4).is_none());
    assert!(crop_ink(&[], 0, 3).is_none());
}
