use pawdesk::look::{
    apply_master_silhouette, is_dark_fur, is_iris, pix, stabilize_look_rgba, stabilize_look_rgba_ex,
    translate_rgba,
};

#[test]
fn stabilize_keeps_size_and_locks_shifted_body() {
    let w = 32u32;
    let h = 32u32;
    let mut master = vec![0u8; (w * h * 4) as usize];
    for y in 20..30 {
        for x in 10..22 {
            let i = ((y * w + x) * 4) as usize;
            master[i] = 200;
            master[i + 1] = 180;
            master[i + 2] = 160;
            master[i + 3] = 255;
        }
    }
    let look = translate_rgba(&master, w, h, -3, 0);
    let out = stabilize_look_rgba(&look, &master, w, h);
    assert_eq!(out.len(), master.len());
    let y = 28u32;
    let i = ((y * w + 16) * 4) as usize;
    assert_eq!(&out[i..i + 4], &master[i..i + 4]);
}

#[test]
fn stabilize_premul_does_not_blacken_look_edge() {
    let w = 8u32;
    let h = 180u32;
    let mut look = vec![0u8; (w * h * 4) as usize];
    let master = vec![0u8; look.len()];
    let y = 158u32;
    let i = ((y * w + 3) * 4) as usize;
    look[i] = 220;
    look[i + 1] = 200;
    look[i + 2] = 180;
    look[i + 3] = 255;
    let out = stabilize_look_rgba(&look, &master, w, h);
    assert!(out[i] > 180, "r={}", out[i]);
    assert!(out[i + 1] > 160, "g={}", out[i + 1]);
    assert!(out[i + 2] > 140, "b={}", out[i + 2]);
    assert!(out[i + 3] > 80 && out[i + 3] < 200, "a={}", out[i + 3]);
}

#[test]
fn lock_silhouette_drops_look_outline_outside_master() {
    let w = 16u32;
    let h = 16u32;
    let mut master = vec![0u8; (w * h * 4) as usize];
    let mut look = vec![0u8; master.len()];
    for y in 4..12 {
        for x in 4..12 {
            let i = ((y * w + x) * 4) as usize;
            master[i] = 30;
            master[i + 1] = 30;
            master[i + 2] = 30;
            master[i + 3] = 255;
        }
    }
    for y in 3..13 {
        for x in 3..13 {
            let i = ((y * w + x) * 4) as usize;
            look[i] = 180;
            look[i + 1] = 40;
            look[i + 2] = 80;
            look[i + 3] = 255;
        }
    }
    let out = stabilize_look_rgba_ex(&look, &master, w, h, true);
    let outside = ((3u32 * w + 3) * 4) as usize;
    assert_eq!(out[outside + 3], 0, "look fringe outside master must vanish");
    let inside = ((8u32 * w + 8) * 4) as usize;
    assert_eq!(out[inside + 3], 255);
}

#[test]
fn feather_band_blends_exactly() {
    // Row 158 weighs master and look equally; row 174 and below is all master.
    let w = 1u32;
    let h = 180u32;
    let mut look = vec![0u8; (w * h * 4) as usize];
    let mut master = vec![0u8; look.len()];
    for y in 0..h {
        let i = (y * 4) as usize;
        look[i..i + 4].copy_from_slice(&[100, 100, 100, 255]);
        master[i..i + 4].copy_from_slice(&[200, 0, 50, 255]);
    }
    let out = stabilize_look_rgba(&look, &master, w, h);
    assert_eq!(&out[(100 * 4)..(100 * 4 + 4)], &[100, 100, 100, 255]);
    assert_eq!(&out[(158 * 4)..(158 * 4 + 4)], &[150, 50, 75, 255]);
    assert_eq!(&out[(175 * 4)..(175 * 4 + 4)], &[200, 0, 50, 255]);
}

#[test]
fn too_small_buffers_come_back_unchanged() {
    let look = vec![1u8, 2, 3, 4, 5, 6, 7, 8];
    let master = vec![0u8; 8];
    assert_eq!(stabilize_look_rgba(&look, &master, 2, 2), look);
    assert_eq!(stabilize_look_rgba(&look, &master, 0, 2), look);
}

#[test]
fn short_frames_and_the_plain_form() {
    let w = 2u32;
    let h = 143u32;
    let look: Vec<u8> = (0..(w * h * 4)).map(|i| (i % 251) as u8).collect();
    let master: Vec<u8> = (0..(w * h * 4)).map(|i| (i % 7) as u8 * 30).collect();
    assert_eq!(stabilize_look_rgba(&look, &master, w, h), look);
    let tall = 200u32;
    let look2: Vec<u8> = (0..(w * tall * 4)).map(|i| (i % 253) as u8).collect();
    let master2: Vec<u8> = (0..(w * tall * 4)).map(|i| (i % 11) as u8 * 20).collect();
    assert_eq!(
        stabilize_look_rgba(&look2, &master2, w, tall),
        stabilize_look_rgba_ex(&look2, &master2, w, tall, false)
    );
}

#[test]
fn translate_moves_and_clears() {
    let w = 3u32;
    let h = 2u32;
    let src: Vec<u8> = (0..24).collect();
    let out = translate_rgba(&src, w, h, 1, 1);
    assert_eq!(&out[0..12], &[0u8; 12]);
    assert_eq!(&out[12..16], &[0, 0, 0, 0]);
    assert_eq!(&out[16..20], &[0, 1, 2, 3]);
    assert_eq!(&out[20..24], &[4, 5, 6, 7]);
}

#[test]
fn silhouette_keeps_rim_and_clears_outside() {
    let w = 3u32;
    let h = 3u32;
    let mut master = vec![0u8; 36];
    for p in 0..9 {
        master[p * 4..p * 4 + 4].copy_from_slice(&[10, 20, 30, 255]);
    }
    master[3] = 0;
    let mut out = vec![99u8; 36];
    apply_master_silhouette(&mut out, &master, w, h);
    assert_eq!(&out[0..4], &[0, 0, 0, 0]);
    assert_eq!(&out[16..20], &[99, 99, 99, 255]);
    assert_eq!(&out[4..8], &[10, 20, 30, 255]);
}

#[test]
fn eye_pixel_tests() {
    assert!(is_iris(&[200, 120, 40, 255]));
    assert!(is_iris(&[20, 20, 20, 255]));
    assert!(!is_iris(&[200, 120, 40, 100]));
    assert!(!is_iris(&[120, 120, 120, 255]));
    assert!(is_dark_fur(&[60, 60, 60, 255]));
    assert!(!is_dark_fur(&[100, 60, 60, 255]));
    let src: Vec<u8> = (0..16).collect();
    assert_eq!(pix(&src, 2, 1, 1), [12, 13, 14, 15]);
}
