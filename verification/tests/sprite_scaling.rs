use pawdesk::line::stroke_line;
use pawdesk::letterbox::scale_rgba_centered_crisp;
use pawdesk::tile::blit_icon_tile;

const RED: [u8; 4] = [255, 0, 0, 255];

fn pixel(buf: &[u8], w: u32, x: u32, y: u32) -> [u8; 4] {
    let i = ((y * w + x) * 4) as usize;
    [buf[i], buf[i + 1], buf[i + 2], buf[i + 3]]
}

#[test]
fn icon_tile_rounds_corners() {
    let mut out = vec![0u8; 10 * 10 * 4];
    let icon = RED.repeat(16);
    blit_icon_tile(&mut out, 10, &icon, 4, 4, 5, 5, 2, 1);
    // The icon covers 3..=6 × 3..=6 and the tile 3..=7 × 3..=7 with corners
    // of radius 1: only the icon's top-left pixel falls outside it.
    assert_eq!(pixel(&out, 10, 3, 3), [0, 0, 0, 0]);
    assert_eq!(pixel(&out, 10, 6, 6), RED);
    assert_eq!(pixel(&out, 10, 3, 4), RED);
    assert_eq!(pixel(&out, 10, 4, 4), RED);
    assert_eq!(pixel(&out, 10, 2, 4), [0, 0, 0, 0]);
    let painted = out.chunks_exact(4).filter(|p| p[3] != 0).count();
    assert_eq!(painted, 15);
}

#[test]
fn icon_tile_skips_transparent_and_short_icons() {
    let mut out = vec![0u8; 10 * 10 * 4];
    let mut icon = RED.repeat(16);
    icon[(5 * 4 + 3) as usize] = 0;
    blit_icon_tile(&mut out, 10, &icon, 4, 4, 5, 5, 4, 1);
    assert_eq!(pixel(&out, 10, 4, 4), [0, 0, 0, 0]);
    assert_eq!(pixel(&out, 10, 3, 3), RED);
    let before = vec![7u8; 10 * 10 * 4];
    let mut out = before.clone();
    blit_icon_tile(&mut out, 10, &RED.repeat(3), 2, 2, 5, 5, 4, 1);
    assert_eq!(out, before);
}

#[test]
fn crisp_scale_doubles_pixels() {
    let (a, b, c, d) = ([1, 2, 3, 255], [4, 5, 6, 255], [7, 8, 9, 255], [10, 11, 12, 255]);
    let src: Vec<u8> = [a, b, c, d].concat();
    let out = scale_rgba_centered_crisp(&src, 2, 2, 4, 4);
    assert_eq!(out.len(), 64);
    assert_eq!(pixel(&out, 4, 0, 0), a);
    assert_eq!(pixel(&out, 4, 1, 1), a);
    assert_eq!(pixel(&out, 4, 2, 1), b);
    assert_eq!(pixel(&out, 4, 1, 2), c);
    assert_eq!(pixel(&out, 4, 3, 3), d);
}

#[test]
fn crisp_scale_letterboxes_and_copies() {
    let (a, b) = ([1, 2, 3, 255], [4, 5, 6, 255]);
    let src: Vec<u8> = [a, b].concat();
    // 2×1 into 4×4: scaled to 4×2, centred vertically.
    let out = scale_rgba_centered_crisp(&src, 2, 1, 4, 4);
    for x in 0..4 {
        assert_eq!(pixel(&out, 4, x, 0), [0, 0, 0, 0]);
        assert_eq!(pixel(&out, 4, x, 3), [0, 0, 0, 0]);
    }
    assert_eq!(pixel(&out, 4, 1, 1), a);
    assert_eq!(pixel(&out, 4, 2, 2), b);
    // Same size: a plain copy.
    assert_eq!(scale_rgba_centered_crisp(&src, 2, 1, 2, 1), src);
    // Short source: blank frame.
    assert_eq!(scale_rgba_centered_crisp(&src, 2, 2, 2, 2), vec![0u8; 16]);
}

fn painted_points(buf: &[u8], w: u32) -> Vec<(u32, u32)> {
    let mut pts = Vec::new();
    for (i, p) in buf.chunks_exact(4).enumerate() {
        if p[3] != 0 {
            pts.push((i as u32 % w, i as u32 / w));
        }
    }
    pts
}

#[test]
fn stroke_line_plots_bresenham_points() {
    use_line(0, 0, 3, 1, &[(0, 0), (1, 0), (2, 1), (3, 1)]);
    use_line(2, 2, 0, 0, &[(0, 0), (1, 1), (2, 2)]);
    use_line(1, 0, 1, 2, &[(1, 0), (1, 1), (1, 2)]);
    use_line(1, 1, 1, 1, &[(1, 1)]);
    // Off-canvas points are skipped.
    use_line(-2, 1, 1, 1, &[(0, 1), (1, 1)]);
}

fn use_line(x0: i32, y0: i32, x1: i32, y1: i32, expect: &[(u32, u32)]) {
    let mut buf = vec![0u8; 5 * 3 * 4];
    stroke_line(&mut buf, 5, 3, x0, y0, x1, y1, RED);
    let mut pts = painted_points(&buf, 5);
    pts.sort_by_key(|p| (p.1, p.0));
    let mut want = expect.to_vec();
    want.sort_by_key(|p| (p.1, p.0));
    assert_eq!(pts, want, "line ({x0},{y0})-({x1},{y1})");
}
