//! Shortcut icons in the menu: an icon raster composited over the menu,
//! clipped to a rounded-square tile.
use vstd::prelude::*;

use crate::canvas::{
    all_pixels, in_canvas, lemma_painted_extend, lemma_painted_start, lemma_painted_step, painted,
    placed_source, put,
};
use crate::platform::fits_i32;

verus! {

pub open spec fn clamp_int(v: int, lo: int, hi: int) -> int {
    if v < lo { lo } else if v > hi { hi } else { v }
}

/// Whether `(px, py)` lies in the square `[x0, x1] × [y0, y1]` with its
/// corners rounded to radius `r`: within `r` of the square shrunk by `r`.
pub open spec fn in_tile(px: int, py: int, x0: int, y0: int, x1: int, y1: int, r: int) -> bool {
    let dx = px - clamp_int(px, x0 + r, x1 - r);
    let dy = py - clamp_int(py, y0 + r, y1 - r);
    dx * dx + dy * dy <= r * r
}

/// Corner radius actually used: at least 1.
pub open spec fn tile_radius(corner: int) -> int {
    if corner >= 1 { corner } else { 1 }
}

/// What `blit_icon_tile` paints on pixel `(x, y)`: the icon pixel landing
/// there (the icon centred on `(cx, cy)`), where it lies in the tile.
pub open spec fn tile_color(src: Seq<u8>, sw: int, sh: int, cx: int, cy: int, half: int, corner: int, x: int, y: int) -> Option<[u8; 4]> {
    if in_tile(x, y, cx - half, cy - half, cx + half, cy + half, tile_radius(corner)) {
        placed_source(src, sw, sh, cx - sw / 2, cy - sh / 2, x, y)
    } else {
        None
    }
}

fn in_tile_test(px: i32, py: i32, x0: i32, y0: i32, x1: i32, y1: i32, r: i32) -> (b: bool)
    requires
        x0 + r <= x1 - r,
        y0 + r <= y1 - r,
        fits_i32(x0 + r),
        fits_i32(x1 - r),
        fits_i32(y0 + r),
        fits_i32(y1 - r),
    ensures
        b == in_tile(px as int, py as int, x0 as int, y0 as int, x1 as int, y1 as int, r as int),
{
    let lox = x0 + r;
    let hix = x1 - r;
    let loy = y0 + r;
    let hiy = y1 - r;
    let cxp = if px < lox { lox } else if px > hix { hix } else { px };
    let cyp = if py < loy { loy } else if py > hiy { hiy } else { py };
    let dx = px as i128 - cxp as i128;
    let dy = py as i128 - cyp as i128;
    let rr = r as i128;
    assert(-0x1_0000_0000 <= dx <= 0x1_0000_0000);
    assert(-0x1_0000_0000 <= dy <= 0x1_0000_0000);
    assert(dx * dx <= 0x1_0000_0000_0000_0000) by (nonlinear_arith)
        requires -0x1_0000_0000 <= dx <= 0x1_0000_0000;
    assert(dy * dy <= 0x1_0000_0000_0000_0000) by (nonlinear_arith)
        requires -0x1_0000_0000 <= dy <= 0x1_0000_0000;
    assert(rr * rr <= 0x1_0000_0000_0000_0000) by (nonlinear_arith)
        requires -0x8000_0000 <= rr <= 0x8000_0000;
    assert(dx * dx >= 0 && dy * dy >= 0 && rr * rr >= 0) by (nonlinear_arith);
    let d2 = dx * dx + dy * dy;
    d2 <= rr * rr
}

/// Composite the `sw`×`sh` icon `src` centred on `(cx, cy)`, clipped to a
/// rounded square of half-size `half` and corner radius `corner` (at least
/// 1); fully transparent icon pixels are skipped. A short or empty icon
/// paints nothing.
pub fn blit_icon_tile(out: &mut [u8], w: u32, src: &[u8], sw: u32, sh: u32, cx: i32, cy: i32, half: i32, corner: i32)
    requires
        old(out)@.len() <= u32::MAX,
        sw * sh * 4 <= u32::MAX,
        tile_radius(corner as int) <= half,
        fits_i32(cx - half),
        fits_i32(cy - half),
        fits_i32(cx + half),
        fits_i32(cy + half),
        fits_i32(cx - sw / 2),
        fits_i32(cy - sh / 2),
        fits_i32(cx - sw / 2 + sw),
        fits_i32(cy - sh / 2 + sh),
        sw <= i32::MAX,
        sh <= i32::MAX,
    ensures
        sw == 0 || sh == 0 || src@.len() < sw * sh * 4 ==> final(out)@ == old(out)@,
        !(sw == 0 || sh == 0 || src@.len() < sw * sh * 4) ==> painted(old(out)@, final(out)@, w as int, all_pixels(),
            |x: int, y: int| tile_color(src@, sw as int, sh as int, cx as int, cy as int, half as int, corner as int, x, y)),
{
    if sw == 0 || sh == 0 || src.len() < (sw * sh * 4) as usize {
        return;
    }
    let x0 = cx - half;
    let y0 = cy - half;
    let x1 = cx + half;
    let y1 = cy + half;
    let r = if corner >= 1 { corner } else { 1 };
    let ox = cx - (sw / 2) as i32;
    let oy = cy - (sh / 2) as i32;
    let ghost old_d = out@;
    let ghost len = old_d.len() as int;
    let ghost color = |x: int, y: int| tile_color(src@, sw as int, sh as int, cx as int, cy as int, half as int, corner as int, x, y);
    proof {
        lemma_painted_start(old_d, w as int, |x: int, y: int| false, color);
    }
    let mut y: u32 = 0;
    while y < sh
        invariant
            y <= sh,
            sh <= i32::MAX,
            sw <= i32::MAX,
            old_d == old(out)@,
            len == old_d.len(),
            len <= u32::MAX,
            sw * sh * 4 <= u32::MAX,
            sw * sh * 4 <= src@.len(),
            x0 == cx - half,
            y0 == cy - half,
            x1 == cx + half,
            y1 == cy + half,
            r == tile_radius(corner as int),
            r <= half,
            ox == cx - sw / 2,
            oy == cy - sh / 2,
            fits_i32(cx - sw / 2 + sw),
            fits_i32(cy - sh / 2 + sh),
            fits_i32(cx - half),
            fits_i32(cy - half),
            fits_i32(cx + half),
            fits_i32(cy + half),
            color == (|x: int, y: int| tile_color(src@, sw as int, sh as int, cx as int, cy as int, half as int, corner as int, x, y)),
            painted(old_d, out@, w as int, |px: int, py: int| py - oy < y && 0 <= px - ox < sw && 0 <= py - oy, color),
        decreases sh - y,
    {
        let ty = oy + y as i32;
        let mut x: u32 = 0;
        while x < sw
            invariant
                x <= sw,
                y < sh,
                sh <= i32::MAX,
                sw <= i32::MAX,
                ty == oy + y,
                old_d == old(out)@,
                len == old_d.len(),
                len <= u32::MAX,
                sw * sh * 4 <= u32::MAX,
                sw * sh * 4 <= src@.len(),
                x0 == cx - half,
                y0 == cy - half,
                x1 == cx + half,
                y1 == cy + half,
                r == tile_radius(corner as int),
                r <= half,
                ox == cx - sw / 2,
                oy == cy - sh / 2,
                fits_i32(cx - sw / 2 + sw),
                fits_i32(cy - sh / 2 + sh),
                fits_i32(cx - half),
                fits_i32(cy - half),
                fits_i32(cx + half),
                fits_i32(cy + half),
                color == (|x: int, y: int| tile_color(src@, sw as int, sh as int, cx as int, cy as int, half as int, corner as int, x, y)),
                painted(old_d, out@, w as int,
                    |px: int, py: int| 0 <= px - ox < sw && 0 <= py - oy && (py - oy < y || (py - oy == y && px - ox < x)),
                    color),
            decreases sw - x,
        {
            let tx = ox + x as i32;
            let ghost done = |px: int, py: int| 0 <= px - ox < sw && 0 <= py - oy && (py - oy < y || (py - oy == y && px - ox < x));
            let ghost done2 = |px: int, py: int| 0 <= px - ox < sw && 0 <= py - oy && (py - oy < y || (py - oy == y && px - ox < x + 1));
            assert(y * sw + x < sw * sh) by (nonlinear_arith)
                requires y < sh, x < sw;
            if !in_tile_test(tx, ty, x0, y0, x1, y1, r) {
                proof {
                    lemma_painted_extend(old_d, out@, w as int, done, done2, color);
                }
            } else {
                let si = ((y * sw + x) * 4) as usize;
                let c = [src[si], src[si + 1], src[si + 2], src[si + 3]];
                if c[3] == 0 {
                    proof {
                        lemma_painted_extend(old_d, out@, w as int, done, done2, color);
                    }
                } else {
                    let ghost before = out@;
                    proof {
                        assert(color(tx as int, ty as int) == Some(c));
                    }
                    put(out, w, tx, ty, c);
                    proof {
                        lemma_painted_step(old_d, before, w as int, done, done2, color, tx as int, ty as int, c);
                    }
                }
            }
            x += 1;
        }
        proof {
            lemma_painted_extend(old_d, out@, w as int,
                |px: int, py: int| 0 <= px - ox < sw && 0 <= py - oy && (py - oy < y || (py - oy == y && px - ox < sw)),
                |px: int, py: int| py - oy < y + 1 && 0 <= px - ox < sw && 0 <= py - oy, color);
        }
        y += 1;
    }
    proof {
        lemma_painted_extend(old_d, out@, w as int,
            |px: int, py: int| py - oy < sh && 0 <= px - ox < sw && 0 <= py - oy,
            all_pixels(), color);
    }
}

} // verus!
