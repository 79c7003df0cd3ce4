//! Trimming rasterized text to its ink.
use vstd::prelude::*;

use crate::canvas::{byte_at, lemma_pixels_disjoint};
use crate::card::{has_ink, ink_bounds, ink_extent, is_ink, scanned};
use crate::look::lemma_pixel_in_image;

verus! {

/// Alpha above which a pixel of rasterized text counts as ink.
pub const INK_ALPHA_MIN: u8 = 10;

/// 255 where pixel `p` of a `w`×`h` RGBA raster is ink, 0 elsewhere.
pub open spec fn coverage_mask(src: Seq<u8>, w: int, h: int) -> Seq<u8> {
    Seq::new((w * h) as nat, |p: int| if src[p * 4 + 3] > INK_ALPHA_MIN { 255u8 } else { 0u8 })
}

/// The ink's bounding box grown by one pixel on each side and kept inside
/// the raster: `(x, y, width, height)`.
pub open spec fn ink_crop(src: Seq<u8>, w: int, h: int) -> (int, int, int, int) {
    let e = ink_extent(coverage_mask(src, w, h), w, h);
    let x0 = if e.0 >= 1 { e.0 - 1 } else { 0 };
    let y0 = if e.1 >= 1 { e.1 - 1 } else { 0 };
    let x1 = if e.2 + 1 <= w - 1 { e.2 + 1 } else { w - 1 };
    let y1 = if e.3 + 1 <= h - 1 { e.3 + 1 } else { h - 1 };
    (x0, y0, x1 - x0 + 1, y1 - y0 + 1)
}

/// Crop a `w`×`h` RGBA raster to its ink (alpha above `INK_ALPHA_MIN`) plus
/// a one-pixel margin. `None` for an empty or short buffer, or one with no
/// ink.
pub fn crop_ink(src: &[u8], w: u32, h: u32) -> (r: Option<(u32, u32, Vec<u8>)>)
    requires
        w * h * 4 <= u32::MAX,
    ensures
        r is None <==> (w == 0 || h == 0 || src@.len() < w * h * 4
            || !has_ink(coverage_mask(src@, w as int, h as int), w as int, h as int)),
        r matches Some((nw, nh, out)) ==> {
            let c = ink_crop(src@, w as int, h as int);
            &&& nw == c.2
            &&& nh == c.3
            &&& out@.len() == nw * nh * 4
            &&& forall|x: int, y: int| #[trigger] is_ink(coverage_mask(src@, w as int, h as int), w as int, h as int, x, y)
                ==> c.0 <= x && x < c.0 + nw && c.1 <= y && y < c.1 + nh
            &&& forall|x: int, y: int, k: int| 0 <= x < nw && 0 <= y < nh && 0 <= k < 4
                ==> #[trigger] out@[byte_at(nw as int, x, y, k)] == src@[byte_at(w as int, c.0 + x, c.1 + y, k)]
        },
{
    if w == 0 || h == 0 || src.len() < (w * h * 4) as usize {
        return None;
    }
    let ghost wn = w as int;
    let ghost hn = h as int;
    let ghost cov_s = coverage_mask(src@, wn, hn);
    let n = (w * h) as usize;
    let mut cov: Vec<u8> = Vec::new();
    let len = src.len();
    let mut p: usize = 0;
    while p < n
        invariant
            p <= n,
            len == src@.len(),
            n == wn * hn,
            n * 4 <= src@.len(),
            cov_s == coverage_mask(src@, wn, hn),
            cov@.len() == p,
            forall|q: int| 0 <= q < p ==> #[trigger] cov@[q] == cov_s[q],
        decreases n - p,
    {
        cov.push(if src[p * 4 + 3] > INK_ALPHA_MIN { 255u8 } else { 0u8 });
        p += 1;
    }
    assert(cov@ =~= cov_s);
    let (x0, y0, x1, y1) = ink_bounds(&cov, w, h);
    if x0 >= w {
        return None;
    }
    let min_x = if x0 >= 1 { x0 - 1 } else { 0 };
    let min_y = if y0 >= 1 { y0 - 1 } else { 0 };
    let max_x = if x1 + 1 <= w - 1 { x1 + 1 } else { w - 1 };
    let max_y = if y1 + 1 <= h - 1 { y1 + 1 } else { h - 1 };
    let nw = max_x - min_x + 1;
    let nh = max_y - min_y + 1;
    assert(nw * nh * 4 <= w * h * 4) by (nonlinear_arith)
        requires 1 <= nw <= w, 1 <= nh <= h;
    let mut out: Vec<u8> = vec![0u8; (nw * nh * 4) as usize];
    let ghost nwn = nw as int;
    let ghost nhn = nh as int;
    proof {
        assert forall|px: int, py: int, k: int| 0 <= px < nwn && 0 <= py < nhn && 0 <= k < 4
            implies #[trigger] out@[byte_at(nwn, px, py, k)] == 0u8 by {
            lemma_pixel_in_image(nwn, nhn, px, py, k);
        }
    }
    let mut y: u32 = 0;
    while y < nh
        invariant
            y <= nh,
            nwn == nw,
            nhn == nh,
            wn == w,
            hn == h,
            min_x + nw <= w,
            min_y + nh <= h,
            w * h * 4 <= src@.len(),
            w * h * 4 <= u32::MAX,
            nw * nh * 4 <= w * h * 4,
            out@.len() == nw * nh * 4,
            forall|px: int, py: int, k: int| 0 <= px < nwn && 0 <= py < nhn && 0 <= k < 4
                ==> #[trigger] out@[byte_at(nwn, px, py, k)]
                    == if py < y { src@[byte_at(wn, min_x + px, min_y + py, k)] } else { 0u8 },
        decreases nh - y,
    {
        let mut x: u32 = 0;
        while x < nw
            invariant
                x <= nw,
                y < nh,
                nwn == nw,
                nhn == nh,
                wn == w,
                hn == h,
                min_x + nw <= w,
                min_y + nh <= h,
                w * h * 4 <= src@.len(),
                w * h * 4 <= u32::MAX,
                nw * nh * 4 <= w * h * 4,
                out@.len() == nw * nh * 4,
                forall|px: int, py: int, k: int| 0 <= px < nwn && 0 <= py < nhn && 0 <= k < 4
                    ==> #[trigger] out@[byte_at(nwn, px, py, k)]
                        == if scanned(x as int, y as int, px, py) { src@[byte_at(wn, min_x + px, min_y + py, k)] } else { 0u8 },
            decreases nw - x,
        {
            let ghost sx = (min_x + x) as int;
            let ghost sy = (min_y + y) as int;
            proof {
                lemma_pixel_in_image(nwn, nhn, x as int, y as int, 3);
                lemma_pixel_in_image(wn, hn, sx, sy, 3);
                lemma_pixel_in_image(nwn, nhn, x as int, y as int, 0);
                lemma_pixel_in_image(wn, hn, sx, sy, 0);
            }
            let di = ((y * nw + x) * 4) as usize;
            let si = (((min_y + y) * w + (min_x + x)) * 4) as usize;
            out.set(di, src[si]);
            out.set(di + 1, src[si + 1]);
            out.set(di + 2, src[si + 2]);
            out.set(di + 3, src[si + 3]);
            proof {
                assert forall|px: int, py: int, k: int| 0 <= px < nwn && 0 <= py < nhn && 0 <= k < 4
                    implies #[trigger] out@[byte_at(nwn, px, py, k)]
                        == if scanned(x + 1, y as int, px, py) { src@[byte_at(wn, min_x + px, min_y + py, k)] } else { 0u8 } by {
                    lemma_pixel_in_image(nwn, nhn, px, py, k);
                    if px == x && py == y {
                        assert(byte_at(nwn, px, py, k) == di + k);
                        assert(byte_at(wn, min_x + px, min_y + py, k) == si + k);
                    } else {
                        lemma_pixels_disjoint(nwn, px, py, k, x as int, y as int, 0);
                        lemma_pixels_disjoint(nwn, px, py, k, x as int, y as int, 1);
                        lemma_pixels_disjoint(nwn, px, py, k, x as int, y as int, 2);
                        lemma_pixels_disjoint(nwn, px, py, k, x as int, y as int, 3);
                    }
                }
            }
            x += 1;
        }
        y += 1;
    }
    Some((nw, nh, out))
}

} // verus!
