//! Look-pose frames: keeping the body of an authored look frame locked to
//! the front-facing master frame, and the pixel tests used on the eyes.
use vstd::prelude::*;

use crate::canvas::{byte_at, lemma_pixels_disjoint, px_at};

verus! {

/// A `w`×`h` RGBA image whose pixels all sit in a buffer of `len` bytes,
/// indexable with 32-bit arithmetic.
pub open spec fn image_fits(len: int, w: int, h: int) -> bool {
    &&& w * h * 4 <= len
    &&& w * h * 4 <= u32::MAX + 1
    &&& w <= i32::MAX
    &&& h <= i32::MAX
}

/// Pixel `(x, y)` of a `w`×`h` image lies within its first `w * h * 4` bytes.
pub proof fn lemma_pixel_in_image(w: int, h: int, x: int, y: int, k: int)
    requires
        0 <= x < w,
        0 <= y < h,
        0 <= k < 4,
    ensures
        0 <= byte_at(w, x, y, k) < w * h * 4,
        byte_at(w, x, y, k) == (y * w + x) * 4 + k,
{
    assert(y * w + x < h * w) by (nonlinear_arith)
        requires 0 <= y < h, 0 <= x < w;
    assert(y * w + x >= 0) by (nonlinear_arith)
        requires 0 <= y, 0 <= x, 0 < w;
    assert(h * w == w * h) by (nonlinear_arith);
}

/// Byte `k` of pixel `(x, y)` of `src` moved by `(dx, dy)`: what was at
/// `(x - dx, y - dy)`, or transparent black where that lies off the image.
pub open spec fn translate_value(src: Seq<u8>, w: int, h: int, dx: int, dy: int, x: int, y: int, k: int) -> u8 {
    let sx = x - dx;
    let sy = y - dy;
    if 0 <= sx < w && 0 <= sy < h { src[byte_at(w, sx, sy, k)] } else { 0 }
}

/// Shift a `w`×`h` RGBA image by `(dx, dy)`, filling uncovered pixels with
/// transparent black. Bytes past the image are zero.
pub fn translate_rgba(src: &[u8], w: u32, h: u32, dx: i32, dy: i32) -> (out: Vec<u8>)
    requires
        image_fits(src@.len() as int, w as int, h as int),
    ensures
        out@.len() == src@.len(),
        forall|x: int, y: int, k: int|
            0 <= x < w && 0 <= y < h && 0 <= k < 4 ==> #[trigger] out@[byte_at(w as int, x, y, k)]
                == translate_value(src@, w as int, h as int, dx as int, dy as int, x, y, k),
        forall|j: int| w * h * 4 <= j < src@.len() ==> #[trigger] out@[j] == 0,
{
    let mut out: Vec<u8> = vec![0u8; src.len()];
    let wi = w as i32;
    let hi = h as i32;
    let ghost wn = w as int;
    let ghost hn = h as int;
    proof {
        assert forall|px: int, py: int, k: int|
            0 <= px < wn && 0 <= py < hn && 0 <= k < 4 implies #[trigger] out@[byte_at(wn, px, py, k)] == 0u8 by {
            lemma_pixel_in_image(wn, hn, px, py, k);
        }
    }
    let mut y: i32 = 0;
    while y < hi
        invariant
            0 <= y <= hi,
            wi == w,
            hi == h,
            wn == w,
            hn == h,
            image_fits(src@.len() as int, wn, hn),
            out@.len() == src@.len(),
            forall|px: int, py: int, k: int|
                0 <= px < wn && 0 <= py < hn && 0 <= k < 4 ==> #[trigger] out@[byte_at(wn, px, py, k)]
                    == if py < y { translate_value(src@, wn, hn, dx as int, dy as int, px, py, k) } else { 0u8 },
            forall|j: int| wn * hn * 4 <= j < src@.len() ==> #[trigger] out@[j] == 0,
        decreases hi - y,
    {
        let sy = y as i64 - dy as i64;
        if sy >= 0 && sy < hi as i64 {
            let mut x: i32 = 0;
            while x < wi
                invariant
                    0 <= x <= wi,
                    0 <= y < hi,
                    0 <= sy < hi,
                    sy == y - dy,
                    wi == w,
                    hi == h,
                    wn == w,
                    hn == h,
                    image_fits(src@.len() as int, wn, hn),
                    out@.len() == src@.len(),
                    forall|px: int, py: int, k: int|
                        0 <= px < wn && 0 <= py < hn && 0 <= k < 4 ==> #[trigger] out@[byte_at(wn, px, py, k)]
                            == if py < y || (py == y && px < x) {
                                translate_value(src@, wn, hn, dx as int, dy as int, px, py, k)
                            } else {
                                0u8
                            },
                    forall|j: int| wn * hn * 4 <= j < src@.len() ==> #[trigger] out@[j] == 0,
                decreases wi - x,
            {
                let sx = x as i64 - dx as i64;
                if sx >= 0 && sx < wi as i64 {
                    proof {
                        lemma_pixel_in_image(wn, hn, x as int, y as int, 3);
                        lemma_pixel_in_image(wn, hn, x as int, y as int, 0);
                        lemma_pixel_in_image(wn, hn, sx as int, sy as int, 3);
                        lemma_pixel_in_image(wn, hn, sx as int, sy as int, 0);
                    }
                    let di = ((y as u32 * w + x as u32) * 4) as usize;
                    let si = ((sy as u32 * w + sx as u32) * 4) as usize;
                    let ghost before = out@;
                    out.set(di, src[si]);
                    out.set(di + 1, src[si + 1]);
                    out.set(di + 2, src[si + 2]);
                    out.set(di + 3, src[si + 3]);
                    proof {
                        assert forall|px: int, py: int, k: int|
                            0 <= px < wn && 0 <= py < hn && 0 <= k < 4 implies #[trigger] out@[byte_at(wn, px, py, k)]
                                == if py < y || (py == y && px < x + 1) {
                                    translate_value(src@, wn, hn, dx as int, dy as int, px, py, k)
                                } else {
                                    0u8
                                } by {
                            lemma_pixel_in_image(wn, hn, px, py, k);
                            if px != x || py != y {
                                lemma_pixels_disjoint(wn, px, py, k, x as int, y as int, 0);
                                lemma_pixels_disjoint(wn, px, py, k, x as int, y as int, 1);
                                lemma_pixels_disjoint(wn, px, py, k, x as int, y as int, 2);
                                lemma_pixels_disjoint(wn, px, py, k, x as int, y as int, 3);
                                assert(out@[byte_at(wn, px, py, k)] == before[byte_at(wn, px, py, k)]);
                            }
                        }
                    }
                }
                x += 1;
            }
        }
        y += 1;
    }
    out
}

/// Whether the neighbour `(x, y)` breaks the master's interior: off the
/// image or nearly transparent.
pub open spec fn weak_neighbor(master: Seq<u8>, w: int, h: int, x: int, y: int) -> bool {
    x < 0 || y < 0 || x >= w || y >= h || master[byte_at(w, x, y, 3)] < 40
}

/// A master pixel on the silhouette's rim: one of its four neighbours is weak.
pub open spec fn silhouette_rim(master: Seq<u8>, w: int, h: int, x: int, y: int) -> bool {
    weak_neighbor(master, w, h, x - 1, y) || weak_neighbor(master, w, h, x + 1, y)
        || weak_neighbor(master, w, h, x, y - 1) || weak_neighbor(master, w, h, x, y + 1)
}

/// Byte `k` of pixel `(x, y)` once the master's outline is imposed: cleared
/// where the master is (nearly) transparent, the master's own pixel on its
/// rim, and elsewhere the frame's colour under the master's alpha.
pub open spec fn silhouette_value(out: Seq<u8>, master: Seq<u8>, w: int, h: int, x: int, y: int, k: int) -> u8 {
    let ma = master[byte_at(w, x, y, 3)];
    if ma < 8 {
        0
    } else if silhouette_rim(master, w, h, x, y) {
        master[byte_at(w, x, y, k)]
    } else if k == 3 {
        ma
    } else {
        out[byte_at(w, x, y, k)]
    }
}

/// Impose the master frame's sit outline on `out`.
pub fn apply_master_silhouette(out: &mut [u8], master: &[u8], w: u32, h: u32)
    requires
        image_fits(old(out)@.len() as int, w as int, h as int),
        image_fits(master@.len() as int, w as int, h as int),
    ensures
        final(out)@.len() == old(out)@.len(),
        forall|x: int, y: int, k: int|
            0 <= x < w && 0 <= y < h && 0 <= k < 4 ==> #[trigger] final(out)@[byte_at(w as int, x, y, k)]
                == silhouette_value(old(out)@, master@, w as int, h as int, x, y, k),
        forall|j: int| w * h * 4 <= j < old(out)@.len() ==> #[trigger] final(out)@[j] == old(out)@[j],
{
    let wi = w as i32;
    let hi = h as i32;
    let ghost wn = w as int;
    let ghost hn = h as int;
    let ghost orig = out@;
    let mut y: i32 = 0;
    while y < hi
        invariant
            0 <= y <= hi,
            wi == w,
            hi == h,
            wn == w,
            hn == h,
            orig == old(out)@,
            image_fits(orig.len() as int, wn, hn),
            image_fits(master@.len() as int, wn, hn),
            out@.len() == orig.len(),
            forall|px: int, py: int, k: int|
                0 <= px < wn && 0 <= py < hn && 0 <= k < 4 ==> #[trigger] out@[byte_at(wn, px, py, k)]
                    == if py < y { silhouette_value(orig, master@, wn, hn, px, py, k) } else { orig[byte_at(wn, px, py, k)] },
            forall|j: int| wn * hn * 4 <= j < orig.len() ==> #[trigger] out@[j] == orig[j],
        decreases hi - y,
    {
        let mut x: i32 = 0;
        while x < wi
            invariant
                0 <= x <= wi,
                0 <= y < hi,
                wi == w,
                hi == h,
                wn == w,
                hn == h,
                orig == old(out)@,
                image_fits(orig.len() as int, wn, hn),
                image_fits(master@.len() as int, wn, hn),
                out@.len() == orig.len(),
                forall|px: int, py: int, k: int|
                    0 <= px < wn && 0 <= py < hn && 0 <= k < 4 ==> #[trigger] out@[byte_at(wn, px, py, k)]
                        == if py < y || (py == y && px < x) {
                            silhouette_value(orig, master@, wn, hn, px, py, k)
                        } else {
                            orig[byte_at(wn, px, py, k)]
                        },
                forall|j: int| wn * hn * 4 <= j < orig.len() ==> #[trigger] out@[j] == orig[j],
            decreases wi - x,
        {
            proof {
                lemma_pixel_in_image(wn, hn, x as int, y as int, 0);
                lemma_pixel_in_image(wn, hn, x as int, y as int, 3);
            }
            let i = ((y as u32 * w + x as u32) * 4) as usize;
            let ghost before = out@;
            let ma = master[i + 3];
            if ma < 8 {
                out[i] = 0;
                out[i + 1] = 0;
                out[i + 2] = 0;
                out[i + 3] = 0;
            } else {
                let edge = rim_at(master, w, h, x, y);
                if edge {
                    out[i] = master[i];
                    out[i + 1] = master[i + 1];
                    out[i + 2] = master[i + 2];
                    out[i + 3] = master[i + 3];
                } else {
                    out[i + 3] = ma;
                }
            }
            proof {
                assert forall|px: int, py: int, k: int|
                    0 <= px < wn && 0 <= py < hn && 0 <= k < 4 implies #[trigger] out@[byte_at(wn, px, py, k)]
                        == if py < y || (py == y && px < x + 1) {
                            silhouette_value(orig, master@, wn, hn, px, py, k)
                        } else {
                            orig[byte_at(wn, px, py, k)]
                        } by {
                    lemma_pixel_in_image(wn, hn, px, py, k);
                    if px != x || py != y {
                        lemma_pixels_disjoint(wn, px, py, k, x as int, y as int, 0);
                        lemma_pixels_disjoint(wn, px, py, k, x as int, y as int, 1);
                        lemma_pixels_disjoint(wn, px, py, k, x as int, y as int, 2);
                        lemma_pixels_disjoint(wn, px, py, k, x as int, y as int, 3);
                        assert(out@[byte_at(wn, px, py, k)] == before[byte_at(wn, px, py, k)]);
                    } else {
                        assert(before[byte_at(wn, px, py, k)] == orig[byte_at(wn, px, py, k)]);
                    }
                }
            }
            x += 1;
        }
        y += 1;
    }
}

/// Master alpha at `(nx, ny)` is weak (or the neighbour is off the image).
fn weak_at(master: &[u8], w: u32, h: u32, nx: i32, ny: i32) -> (b: bool)
    requires
        image_fits(master@.len() as int, w as int, h as int),
    ensures
        b == weak_neighbor(master@, w as int, h as int, nx as int, ny as int),
{
    if nx < 0 || ny < 0 || nx >= w as i32 || ny >= h as i32 {
        return true;
    }
    proof {
        lemma_pixel_in_image(w as int, h as int, nx as int, ny as int, 3);
    }
    let ni = ((ny as u32 * w + nx as u32) * 4 + 3) as usize;
    master[ni] < 40
}

fn rim_at(master: &[u8], w: u32, h: u32, x: i32, y: i32) -> (b: bool)
    requires
        image_fits(master@.len() as int, w as int, h as int),
        0 <= x < w,
        0 <= y < h,
    ensures
        b == silhouette_rim(master@, w as int, h as int, x as int, y as int),
{
    weak_at(master, w, h, x - 1, y) || weak_at(master, w, h, x + 1, y)
        || weak_at(master, w, h, x, y - 1) || weak_at(master, w, h, x, y + 1)
}

/// Dark cheek fur: opaque, dim and not reddish.
pub open spec fn is_dark_fur_spec(r: u8, g: u8, b: u8, a: u8) -> bool {
    a >= 200 && (r + g + b) / 3 < 78 && r < 90 && g < 90
}

/// Amber iris or dark pupil, not the black socket ring or cheek fur.
pub open spec fn is_iris_spec(r: u8, g: u8, b: u8, a: u8) -> bool {
    a >= 200 && ((r > 130 && g > 75 && b < 130 && r > b + 25) || ((r + g + b) / 3 < 48 && r < 70))
}

pub fn is_dark_fur(p: &[u8]) -> (res: bool)
    requires
        p@.len() >= 4,
    ensures
        res == is_dark_fur_spec(p@[0], p@[1], p@[2], p@[3]),
{
    if p[3] < 200 {
        return false;
    }
    let l = (p[0] as u16 + p[1] as u16 + p[2] as u16) / 3;
    l < 78 && p[0] < 90 && p[1] < 90
}

pub fn is_iris(p: &[u8]) -> (res: bool)
    requires
        p@.len() >= 4,
    ensures
        res == is_iris_spec(p@[0], p@[1], p@[2], p@[3]),
{
    if p[3] < 200 {
        return false;
    }
    let r = p[0] as i16;
    let g = p[1] as i16;
    let b = p[2] as i16;
    let l = (r + g + b) / 3;
    (r > 130 && g > 75 && b < 130 && r > b + 25) || (l < 48 && r < 70)
}

/// The four bytes of pixel `(x, y)`.
pub fn pix(src: &[u8], w: u32, x: u32, y: u32) -> (r: [u8; 4])
    requires
        (y * w + x) * 4 + 3 < src@.len(),
        (y * w + x) * 4 + 3 <= u32::MAX,
    ensures
        r@ == seq![src@[(y * w + x) * 4], src@[(y * w + x) * 4 + 1], src@[(y * w + x) * 4 + 2], src@[(y * w + x) * 4 + 3]],
{
    assert(y * w <= (y * w + x)) by (nonlinear_arith)
        requires x >= 0;
    let i = ((y * w + x) * 4) as usize;
    [src[i], src[i + 1], src[i + 2], src[i + 3]]
}

/// Body pixels of a frame: alpha at least 16.
pub open spec fn body_px(rgba: Seq<u8>, w: int, x: int, y: int) -> bool {
    rgba[byte_at(w, x, y, 3)] >= 16
}

/// Sum of x, sum of y and count of the body pixels of row `y` left of `xe`.
pub open spec fn row_stats(rgba: Seq<u8>, w: int, y: int, xe: int) -> (int, int, int)
    decreases xe,
{
    if xe <= 0 {
        (0, 0, 0)
    } else {
        let (sx, sy, n) = row_stats(rgba, w, y, xe - 1);
        if body_px(rgba, w, xe - 1, y) { (sx + xe - 1, sy + y, n + 1) } else { (sx, sy, n) }
    }
}

/// The same sums over rows `y0 <= y < ye`, each over the full width.
pub open spec fn rows_stats(rgba: Seq<u8>, w: int, y0: int, ye: int) -> (int, int, int)
    decreases ye - y0,
{
    if ye <= y0 {
        (0, 0, 0)
    } else {
        let (sx, sy, n) = rows_stats(rgba, w, y0, ye - 1);
        let (rx, ry, rn) = row_stats(rgba, w, ye - 1, w);
        (sx + rx, sy + ry, n + rn)
    }
}

proof fn lemma_row_stats_bounds(rgba: Seq<u8>, w: int, y: int, xe: int)
    requires
        0 <= xe <= w,
        0 <= y,
    ensures
        0 <= row_stats(rgba, w, y, xe).0 <= xe * w,
        row_stats(rgba, w, y, xe).1 == row_stats(rgba, w, y, xe).2 * y,
        0 <= row_stats(rgba, w, y, xe).2 <= xe,
    decreases xe,
{
    if xe > 0 {
        lemma_row_stats_bounds(rgba, w, y, xe - 1);
        let prev = row_stats(rgba, w, y, xe - 1);
        let n = prev.2;
        assert((n + 1) * y == n * y + y) by (nonlinear_arith);
        if body_px(rgba, w, xe - 1, y) {
            assert(row_stats(rgba, w, y, xe) == (prev.0 + xe - 1, prev.1 + y, n + 1));
            assert(prev.1 + y == (n + 1) * y);
        } else {
            assert(row_stats(rgba, w, y, xe) == prev);
        }
        assert((xe - 1) * w + (xe - 1) <= xe * w) by (nonlinear_arith)
            requires xe <= w, xe >= 1;
        assert((xe - 1) * w <= xe * w) by (nonlinear_arith)
            requires xe <= w, xe >= 1;
    } else {
        assert(0 * y == 0);
        assert(xe * w == 0);
    }
}

proof fn lemma_rows_stats_bounds(rgba: Seq<u8>, w: int, y0: int, ye: int)
    requires
        0 <= y0,
        0 <= w,
    ensures
        ye >= y0 ==> 0 <= rows_stats(rgba, w, y0, ye).0 <= (ye - y0) * w * w,
        ye >= y0 ==> 0 <= rows_stats(rgba, w, y0, ye).1 <= (ye - y0) * w * ye,
        ye >= y0 ==> 0 <= rows_stats(rgba, w, y0, ye).2 <= (ye - y0) * w,
    decreases ye - y0,
{
    if ye > y0 {
        lemma_rows_stats_bounds(rgba, w, y0, ye - 1);
        lemma_row_stats_bounds(rgba, w, ye - 1, w);
        let rn = row_stats(rgba, w, ye - 1, w).2;
        let sy = rows_stats(rgba, w, y0, ye - 1).1;
        assert((ye - 1 - y0) * w * w + w * w == (ye - y0) * w * w) by (nonlinear_arith);
        assert((ye - 1 - y0) * w + w == (ye - y0) * w) by (nonlinear_arith);
        assert(rn * (ye - 1) <= w * ye) by (nonlinear_arith)
            requires 0 <= rn <= w, ye >= 1;
        assert(sy <= (ye - 1 - y0) * w * ye) by (nonlinear_arith)
            requires sy <= (ye - 1 - y0) * w * (ye - 1), ye - 1 - y0 >= 0, w >= 0, ye >= 1;
        assert((ye - 1 - y0) * w * ye + w * ye == (ye - y0) * w * ye) by (nonlinear_arith);
    }
}

/// Sum of x, sum of y and count of the body pixels at rows `y0` and below.
pub fn body_sums(rgba: &[u8], w: u32, h: u32, y0: u32) -> (r: (u128, u128, u128))
    requires
        image_fits(rgba@.len() as int, w as int, h as int),
    ensures
        (r.0 as int, r.1 as int, r.2 as int) == rows_stats(rgba@, w as int, y0 as int, h as int),
{
    let mut sx: u128 = 0;
    let mut sy: u128 = 0;
    let mut n: u128 = 0;
    let mut y = y0;
    proof {
        lemma_rows_stats_bounds(rgba@, w as int, y0 as int, y0 as int);
    }
    while y < h
        invariant
            y0 <= y,
            y0 <= h ==> y <= h,
            y0 > h ==> y == y0,
            image_fits(rgba@.len() as int, w as int, h as int),
            (sx as int, sy as int, n as int) == rows_stats(rgba@, w as int, y0 as int, y as int),
        decreases h - y,
    {
        let mut x: u32 = 0;
        let mut rx: u128 = 0;
        let mut ry: u128 = 0;
        let mut rn: u128 = 0;
        while x < w
            invariant
                x <= w,
                y0 <= y < h,
                image_fits(rgba@.len() as int, w as int, h as int),
                (rx as int, ry as int, rn as int) == row_stats(rgba@, w as int, y as int, x as int),
            decreases w - x,
        {
            proof {
                lemma_pixel_in_image(w as int, h as int, x as int, y as int, 3);
                lemma_row_stats_bounds(rgba@, w as int, y as int, x as int);
                assert(x * w <= 0x1_0000_0000 * 0x1_0000_0000) by (nonlinear_arith)
                    requires 0 <= x <= w, w <= 0x7fff_ffff;
                assert(rn * y <= 0x1_0000_0000 * 0x1_0000_0000) by (nonlinear_arith)
                    requires 0 <= rn <= x, x <= w, w <= 0x7fff_ffff, 0 <= y < h, h <= 0x7fff_ffff;
            }
            let i = ((y * w + x) * 4 + 3) as usize;
            if rgba[i] >= 16 {
                rx += x as u128;
                ry += y as u128;
                rn += 1;
            }
            x += 1;
        }
        proof {
            lemma_rows_stats_bounds(rgba@, w as int, y0 as int, y as int);
            lemma_row_stats_bounds(rgba@, w as int, y as int, w as int);
            lemma_rows_stats_bounds(rgba@, w as int, y0 as int, y as int + 1);
            assert((y + 1 - y0) * w * w <= h * w * w) by (nonlinear_arith)
                requires y0 <= y, y < h, w >= 0;
            assert((y + 1 - y0) * w * (y + 1) <= h * w * h) by (nonlinear_arith)
                requires y0 <= y, y < h, w >= 0, y0 >= 0;
            assert((y + 1 - y0) * w <= h * w) by (nonlinear_arith)
                requires y0 <= y, y < h, w >= 0, y0 >= 0;
            assert(h * w * w <= 0x1_0000_0000 * 0x1_0000_0000) by (nonlinear_arith)
                requires w * h * 4 <= 0x1_0000_0000, w <= 0x7fff_ffff, h >= 0, w >= 0;
            assert(h * w * h <= 0x1_0000_0000 * 0x1_0000_0000) by (nonlinear_arith)
                requires w * h * 4 <= 0x1_0000_0000, h <= 0x7fff_ffff, h >= 0, w >= 0;
            assert(rows_stats(rgba@, w as int, y0 as int, y as int + 1) == (sx + rx, sy + ry, n + rn));
            assert(h * w <= 0x1_0000_0000) by (nonlinear_arith)
                requires w * h * 4 <= 0x1_0000_0000;
            assert(n + rn <= h * w);
        }
        sx += rx;
        sy += ry;
        n += rn;
        y += 1;
    }
    (sx, sy, n)
}

/// `num / den` rounded to the nearest integer, halves away from zero.
pub open spec fn round_ratio(num: int, den: int) -> int {
    if num >= 0 { (2 * num + den) / (2 * den) } else { -((2 * (-num) + den) / (2 * den)) }
}

pub open spec fn abs_int(v: int) -> int {
    if v >= 0 { v } else { -v }
}

/// Whole-pixel shift along one axis that moves the look frame's body
/// centroid (`ls / ln`) onto the master's (`ms / mn`): the difference rounded,
/// ignored below 0.6 px, at most `limit` either way.
pub open spec fn axis_shift(ms: int, mn: int, ls: int, ln: int, limit: int) -> int {
    let num = ms * ln - ls * mn;
    let den = mn * ln;
    let d = if 5 * abs_int(num) >= 3 * den { round_ratio(num, den) } else { 0 };
    if d < -limit { -limit } else if d > limit { limit } else { d }
}

/// First row of the body (paws, tail, lower chest) in a frame.
pub const BODY_Y0: u32 = 160;

/// The shift that locks the look frame's body onto the master's: both frames
/// need at least 8 body pixels, else none.
pub open spec fn body_shift(look: Seq<u8>, master: Seq<u8>, w: int, h: int) -> (int, int) {
    let (lx, ly, ln) = rows_stats(look, w, BODY_Y0 as int, h);
    let (mx, my, mn) = rows_stats(master, w, BODY_Y0 as int, h);
    if ln >= 8 && mn >= 8 {
        (axis_shift(mx, mn, lx, ln, 8), axis_shift(my, mn, ly, ln, 6))
    } else {
        (0, 0)
    }
}

fn axis_shift_exec(ms: u128, mn: u128, ls: u128, ln: u128, limit: i32) -> (r: i32)
    requires
        ms <= 0x1_0000_0000_0000_0000,
        ls <= 0x1_0000_0000_0000_0000,
        8 <= mn <= 0x1_0000_0000,
        8 <= ln <= 0x1_0000_0000,
        0 < limit <= 100,
    ensures
        r == axis_shift(ms as int, mn as int, ls as int, ln as int, limit as int),
{
    assert(ms * ln <= 0x1_0000_0000_0000_0000 * 0x1_0000_0000) by (nonlinear_arith)
        requires ms <= 0x1_0000_0000_0000_0000, ln <= 0x1_0000_0000;
    assert(ls * mn <= 0x1_0000_0000_0000_0000 * 0x1_0000_0000) by (nonlinear_arith)
        requires ls <= 0x1_0000_0000_0000_0000, mn <= 0x1_0000_0000;
    assert(mn * ln <= 0x1_0000_0000 * 0x1_0000_0000) by (nonlinear_arith)
        requires mn <= 0x1_0000_0000, ln <= 0x1_0000_0000;
    assert(mn * ln > 0) by (nonlinear_arith)
        requires mn >= 8, ln >= 8;
    let a = (ms * ln) as i128;
    let b = (ls * mn) as i128;
    let num = a - b;
    let den = (mn * ln) as i128;
    let mag = if num >= 0 { num } else { -num };
    let d: i128 = if 5 * mag >= 3 * den {
        if num >= 0 { (2 * num + den) / (2 * den) } else { -((2 * (-num) + den) / (2 * den)) }
    } else {
        0
    };
    if d < -(limit as i128) {
        -limit
    } else if d > limit as i128 {
        limit
    } else {
        d as i32
    }
}

/// Row below which the look frame is kept as authored.
pub const LOCK_Y: i32 = 158;
/// Half-height of the cross-fade band around `LOCK_Y`.
pub const FEATHER: i32 = 16;

/// Weight of the master in row `y`, in 32nds: 0 above the band, 32 below.
pub open spec fn master_weight(y: int) -> int {
    if y >= LOCK_Y + FEATHER { 32 } else if y <= LOCK_Y - FEATHER { 0 } else { y - (LOCK_Y - FEATHER) }
}

/// Premultiplied cross-fade of one pixel byte toward the master with weight
/// `t`/32: colours are averaged weighted by alpha (so edges keep their hue),
/// and a nearly transparent result clears the pixel.
pub open spec fn feather_byte(c: u8, a: u8, mc: u8, ma: u8, t: int, k: int) -> u8 {
    let cov = a * (32 - t) + ma * t;
    if cov < 32 {
        0
    } else if k == 3 {
        ((2 * cov + 32) / 64) as u8
    } else {
        ((2 * (c * a * (32 - t) + mc * ma * t) + cov) / (2 * cov)) as u8
    }
}

/// Byte `k` of pixel `(x, y)` once the look frame is shifted by `(dx, dy)`.
pub open spec fn shifted_value(look: Seq<u8>, w: int, h: int, dx: int, dy: int, x: int, y: int, k: int) -> u8 {
    if dx == 0 && dy == 0 { look[byte_at(w, x, y, k)] } else { translate_value(look, w, h, dx, dy, x, y, k) }
}

/// Byte `k` of pixel `(x, y)` after the shift and the cross-fade.
pub open spec fn feathered_value(look: Seq<u8>, master: Seq<u8>, w: int, h: int, dx: int, dy: int, x: int, y: int, k: int) -> u8 {
    let t = master_weight(y);
    if t == 0 {
        shifted_value(look, w, h, dx, dy, x, y, k)
    } else {
        feather_byte(
            shifted_value(look, w, h, dx, dy, x, y, k),
            shifted_value(look, w, h, dx, dy, x, y, 3),
            master[byte_at(w, x, y, k)],
            master[byte_at(w, x, y, 3)],
            t,
            k,
        )
    }
}

/// Byte `k` of pixel `(x, y)` of the stabilized frame.
pub open spec fn stabilized_value(look: Seq<u8>, master: Seq<u8>, w: int, h: int, lock: bool, x: int, y: int, k: int) -> u8 {
    let (dx, dy) = body_shift(look, master, w, h);
    let ma = master[byte_at(w, x, y, 3)];
    if !lock {
        feathered_value(look, master, w, h, dx, dy, x, y, k)
    } else if ma < 8 {
        0
    } else if silhouette_rim(master, w, h, x, y) {
        master[byte_at(w, x, y, k)]
    } else if k == 3 {
        ma
    } else {
        feathered_value(look, master, w, h, dx, dy, x, y, k)
    }
}

/// Whether the frames are too small for the stabilizer, which then returns
/// the look frame unchanged.
pub open spec fn stabilize_skips(look_len: int, master_len: int, w: int, h: int) -> bool {
    let need = if w * h * 4 > usize::MAX { usize::MAX as int } else { w * h * 4 };
    w == 0 || h == 0 || look_len < need || master_len < need
}

/// What the stabilizer returns: the look frame unchanged when the frames
/// are too small; otherwise a buffer of the look frame's length holding the
/// stabilized pixels, and past the image the look frame's bytes when no
/// shift was needed (zeros when it was).
pub open spec fn stabilize_post(look: Seq<u8>, master: Seq<u8>, w: int, h: int, lock: bool, out: Seq<u8>) -> bool {
    if stabilize_skips(look.len() as int, master.len() as int, w, h) {
        out == look
    } else {
        &&& out.len() == look.len()
        &&& forall|x: int, y: int, k: int|
            0 <= x < w && 0 <= y < h && 0 <= k < 4 ==> #[trigger] out[byte_at(w, x, y, k)]
                == stabilized_value(look, master, w, h, lock, x, y, k)
        &&& forall|j: int| w * h * 4 <= j < look.len() ==> #[trigger] out[j] == if body_shift(look, master, w, h)
            == (0int, 0int) {
            look[j]
        } else {
            0
        }
    }
}

/// Frames the stabilizer can index: it computes each pixel's byte offset as
/// `(y * w + x) * 4` in `u32` arithmetic, which larger frames overflow, and
/// the buffers must be able to hold the whole image.
pub open spec fn stabilize_in_range(w: int, h: int) -> bool {
    w * h * 4 <= u32::MAX + 1 && w * h * 4 <= usize::MAX
}

fn feather_px(c: u8, a: u8, mc: u8, ma: u8, t: u32, k: usize) -> (r: u8)
    requires
        1 <= t <= 32,
        k < 4,
    ensures
        r == feather_byte(c, a, mc, ma, t as int, k as int),
{
    let a32 = a as u32;
    let m32 = ma as u32;
    assert(a32 * (32 - t) <= 255 * 32) by (nonlinear_arith)
        requires a32 <= 255, t <= 32, t >= 1;
    assert(m32 * t <= 255 * 32) by (nonlinear_arith)
        requires m32 <= 255, t <= 32;
    let cov = a32 * (32 - t) + m32 * t;
    assert(cov <= 255 * 32) by (nonlinear_arith)
        requires cov == a32 * (32 - t) + m32 * t, a32 <= 255, m32 <= 255, 1 <= t <= 32;
    if cov < 32 {
        return 0;
    }
    if k == 3 {
        assert((2 * cov + 32) / 64 <= 255) by (nonlinear_arith)
            requires cov <= 255 * 32;
        return ((2 * cov + 32) / 64) as u8;
    }
    let cc = c as u32;
    let mcc = mc as u32;
    let aw = a32 * (32 - t);
    let mw = m32 * t;
    assert(cc * aw <= 255 * aw) by (nonlinear_arith)
        requires cc <= 255, aw >= 0;
    assert(mcc * mw <= 255 * mw) by (nonlinear_arith)
        requires mcc <= 255, mw >= 0;
    let num = cc * aw + mcc * mw;
    assert(cc * a32 * (32 - t) == cc * aw) by (nonlinear_arith)
        requires aw == a32 * (32 - t);
    assert(mcc * m32 * t == mcc * mw) by (nonlinear_arith)
        requires mw == m32 * t;
    assert(num <= 255 * cov);
    assert((2 * num + cov) / (2 * cov) <= 255) by (nonlinear_arith)
        requires num <= 255 * cov, cov >= 32;
    ((2 * num + cov) / (2 * cov)) as u8
}

/// Lock the paws, tail and lower chest of a look frame to the front master
/// so authored look keys don't bounce the sit silhouette when the head
/// steps. With `lock_silhouette`, the master's sit outline is imposed too.
pub fn stabilize_look_rgba_ex(look: &[u8], master: &[u8], w: u32, h: u32, lock_silhouette: bool) -> (out: Vec<u8>)
    requires
        stabilize_skips(look@.len() as int, master@.len() as int, w as int, h as int) || stabilize_in_range(w as int, h as int),
    ensures
        stabilize_post(look@, master@, w as int, h as int, lock_silhouette, out@),
{
    assert(w as u128 * h as u128 <= 0xffff_ffff * 0xffff_ffffu128) by (nonlinear_arith)
        requires w <= 0xffff_ffffu32, h <= 0xffff_ffffu32;
    let need_full = w as u128 * h as u128 * 4;
    let need: u128 = if need_full > usize::MAX as u128 { usize::MAX as u128 } else { need_full };
    if w == 0 || h == 0 || (look.len() as u128) < need || (master.len() as u128) < need {
        return vstd::slice::slice_to_vec(look);
    }
    let ghost wn = w as int;
    let ghost hn = h as int;
    proof {
        assert(w <= i32::MAX) by (nonlinear_arith)
            requires w * h * 4 <= u32::MAX + 1, h >= 1;
        assert(h <= i32::MAX) by (nonlinear_arith)
            requires w * h * 4 <= u32::MAX + 1, w >= 1;
        assert(image_fits(look@.len() as int, wn, hn));
        assert(image_fits(master@.len() as int, wn, hn));
        lemma_rows_stats_bounds(look@, wn, BODY_Y0 as int, hn);
        lemma_rows_stats_bounds(master@, wn, BODY_Y0 as int, hn);
    }
    let (lx, ly, ln) = body_sums(look, w, h, BODY_Y0);
    let (mx, my, mn) = body_sums(master, w, h, BODY_Y0);
    let mut dx: i32 = 0;
    let mut dy: i32 = 0;
    if ln >= 8 && mn >= 8 {
        proof {
            if hn > BODY_Y0 {
                assert((hn - BODY_Y0) * wn * wn <= 0x1_0000_0000_0000_0000) by (nonlinear_arith)
                    requires wn * hn * 4 <= 0x1_0000_0000, wn <= 0x7fff_ffff, hn > 160, wn >= 1;
                assert((hn - BODY_Y0) * wn * hn <= 0x1_0000_0000_0000_0000) by (nonlinear_arith)
                    requires wn * hn * 4 <= 0x1_0000_0000, hn <= 0x7fff_ffff, hn > 160, wn >= 1;
                assert((hn - BODY_Y0) * wn <= 0x1_0000_0000) by (nonlinear_arith)
                    requires wn * hn * 4 <= 0x1_0000_0000, hn > 160, wn >= 1;
            }
        }
        dx = axis_shift_exec(mx, mn, lx, ln, 8);
        dy = axis_shift_exec(my, mn, ly, ln, 6);
    }
    let ghost shift = body_shift(look@, master@, wn, hn);
    assert(shift == (dx as int, dy as int));
    let mut out: Vec<u8> = if dx == 0 && dy == 0 {
        vstd::slice::slice_to_vec(look)
    } else {
        translate_rgba(look, w, h, dx, dy)
    };
    proof {
        assert forall|px: int, py: int, k: int|
            0 <= px < wn && 0 <= py < hn && 0 <= k < 4 implies #[trigger] out@[byte_at(wn, px, py, k)]
                == shifted_value(look@, wn, hn, dx as int, dy as int, px, py, k) by {
            lemma_pixel_in_image(wn, hn, px, py, k);
        }
    }
    let hi = h as i32;
    let wi = w as i32;
    let mut y: i32 = 0;
    while y < hi
        invariant
            0 <= y <= hi,
            hi == h,
            wi == w,
            wn == w,
            hn == h,
            image_fits(look@.len() as int, wn, hn),
            image_fits(master@.len() as int, wn, hn),
            out@.len() == look@.len(),
            forall|px: int, py: int, k: int|
                0 <= px < wn && 0 <= py < hn && 0 <= k < 4 ==> #[trigger] out@[byte_at(wn, px, py, k)]
                    == if py < y {
                        feathered_value(look@, master@, wn, hn, dx as int, dy as int, px, py, k)
                    } else {
                        shifted_value(look@, wn, hn, dx as int, dy as int, px, py, k)
                    },
            forall|j: int| wn * hn * 4 <= j < look@.len() ==> #[trigger] out@[j] == if dx == 0 && dy == 0 {
                look@[j]
            } else {
                0
            },
        decreases hi - y,
    {
        if y > LOCK_Y - FEATHER {
            let t: u32 = if y >= LOCK_Y + FEATHER { 32 } else { (y - (LOCK_Y - FEATHER)) as u32 };
            let mut x: i32 = 0;
            while x < wi
                invariant
                    0 <= x <= wi,
                    0 <= y < hi,
                    y > LOCK_Y - FEATHER,
                    t == master_weight(y as int),
                    hi == h,
                    wi == w,
                    wn == w,
                    hn == h,
                    image_fits(look@.len() as int, wn, hn),
                    image_fits(master@.len() as int, wn, hn),
                    out@.len() == look@.len(),
                    forall|px: int, py: int, k: int|
                        0 <= px < wn && 0 <= py < hn && 0 <= k < 4 ==> #[trigger] out@[byte_at(wn, px, py, k)]
                            == if py < y || (py == y && px < x) {
                                feathered_value(look@, master@, wn, hn, dx as int, dy as int, px, py, k)
                            } else {
                                shifted_value(look@, wn, hn, dx as int, dy as int, px, py, k)
                            },
                    forall|j: int| wn * hn * 4 <= j < look@.len() ==> #[trigger] out@[j] == if dx == 0 && dy == 0 {
                        look@[j]
                    } else {
                        0
                    },
                decreases wi - x,
            {
                proof {
                    lemma_pixel_in_image(wn, hn, x as int, y as int, 0);
                    lemma_pixel_in_image(wn, hn, x as int, y as int, 3);
                }
                let i = ((y as u32 * w + x as u32) * 4) as usize;
                let ghost before = out@;
                let a = out[i + 3];
                let ma = master[i + 3];
                let r0 = feather_px(out[i], a, master[i], ma, t, 0);
                let r1 = feather_px(out[i + 1], a, master[i + 1], ma, t, 1);
                let r2 = feather_px(out[i + 2], a, master[i + 2], ma, t, 2);
                let r3 = feather_px(out[i + 3], a, master[i + 3], ma, t, 3);
                out.set(i, r0);
                out.set(i + 1, r1);
                out.set(i + 2, r2);
                out.set(i + 3, r3);
                proof {
                    assert forall|px: int, py: int, k: int|
                        0 <= px < wn && 0 <= py < hn && 0 <= k < 4 implies #[trigger] out@[byte_at(wn, px, py, k)]
                            == if py < y || (py == y && px < x + 1) {
                                feathered_value(look@, master@, wn, hn, dx as int, dy as int, px, py, k)
                            } else {
                                shifted_value(look@, wn, hn, dx as int, dy as int, px, py, k)
                            } by {
                        lemma_pixel_in_image(wn, hn, px, py, k);
                        if px != x || py != y {
                            lemma_pixels_disjoint(wn, px, py, k, x as int, y as int, 0);
                            lemma_pixels_disjoint(wn, px, py, k, x as int, y as int, 1);
                            lemma_pixels_disjoint(wn, px, py, k, x as int, y as int, 2);
                            lemma_pixels_disjoint(wn, px, py, k, x as int, y as int, 3);
                            assert(out@[byte_at(wn, px, py, k)] == before[byte_at(wn, px, py, k)]);
                        } else {
                            assert(before[byte_at(wn, px, py, 3)] == shifted_value(look@, wn, hn, dx as int, dy as int, px, py, 3));
                            assert(before[byte_at(wn, px, py, k)] == shifted_value(look@, wn, hn, dx as int, dy as int, px, py, k));
                        }
                    }
                }
                x += 1;
            }
        }
        y += 1;
    }
    if lock_silhouette {
        let ghost mid = out@;
        apply_master_silhouette(out.as_mut_slice(), master, w, h);
        proof {
            assert forall|px: int, py: int, k: int|
                0 <= px < wn && 0 <= py < hn && 0 <= k < 4 implies #[trigger] out@[byte_at(wn, px, py, k)]
                    == stabilized_value(look@, master@, wn, hn, lock_silhouette, px, py, k) by {
                lemma_pixel_in_image(wn, hn, px, py, k);
                assert(out@[byte_at(wn, px, py, k)] == silhouette_value(mid, master@, wn, hn, px, py, k));
                assert(mid[byte_at(wn, px, py, k)] == feathered_value(look@, master@, wn, hn, dx as int, dy as int, px, py, k));
            }
        }
    }
    out
}

/// `stabilize_look_rgba_ex` without imposing the master's outline.
pub fn stabilize_look_rgba(look: &[u8], master: &[u8], w: u32, h: u32) -> (out: Vec<u8>)
    requires
        stabilize_skips(look@.len() as int, master@.len() as int, w as int, h as int) || stabilize_in_range(w as int, h as int),
    ensures
        stabilize_post(look@, master@, w as int, h as int, false, out@),
{
    stabilize_look_rgba_ex(look, master, w, h, false)
}

/// Every byte of a `w`×`h` image is byte `k` of some pixel `(x, y)`.
pub proof fn lemma_byte_in_some_pixel(w: int, h: int, j: int) -> (p: (int, int, int))
    requires
        w >= 1,
        h >= 0,
        0 <= j < w * h * 4,
    ensures
        0 <= p.0 < w,
        0 <= p.1 < h,
        0 <= p.2 < 4,
        j == byte_at(w, p.0, p.1, p.2),
{
    let q = j / 4;
    let k = j % 4;
    let y = q / w;
    let x = q % w;
    assert(j == q * 4 + k);
    assert(q == y * w + x) by (nonlinear_arith)
        requires w >= 1, y == q / w, x == q % w;
    assert(0 <= x < w) by (nonlinear_arith)
        requires w >= 1, x == q % w;
    assert(q < w * h) by (nonlinear_arith)
        requires j == q * 4 + k, 0 <= k < 4, j < w * h * 4;
    assert(0 <= y < h) by (nonlinear_arith)
        requires w >= 1, q == y * w + x, 0 <= x < w, 0 <= q < w * h, h >= 0;
    lemma_pixel_in_image(w, h, x, y, k);
    (x, y, k)
}

/// The stabilizer's contract pins its result: two buffers that both meet it
/// are equal. So `stabilize_look_rgba` returns exactly what
/// `stabilize_look_rgba_ex` returns with the outline lock off.
pub proof fn lemma_stabilize_result_unique(
    look: Seq<u8>,
    master: Seq<u8>,
    w: u32,
    h: u32,
    lock: bool,
    out1: Seq<u8>,
    out2: Seq<u8>,
)
    requires
        stabilize_post(look, master, w as int, h as int, lock, out1),
        stabilize_post(look, master, w as int, h as int, lock, out2),
    ensures
        out1 == out2,
{
    if !stabilize_skips(look.len() as int, master.len() as int, w as int, h as int) {
        assert forall|j: int| 0 <= j < out1.len() implies out1[j] == out2[j] by {
            if j < w * h * 4 {
                let p = lemma_byte_in_some_pixel(w as int, h as int, j);
                assert(out1[byte_at(w as int, p.0, p.1, p.2)] == out2[byte_at(w as int, p.0, p.1, p.2)]);
            }
        }
        assert(out1 =~= out2);
    }
}

/// A frame too short to reach the cross-fade band, and with no body rows to
/// lock, comes back from the unlocked stabilizer unchanged.
pub proof fn lemma_short_frame_unchanged(look: Seq<u8>, master: Seq<u8>, w: u32, h: u32, out: Seq<u8>)
    requires
        0 < h <= LOCK_Y - FEATHER + 1,
        stabilize_post(look, master, w as int, h as int, false, out),
    ensures
        out == look,
{
    if !stabilize_skips(look.len() as int, master.len() as int, w as int, h as int) {
        assert(rows_stats(look, w as int, BODY_Y0 as int, h as int) == (0int, 0int, 0int));
        assert(body_shift(look, master, w as int, h as int) == (0int, 0int));
        assert forall|j: int| 0 <= j < out.len() implies out[j] == look[j] by {
            if j < w * h * 4 {
                let p = lemma_byte_in_some_pixel(w as int, h as int, j);
                assert(master_weight(p.1) == 0);
                assert(out[byte_at(w as int, p.0, p.1, p.2)] == stabilized_value(look, master, w as int, h as int, false, p.0, p.1, p.2));
            }
        }
        assert(out =~= look);
    }
}

} // verus!
