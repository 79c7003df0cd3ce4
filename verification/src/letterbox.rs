//! Letterboxing a sprite into a frame with nearest-neighbour sampling, so
//! overlay UI stays crisp.
use vstd::prelude::*;

use crate::canvas::{byte_at, lemma_pixels_disjoint};
use crate::card_fit::{at_least_one, round_div};
use crate::look::lemma_pixel_in_image;

verus! {

/// Size of an `sw`×`sh` sprite scaled by the largest factor that fits it in
/// `dw`×`dh` (enlarging too), sides rounded to the nearest pixel and at
/// least one pixel.
pub open spec fn letterbox_size(sw: int, sh: int, dw: int, dh: int) -> (int, int) {
    if dw * sh <= dh * sw {
        (at_least_one(dw), at_least_one(round_div(sh * dw, sw)))
    } else {
        (at_least_one(round_div(sw * dh, sh)), at_least_one(dh))
    }
}

/// Offset that centres a `f`-pixel span in `d` pixels (0 when it is wider).
pub open spec fn centre_offset(d: int, f: int) -> int {
    if d >= f { (d - f) / 2 } else { 0 }
}

/// Source column (or row) sampled for output column `d` of a span `f`
/// pixels wide showing `s` source pixels: the one under the output pixel's
/// centre.
pub open spec fn nearest(d: int, s: int, f: int) -> int {
    let v = (2 * d + 1) * s / (2 * f);
    if v <= s - 1 { v } else { s - 1 }
}

/// Byte `k` of pixel `(x, y)` of the `dw`×`dh` frame showing the `sw`×`sh`
/// sprite `src` letterboxed: a copy when the sizes agree, transparent black
/// for an empty or short sprite and outside the scaled sprite.
pub open spec fn crisp_value(src: Seq<u8>, sw: int, sh: int, dw: int, dh: int, x: int, y: int, k: int) -> u8 {
    if sw == 0 || sh == 0 || src.len() < sw * sh * 4 {
        0
    } else if sw == dw && sh == dh {
        src[byte_at(dw, x, y, k)]
    } else {
        let (fw, fh) = letterbox_size(sw, sh, dw, dh);
        let ox = centre_offset(dw, fw);
        let oy = centre_offset(dh, fh);
        if ox <= x < ox + fw && oy <= y < oy + fh {
            src[byte_at(sw, nearest(x - ox, sw, fw), nearest(y - oy, sh, fh), k)]
        } else {
            0
        }
    }
}

proof fn lemma_nearest_bounds(d: int, s: int, f: int)
    requires
        0 <= d < f,
        s > 0,
    ensures
        0 <= nearest(d, s, f) < s,
{
    vstd::arithmetic::div_mod::lemma_div_pos_is_pos((2 * d + 1) * s, 2 * f);
    assert((2 * d + 1) * s >= 0) by (nonlinear_arith)
        requires d >= 0, s > 0;
}

/// Letterbox the `sw`×`sh` RGBA sprite into a `dw`×`dh` frame, scaled to
/// fit (enlarging too) with nearest-neighbour sampling and centred; the
/// rest is transparent black. An empty or short sprite gives a blank frame.
pub fn scale_rgba_centered_crisp(src: &[u8], sw: u32, sh: u32, dw: u32, dh: u32) -> (out: Vec<u8>)
    requires
        dw * dh * 4 <= u32::MAX,
        sw * sh * 4 <= u32::MAX,
    ensures
        out@.len() == dw * dh * 4,
        forall|x: int, y: int, k: int| 0 <= x < dw && 0 <= y < dh && 0 <= k < 4
            ==> #[trigger] out@[byte_at(dw as int, x, y, k)] == crisp_value(src@, sw as int, sh as int, dw as int, dh as int, x, y, k),
{
    let n = (dw * dh * 4) as usize;
    let mut out: Vec<u8> = vec![0u8; n];
    let ghost dwn = dw as int;
    let ghost dhn = dh as int;
    proof {
        assert forall|px: int, py: int, k: int| 0 <= px < dwn && 0 <= py < dhn && 0 <= k < 4
            implies #[trigger] out@[byte_at(dwn, px, py, k)] == 0u8 by {
            lemma_pixel_in_image(dwn, dhn, px, py, k);
        }
    }
    if sw == 0 || sh == 0 || src.len() < (sw * sh * 4) as usize {
        return out;
    }
    if sw == dw && sh == dh {
        let mut i: usize = 0;
        while i < n
            invariant
                i <= n,
                n == dw * dh * 4,
                n <= src@.len(),
                out@.len() == n,
                forall|j: int| 0 <= j < i ==> #[trigger] out@[j] == src@[j],
            decreases n - i,
        {
            out.set(i, src[i]);
            i += 1;
        }
        proof {
            assert forall|px: int, py: int, k: int| 0 <= px < dwn && 0 <= py < dhn && 0 <= k < 4
                implies #[trigger] out@[byte_at(dwn, px, py, k)] == crisp_value(src@, sw as int, sh as int, dwn, dhn, px, py, k) by {
                lemma_pixel_in_image(dwn, dhn, px, py, k);
            }
        }
        return out;
    }
    let (sw6, sh6, dw6, dh6) = (sw as u128, sh as u128, dw as u128, dh as u128);
    assert(dw6 * sh6 <= 0xffff_ffff_ffff_ffff && dh6 * sw6 <= 0xffff_ffff_ffff_ffff) by (nonlinear_arith)
        requires dw6 <= 0xffff_ffff, sh6 <= 0xffff_ffff, dh6 <= 0xffff_ffff, sw6 <= 0xffff_ffff;
    let (fw, fh): (u32, u32) = if dw6 * sh6 <= dh6 * sw6 {
        let a = dw6 * sh6;
        let q = (2 * a + sw6) / (2 * sw6);
        proof {
            assert(a == sh * dw && a <= dh * sw) by (nonlinear_arith)
                requires a == dw6 * sh6, dw6 * sh6 <= dh6 * sw6, dh6 == dh, sw6 == sw, dw6 == dw, sh6 == sh;
            crate::card_fit::lemma_round_div_le(a as int, sw as int, dh as int);
        }
        (if dw >= 1 { dw } else { 1 }, if q >= 1 { q as u32 } else { 1 })
    } else {
        let a = dh6 * sw6;
        let q = (2 * a + sh6) / (2 * sh6);
        proof {
            assert(a == sw * dh && a <= dw * sh) by (nonlinear_arith)
                requires a == dh6 * sw6, dw6 * sh6 > dh6 * sw6, dw6 == dw, sh6 == sh, dh6 == dh, sw6 == sw;
            crate::card_fit::lemma_round_div_le(a as int, sh as int, dw as int);
        }
        (if q >= 1 { q as u32 } else { 1 }, if dh >= 1 { dh } else { 1 })
    };
    assert(fw as int == letterbox_size(sw as int, sh as int, dwn, dhn).0);
    assert(fh as int == letterbox_size(sw as int, sh as int, dwn, dhn).1);
    let ox: u32 = if dw >= fw { (dw - fw) / 2 } else { 0 };
    let oy: u32 = if dh >= fh { (dh - fh) / 2 } else { 0 };
    let ghost fwn = fw as int;
    let ghost fhn = fh as int;
    let mut y: u32 = 0;
    while y < fh
        invariant
            y <= fh,
            fwn == fw,
            fhn == fh,
            fw >= 1,
            fh >= 1,
            fw <= dw || dw == 0,
            fh <= dh || dh == 0,
            sw > 0,
            sh > 0,
            !(sw == dw && sh == dh),
            sw * sh * 4 <= src@.len(),
            sw * sh * 4 <= u32::MAX,
            dwn == dw,
            dhn == dh,
            n == dw * dh * 4,
            n <= u32::MAX,
            out@.len() == n,
            fw == letterbox_size(sw as int, sh as int, dwn, dhn).0,
            fh == letterbox_size(sw as int, sh as int, dwn, dhn).1,
            ox == centre_offset(dwn, fwn),
            oy == centre_offset(dhn, fhn),
            forall|px: int, py: int, k: int| 0 <= px < dwn && 0 <= py < dhn && 0 <= k < 4
                ==> #[trigger] out@[byte_at(dwn, px, py, k)]
                    == if py - oy < y { crisp_value(src@, sw as int, sh as int, dwn, dhn, px, py, k) } else { 0u8 },
        decreases fh - y,
    {
        let ty6 = 2 * y as u128 + 1;
        assert(ty6 * (sh as u128) <= 0x2_0000_0000 * 0x1_0000_0000) by (nonlinear_arith)
            requires ty6 <= 0x2_0000_0000, sh <= 0xffff_ffff;
        let sy6 = ty6 * sh as u128 / (2 * fh as u128);
        let sy: u32 = if sy6 <= (sh - 1) as u128 { sy6 as u32 } else { sh - 1 };
        proof {
            lemma_nearest_bounds(y as int, sh as int, fh as int);
        }
        let mut x: u32 = 0;
        while x < fw
            invariant
                x <= fw,
                y < fh,
                fwn == fw,
                fhn == fh,
                fw >= 1,
                fh >= 1,
                fw <= dw || dw == 0,
                fh <= dh || dh == 0,
                sw > 0,
                sh > 0,
                !(sw == dw && sh == dh),
                sw * sh * 4 <= src@.len(),
                sw * sh * 4 <= u32::MAX,
                dwn == dw,
                dhn == dh,
                n == dw * dh * 4,
                n <= u32::MAX,
                out@.len() == n,
                fw == letterbox_size(sw as int, sh as int, dwn, dhn).0,
                fh == letterbox_size(sw as int, sh as int, dwn, dhn).1,
                ox == centre_offset(dwn, fwn),
                oy == centre_offset(dhn, fhn),
                sy == nearest(y as int, sh as int, fh as int),
                sy < sh,
                forall|px: int, py: int, k: int| 0 <= px < dwn && 0 <= py < dhn && 0 <= k < 4
                    ==> #[trigger] out@[byte_at(dwn, px, py, k)]
                        == if py - oy < y || (py - oy == y && px - ox < x) {
                            crisp_value(src@, sw as int, sh as int, dwn, dhn, px, py, k)
                        } else {
                            0u8
                        },
            decreases fw - x,
        {
            let tx6 = 2 * x as u128 + 1;
            assert(tx6 * (sw as u128) <= 0x2_0000_0000 * 0x1_0000_0000) by (nonlinear_arith)
                requires tx6 <= 0x2_0000_0000, sw <= 0xffff_ffff;
            let sx6 = tx6 * sw as u128 / (2 * fw as u128);
            let sx: u32 = if sx6 <= (sw - 1) as u128 { sx6 as u32 } else { sw - 1 };
            proof {
                lemma_nearest_bounds(x as int, sw as int, fw as int);
            }
            let px = ox as u64 + x as u64;
            let py = oy as u64 + y as u64;
            if px < dw as u64 && py < dh as u64 {
                let ghost tx = px as int;
                let ghost ty = py as int;
                proof {
                    lemma_pixel_in_image(dwn, dhn, tx, ty, 0);
                    lemma_pixel_in_image(dwn, dhn, tx, ty, 3);
                    lemma_pixel_in_image(sw as int, sh as int, sx as int, sy as int, 0);
                    lemma_pixel_in_image(sw as int, sh as int, sx as int, sy as int, 3);
                }
                let di = ((py as u32 * dw + px as u32) * 4) as usize;
                let si = ((sy * sw + sx) * 4) as usize;
                out.set(di, src[si]);
                out.set(di + 1, src[si + 1]);
                out.set(di + 2, src[si + 2]);
                out.set(di + 3, src[si + 3]);
                proof {
                    assert forall|qx: int, qy: int, k: int| 0 <= qx < dwn && 0 <= qy < dhn && 0 <= k < 4
                        implies #[trigger] out@[byte_at(dwn, qx, qy, k)]
                            == if qy - oy < y || (qy - oy == y && qx - ox < x + 1) {
                                crisp_value(src@, sw as int, sh as int, dwn, dhn, qx, qy, k)
                            } else {
                                0u8
                            } by {
                        lemma_pixel_in_image(dwn, dhn, qx, qy, k);
                        if qx == tx && qy == ty {
                            assert(byte_at(dwn, qx, qy, k) == di + k);
                            assert(byte_at(sw as int, sx as int, sy as int, k) == si + k);
                        } else {
                            lemma_pixels_disjoint(dwn, qx, qy, k, tx, ty, 0);
                            lemma_pixels_disjoint(dwn, qx, qy, k, tx, ty, 1);
                            lemma_pixels_disjoint(dwn, qx, qy, k, tx, ty, 2);
                            lemma_pixels_disjoint(dwn, qx, qy, k, tx, ty, 3);
                        }
                    }
                }
            }
            x += 1;
        }
        y += 1;
    }
    proof {
        assert forall|px: int, py: int, k: int| 0 <= px < dwn && 0 <= py < dhn && 0 <= k < 4
            implies #[trigger] out@[byte_at(dwn, px, py, k)] == crisp_value(src@, sw as int, sh as int, dwn, dhn, px, py, k) by {
            if py - oy >= fh {
                assert(crisp_value(src@, sw as int, sh as int, dwn, dhn, px, py, k) == 0u8);
            }
        }
    }
    out
}


/// The letterboxed sprite stays inside the frame and fills it along one
/// side.
pub proof fn lemma_letterbox_fills_one_side(sw: int, sh: int, dw: int, dh: int)
    requires
        sw > 0,
        sh > 0,
        dw > 0,
        dh > 0,
    ensures
        ({
            let (fw, fh) = letterbox_size(sw, sh, dw, dh);
            &&& 1 <= fw <= dw
            &&& 1 <= fh <= dh
            &&& fw == dw || fh == dh
        }),
{
    if dw * sh <= dh * sw {
        assert(sh * dw <= dh * sw) by (nonlinear_arith)
            requires dw * sh <= dh * sw;
        assert(sh * dw >= 0) by (nonlinear_arith)
            requires sh > 0, dw > 0;
        crate::card_fit::lemma_round_div_le(sh * dw, sw, dh);
    } else {
        assert(sw * dh <= dw * sh) by (nonlinear_arith)
            requires dw * sh > dh * sw;
        assert(sw * dh >= 0) by (nonlinear_arith)
            requires sw > 0, dh > 0;
        crate::card_fit::lemma_round_div_le(sw * dh, sh, dw);
    }
}

} // verus!
