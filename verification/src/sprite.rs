//! Sprite sheets: animation frames packed side by side into one
//! horizontal strip, and frames read back out of it.
use vstd::prelude::*;

use crate::canvas::byte_at;
use crate::look::lemma_pixel_in_image;

verus! {

/// An animation's frames as one RGBA strip `frame_count` frames wide.
#[derive(Debug, Clone)]
pub struct SpriteSheet {
    pub frame_width: u32,
    pub frame_height: u32,
    pub frame_count: u32,
    /// Horizontal strip: `frame_count * frame_width` by `frame_height`.
    pub sheet_rgba: Vec<u8>,
    pub sheet_width: u32,
    pub sheet_height: u32,
}

impl SpriteSheet {
    /// The strip holds `frame_count` frames of `frame_width`×`frame_height`,
    /// with byte offsets that fit 32 bits.
    pub open spec fn wf(&self) -> bool {
        &&& self.sheet_width == self.frame_width * self.frame_count
        &&& self.sheet_height == self.frame_height
        &&& self.sheet_rgba@.len() == self.sheet_width * self.sheet_height * 4
        &&& self.sheet_width * self.sheet_height * 4 <= u32::MAX
    }

    /// Which frame a frame number shows: frames repeat every `frame_count`
    /// (an empty strip counts as one frame).
    pub open spec fn frame_slot(&self, frame: u32) -> int {
        let n = if self.frame_count >= 1 { self.frame_count as int } else { 1 };
        frame as int % n
    }

    /// Byte `k` of pixel `(x, y)` of frame `frame` as the strip holds it.
    pub open spec fn frame_byte(&self, frame: u32, x: int, y: int, k: int) -> u8 {
        self.sheet_rgba@[byte_at(self.sheet_width as int, self.frame_slot(frame) * self.frame_width + x, y, k)]
    }

    /// Copy frame `frame` (wrapping around the frame count) out of the strip:
    /// a tightly packed `frame_width`×`frame_height` RGBA image.
    pub fn frame_rgba(&self, frame: u32) -> (out: Vec<u8>)
        requires
            self.wf(),
            self.frame_count >= 1,
        ensures
            out@.len() == self.frame_width * self.frame_height * 4,
            forall|x: int, y: int, k: int| 0 <= x < self.frame_width && 0 <= y < self.frame_height && 0 <= k < 4
                ==> #[trigger] out@[byte_at(self.frame_width as int, x, y, k)] == self.frame_byte(frame, x, y, k),
    {
        let n = self.frame_count;
        let f = frame % n;
        let w = self.frame_width;
        let h = self.frame_height;
        let sw = self.sheet_width;
        let ghost wn = w as int;
        let ghost hn = h as int;
        let ghost swn = sw as int;
        let ghost fx = f as int * wn;
        assert(f * w + w <= sw) by (nonlinear_arith)
            requires f < n, sw == w * n;
        assert(w * h * 4 <= sw * h * 4) by (nonlinear_arith)
            requires f * w + w <= sw, f >= 0, w >= 0, h >= 0;
        let mut out: Vec<u8> = Vec::new();
        let w4 = w as u64 * 4;
        let mut y: u32 = 0;
        while y < h
            invariant
                y <= h,
                self.wf(),
                wn == w,
                hn == h,
                swn == sw,
                sw == self.sheet_width,
                w == self.frame_width,
                h == self.frame_height,
                fx == f * w,
                f == self.frame_slot(frame),
                f * w + w <= sw,
                w * h * 4 <= sw * h * 4,
                w4 == w * 4,
                out@.len() == y * w * 4,
                forall|x: int, py: int, k: int| 0 <= x < wn && 0 <= py < y && 0 <= k < 4
                    ==> #[trigger] out@[byte_at(wn, x, py, k)] == self.sheet_rgba@[byte_at(swn, fx + x, py, k)],
            decreases h - y,
        {
            let ghost rows = out@;
            assert(y * sw <= sw * h && f * w <= sw && (y * sw + f * w) * 4 <= sw * h * 4) by (nonlinear_arith)
                requires y < h, f * w + w <= sw, sw >= 0;
            let base = (y as u64 * sw as u64 + f as u64 * w as u64) * 4;
            let mut j: u64 = 0;
            while j < w4
                invariant
                    j <= w4,
                    y < h,
                    self.wf(),
                    sw == self.sheet_width,
                    h == self.frame_height,
                    w4 == w * 4,
                    f * w + w <= sw,
                    base == (y * sw + f * w) * 4,
                    rows.len() == y * w * 4,
                    out@.len() == y * w * 4 + j,
                    out@.subrange(0, y * w * 4) == rows,
                    forall|i: int| 0 <= i < j ==> #[trigger] out@[y * w * 4 + i] == self.sheet_rgba@[base + i],
                decreases w4 - j,
            {
                proof {
                    assert(base + j < sw * h * 4) by (nonlinear_arith)
                        requires y < h, f * w + w <= sw, j < w * 4, base == (y * sw + f * w) * 4;
                }
                let b = self.sheet_rgba[(base + j) as usize];
                let ghost prev = out@;
                out.push(b);
                proof {
                    assert(out@.subrange(0, y * w * 4) =~= prev.subrange(0, y * w * 4));
                }
                j += 1;
            }
            proof {
                assert forall|x: int, py: int, k: int| 0 <= x < wn && 0 <= py < y + 1 && 0 <= k < 4
                    implies #[trigger] out@[byte_at(wn, x, py, k)] == self.sheet_rgba@[byte_at(swn, fx + x, py, k)] by {
                    if py == y {
                        let i = x * 4 + k;
                        assert(byte_at(wn, x, py, k) == y * w * 4 + i) by (nonlinear_arith)
                            requires py == y, wn == w, i == x * 4 + k;
                        assert(byte_at(swn, fx + x, py, k) == base + i) by (nonlinear_arith)
                            requires py == y, swn == sw, fx == f * w, i == x * 4 + k, base == (y * sw + f * w) * 4;
                    } else {
                        let b = byte_at(wn, x, py, k);
                        assert(0 <= b < y * w * 4) by (nonlinear_arith)
                            requires b == (py * wn + x) * 4 + k, 0 <= py < y, 0 <= x < wn, 0 <= k < 4, wn == w;
                        assert(out@[b] == out@.subrange(0, y * w * 4)[b]);
                        assert(rows[b] == self.sheet_rgba@[byte_at(swn, fx + x, py, k)]);
                    }
                }
                assert(y * w * 4 + w * 4 == (y + 1) * w * 4) by (nonlinear_arith);
            }
            y += 1;
        }
        proof {
            assert(h * w * 4 == w * h * 4) by (nonlinear_arith);
        }
        out
    }
}

/// The strip holds `frames` side by side, frame `i` at columns from
/// `i * frame_width`.
pub open spec fn holds_frames(sheet: SpriteSheet, frames: Seq<Seq<u8>>) -> bool {
    forall|i: int, x: int, y: int, k: int|
        0 <= i < frames.len() && 0 <= x < sheet.frame_width && 0 <= y < sheet.frame_height && 0 <= k < 4
            ==> #[trigger] sheet.sheet_rgba@[byte_at(sheet.sheet_width as int, i * sheet.frame_width + x, y, k)]
                == frames[i][byte_at(sheet.frame_width as int, x, y, k)]
}

/// Reading frame `i` back out of a strip packed from `frames` gives frame
/// `i` as it was packed.
pub proof fn lemma_frame_reads_back(sheet: SpriteSheet, frames: Seq<Seq<u8>>, i: u32)
    requires
        holds_frames(sheet, frames),
        sheet.frame_count == frames.len(),
        i < frames.len(),
    ensures
        forall|x: int, y: int, k: int| 0 <= x < sheet.frame_width && 0 <= y < sheet.frame_height && 0 <= k < 4
            ==> #[trigger] sheet.frame_byte(i, x, y, k) == frames[i as int][byte_at(sheet.frame_width as int, x, y, k)],
{
    assert(sheet.frame_slot(i) == i as int) by {
        vstd::arithmetic::div_mod::lemma_small_mod(i as nat, sheet.frame_count as nat);
    }
}

/// Whether pixel `(px, y)` of frame `q` has been copied when the copy
/// stands at pixel `(x, row)` of frame `i` (frames, then rows, then columns).
pub open spec fn copied(i: int, row: int, x: int, q: int, y: int, px: int) -> bool {
    q < i || (q == i && (y < row || (y == row && px < x)))
}

/// Pack `frames`, each a `fw`×`fh` RGBA image (rows read from the start of
/// each buffer), side by side into one strip.
pub fn pack_frames(frames: &Vec<Vec<u8>>, fw: u32, fh: u32) -> (sheet: SpriteSheet)
    requires
        frames@.len() <= u32::MAX,
        fw * frames@.len() <= u32::MAX,
        fw * frames@.len() * fh * 4 <= u32::MAX,
        forall|i: int| 0 <= i < frames@.len() ==> fw * fh * 4 <= #[trigger] frames@[i]@.len(),
    ensures
        sheet.wf(),
        sheet.frame_width == fw,
        sheet.frame_height == fh,
        sheet.frame_count == frames@.len(),
        holds_frames(sheet, frames@.map_values(|f: Vec<u8>| f@)),
{
    let n = frames.len() as u32;
    let sheet_width = fw * n;
    let sheet_height = fh;
    let total = (sheet_width * sheet_height * 4) as usize;
    let mut sheet: Vec<u8> = vec![0u8; total];
    let ghost fwn = fw as int;
    let ghost fhn = fh as int;
    let ghost nn = n as int;
    let ghost swn = sheet_width as int;
    proof {
        assert forall|q: int, px: int, y: int, k: int| 0 <= q < nn && 0 <= px < fwn && 0 <= y < fhn && 0 <= k < 4
            implies #[trigger] sheet@[byte_at(swn, q * fwn + px, y, k)] == 0u8 by {
            crate::card::lemma_index_in_image(fwn, nn, px, q);
            lemma_pixel_in_image(swn, fhn, q * fwn + px, y, k);
        }
    }
    let mut i: u32 = 0;
    while i < n
        invariant
            i <= n,
            nn == n,
            n == frames@.len(),
            fwn == fw,
            fhn == fh,
            swn == sheet_width,
            sheet_width == fw * n,
            sheet_height == fh,
            total == sheet_width * sheet_height * 4,
            total <= u32::MAX,
            sheet@.len() == total,
            forall|q: int| 0 <= q < frames@.len() ==> fw * fh * 4 <= #[trigger] frames@[q]@.len(),
            forall|q: int, px: int, y: int, k: int| 0 <= q < nn && 0 <= px < fwn && 0 <= y < fhn && 0 <= k < 4
                ==> #[trigger] sheet@[byte_at(swn, q * fwn + px, y, k)]
                    == if copied(i as int, 0, 0, q, y, px) { frames@[q]@[byte_at(fwn, px, y, k)] } else { 0u8 },
        decreases n - i,
    {
        let frame = &frames[i as usize];
        let mut y: u32 = 0;
        while y < fh
            invariant
                y <= fh,
                i < n,
                nn == n,
                n == frames@.len(),
                *frame == frames@[i as int],
                fwn == fw,
                fhn == fh,
                swn == sheet_width,
                sheet_width == fw * n,
                sheet_height == fh,
                total == sheet_width * sheet_height * 4,
                total <= u32::MAX,
                sheet@.len() == total,
                fw * fh * 4 <= frame@.len(),
                forall|q: int| 0 <= q < frames@.len() ==> fw * fh * 4 <= #[trigger] frames@[q]@.len(),
                forall|q: int, px: int, py: int, k: int| 0 <= q < nn && 0 <= px < fwn && 0 <= py < fhn && 0 <= k < 4
                    ==> #[trigger] sheet@[byte_at(swn, q * fwn + px, py, k)]
                        == if copied(i as int, y as int, 0, q, py, px) { frames@[q]@[byte_at(fwn, px, py, k)] } else { 0u8 },
            decreases fh - y,
        {
            let mut x: u32 = 0;
            while x < fw
                invariant
                    x <= fw,
                    y < fh,
                    i < n,
                    nn == n,
                    n == frames@.len(),
                    *frame == frames@[i as int],
                    fwn == fw,
                    fhn == fh,
                    swn == sheet_width,
                    sheet_width == fw * n,
                    sheet_height == fh,
                    total == sheet_width * sheet_height * 4,
                    total <= u32::MAX,
                    sheet@.len() == total,
                    fw * fh * 4 <= frame@.len(),
                    forall|q: int| 0 <= q < frames@.len() ==> fw * fh * 4 <= #[trigger] frames@[q]@.len(),
                    forall|q: int, px: int, py: int, k: int| 0 <= q < nn && 0 <= px < fwn && 0 <= py < fhn && 0 <= k < 4
                        ==> #[trigger] sheet@[byte_at(swn, q * fwn + px, py, k)]
                            == if copied(i as int, y as int, x as int, q, py, px) { frames@[q]@[byte_at(fwn, px, py, k)] } else { 0u8 },
                decreases fw - x,
            {
                let ghost cx = i as int * fwn + x as int;
                proof {
                    crate::card::lemma_index_in_image(fwn, nn, x as int, i as int);
                    lemma_pixel_in_image(swn, fhn, cx, y as int, 0);
                    lemma_pixel_in_image(swn, fhn, cx, y as int, 3);
                    lemma_pixel_in_image(fwn, fhn, x as int, y as int, 0);
                    lemma_pixel_in_image(fwn, fhn, x as int, y as int, 3);
                    assert(fw * fh * 4 <= total) by (nonlinear_arith)
                        requires total == sheet_width * sheet_height * 4, sheet_width == fw * n, sheet_height == fh, n >= 1, fw >= 0, fh >= 0;
                }
                let dst = ((y * sheet_width + i * fw + x) * 4) as usize;
                let src = ((y * fw + x) * 4) as usize;
                sheet.set(dst, frame[src]);
                sheet.set(dst + 1, frame[src + 1]);
                sheet.set(dst + 2, frame[src + 2]);
                sheet.set(dst + 3, frame[src + 3]);
                proof {
                    assert forall|q: int, px: int, py: int, k: int| 0 <= q < nn && 0 <= px < fwn && 0 <= py < fhn && 0 <= k < 4
                        implies #[trigger] sheet@[byte_at(swn, q * fwn + px, py, k)]
                            == if copied(i as int, y as int, x + 1, q, py, px) { frames@[q]@[byte_at(fwn, px, py, k)] } else { 0u8 } by {
                        crate::card::lemma_index_in_image(fwn, nn, px, q);
                        lemma_pixel_in_image(swn, fhn, q * fwn + px, py, k);
                        if q == i && px == x && py == y {
                            assert(byte_at(swn, q * fwn + px, py, k) == dst + k);
                            assert(byte_at(fwn, px, py, k) == src + k);
                        } else {
                            if py == y {
                                if q * fwn + px == cx {
                                    crate::card::lemma_index_injective(fwn, nn, px, q, x as int, i as int);
                                }
                            }
                            crate::canvas::lemma_pixels_disjoint(swn, q * fwn + px, py, k, cx, y as int, 0);
                            crate::canvas::lemma_pixels_disjoint(swn, q * fwn + px, py, k, cx, y as int, 1);
                            crate::canvas::lemma_pixels_disjoint(swn, q * fwn + px, py, k, cx, y as int, 2);
                            crate::canvas::lemma_pixels_disjoint(swn, q * fwn + px, py, k, cx, y as int, 3);
                        }
                    }
                }
                x += 1;
            }
            y += 1;
        }
        i += 1;
    }
    let ghost fv = frames@.map_values(|f: Vec<u8>| f@);
    proof {
        assert forall|q: int, x: int, y: int, k: int|
            0 <= q < fv.len() && 0 <= x < fwn && 0 <= y < fhn && 0 <= k < 4
                implies #[trigger] sheet@[byte_at(swn, q * fwn + x, y, k)] == fv[q][byte_at(fwn, x, y, k)] by {
            assert(copied(nn, 0, 0, q, y, x));
        }
    }
    SpriteSheet {
        frame_width: fw,
        frame_height: fh,
        frame_count: n,
        sheet_rgba: sheet,
        sheet_width,
        sheet_height,
    }
}

} // verus!
