//! Fitting the reminder card artwork into the reminder window: key out the
//! paper, crop to the artwork, downscale with colour premultiplied by
//! alpha, and centre the result.
use vstd::prelude::*;

use crate::canvas::byte_at;
use crate::card::{
    artwork_bbox, ink_extent, padded_crop, paper_mask, pixel_index, remove_bg_flood, ReminderCard,
};
use crate::look::lemma_pixel_in_image;

verus! {

/// Channel threshold above which border-connected pixels count as paper.
/// It also drops the lightest anti-aliased rim, so the artwork gets no white
/// outline after downscaling.
pub const BG_MIN_RGB: u8 = 244;

/// Padding (source pixels) kept around the artwork when cropping.
pub const CROP_PAD: u32 = 12;

/// What `image::imageops::resize` makes of the `w`×`h` image `pixels`, of
/// `channels` bytes per pixel, resized to `nw`×`nh`: with the Catmull-Rom
/// filter when `catmull_rom`, with the triangle filter otherwise.
pub uninterp spec fn resized(pixels: Seq<u8>, channels: nat, w: u32, h: u32, nw: u32, nh: u32, catmull_rom: bool) -> Seq<u8>;

/// Resizes an RGB image with `image::imageops::resize` and the Catmull-Rom
/// filter. Trusted: the result is `nw`×`nh` RGB, and a resize to the same
/// size copies the image; its values are otherwise only named.
#[verifier::external_body]
fn resize_rgb_catmull_rom(pixels: Vec<u8>, w: u32, h: u32, nw: u32, nh: u32) -> (out: Vec<u8>)
    requires
        w > 0,
        h > 0,
        pixels@.len() == w * h * 3,
        w * nh * 4 <= usize::MAX,
        nw * nh * 4 <= usize::MAX,
    ensures
        out@ == resized(pixels@, 3, w, h, nw, nh, true),
        out@.len() == nw * nh * 3,
        nw == w && nh == h ==> out@ == pixels@,
{
    let img = image::RgbImage::from_raw(w, h, pixels).expect("the buffer holds every pixel");
    image::imageops::resize(&img, nw, nh, image::imageops::FilterType::CatmullRom).into_raw()
}

/// Resizes a one-channel image with `image::imageops::resize` and the
/// triangle filter. Trusted: the result is `nw`×`nh`, and a resize to the
/// same size copies the image; its values are otherwise only named.
#[verifier::external_body]
fn resize_gray_triangle(pixels: Vec<u8>, w: u32, h: u32, nw: u32, nh: u32) -> (out: Vec<u8>)
    requires
        w > 0,
        h > 0,
        pixels@.len() == w * h,
        w * nh * 4 <= usize::MAX,
        nw * nh * 4 <= usize::MAX,
    ensures
        out@ == resized(pixels@, 1, w, h, nw, nh, false),
        out@.len() == nw * nh,
        nw == w && nh == h ==> out@ == pixels@,
{
    let img = image::GrayImage::from_raw(w, h, pixels).expect("the buffer holds every pixel");
    image::imageops::resize(&img, nw, nh, image::imageops::FilterType::Triangle).into_raw()
}

/// Image index of crop pixel `p` (row-major in a `cw`-wide crop whose
/// top-left is `(x0, y0)`) in an image `iw` pixels wide.
pub open spec fn crop_source(iw: int, x0: int, y0: int, cw: int, p: int) -> int {
    pixel_index(iw, x0 + p % cw, y0 + p / cw)
}

/// The mask bytes of the crop, row-major.
pub open spec fn crop_alpha(mask: Seq<u8>, iw: int, x0: int, y0: int, cw: int, ch: int) -> Seq<u8> {
    Seq::new((cw * ch) as nat, |p: int| mask[crop_source(iw, x0, y0, cw, p)])
}

/// Colour channel `c` scaled by alpha `a` (255 is opaque), rounded down.
pub open spec fn premul(c: u8, a: u8) -> u8 {
    (c as int * a as int / 255) as u8
}

/// The RGB of the crop premultiplied by the mask, row-major.
pub open spec fn crop_premultiplied(src: Seq<u8>, mask: Seq<u8>, iw: int, x0: int, y0: int, cw: int, ch: int) -> Seq<u8> {
    Seq::new((cw * ch * 3) as nat, |j: int| {
        let q = crop_source(iw, x0, y0, cw, j / 3);
        premul(src[q * 4 + j % 3], mask[q])
    })
}

/// Premultiplied channel `c` divided back by alpha `a`, rounded down and
/// capped at 255; black where `a` is 0.
pub open spec fn unpremul(c: u8, a: u8) -> u8 {
    if a == 0 {
        0
    } else if c as int * 255 / a as int >= 255 {
        255
    } else {
        (c as int * 255 / a as int) as u8
    }
}

/// Premultiplied RGB `pm` divided back by the per-pixel `alpha`.
pub open spec fn unpremultiplied(pm: Seq<u8>, alpha: Seq<u8>) -> Seq<u8> {
    Seq::new(pm.len(), |j: int| unpremul(pm[j], alpha[j / 3]))
}

proof fn lemma_split(u: int, d: int, q: int, r: int)
    requires
        d > 0,
        0 <= r < d,
        u == q * d + r,
    ensures
        u / d == q,
        u % d == r,
{
    vstd::arithmetic::div_mod::lemma_fundamental_div_mod_converse(u, d, q, r);
}

/// Downscale the crop `(x0, y0, cw, ch)` of `src` to `sw`×`sh`, colour
/// premultiplied by the mask, then divide the colour back by the smoothed
/// alpha, so edge pixels keep the artwork's colour rather than the paper's.
/// Returns (RGB, alpha).
fn downscale_card(
    src: &[u8],
    mask: &[u8],
    iw: u32,
    x0: u32,
    y0: u32,
    cw: u32,
    ch: u32,
    sw: u32,
    sh: u32,
) -> (r: (Vec<u8>, Vec<u8>))
    requires
        cw > 0,
        ch > 0,
        x0 + cw <= iw,
        (y0 + ch) * iw * 4 <= src@.len(),
        (y0 + ch) * iw <= mask@.len(),
        cw * sh * 4 <= usize::MAX,
        sw * sh * 4 <= usize::MAX,
    ensures
        r.1@ == resized(crop_alpha(mask@, iw as int, x0 as int, y0 as int, cw as int, ch as int), 1, cw, ch, sw, sh, false),
        r.0@ == unpremultiplied(
            resized(crop_premultiplied(src@, mask@, iw as int, x0 as int, y0 as int, cw as int, ch as int), 3, cw, ch, sw, sh, true),
            r.1@,
        ),
        r.0@.len() == sw * sh * 3,
        r.1@.len() == sw * sh,
{
    let ghost alpha_spec = crop_alpha(mask@, iw as int, x0 as int, y0 as int, cw as int, ch as int);
    let ghost pm_spec = crop_premultiplied(src@, mask@, iw as int, x0 as int, y0 as int, cw as int, ch as int);
    let slen = src.len();
    let mlen = mask.len();
    let mut pm: Vec<u8> = Vec::new();
    let mut alpha: Vec<u8> = Vec::new();
    let mut y: u32 = 0;
    while y < ch
        invariant
            y <= ch,
            cw > 0,
            x0 + cw <= iw,
            (y0 + ch) * iw * 4 <= slen,
            (y0 + ch) * iw <= mlen,
            slen == src@.len(),
            mlen == mask@.len(),
            alpha_spec == crop_alpha(mask@, iw as int, x0 as int, y0 as int, cw as int, ch as int),
            pm_spec == crop_premultiplied(src@, mask@, iw as int, x0 as int, y0 as int, cw as int, ch as int),
            alpha@.len() == y * cw,
            pm@.len() == y * cw * 3,
            forall|p: int| 0 <= p < alpha@.len() ==> #[trigger] alpha@[p] == alpha_spec[p],
            forall|j: int| 0 <= j < pm@.len() ==> #[trigger] pm@[j] == pm_spec[j],
        decreases ch - y,
    {
        assert((y0 + y + 1) * iw <= (y0 + ch) * iw) by (nonlinear_arith)
            requires y + 1 <= ch, iw >= 0;
        assert((y0 + y) * iw <= (y0 + ch) * iw * 4) by (nonlinear_arith)
            requires y < ch, iw >= 0;
        assert(y0 + ch <= (y0 + ch) * iw * 4) by (nonlinear_arith)
            requires iw >= 1;
        let sy = (y0 as usize + y as usize) * iw as usize;
        assert(sy + iw <= (y0 + ch) * iw) by (nonlinear_arith)
            requires sy == (y0 + y) * iw, (y0 + y + 1) * iw <= (y0 + ch) * iw;
        let mut x: u32 = 0;
        while x < cw
            invariant
                x <= cw,
                y < ch,
                cw > 0,
                x0 + cw <= iw,
                sy == (y0 + y) * iw,
                sy + iw <= (y0 + ch) * iw,
                (y0 + ch) * iw * 4 <= slen,
                (y0 + ch) * iw <= mlen,
                slen == src@.len(),
                mlen == mask@.len(),
                alpha_spec == crop_alpha(mask@, iw as int, x0 as int, y0 as int, cw as int, ch as int),
                pm_spec == crop_premultiplied(src@, mask@, iw as int, x0 as int, y0 as int, cw as int, ch as int),
                alpha@.len() == y * cw + x,
                pm@.len() == (y * cw + x) * 3,
                forall|p: int| 0 <= p < alpha@.len() ==> #[trigger] alpha@[p] == alpha_spec[p],
                forall|j: int| 0 <= j < pm@.len() ==> #[trigger] pm@[j] == pm_spec[j],
            decreases cw - x,
        {
            let q = sy + x0 as usize + x as usize;
            assert(q * 4 + 3 < (y0 + ch) * iw * 4);
            let s = q * 4;
            let a = mask[q] as u32;
            let ghost p = (y * cw + x) as int;
            assert(y * cw + x < ch * cw) by (nonlinear_arith)
                requires y < ch, x < cw;
            proof {
                lemma_split(p, cw as int, y as int, x as int);
                assert(crop_source(iw as int, x0 as int, y0 as int, cw as int, p) == q);
            }
            let c0 = src[s] as u32;
            let c1 = src[s + 1] as u32;
            let c2 = src[s + 2] as u32;
            assert(c0 * a <= 255 * 255 && c1 * a <= 255 * 255 && c2 * a <= 255 * 255) by (nonlinear_arith)
                requires a <= 255, c0 <= 255, c1 <= 255, c2 <= 255;
            let r0 = c0 * a / 255;
            let r1 = c1 * a / 255;
            let r2 = c2 * a / 255;
            alpha.push(a as u8);
            pm.push(r0 as u8);
            pm.push(r1 as u8);
            pm.push(r2 as u8);
            proof {
                assert(alpha_spec[p] == mask@[q as int]);
                lemma_split(p * 3, 3, p, 0);
                lemma_split(p * 3 + 1, 3, p, 1);
                lemma_split(p * 3 + 2, 3, p, 2);
                assert(pm_spec[p * 3] == premul(src@[s as int], mask@[q as int]));
                assert(pm_spec[p * 3 + 1] == premul(src@[s as int + 1], mask@[q as int]));
                assert(pm_spec[p * 3 + 2] == premul(src@[s as int + 2], mask@[q as int]));
            }
            x += 1;
        }
        assert(y * cw + cw == (y + 1) * cw) by (nonlinear_arith);
        y += 1;
    }
    assert(ch * cw == cw * ch) by (nonlinear_arith);
    assert(alpha@ =~= alpha_spec);
    assert(pm@ =~= pm_spec);
    assert(cw * ch * 4 <= usize::MAX) by (nonlinear_arith)
        requires (y0 + ch) * iw * 4 <= slen, slen <= usize::MAX, cw <= iw, ch <= y0 + ch;
    let pm_small = resize_rgb_catmull_rom(pm, cw, ch, sw, sh);
    let al_small = resize_gray_triangle(alpha, cw, ch, sw, sh);
    let n = sw as usize * sh as usize;
    let mut rgb: Vec<u8> = Vec::new();
    let mut i: usize = 0;
    while i < n
        invariant
            i <= n,
            n == sw * sh,
            n * 4 <= usize::MAX,
            pm_small@.len() == n * 3,
            al_small@.len() == n,
            rgb@.len() == i * 3,
            forall|j: int| 0 <= j < rgb@.len() ==> #[trigger] rgb@[j] == unpremul(pm_small@[j], al_small@[j / 3]),
        decreases n - i,
    {
        let a = al_small[i] as u32;
        let k = i * 3;
        proof {
            lemma_split(k as int, 3, i as int, 0);
            lemma_split(k as int + 1, 3, i as int, 1);
            lemma_split(k as int + 2, 3, i as int, 2);
        }
        if a == 0 {
            rgb.push(0);
            rgb.push(0);
            rgb.push(0);
        } else {
            let c0 = pm_small[k] as u32 * 255 / a;
            let c1 = pm_small[k + 1] as u32 * 255 / a;
            let c2 = pm_small[k + 2] as u32 * 255 / a;
            rgb.push(if c0 >= 255 { 255 } else { c0 as u8 });
            rgb.push(if c1 >= 255 { 255 } else { c1 as u8 });
            rgb.push(if c2 >= 255 { 255 } else { c2 as u8 });
        }
        i += 1;
    }
    assert(rgb@ =~= unpremultiplied(pm_small@, al_small@));
    (rgb, al_small)
}


/// `a / b` rounded to the nearest integer, halves up.
pub open spec fn round_div(a: int, b: int) -> int {
    (2 * a + b) / (2 * b)
}

pub open spec fn at_least_one(v: int) -> int {
    if v >= 1 { v } else { 1 }
}

/// Size of a `cw`×`ch` artwork contain-fitted into `out_w`×`out_h`: the
/// largest aspect-preserving scale not above 1, sides rounded to the
/// nearest pixel and at least one pixel.
pub open spec fn fitted_size(cw: int, ch: int, out_w: int, out_h: int) -> (int, int) {
    if cw <= out_w && ch <= out_h {
        (cw, ch)
    } else if out_w * ch <= out_h * cw {
        (out_w, at_least_one(round_div(ch * out_w, cw)))
    } else {
        (at_least_one(round_div(cw * out_h, ch)), out_h)
    }
}

pub proof fn lemma_round_div_le(a: int, b: int, m: int)
    requires
        b > 0,
        0 <= a <= m * b,
    ensures
        0 <= round_div(a, b) <= m,
{
    let q = (2 * a + b) / (2 * b);
    let r = (2 * a + b) % (2 * b);
    vstd::arithmetic::div_mod::lemma_fundamental_div_mod(2 * a + b, 2 * b);
    vstd::arithmetic::div_mod::lemma_mod_pos_bound(2 * a + b, 2 * b);
    vstd::arithmetic::div_mod::lemma_div_pos_is_pos(2 * a + b, 2 * b);
    assert(q <= m) by (nonlinear_arith)
        requires 2 * a + b == 2 * b * q + r, 0 <= r, a <= m * b, b > 0;
}

/// Contain-fit a `cw`×`ch` artwork into `out_w`×`out_h` without enlarging it.
pub fn fit_size(cw: u32, ch: u32, out_w: u32, out_h: u32) -> (r: (u32, u32))
    requires
        cw > 0,
        ch > 0,
        out_w > 0,
        out_h > 0,
    ensures
        r.0 == fitted_size(cw as int, ch as int, out_w as int, out_h as int).0,
        r.1 == fitted_size(cw as int, ch as int, out_w as int, out_h as int).1,
        1 <= r.0 <= out_w,
        1 <= r.1 <= out_h,
        r.0 <= cw,
        r.1 <= ch,
{
    if cw <= out_w && ch <= out_h {
        return (cw, ch);
    }
    let (cw6, ch6, ow6, oh6) = (cw as u128, ch as u128, out_w as u128, out_h as u128);
    assert(ow6 * ch6 <= 0xffff_ffff_ffff_ffff && oh6 * cw6 <= 0xffff_ffff_ffff_ffff) by (nonlinear_arith)
        requires ow6 <= 0xffff_ffff, ch6 <= 0xffff_ffff, oh6 <= 0xffff_ffff, cw6 <= 0xffff_ffff;
    if ow6 * ch6 <= oh6 * cw6 {
        assert(out_w < cw) by (nonlinear_arith)
            requires out_w * ch <= out_h * cw, !(cw <= out_w && ch <= out_h), cw > 0, ch > 0;
        let a = ch6 * ow6;
        proof {
            assert(a <= out_h * cw && a <= ch * cw) by (nonlinear_arith)
                requires a == ch * out_w, out_w * ch <= out_h * cw, out_w < cw, ch > 0;
            lemma_round_div_le(a as int, cw as int, out_h as int);
            lemma_round_div_le(a as int, cw as int, ch as int);
        }
        let q = (2 * a + cw6) / (2 * cw6);
        let sh = if q >= 1 { q as u32 } else { 1 };
        (out_w, sh)
    } else {
        assert(out_h < ch) by (nonlinear_arith)
            requires out_w * ch > out_h * cw, !(cw <= out_w && ch <= out_h), cw > 0, ch > 0;
        let a = cw6 * oh6;
        proof {
            assert(a <= out_w * ch && a <= cw * ch) by (nonlinear_arith)
                requires a == cw * out_h, out_w * ch > out_h * cw, out_h < ch, cw > 0;
            lemma_round_div_le(a as int, ch as int, out_w as int);
            lemma_round_div_le(a as int, ch as int, cw as int);
        }
        let q = (2 * a + ch6) / (2 * ch6);
        let sw = if q >= 1 { q as u32 } else { 1 };
        (sw, out_h)
    }
}


/// Byte `k` of pixel `(x, y)` of a frame holding the `sw`×`sh` image
/// (`rgb`, `alpha`) with its top-left at `(dx, dy)`; transparent black
/// elsewhere.
pub open spec fn placed_value(rgb: Seq<u8>, alpha: Seq<u8>, sw: int, sh: int, dx: int, dy: int, x: int, y: int, k: int) -> u8 {
    let sx = x - dx;
    let sy = y - dy;
    if 0 <= sx < sw && 0 <= sy < sh {
        if k < 3 { rgb[(sy * sw + sx) * 3 + k] } else { alpha[sy * sw + sx] }
    } else {
        0
    }
}

/// Crop `(x, y, width, height)` of the artwork of a `iw`×`ih` card image.
pub open spec fn artwork_crop(src: Seq<u8>, iw: u32, ih: u32) -> (u32, u32, u32, u32) {
    padded_crop(ink_extent(paper_mask(src, iw as int, ih as int, BG_MIN_RGB), iw as int, ih as int), iw as int, ih as int, CROP_PAD as int)
}

/// Byte `k` of pixel `(x, y)` of the reminder card made from the `iw`×`ih`
/// image `src` for a `out_w`×`out_h` window: the artwork, keyed and
/// cropped, downscaled to its contain-fit size and centred.
pub open spec fn card_value(src: Seq<u8>, iw: u32, ih: u32, out_w: u32, out_h: u32, x: int, y: int, k: int) -> u8 {
    let mask = paper_mask(src, iw as int, ih as int, BG_MIN_RGB);
    let c = artwork_crop(src, iw, ih);
    let (sw, sh) = fitted_size(c.2 as int, c.3 as int, out_w as int, out_h as int);
    let alpha = resized(crop_alpha(mask, iw as int, c.0 as int, c.1 as int, c.2 as int, c.3 as int), 1, c.2, c.3, sw as u32, sh as u32, false);
    let pm = resized(crop_premultiplied(src, mask, iw as int, c.0 as int, c.1 as int, c.2 as int, c.3 as int), 3, c.2, c.3, sw as u32, sh as u32, true);
    placed_value(unpremultiplied(pm, alpha), alpha, sw, sh, (out_w - sw) / 2, (out_h - sh) / 2, x, y, k)
}

/// Prepare the reminder card from the `iw`×`ih` RGBA card artwork: the near-white
/// paper connected to the border becomes transparent, the artwork is
/// cropped (with `CROP_PAD` around it), contain-fitted into the
/// `out_w`×`out_h` window and centred. `None` when a size is zero or the
/// image holds no artwork.
pub fn prepare_reminder_card(src: &[u8], iw: u32, ih: u32, out_w: u32, out_h: u32) -> (r: Option<ReminderCard>)
    requires
        iw * ih * 4 <= src@.len(),
        iw * ih * 4 <= u32::MAX,
        out_w * out_h * 4 <= u32::MAX,
    ensures
        r is None <==> (iw == 0 || ih == 0 || out_w == 0 || out_h == 0 || artwork_crop(src@, iw, ih).2 == 0),
        r matches Some(card) ==> {
            &&& card.w == out_w
            &&& card.h == out_h
            &&& card.rgba@.len() == out_w * out_h * 4
            &&& forall|x: int, y: int, k: int| 0 <= x < out_w && 0 <= y < out_h && 0 <= k < 4
                ==> #[trigger] card.rgba@[byte_at(out_w as int, x, y, k)] == card_value(src@, iw, ih, out_w, out_h, x, y, k)
        },
{
    if iw == 0 || ih == 0 || out_w == 0 || out_h == 0 {
        return None;
    }
    let mask = remove_bg_flood(src, iw, ih, BG_MIN_RGB);
    assert(iw * 4 <= iw * ih * 4 && ih * 4 <= iw * ih * 4) by (nonlinear_arith)
        requires iw >= 1, ih >= 1;
    let (x0, y0, cw, ch) = artwork_bbox(&mask, iw, ih, CROP_PAD);
    if cw == 0 || ch == 0 {
        return None;
    }
    let (sw, sh) = fit_size(cw, ch, out_w, out_h);
    let dst_x = (out_w - sw) / 2;
    let dst_y = (out_h - sh) / 2;
    assert((y0 + ch) * iw * 4 <= iw * ih * 4 && cw * sh * 4 <= iw * ih * 4) by (nonlinear_arith)
        requires y0 + ch <= ih, cw <= iw, sh <= ch, ch <= ih;
    assert(sw * sh * 4 <= out_w * out_h * 4) by (nonlinear_arith)
        requires sw <= out_w, sh <= out_h;
    let (rgb, alpha) = downscale_card(src, &mask, iw, x0, y0, cw, ch, sw, sh);
    let n = (out_w * out_h * 4) as usize;
    let mut rgba: Vec<u8> = vec![0u8; n];
    let ghost rgb_s = rgb@;
    let ghost al_s = alpha@;
    let ghost own = out_w as int;
    let ghost ohn = out_h as int;
    proof {
        assert forall|px: int, py: int, k: int| 0 <= px < own && 0 <= py < ohn && 0 <= k < 4
            implies #[trigger] rgba@[byte_at(own, px, py, k)] == 0u8 by {
            lemma_pixel_in_image(own, ohn, px, py, k);
        }
    }
    let mut y: u32 = 0;
    while y < sh
        invariant
            y <= sh,
            1 <= sw <= out_w,
            1 <= sh <= out_h,
            dst_x == (out_w - sw) / 2,
            dst_y == (out_h - sh) / 2,
            own == out_w,
            ohn == out_h,
            n == out_w * out_h * 4,
            n <= u32::MAX,
            sw * sh * 4 <= u32::MAX,
            rgba@.len() == n,
            rgb_s == rgb@,
            al_s == alpha@,
            rgb@.len() == sw * sh * 3,
            alpha@.len() == sw * sh,
            forall|px: int, py: int, k: int| 0 <= px < own && 0 <= py < ohn && 0 <= k < 4
                ==> #[trigger] rgba@[byte_at(own, px, py, k)]
                    == if py < dst_y + y { placed_value(rgb_s, al_s, sw as int, sh as int, dst_x as int, dst_y as int, px, py, k) } else { 0u8 },
        decreases sh - y,
    {
        let mut x: u32 = 0;
        while x < sw
            invariant
                x <= sw,
                y < sh,
                1 <= sw <= out_w,
                1 <= sh <= out_h,
                dst_x == (out_w - sw) / 2,
                dst_y == (out_h - sh) / 2,
                own == out_w,
                ohn == out_h,
                n == out_w * out_h * 4,
                n <= u32::MAX,
                sw * sh * 4 <= u32::MAX,
                rgba@.len() == n,
                rgb_s == rgb@,
                al_s == alpha@,
                rgb@.len() == sw * sh * 3,
                alpha@.len() == sw * sh,
                forall|px: int, py: int, k: int| 0 <= px < own && 0 <= py < ohn && 0 <= k < 4
                    ==> #[trigger] rgba@[byte_at(own, px, py, k)]
                        == if py < dst_y + y || (py == dst_y + y && dst_x <= px < dst_x + x) {
                            placed_value(rgb_s, al_s, sw as int, sh as int, dst_x as int, dst_y as int, px, py, k)
                        } else {
                            0u8
                        },
            decreases sw - x,
        {
            let ghost tx = (dst_x + x) as int;
            let ghost ty = (dst_y + y) as int;
            assert(y * sw + x < sw * sh) by (nonlinear_arith)
                requires y < sh, x < sw;
            let mi = (y * sw + x) as usize;
            let si = mi * 3;
            proof {
                lemma_pixel_in_image(own, ohn, tx, ty, 0);
                lemma_pixel_in_image(own, ohn, tx, ty, 3);
            }
            let di = (((dst_y + y) * out_w + (dst_x + x)) * 4) as usize;
            rgba.set(di, rgb[si]);
            rgba.set(di + 1, rgb[si + 1]);
            rgba.set(di + 2, rgb[si + 2]);
            rgba.set(di + 3, alpha[mi]);
            proof {
                assert forall|px: int, py: int, k: int| 0 <= px < own && 0 <= py < ohn && 0 <= k < 4
                    implies #[trigger] rgba@[byte_at(own, px, py, k)]
                        == if py < dst_y + y || (py == dst_y + y && dst_x <= px < dst_x + x + 1) {
                            placed_value(rgb_s, al_s, sw as int, sh as int, dst_x as int, dst_y as int, px, py, k)
                        } else {
                            0u8
                        } by {
                    lemma_pixel_in_image(own, ohn, px, py, k);
                    if px == tx && py == ty {
                        assert(byte_at(own, px, py, k) == di + k);
                    } else {
                        crate::canvas::lemma_pixels_disjoint(own, px, py, k, tx, ty, 0);
                        crate::canvas::lemma_pixels_disjoint(own, px, py, k, tx, ty, 1);
                        crate::canvas::lemma_pixels_disjoint(own, px, py, k, tx, ty, 2);
                        crate::canvas::lemma_pixels_disjoint(own, px, py, k, tx, ty, 3);
                    }
                }
            }
            x += 1;
        }
        y += 1;
    }
    proof {
        assert forall|px: int, py: int, k: int| 0 <= px < own && 0 <= py < ohn && 0 <= k < 4
            implies #[trigger] rgba@[byte_at(own, px, py, k)] == card_value(src@, iw, ih, out_w, out_h, px, py, k) by {
            if py >= dst_y + sh {
                assert(placed_value(rgb_s, al_s, sw as int, sh as int, dst_x as int, dst_y as int, px, py, k) == 0u8);
            }
        }
    }
    Some(ReminderCard { w: out_w, h: out_h, rgba })
}

} // verus!
