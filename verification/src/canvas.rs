//! RGBA canvases (tightly packed, 4 bytes per pixel, row-major) and
//! "source over" alpha compositing onto them.
//!
//! Blends are computed exactly in integers: a colour channel is the floor
//! of the exact source-over value, the alpha byte the floor of the exact
//! coverage.
use vstd::prelude::*;

verus! {

/// Byte offset of pixel `(x, y)` on a canvas `w` pixels wide.
pub open spec fn px_at(w: int, x: int, y: int) -> int {
    (y * w + x) * 4
}

/// Whole rows a canvas of `len` bytes holds at width `w`.
pub open spec fn canvas_rows(len: int, w: int) -> int {
    if w <= 0 { 0 } else { (len / 4) / w }
}

/// Whether `(x, y)` is a pixel of the canvas.
pub open spec fn in_canvas(len: int, w: int, x: int, y: int) -> bool {
    0 <= x < w && 0 <= y < canvas_rows(len, w)
}

/// Alpha coverage of `src_a` over `dst_a`, scaled by 255.
pub open spec fn over_coverage(src_a: int, dst_a: int) -> int {
    255 * src_a + (255 - src_a) * dst_a
}

/// Colour channel of source-over: the exact value, rounded down.
pub open spec fn over_channel(src_c: u8, src_a: u8, dst_c: u8, dst_a: u8) -> u8 {
    ((255 * src_a * src_c + (255 - src_a) * dst_a * dst_c) / over_coverage(src_a as int, dst_a as int)) as u8
}

/// Alpha byte of source-over: the exact coverage, rounded down.
pub open spec fn over_alpha(src_a: u8, dst_a: u8) -> u8 {
    (over_coverage(src_a as int, dst_a as int) / 255) as u8
}

/// Byte `k` of the pixel starting at `i` after painting `c` over it (a fully
/// transparent `c` leaves it alone).
pub open spec fn over_byte(old: Seq<u8>, i: int, k: int, c: [u8; 4]) -> u8 {
    if c[3] == 0 {
        old[i + k]
    } else if k == 3 {
        over_alpha(c[3], old[i + 3])
    } else {
        over_channel(c[k], c[3], old[i + k], old[i + 3])
    }
}

/// The canvas after painting `c` over pixel `(x, y)`; pixels outside the
/// canvas are ignored.
pub open spec fn put_spec(old: Seq<u8>, w: int, x: int, y: int, c: [u8; 4]) -> Seq<u8> {
    if !in_canvas(old.len() as int, w, x, y) || c[3] == 0 {
        old
    } else {
        let i = px_at(w, x, y);
        old.update(i, over_byte(old, i, 0, c))
            .update(i + 1, over_byte(old, i, 1, c))
            .update(i + 2, over_byte(old, i, 2, c))
            .update(i + 3, over_byte(old, i, 3, c))
    }
}

/// Source-over of a channel stays a byte and is exact on opaque sources.
proof fn lemma_over_bounds(sc: u8, sa: u8, dc: u8, da: u8)
    requires
        sa > 0,
    ensures
        over_coverage(sa as int, da as int) > 0,
        (255 * sa * sc + (255 - sa) * da * dc) / over_coverage(sa as int, da as int) <= 255,
        over_coverage(sa as int, da as int) / 255 <= 255,
{
    let a = over_coverage(sa as int, da as int);
    assert(a > 0) by (nonlinear_arith)
        requires a == 255 * sa + (255 - sa) * da, sa > 0, sa <= 255, da >= 0;
    assert(a <= 255 * 255) by (nonlinear_arith)
        requires a == 255 * sa + (255 - sa) * da, sa <= 255, da <= 255, sa >= 0;
    let n = 255 * sa * sc + (255 - sa) * da * dc;
    assert(n <= 255 * a) by (nonlinear_arith)
        requires n == 255 * sa * sc + (255 - sa) * da * dc, a == 255 * sa + (255 - sa) * da,
            sc <= 255, dc <= 255, sa <= 255, da >= 0, sa >= 0, sc >= 0, dc >= 0;
    assert(n >= 0) by (nonlinear_arith)
        requires n == 255 * sa * sc + (255 - sa) * da * dc, sa <= 255, da >= 0, sa >= 0, sc >= 0, dc >= 0;
    vstd::arithmetic::div_mod::lemma_div_is_ordered(n, 255 * a, a);
    vstd::arithmetic::div_mod::lemma_div_by_multiple(255, a);
    vstd::arithmetic::div_mod::lemma_div_is_ordered(a, 65025, 255);
    vstd::arithmetic::div_mod::lemma_div_by_multiple(255, 255);
}

/// Distinct pixels own disjoint bytes.
pub proof fn lemma_pixels_disjoint(w: int, x1: int, y1: int, k1: int, x2: int, y2: int, k2: int)
    requires
        0 <= x1 < w,
        0 <= x2 < w,
        0 <= y1,
        0 <= y2,
        0 <= k1 < 4,
        0 <= k2 < 4,
        x1 != x2 || y1 != y2,
    ensures
        px_at(w, x1, y1) + k1 != px_at(w, x2, y2) + k2,
{
    let a = y1 * w + x1;
    let b = y2 * w + x2;
    if a == b {
        if y1 < y2 {
            assert(y1 * w + w <= y2 * w) by (nonlinear_arith)
                requires y1 < y2, w > 0;
        } else if y2 < y1 {
            assert(y2 * w + w <= y1 * w) by (nonlinear_arith)
                requires y2 < y1, w > 0;
        }
    }
    assert(a != b);
}

/// A pixel of the canvas lies within the canvas bytes.
pub proof fn lemma_pixel_in_bounds(len: int, w: int, x: int, y: int, k: int)
    requires
        in_canvas(len, w, x, y),
        0 <= k < 4,
        len >= 0,
    ensures
        0 <= px_at(w, x, y) + k < canvas_rows(len, w) * w * 4 <= len,
        px_at(w, x, y) + 3 < len,
{
    let rows = canvas_rows(len, w);
    assert(y * w + x < rows * w) by (nonlinear_arith)
        requires y < rows, 0 <= x < w, y >= 0;
    assert(y * w + x >= 0) by (nonlinear_arith)
        requires y >= 0, x >= 0, w > 0;
    assert(rows * w <= len / 4) by {
        vstd::arithmetic::div_mod::lemma_fundamental_div_mod(len / 4, w);
        assert((len / 4) % w >= 0) by {
            vstd::arithmetic::div_mod::lemma_mod_pos_bound(len / 4, w);
        }
        vstd::arithmetic::mul::lemma_mul_is_commutative(w, (len / 4) / w);
    }
}

/// Painting one pixel changes that pixel's four bytes and nothing else.
pub proof fn lemma_put_frame(old: Seq<u8>, w: int, tx: int, ty: int, c: [u8; 4], x: int, y: int, k: int)
    requires
        in_canvas(old.len() as int, w, x, y),
        0 <= k < 4,
    ensures
        put_spec(old, w, tx, ty, c).len() == old.len(),
        put_spec(old, w, tx, ty, c)[px_at(w, x, y) + k] == if x == tx && y == ty {
            over_byte(old, px_at(w, x, y), k, c)
        } else {
            old[px_at(w, x, y) + k]
        },
{
    lemma_pixel_in_bounds(old.len() as int, w, x, y, k);
    if in_canvas(old.len() as int, w, tx, ty) && c[3] != 0 {
        lemma_pixel_in_bounds(old.len() as int, w, tx, ty, 3);
        if x != tx || y != ty {
            lemma_pixels_disjoint(w, x, y, k, tx, ty, 0);
            lemma_pixels_disjoint(w, x, y, k, tx, ty, 1);
            lemma_pixels_disjoint(w, x, y, k, tx, ty, 2);
            lemma_pixels_disjoint(w, x, y, k, tx, ty, 3);
        }
    }
}

/// Painting leaves the bytes past the last whole row alone.
pub proof fn lemma_put_tail(old: Seq<u8>, w: int, tx: int, ty: int, c: [u8; 4], j: int)
    requires
        canvas_rows(old.len() as int, w) * w * 4 <= j < old.len(),
    ensures
        put_spec(old, w, tx, ty, c)[j] == old[j],
{
    if in_canvas(old.len() as int, w, tx, ty) && c[3] != 0 {
        lemma_pixel_in_bounds(old.len() as int, w, tx, ty, 3);
    }
}

/// Paint `c` over pixel `(x, y)` ("source over"); pixels outside the canvas
/// and fully transparent colours are ignored.
pub fn put(px: &mut [u8], w: u32, x: i32, y: i32, c: [u8; 4])
    requires
        old(px)@.len() <= u32::MAX,
    ensures
        final(px)@ == put_spec(old(px)@, w as int, x as int, y as int, c),
{
    if x < 0 || y < 0 || x as u32 >= w {
        return;
    }
    let wm: u32 = if w == 0 { 1 } else { w };
    let h: u32 = ((px.len() / 4) as u32) / wm;
    if y as i64 >= h as i64 {
        return;
    }
    if c[3] == 0 {
        return;
    }
    let ghost old_px = px@;
    proof {
        assert(in_canvas(old_px.len() as int, w as int, x as int, y as int));
        lemma_pixel_in_bounds(old_px.len() as int, w as int, x as int, y as int, 3);
        lemma_over_bounds(c[0], c[3], old_px[px_at(w as int, x as int, y as int)], old_px[px_at(w as int, x as int, y as int) + 3]);
        lemma_over_bounds(c[1], c[3], old_px[px_at(w as int, x as int, y as int) + 1], old_px[px_at(w as int, x as int, y as int) + 3]);
        lemma_over_bounds(c[2], c[3], old_px[px_at(w as int, x as int, y as int) + 2], old_px[px_at(w as int, x as int, y as int) + 3]);
    }
    let i = ((y as u32 * w + x as u32) * 4) as usize;
    let sa = c[3];
    let da = px[i + 3];
    let r = blend_channel(c[0], sa, px[i], da);
    let g = blend_channel(c[1], sa, px[i + 1], da);
    let b = blend_channel(c[2], sa, px[i + 2], da);
    px[i] = r;
    px[i + 1] = g;
    px[i + 2] = b;
    px[i + 3] = blend_alpha(sa, da);
}

fn blend_channel(sc: u8, sa: u8, dc: u8, da: u8) -> (r: u8)
    requires
        sa > 0,
    ensures
        r == over_channel(sc, sa, dc, da),
{
    proof {
        lemma_over_bounds(sc, sa, dc, da);
    }
    let sa32 = sa as u32;
    let da32 = da as u32;
    assert(255 * sa32 * (sc as u32) <= 255 * 255 * 255) by (nonlinear_arith)
        requires sa32 <= 255, sc <= 255;
    assert((255 - sa32) * da32 * (dc as u32) <= 255 * 255 * 255) by (nonlinear_arith)
        requires sa32 <= 255, da32 <= 255, dc <= 255;
    assert((255 - sa32) * da32 <= 255 * 255) by (nonlinear_arith)
        requires sa32 <= 255, da32 <= 255;
    let cov = 255 * sa32 + (255 - sa32) * da32;
    let n = 255 * sa32 * (sc as u32) + (255 - sa32) * da32 * (dc as u32);
    (n / cov) as u8
}

fn blend_alpha(sa: u8, da: u8) -> (r: u8)
    requires
        sa > 0,
    ensures
        r == over_alpha(sa, da),
{
    proof {
        lemma_over_bounds(0, sa, 0, da);
    }
    let sa32 = sa as u32;
    let da32 = da as u32;
    assert((255 - sa32) * da32 <= 255 * 255) by (nonlinear_arith)
        requires sa32 <= 255, da32 <= 255;
    let cov = 255 * sa32 + (255 - sa32) * da32;
    (cov / 255) as u8
}

/// Byte `k` of pixel `(x, y)`.
pub open spec fn byte_at(w: int, x: int, y: int, k: int) -> int {
    px_at(w, x, y) + k
}

/// Byte `k` of pixel `(x, y)` after painting `col` (if any) over it.
pub open spec fn paint_value(old: Seq<u8>, w: int, x: int, y: int, k: int, col: Option<[u8; 4]>) -> u8 {
    match col {
        Some(c) => over_byte(old, px_at(w, x, y), k, c),
        None => old[byte_at(w, x, y, k)],
    }
}

/// `cur` is `old` with the pixels that `done` selects painted with the
/// colour `color` gives them; every other byte is unchanged.
pub open spec fn painted(
    old: Seq<u8>,
    cur: Seq<u8>,
    w: int,
    done: spec_fn(int, int) -> bool,
    color: spec_fn(int, int) -> Option<[u8; 4]>,
) -> bool {
    &&& cur.len() == old.len()
    &&& forall|x: int, y: int, k: int|
        in_canvas(old.len() as int, w, x, y) && 0 <= k < 4 ==> #[trigger] cur[byte_at(w, x, y, k)] == (if done(x, y) {
            paint_value(old, w, x, y, k, color(x, y))
        } else {
            old[byte_at(w, x, y, k)]
        })
    &&& forall|j: int| canvas_rows(old.len() as int, w) * w * 4 <= j < old.len() ==> #[trigger] cur[j] == old[j]
}

/// Nothing painted yet.
pub proof fn lemma_painted_start(old: Seq<u8>, w: int, done: spec_fn(int, int) -> bool, color: spec_fn(int, int) -> Option<[u8; 4]>)
    requires
        forall|x: int, y: int| in_canvas(old.len() as int, w, x, y) ==> !done(x, y),
    ensures
        painted(old, old, w, done, color),
{
}

/// Painting one more pixel, not painted before, with its colour.
pub proof fn lemma_painted_step(
    old: Seq<u8>,
    cur: Seq<u8>,
    w: int,
    done: spec_fn(int, int) -> bool,
    done2: spec_fn(int, int) -> bool,
    color: spec_fn(int, int) -> Option<[u8; 4]>,
    tx: int,
    ty: int,
    c: [u8; 4],
)
    requires
        painted(old, cur, w, done, color),
        in_canvas(old.len() as int, w, tx, ty) ==> !done(tx, ty),
        in_canvas(old.len() as int, w, tx, ty) ==> color(tx, ty) == Some(c),
        forall|x: int, y: int| in_canvas(old.len() as int, w, x, y) ==> done2(x, y) == (done(x, y) || (x == tx && y == ty)),
    ensures
        painted(old, put_spec(cur, w, tx, ty, c), w, done2, color),
{
    let new = put_spec(cur, w, tx, ty, c);
    if in_canvas(old.len() as int, w, tx, ty) {
        lemma_pixel_in_bounds(old.len() as int, w, tx, ty, 3);
    }
    assert forall|x: int, y: int, k: int|
        in_canvas(old.len() as int, w, x, y) && 0 <= k < 4 implies #[trigger] new[byte_at(w, x, y, k)] == (if done2(x, y) {
            paint_value(old, w, x, y, k, color(x, y))
        } else {
            old[byte_at(w, x, y, k)]
        }) by {
        lemma_put_frame(cur, w, tx, ty, c, x, y, k);
        if x == tx && y == ty {
            assert(cur[byte_at(w, x, y, 0)] == old[byte_at(w, x, y, 0)]);
            assert(cur[byte_at(w, x, y, 1)] == old[byte_at(w, x, y, 1)]);
            assert(cur[byte_at(w, x, y, 2)] == old[byte_at(w, x, y, 2)]);
            assert(cur[byte_at(w, x, y, 3)] == old[byte_at(w, x, y, 3)]);
        }
    }
    assert forall|j: int| canvas_rows(old.len() as int, w) * w * 4 <= j < old.len() implies #[trigger] new[j] == old[j] by {
        lemma_put_tail(cur, w, tx, ty, c, j);
        assert(cur[j] == old[j]);
    }
    assert(new.len() == old.len());
}

/// Skipping a pixel that has nothing to paint.
pub proof fn lemma_painted_skip(
    old: Seq<u8>,
    cur: Seq<u8>,
    w: int,
    done: spec_fn(int, int) -> bool,
    done2: spec_fn(int, int) -> bool,
    color: spec_fn(int, int) -> Option<[u8; 4]>,
    tx: int,
    ty: int,
)
    requires
        painted(old, cur, w, done, color),
        in_canvas(old.len() as int, w, tx, ty) ==> color(tx, ty).is_none(),
        forall|x: int, y: int| in_canvas(old.len() as int, w, x, y) ==> done2(x, y) == (done(x, y) || (x == tx && y == ty)),
    ensures
        painted(old, cur, w, done2, color),
{
}

/// The pixel of `src` (a `sw`-wide RGBA buffer of `sh` rows) that lands on
/// destination pixel `(x, y)` when `src` is placed at `(ox, oy)`, unless it
/// is missing from the buffer or fully transparent.
pub open spec fn placed_source(src: Seq<u8>, sw: int, sh: int, ox: int, oy: int, x: int, y: int) -> Option<[u8; 4]> {
    let sx = x - ox;
    let sy = y - oy;
    let si = px_at(sw, sx, sy);
    if 0 <= sx < sw && 0 <= sy < sh && si + 3 < src.len() && src[si + 3] != 0 {
        Some([src[si], src[si + 1], src[si + 2], src[si + 3]])
    } else {
        None
    }
}

/// What `blit` paints on destination pixel `(x, y)`: the placed source
/// pixel, on rows above `dh`.
pub open spec fn blit_color(src: Seq<u8>, sw: int, sh: int, ox: int, oy: int, dh: int, x: int, y: int) -> Option<[u8; 4]> {
    if y < dh { placed_source(src, sw, sh, ox, oy, x, y) } else { None }
}

pub open spec fn all_pixels() -> spec_fn(int, int) -> bool {
    |x: int, y: int| true
}

/// A canvas of at most `u32::MAX` bytes has fewer than `i32::MAX` rows.
proof fn lemma_big_row_outside(len: int, w: int, x: int, y: int)
    requires
        0 <= len <= u32::MAX,
        y > i32::MAX,
    ensures
        !in_canvas(len, w, x, y),
{
    if w > 0 {
        vstd::arithmetic::div_mod::lemma_div_is_ordered_by_denominator(len / 4, 1, w);
    }
}

/// Rows of a canvas whose width does not fit in an `i32` hold no pixel.
proof fn lemma_wide_canvas_empty(len: int, w: int, x: int, y: int)
    requires
        0 <= len <= u32::MAX,
        w > i32::MAX,
    ensures
        !in_canvas(len, w, x, y),
{
    assert(len / 4 < w);
    vstd::arithmetic::div_mod::lemma_div_of0(w);
    vstd::arithmetic::div_mod::lemma_basic_div(len / 4, w);
}

/// Alpha-composite `src` (`sw`×`sh`) onto `dest` (`dw`×`dh`) with its top-left
/// corner at `(dx, dy)`; fully transparent source pixels are skipped.
fn blit(dest: &mut [u8], dw: u32, dh: u32, src: &[u8], sw: u32, sh: u32, dx: u32, dy: u32)
    requires
        old(dest)@.len() <= u32::MAX,
        sw * sh * 4 <= u32::MAX,
        sw > 0 && sh > 0 ==> dx + sw - 1 <= u32::MAX && dy + sh - 1 <= u32::MAX,
    ensures
        painted(old(dest)@, final(dest)@, dw as int, all_pixels(),
            |x: int, y: int| blit_color(src@, sw as int, sh as int, dx as int, dy as int, dh as int, x, y)),
{
    let ghost old_d = dest@;
    let ghost color = |x: int, y: int| blit_color(src@, sw as int, sh as int, dx as int, dy as int, dh as int, x, y);
    let ghost len = old_d.len() as int;
    proof {
        lemma_painted_start(old_d, dw as int, |x: int, y: int| false, color);
    }
    let mut y: u32 = 0;
    while y < sh
        invariant
            y <= sh,
            old_d == old(dest)@,
            len == old_d.len(),
            len <= u32::MAX,
            sw * sh * 4 <= u32::MAX,
            sw > 0 && sh > 0 ==> dx + sw - 1 <= u32::MAX && dy + sh - 1 <= u32::MAX,
            color == (|x: int, y: int| blit_color(src@, sw as int, sh as int, dx as int, dy as int, dh as int, x, y)),
            painted(old_d, dest@, dw as int, |px: int, py: int| py - dy < y && 0 <= px - dx < sw && 0 <= py - dy, color),
        decreases sh - y,
    {
        let mut x: u32 = 0;
        while x < sw
            invariant
                x <= sw,
                y < sh,
                old_d == old(dest)@,
                len == old_d.len(),
                len <= u32::MAX,
                sw * sh * 4 <= u32::MAX,
                sw > 0 && sh > 0 ==> dx + sw - 1 <= u32::MAX && dy + sh - 1 <= u32::MAX,
                color == (|x: int, y: int| blit_color(src@, sw as int, sh as int, dx as int, dy as int, dh as int, x, y)),
                painted(old_d, dest@, dw as int,
                    |px: int, py: int| 0 <= px - dx < sw && 0 <= py - dy && (py - dy < y || (py - dy == y && px - dx < x)),
                    color),
            decreases sw - x,
        {
            let tx = dx + x;
            let ty = dy + y;
            let ghost done = |px: int, py: int| 0 <= px - dx < sw && 0 <= py - dy && (py - dy < y || (py - dy == y && px - dx < x));
            let ghost done2 = |px: int, py: int| 0 <= px - dx < sw && 0 <= py - dy && (py - dy < y || (py - dy == y && px - dx < x + 1));
            assert(y * sw + x < sw * sh) by (nonlinear_arith)
                requires y < sh, x < sw;
            if tx >= dw || ty >= dh {
                proof {
                    lemma_painted_skip(old_d, dest@, dw as int, done, done2, color, tx as int, ty as int);
                }
            } else {
                let si = ((y * sw + x) * 4) as usize;
                if si + 3 >= src.len() {
                    proof {
                        lemma_painted_skip(old_d, dest@, dw as int, done, done2, color, tx as int, ty as int);
                    }
                } else {
                    let c = [src[si], src[si + 1], src[si + 2], src[si + 3]];
                    if c[3] == 0 {
                        proof {
                            lemma_painted_skip(old_d, dest@, dw as int, done, done2, color, tx as int, ty as int);
                        }
                    } else {
                        proof {
                            if dw > i32::MAX {
                                lemma_wide_canvas_empty(len, dw as int, tx as int, ty as int);
                            }
                            assert(in_canvas(len, dw as int, tx as int, ty as int) ==> color(tx as int, ty as int) == Some(c));
                        }
                        let ghost before = dest@;
                        put(dest, dw, tx as i32, ty as i32, c);
                        proof {
                            if dw > i32::MAX {
                                lemma_wide_canvas_empty(len, dw as int, tx as int, ty as int);
                                lemma_wide_canvas_empty(len, dw as int, (tx as i32) as int, (ty as i32) as int);
                                assert(dest@ == before);
                            } else if ty > i32::MAX {
                                lemma_big_row_outside(len, dw as int, tx as int, ty as int);
                                assert((ty as i32) < 0) by (bit_vector)
                                    requires ty > 0x7fff_ffffu32;
                                assert((tx as i32) as int == tx as int);
                                assert(dest@ == before);
                            } else {
                                assert((tx as i32) as int == tx as int);
                                assert((ty as i32) as int == ty as int);
                            }
                            assert(dest@ == put_spec(before, dw as int, tx as int, ty as int, c));
                            lemma_painted_step(old_d, before, dw as int, done, done2, color, tx as int, ty as int, c);
                        }
                    }
                }
            }
            x += 1;
        }
        y += 1;
    }
}

/// Marking pixels that have nothing to paint as done changes nothing.
pub proof fn lemma_painted_extend(
    old: Seq<u8>,
    cur: Seq<u8>,
    w: int,
    done: spec_fn(int, int) -> bool,
    done2: spec_fn(int, int) -> bool,
    color: spec_fn(int, int) -> Option<[u8; 4]>,
)
    requires
        painted(old, cur, w, done, color),
        forall|x: int, y: int| in_canvas(old.len() as int, w, x, y) && done(x, y) ==> done2(x, y),
        forall|x: int, y: int| in_canvas(old.len() as int, w, x, y) && done2(x, y) && !done(x, y) ==> color(x, y).is_none(),
    ensures
        painted(old, cur, w, done2, color),
{
}

/// Alpha-composite one RGBA layer onto another at an integer offset.
pub fn blit_rgba(dest: &mut [u8], dw: u32, dh: u32, src: &[u8], sw: u32, sh: u32, dx: u32, dy: u32)
    requires
        old(dest)@.len() <= u32::MAX,
        sw * sh * 4 <= u32::MAX,
        sw > 0 && sh > 0 ==> dx + sw - 1 <= u32::MAX && dy + sh - 1 <= u32::MAX,
    ensures
        painted(old(dest)@, final(dest)@, dw as int, all_pixels(),
            |x: int, y: int| blit_color(src@, sw as int, sh as int, dx as int, dy as int, dh as int, x, y)),
{
    blit(dest, dw, dh, src, sw, sh, dx, dy);
}

/// A width or height as the clipped blit compares it: an `i32`, so a value
/// above `i32::MAX` reads as negative and admits no pixel.
pub open spec fn signed_extent(v: u32) -> int {
    if v <= i32::MAX { v as int } else { -1 }
}

/// What `blit_rgba_clipped` paints on destination pixel `(x, y)`: the placed
/// source pixel, when `(x, y)` lies in the clip rectangle and the
/// destination.
pub open spec fn clipped_color(
    src: Seq<u8>,
    sw: int,
    sh: int,
    ox: int,
    oy: int,
    dw: u32,
    dh: u32,
    clip: (i32, i32, i32, i32),
    x: int,
    y: int,
) -> Option<[u8; 4]> {
    let (cx, cy, cw, ch) = clip;
    if cx <= x < cx + cw && cy <= y < cy + ch && x < signed_extent(dw) && y < signed_extent(dh) {
        placed_source(src, sw, sh, ox, oy, x, y)
    } else {
        None
    }
}

/// Blit `src` so its (0,0) lands at `(dest_x, dest_y)`, clipped to `clip`
/// (x, y, width, height).
pub fn blit_rgba_clipped(
    dest: &mut [u8],
    dw: u32,
    dh: u32,
    src: &[u8],
    sw: u32,
    sh: u32,
    dest_x: i32,
    dest_y: i32,
    clip: (i32, i32, i32, i32),
)
    requires
        old(dest)@.len() <= u32::MAX,
        sw * sh * 4 <= u32::MAX,
        sh <= i32::MAX,
        sh > 0 ==> dest_y + sh - 1 <= i32::MAX,
        sw > 0 ==> sw <= i32::MAX && dest_x + sw - 1 <= i32::MAX,
        i32::MIN <= clip.0 + clip.2 <= i32::MAX,
        i32::MIN <= clip.1 + clip.3 <= i32::MAX,
    ensures
        painted(old(dest)@, final(dest)@, dw as int, all_pixels(),
            |x: int, y: int| clipped_color(src@, sw as int, sh as int, dest_x as int, dest_y as int, dw, dh, clip, x, y)),
{
    let (cx, cy, cw, ch) = clip;
    let clip_x1 = cx + cw;
    let clip_y1 = cy + ch;
    let ghost old_d = dest@;
    let ghost len = old_d.len() as int;
    let ghost color = |x: int, y: int| clipped_color(src@, sw as int, sh as int, dest_x as int, dest_y as int, dw, dh, clip, x, y);
    let dw_i = dw as i32;
    let dh_i = dh as i32;
    proof {
        lemma_painted_start(old_d, dw as int, |x: int, y: int| false, color);
        if dw <= i32::MAX {
            assert(dw_i as int == dw as int);
        } else {
            assert(dw_i < 0) by (bit_vector) requires dw > 0x7fff_ffffu32, dw_i == dw as i32;
        }
        if dh <= i32::MAX {
            assert(dh_i as int == dh as int);
        } else {
            assert(dh_i < 0) by (bit_vector) requires dh > 0x7fff_ffffu32, dh_i == dh as i32;
        }
    }
    let mut y: u32 = 0;
    while y < sh
        invariant
            y <= sh,
            old_d == old(dest)@,
            len == old_d.len(),
            len <= u32::MAX,
            sw * sh * 4 <= u32::MAX,
            sh <= i32::MAX,
            sh > 0 ==> dest_y + sh - 1 <= i32::MAX,
            sw > 0 ==> sw <= i32::MAX && dest_x + sw - 1 <= i32::MAX,
            clip == (cx, cy, cw, ch),
            clip_x1 == cx + cw,
            clip_y1 == cy + ch,
            dw_i == signed_extent(dw) || (dw > i32::MAX && dw_i < 0),
            dh_i == signed_extent(dh) || (dh > i32::MAX && dh_i < 0),
            color == (|x: int, y: int| clipped_color(src@, sw as int, sh as int, dest_x as int, dest_y as int, dw, dh, clip, x, y)),
            painted(old_d, dest@, dw as int, |px: int, py: int| py - dest_y < y && 0 <= px - dest_x < sw && 0 <= py - dest_y, color),
        decreases sh - y,
    {
        let ty = dest_y + y as i32;
        let ghost done_rows = |px: int, py: int| py - dest_y < y && 0 <= px - dest_x < sw && 0 <= py - dest_y;
        let ghost done_next = |px: int, py: int| py - dest_y < y + 1 && 0 <= px - dest_x < sw && 0 <= py - dest_y;
        if ty < cy || ty >= clip_y1 || ty < 0 || ty >= dh_i {
            proof {
                lemma_painted_extend(old_d, dest@, dw as int, done_rows, done_next, color);
            }
        } else {
            let mut x: u32 = 0;
            while x < sw
                invariant
                    x <= sw,
                    y < sh,
                    ty == dest_y + y,
                    cy <= ty < clip_y1,
                    0 <= ty < dh_i,
                    old_d == old(dest)@,
                    len == old_d.len(),
                    len <= u32::MAX,
                    sw * sh * 4 <= u32::MAX,
                    sw > 0 ==> sw <= i32::MAX && dest_x + sw - 1 <= i32::MAX,
                    clip == (cx, cy, cw, ch),
                    clip_x1 == cx + cw,
                    clip_y1 == cy + ch,
                    dw_i == signed_extent(dw) || (dw > i32::MAX && dw_i < 0),
                    dh_i == signed_extent(dh) || (dh > i32::MAX && dh_i < 0),
                    color == (|x: int, y: int| clipped_color(src@, sw as int, sh as int, dest_x as int, dest_y as int, dw, dh, clip, x, y)),
                    painted(old_d, dest@, dw as int,
                        |px: int, py: int| 0 <= px - dest_x < sw && 0 <= py - dest_y && (py - dest_y < y || (py - dest_y == y && px - dest_x < x)),
                        color),
                decreases sw - x,
            {
                let tx = dest_x + x as i32;
                let ghost done = |px: int, py: int| 0 <= px - dest_x < sw && 0 <= py - dest_y && (py - dest_y < y || (py - dest_y == y && px - dest_x < x));
                let ghost done2 = |px: int, py: int| 0 <= px - dest_x < sw && 0 <= py - dest_y && (py - dest_y < y || (py - dest_y == y && px - dest_x < x + 1));
                assert(y * sw + x < sw * sh) by (nonlinear_arith)
                    requires y < sh, x < sw;
                if tx < cx || tx >= clip_x1 || tx < 0 || tx >= dw_i {
                    proof {
                        lemma_painted_extend(old_d, dest@, dw as int, done, done2, color);
                    }
                } else {
                    let si = ((y * sw + x) * 4) as usize;
                    if si + 3 >= src.len() {
                        proof {
                            lemma_painted_extend(old_d, dest@, dw as int, done, done2, color);
                        }
                    } else {
                        let c = [src[si], src[si + 1], src[si + 2], src[si + 3]];
                        if c[3] == 0 {
                            proof {
                                lemma_painted_extend(old_d, dest@, dw as int, done, done2, color);
                            }
                        } else {
                            let ghost before = dest@;
                            put(dest, dw, tx, ty, c);
                            proof {
                                lemma_painted_step(old_d, before, dw as int, done, done2, color, tx as int, ty as int, c);
                            }
                        }
                    }
                }
                x += 1;
            }
            proof {
                lemma_painted_extend(old_d, dest@, dw as int,
                    |px: int, py: int| 0 <= px - dest_x < sw && 0 <= py - dest_y && (py - dest_y < y || (py - dest_y == y && px - dest_x < sw)),
                    done_next, color);
            }
        }
        y += 1;
    }
    proof {
        lemma_painted_extend(old_d, dest@, dw as int,
            |px: int, py: int| py - dest_y < sh && 0 <= px - dest_x < sw && 0 <= py - dest_y,
            all_pixels(), color);
    }
}

/// The clipped blit leaves alone every destination pixel outside the clip
/// rectangle or below row `dh`.
pub proof fn lemma_clipped_blit_keeps_outside(
    old: Seq<u8>,
    cur: Seq<u8>,
    src: Seq<u8>,
    sw: int,
    sh: int,
    ox: int,
    oy: int,
    dw: u32,
    dh: u32,
    clip: (i32, i32, i32, i32),
)
    requires
        painted(old, cur, dw as int, all_pixels(),
            |x: int, y: int| clipped_color(src, sw, sh, ox, oy, dw, dh, clip, x, y)),
    ensures
        forall|x: int, y: int, k: int|
            in_canvas(old.len() as int, dw as int, x, y) && 0 <= k < 4
                && !(clip.0 <= x < clip.0 + clip.2 && clip.1 <= y < clip.1 + clip.3 && y < signed_extent(dh))
                ==> #[trigger] cur[byte_at(dw as int, x, y, k)] == old[byte_at(dw as int, x, y, k)],
{
}

/// Clipped to the whole destination, the clipped blit paints exactly what
/// `blit_rgba` paints at the same offset.
pub proof fn lemma_full_clip_is_plain_blit(
    old: Seq<u8>,
    cur: Seq<u8>,
    src: Seq<u8>,
    sw: u32,
    sh: u32,
    dx: u32,
    dy: u32,
    dw: u32,
    dh: u32,
)
    requires
        dw <= i32::MAX,
        dh <= i32::MAX,
        dx <= i32::MAX,
        dy <= i32::MAX,
        painted(old, cur, dw as int, all_pixels(),
            |x: int, y: int| clipped_color(src, sw as int, sh as int, dx as int, dy as int, dw, dh,
                (0i32, 0i32, dw as i32, dh as i32), x, y)),
    ensures
        painted(old, cur, dw as int, all_pixels(),
            |x: int, y: int| blit_color(src, sw as int, sh as int, dx as int, dy as int, dh as int, x, y)),
{
    assert forall|x: int, y: int, k: int|
        in_canvas(old.len() as int, dw as int, x, y) && 0 <= k < 4 implies #[trigger] cur[byte_at(dw as int, x, y, k)]
            == paint_value(old, dw as int, x, y, k, blit_color(src, sw as int, sh as int, dx as int, dy as int, dh as int, x, y)) by {
        assert(clipped_color(src, sw as int, sh as int, dx as int, dy as int, dw, dh, (0i32, 0i32, dw as i32, dh as i32), x, y)
            == blit_color(src, sw as int, sh as int, dx as int, dy as int, dh as int, x, y));
    }
}

} // verus!
