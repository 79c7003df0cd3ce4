//! The reminder card: keying the white paper background out of the card
//! artwork, cropping to the artwork, and composing the feed hint pill.
use vstd::prelude::*;

use crate::canvas::{all_pixels, blit_color, blit_rgba, painted, px_at};
use crate::shapes::{fill_color, fill_round_rect, Shape};

verus! {

/// Index of pixel `(x, y)` in a row-major image `w` pixels wide.
pub open spec fn pixel_index(w: int, x: int, y: int) -> int {
    y * w + x
}

/// Whether `(x, y)` is a pixel of a `w`×`h` image.
pub open spec fn in_image(w: int, h: int, x: int, y: int) -> bool {
    0 <= x < w && 0 <= y < h
}

/// Whether pixel `(x, y)` lies on the outermost ring of a `w`×`h` image.
pub open spec fn on_border(w: int, h: int, x: int, y: int) -> bool {
    x == 0 || y == 0 || x == w - 1 || y == h - 1
}

/// Pixel `(x, y)` of an RGBA image is near-white: each colour channel is at
/// least `thr`.
pub open spec fn near_white(src: Seq<u8>, w: int, x: int, y: int, thr: u8) -> bool {
    let i = px_at(w, x, y);
    src[i] >= thr && src[i + 1] >= thr && src[i + 2] >= thr
}

/// Pixel `(x, y)` is near-white and joined to the image border by a path of
/// at most `n` steps between 4-neighbouring near-white pixels.
pub open spec fn paper_within(src: Seq<u8>, w: int, h: int, thr: u8, n: nat, x: int, y: int) -> bool
    decreases n,
{
    &&& in_image(w, h, x, y)
    &&& near_white(src, w, x, y, thr)
    &&& (on_border(w, h, x, y) || (n > 0 && {
        let m = (n - 1) as nat;
        ||| paper_within(src, w, h, thr, m, x - 1, y)
        ||| paper_within(src, w, h, thr, m, x + 1, y)
        ||| paper_within(src, w, h, thr, m, x, y - 1)
        ||| paper_within(src, w, h, thr, m, x, y + 1)
    }))
}

/// Pixel `(x, y)` is paper background: near-white and connected to the image
/// border through near-white pixels.
pub open spec fn is_paper(src: Seq<u8>, w: int, h: int, thr: u8, x: int, y: int) -> bool {
    exists|n: nat| paper_within(src, w, h, thr, n, x, y)
}

/// The background mask of `remove_bg_flood`: 0 on paper pixels, 255
/// elsewhere, row-major.
pub open spec fn paper_mask(src: Seq<u8>, w: int, h: int, thr: u8) -> Seq<u8> {
    Seq::new((w * h) as nat, |j: int| if is_paper(src, w, h, thr, j % w, j / w) { 0u8 } else { 255u8 })
}

/// Index `j` of a `w`×`h` image belongs to pixel `(j % w, j / w)`.
pub proof fn lemma_index_owner(w: int, h: int, j: int)
    requires
        0 <= j < w * h,
        h >= 0,
    ensures
        w > 0,
        in_image(w, h, j % w, j / w),
        j == pixel_index(w, j % w, j / w),
{
    if w <= 0 {
        assert(w * h <= 0) by (nonlinear_arith)
            requires w <= 0, h >= 0;
    }
    vstd::arithmetic::div_mod::lemma_fundamental_div_mod(j, w);
    vstd::arithmetic::div_mod::lemma_mod_pos_bound(j, w);
    vstd::arithmetic::div_mod::lemma_div_pos_is_pos(j, w);
    let y = j / w;
    let x = j % w;
    assert(y < h) by (nonlinear_arith)
        requires j == w * y + x, x >= 0, j < w * h, w > 0;
    assert(j == y * w + x) by {
        vstd::arithmetic::mul::lemma_mul_is_commutative(w, y);
    }
}

/// Pixels of `v` still `false`.
pub open spec fn count_unset(v: Seq<bool>) -> nat
    decreases v.len(),
{
    if v.len() == 0 {
        0
    } else {
        count_unset(v.drop_last()) + if v.last() { 0nat } else { 1nat }
    }
}

proof fn lemma_count_unset_set(v: Seq<bool>, i: int)
    requires
        0 <= i < v.len(),
        !v[i],
    ensures
        count_unset(v.update(i, true)) + 1 == count_unset(v),
    decreases v.len(),
{
    let u = v.update(i, true);
    if i == v.len() - 1 {
        assert(u.drop_last() =~= v.drop_last());
    } else {
        lemma_count_unset_set(v.drop_last(), i);
        assert(u.drop_last() =~= v.drop_last().update(i, true));
    }
}

proof fn lemma_count_unset_push(v: Seq<bool>)
    ensures
        count_unset(v.push(false)) == count_unset(v) + 1,
{
    assert(v.push(false).drop_last() =~= v);
}

pub proof fn lemma_index_in_image(w: int, h: int, x: int, y: int)
    requires
        in_image(w, h, x, y),
    ensures
        0 <= pixel_index(w, x, y) < w * h,
        px_at(w, x, y) == pixel_index(w, x, y) * 4,
{
    assert(y * w + x < h * w) by (nonlinear_arith)
        requires 0 <= y < h, 0 <= x < w;
    assert(y * w + x >= 0) by (nonlinear_arith)
        requires 0 <= y, 0 <= x, 0 < w;
    assert(h * w == w * h) by (nonlinear_arith);
}

/// Distinct pixels have distinct indices.
pub proof fn lemma_index_injective(w: int, h: int, x1: int, y1: int, x2: int, y2: int)
    requires
        in_image(w, h, x1, y1),
        in_image(w, h, x2, y2),
        pixel_index(w, x1, y1) == pixel_index(w, x2, y2),
    ensures
        x1 == x2 && y1 == y2,
{
    if y1 < y2 {
        assert(y1 * w + w <= y2 * w) by (nonlinear_arith)
            requires y1 < y2, w > 0;
    } else if y2 < y1 {
        assert(y2 * w + w <= y1 * w) by (nonlinear_arith)
            requires y2 < y1, w > 0;
    }
}

fn index_of(w: usize, h: usize, x: usize, y: usize) -> (i: usize)
    requires
        x < w,
        y < h,
        w * h <= usize::MAX,
    ensures
        i == pixel_index(w as int, x as int, y as int),
        i < w * h,
{
    proof {
        lemma_index_in_image(w as int, h as int, x as int, y as int);
    }
    y * w + x
}

/// Whether `(nx, ny)` is one of the four pixels sharing a side with `(x, y)`.
pub open spec fn side_neighbour(x: int, y: int, nx: int, ny: int) -> bool {
    ||| nx == x - 1 && ny == y
    ||| nx == x + 1 && ny == y
    ||| nx == x && ny == y - 1
    ||| nx == x && ny == y + 1
}

/// Every near-white 4-neighbour of `(x, y)` has been reached.
pub open spec fn settled(src: Seq<u8>, w: int, h: int, thr: u8, seen: Seq<bool>, x: int, y: int) -> bool {
    forall|nx: int, ny: int|
        in_image(w, h, nx, ny) && side_neighbour(x, y, nx, ny)
            && near_white(src, w, nx, ny, thr) ==> #[trigger] seen[pixel_index(w, nx, ny)]
}

/// State of the border flood: `seen` marks reached pixels, `queue` lists
/// them in the order they were reached.
pub open spec fn flood_state(src: Seq<u8>, w: int, h: int, thr: u8, seen: Seq<bool>, queue: Seq<(usize, usize)>) -> bool {
    &&& seen.len() == w * h
    &&& forall|k: int| 0 <= k < queue.len() ==> {
        let p = #[trigger] queue[k];
        &&& in_image(w, h, p.0 as int, p.1 as int)
        &&& seen[pixel_index(w, p.0 as int, p.1 as int)]
    }
    &&& forall|x: int, y: int| in_image(w, h, x, y) && #[trigger] seen[pixel_index(w, x, y)] ==> {
        &&& is_paper(src, w, h, thr, x, y)
        &&& exists|k: int| 0 <= k < queue.len() && #[trigger] queue[k] == (x as usize, y as usize)
    }
    &&& queue.len() + count_unset(seen) == w * h
}

/// Whether the stored pixel of `src` at `(x, y)` is near-white.
fn is_near_white(src: &[u8], w: usize, h: usize, x: usize, y: usize, thr: u8) -> (b: bool)
    requires
        x < w,
        y < h,
        w * h * 4 <= src@.len(),
        w * h <= usize::MAX,
    ensures
        b == near_white(src@, w as int, x as int, y as int, thr),
{
    proof {
        lemma_index_in_image(w as int, h as int, x as int, y as int);
    }
    let i = index_of(w, h, x, y);
    let len = src.len();
    assert(i * 4 + 2 < w * h * 4 <= len);
    let i = i * 4;
    src[i] >= thr && src[i + 1] >= thr && src[i + 2] >= thr
}

/// Reach `(x, y)` if it is near-white and not reached yet.
fn reach(
    src: &[u8],
    w: usize,
    h: usize,
    thr: u8,
    seen: &mut Vec<bool>,
    queue: &mut Vec<(usize, usize)>,
    x: usize,
    y: usize,
)
    requires
        x < w,
        y < h,
        w * h * 4 <= src@.len(),
        w * h <= usize::MAX,
        flood_state(src@, w as int, h as int, thr, old(seen)@, old(queue)@),
        near_white(src@, w as int, x as int, y as int, thr) ==> is_paper(src@, w as int, h as int, thr, x as int, y as int),
    ensures
        flood_state(src@, w as int, h as int, thr, final(seen)@, final(queue)@),
        near_white(src@, w as int, x as int, y as int, thr) ==> final(seen)@[pixel_index(w as int, x as int, y as int)],
        forall|j: int| 0 <= j < old(seen)@.len() && old(seen)@[j] ==> final(seen)@[j],
        final(queue)@.len() >= old(queue)@.len(),
        forall|k: int| 0 <= k < old(queue)@.len() ==> final(queue)@[k] == old(queue)@[k],
{
    let ghost wn = w as int;
    let ghost hn = h as int;
    proof {
        lemma_index_in_image(wn, hn, x as int, y as int);
    }
    let i = index_of(w, h, x, y);
    if is_near_white(src, w, h, x, y, thr) && !seen[i] {
        let ghost old_seen = seen@;
        let ghost old_queue = queue@;
        seen.set(i, true);
        queue.push((x, y));
        proof {
            lemma_count_unset_set(old_seen, i as int);
            let q = queue@;
            let s = seen@;
            assert(q[q.len() - 1] == (x, y));
            assert forall|k: int| 0 <= k < q.len() implies {
                let p = #[trigger] q[k];
                &&& in_image(wn, hn, p.0 as int, p.1 as int)
                &&& s[pixel_index(wn, p.0 as int, p.1 as int)]
            } by {
                if k < old_queue.len() {
                    assert(q[k] == old_queue[k]);
                    let p = old_queue[k];
                    lemma_index_in_image(wn, hn, p.0 as int, p.1 as int);
                    assert(old_seen[pixel_index(wn, p.0 as int, p.1 as int)]);
                } else {
                    assert(q[k] == (x, y));
                    assert(s[i as int]);
                }
            }
            assert forall|px: int, py: int| in_image(wn, hn, px, py) && #[trigger] s[pixel_index(wn, px, py)] implies {
                &&& is_paper(src@, wn, hn, thr, px, py)
                &&& exists|k: int| 0 <= k < q.len() && #[trigger] q[k] == (px as usize, py as usize)
            } by {
                lemma_index_in_image(wn, hn, px, py);
                if pixel_index(wn, px, py) == i as int {
                    lemma_index_injective(wn, hn, px, py, x as int, y as int);
                    assert(q[q.len() - 1] == (px as usize, py as usize));
                } else {
                    assert(old_seen[pixel_index(wn, px, py)]);
                    let k = choose|k: int| 0 <= k < old_queue.len() && #[trigger] old_queue[k] == (px as usize, py as usize);
                    assert(q[k] == old_queue[k]);
                }
            }
        }
    }
}


/// A near-white border pixel is paper.
proof fn lemma_border_paper(src: Seq<u8>, w: int, h: int, thr: u8, x: int, y: int)
    requires
        in_image(w, h, x, y),
        on_border(w, h, x, y),
    ensures
        near_white(src, w, x, y, thr) ==> is_paper(src, w, h, thr, x, y),
{
    if near_white(src, w, x, y, thr) {
        assert(paper_within(src, w, h, thr, 0, x, y));
    }
}

/// A near-white 4-neighbour of a paper pixel is paper.
proof fn lemma_paper_spreads(src: Seq<u8>, w: int, h: int, thr: u8, x: int, y: int, nx: int, ny: int)
    requires
        is_paper(src, w, h, thr, x, y),
        in_image(w, h, nx, ny),
        side_neighbour(x, y, nx, ny),
    ensures
        near_white(src, w, nx, ny, thr) ==> is_paper(src, w, h, thr, nx, ny),
{
    if near_white(src, w, nx, ny, thr) {
        let n = choose|n: nat| paper_within(src, w, h, thr, n, x, y);
        assert(paper_within(src, w, h, thr, n + 1, nx, ny));
    }
}

/// Every near-white border pixel has been reached.
pub open spec fn border_reached(src: Seq<u8>, w: int, h: int, thr: u8, seen: Seq<bool>) -> bool {
    forall|x: int, y: int|
        in_image(w, h, x, y) && on_border(w, h, x, y) && near_white(src, w, x, y, thr) ==> #[trigger] seen[pixel_index(w, x, y)]
}

/// Once the border is reached and every reached pixel is settled, every
/// paper pixel has been reached.
proof fn lemma_flood_complete(src: Seq<u8>, w: int, h: int, thr: u8, seen: Seq<bool>, n: nat, x: int, y: int)
    requires
        border_reached(src, w, h, thr, seen),
        forall|px: int, py: int| in_image(w, h, px, py) && #[trigger] seen[pixel_index(w, px, py)]
            ==> settled(src, w, h, thr, seen, px, py),
        paper_within(src, w, h, thr, n, x, y),
    ensures
        seen[pixel_index(w, x, y)],
    decreases n,
{
    if !on_border(w, h, x, y) {
        let m = (n - 1) as nat;
        if paper_within(src, w, h, thr, m, x - 1, y) {
            lemma_flood_complete(src, w, h, thr, seen, m, x - 1, y);
            assert(settled(src, w, h, thr, seen, x - 1, y));
        } else if paper_within(src, w, h, thr, m, x + 1, y) {
            lemma_flood_complete(src, w, h, thr, seen, m, x + 1, y);
            assert(settled(src, w, h, thr, seen, x + 1, y));
        } else if paper_within(src, w, h, thr, m, x, y - 1) {
            lemma_flood_complete(src, w, h, thr, seen, m, x, y - 1);
            assert(settled(src, w, h, thr, seen, x, y - 1));
        } else {
            lemma_flood_complete(src, w, h, thr, seen, m, x, y + 1);
            assert(settled(src, w, h, thr, seen, x, y + 1));
        }
    }
}

/// Key the paper background out of an RGBA image: flood from the image
/// border over near-white pixels (each colour channel at least `thr`).
/// Returns a `w`×`h` alpha mask, 0 on the flooded background and 255
/// elsewhere.
pub fn remove_bg_flood(src: &[u8], w: u32, h: u32, thr: u8) -> (mask: Vec<u8>)
    requires
        w * h * 4 <= src@.len(),
        (w == 0) == (h == 0),
    ensures
        mask@ == paper_mask(src@, w as int, h as int, thr),
        forall|x: int, y: int| in_image(w as int, h as int, x, y) ==>
            #[trigger] mask@[pixel_index(w as int, x, y)]
                == if is_paper(src@, w as int, h as int, thr, x, y) { 0u8 } else { 255u8 },
{
    let wu = w as usize;
    let hu = h as usize;
    let ghost wn = w as int;
    let ghost hn = h as int;
    let len = src.len();
    assert(wn * hn <= wn * hn * 4) by (nonlinear_arith)
        requires wn >= 0, hn >= 0;
    let n = wu * hu;
    let mut seen: Vec<bool> = Vec::new();
    while seen.len() < n
        invariant
            seen@.len() <= n,
            n == wn * hn,
            forall|j: int| 0 <= j < seen@.len() ==> !#[trigger] seen@[j],
            count_unset(seen@) == seen@.len(),
        decreases n - seen@.len(),
    {
        proof {
            lemma_count_unset_push(seen@);
        }
        seen.push(false);
    }
    let mut queue: Vec<(usize, usize)> = Vec::new();
    proof {
        assert forall|x: int, y: int| in_image(wn, hn, x, y) implies !#[trigger] seen@[pixel_index(wn, x, y)] by {
            lemma_index_in_image(wn, hn, x, y);
        }
    }
    assert(flood_state(src@, wn, hn, thr, seen@, queue@));
    if wu > 0 {
        let mut x: usize = 0;
        while x < wu
            invariant
                0 <= x <= wu,
                wu == wn,
                hu == hn,
                hn > 0,
                wn * hn * 4 <= src@.len(),
                wn * hn <= usize::MAX,
                flood_state(src@, wn, hn, thr, seen@, queue@),
                forall|bx: int| 0 <= bx < x && near_white(src@, wn, bx, 0, thr) ==> #[trigger] seen@[pixel_index(wn, bx, 0)],
                forall|bx: int| 0 <= bx < x && near_white(src@, wn, bx, hn - 1, thr) ==> #[trigger] seen@[pixel_index(wn, bx, hn - 1)],
            decreases wu - x,
        {
            proof {
                lemma_border_paper(src@, wn, hn, thr, x as int, 0);
                lemma_border_paper(src@, wn, hn, thr, x as int, hn - 1);
            }
            let ghost s0 = seen@;
            reach(src, wu, hu, thr, &mut seen, &mut queue, x, 0);
            let ghost s1 = seen@;
            reach(src, wu, hu, thr, &mut seen, &mut queue, x, hu - 1);
            proof {
                let s2 = seen@;
                assert forall|bx: int| 0 <= bx <= x && near_white(src@, wn, bx, 0, thr)
                    implies #[trigger] s2[pixel_index(wn, bx, 0)] by {
                    lemma_index_in_image(wn, hn, bx, 0);
                    if bx < x {
                        assert(s0[pixel_index(wn, bx, 0)]);
                    }
                    assert(s1[pixel_index(wn, bx, 0)]);
                }
                assert forall|bx: int| 0 <= bx <= x && near_white(src@, wn, bx, hn - 1, thr)
                    implies #[trigger] s2[pixel_index(wn, bx, hn - 1)] by {
                    lemma_index_in_image(wn, hn, bx, hn - 1);
                    if bx < x {
                        assert(s0[pixel_index(wn, bx, hn - 1)]);
                        assert(s1[pixel_index(wn, bx, hn - 1)]);
                    }
                }
            }
            x += 1;
        }
        let mut y: usize = 0;
        while y < hu
            invariant
                0 <= y <= hu,
                wu == wn,
                hu == hn,
                wn > 0,
                hn > 0,
                wn * hn * 4 <= src@.len(),
                wn * hn <= usize::MAX,
                flood_state(src@, wn, hn, thr, seen@, queue@),
                forall|bx: int| 0 <= bx < wn && near_white(src@, wn, bx, 0, thr) ==> #[trigger] seen@[pixel_index(wn, bx, 0)],
                forall|bx: int| 0 <= bx < wn && near_white(src@, wn, bx, hn - 1, thr) ==> #[trigger] seen@[pixel_index(wn, bx, hn - 1)],
                forall|by: int| 0 <= by < y && near_white(src@, wn, 0, by, thr) ==> #[trigger] seen@[pixel_index(wn, 0, by)],
                forall|by: int| 0 <= by < y && near_white(src@, wn, wn - 1, by, thr) ==> #[trigger] seen@[pixel_index(wn, wn - 1, by)],
            decreases hu - y,
        {
            proof {
                lemma_border_paper(src@, wn, hn, thr, 0, y as int);
                lemma_border_paper(src@, wn, hn, thr, wn - 1, y as int);
            }
            let ghost s0 = seen@;
            reach(src, wu, hu, thr, &mut seen, &mut queue, 0, y);
            let ghost s1 = seen@;
            reach(src, wu, hu, thr, &mut seen, &mut queue, wu - 1, y);
            proof {
                let s2 = seen@;
                assert forall|j: int| 0 <= j < s0.len() && s0[j] implies #[trigger] s2[j] by {
                    assert(s1[j]);
                }
                assert forall|bx: int| 0 <= bx < wn && near_white(src@, wn, bx, 0, thr)
                    implies #[trigger] s2[pixel_index(wn, bx, 0)] by {
                    lemma_index_in_image(wn, hn, bx, 0);
                    assert(s0[pixel_index(wn, bx, 0)]);
                }
                assert forall|bx: int| 0 <= bx < wn && near_white(src@, wn, bx, hn - 1, thr)
                    implies #[trigger] s2[pixel_index(wn, bx, hn - 1)] by {
                    lemma_index_in_image(wn, hn, bx, hn - 1);
                    assert(s0[pixel_index(wn, bx, hn - 1)]);
                }
                assert forall|by: int| 0 <= by <= y && near_white(src@, wn, 0, by, thr)
                    implies #[trigger] s2[pixel_index(wn, 0, by)] by {
                    lemma_index_in_image(wn, hn, 0, by);
                    if by < y {
                        assert(s0[pixel_index(wn, 0, by)]);
                    }
                    assert(s1[pixel_index(wn, 0, by)]);
                }
                assert forall|by: int| 0 <= by <= y && near_white(src@, wn, wn - 1, by, thr)
                    implies #[trigger] s2[pixel_index(wn, wn - 1, by)] by {
                    lemma_index_in_image(wn, hn, wn - 1, by);
                    if by < y {
                        assert(s0[pixel_index(wn, wn - 1, by)]);
                        assert(s1[pixel_index(wn, wn - 1, by)]);
                    }
                }
            }
            y += 1;
        }
    }
    assert(border_reached(src@, wn, hn, thr, seen@));
    let mut head: usize = 0;
    while head < queue.len()
        invariant
            head <= queue@.len(),
            wu == wn,
            hu == hn,
            n == wn * hn,
            wn * hn * 4 <= src@.len(),
            wn * hn <= usize::MAX,
            flood_state(src@, wn, hn, thr, seen@, queue@),
            border_reached(src@, wn, hn, thr, seen@),
            forall|k: int| 0 <= k < head ==> {
                let p = #[trigger] queue@[k];
                settled(src@, wn, hn, thr, seen@, p.0 as int, p.1 as int)
            },
        decreases n - head,
    {
        let (x, y) = queue[head];
        let ghost xi = x as int;
        let ghost yi = y as int;
        let ghost s0 = seen@;
        let ghost q0 = queue@;
        proof {
            assert(queue@[head as int] == (x, y));
            lemma_index_in_image(wn, hn, xi, yi);
        }
        if x + 1 < wu {
            proof { lemma_paper_spreads(src@, wn, hn, thr, xi, yi, xi + 1, yi); }
            reach(src, wu, hu, thr, &mut seen, &mut queue, x + 1, y);
        }
        let ghost s1 = seen@;
        let ghost q1 = queue@;
        if x > 0 {
            proof { lemma_paper_spreads(src@, wn, hn, thr, xi, yi, xi - 1, yi); }
            reach(src, wu, hu, thr, &mut seen, &mut queue, x - 1, y);
        }
        let ghost s2 = seen@;
        let ghost q2 = queue@;
        if y + 1 < hu {
            proof { lemma_paper_spreads(src@, wn, hn, thr, xi, yi, xi, yi + 1); }
            reach(src, wu, hu, thr, &mut seen, &mut queue, x, y + 1);
        }
        let ghost s3 = seen@;
        let ghost q3 = queue@;
        if y > 0 {
            proof { lemma_paper_spreads(src@, wn, hn, thr, xi, yi, xi, yi - 1); }
            reach(src, wu, hu, thr, &mut seen, &mut queue, x, y - 1);
        }
        proof {
            let s4 = seen@;
            let q4 = queue@;
            assert forall|j: int| 0 <= j < s0.len() && s0[j] implies #[trigger] s4[j] by {
                assert(s1[j]);
                assert(s2[j]);
                assert(s3[j]);
            }
            assert forall|k: int| 0 <= k < q0.len() implies #[trigger] q4[k] == q0[k] by {
                assert(q1[k] == q0[k]);
                assert(q2[k] == q0[k]);
                assert(q3[k] == q0[k]);
            }
            assert forall|k: int| 0 <= k < head + 1 implies {
                let p = #[trigger] q4[k];
                settled(src@, wn, hn, thr, s4, p.0 as int, p.1 as int)
            } by {
                let p = q4[k];
                assert(p == q0[k]);
                assert forall|nx: int, ny: int|
                    in_image(wn, hn, nx, ny) && side_neighbour(p.0 as int, p.1 as int, nx, ny)
                        && near_white(src@, wn, nx, ny, thr) implies #[trigger] s4[pixel_index(wn, nx, ny)] by {
                    lemma_index_in_image(wn, hn, nx, ny);
                    if k < head {
                        assert(settled(src@, wn, hn, thr, s0, p.0 as int, p.1 as int));
                        assert(s0[pixel_index(wn, nx, ny)]);
                    } else {
                        assert(p == (x, y));
                        if nx == xi + 1 {
                            assert(s1[pixel_index(wn, nx, ny)]);
                            assert(s2[pixel_index(wn, nx, ny)]);
                            assert(s3[pixel_index(wn, nx, ny)]);
                        } else if nx == xi - 1 {
                            assert(s2[pixel_index(wn, nx, ny)]);
                            assert(s3[pixel_index(wn, nx, ny)]);
                        } else if ny == yi + 1 {
                            assert(s3[pixel_index(wn, nx, ny)]);
                        }
                    }
                }
            }
            assert forall|bx: int, by: int|
                in_image(wn, hn, bx, by) && on_border(wn, hn, bx, by) && near_white(src@, wn, bx, by, thr)
                    implies #[trigger] s4[pixel_index(wn, bx, by)] by {
                lemma_index_in_image(wn, hn, bx, by);
                assert(s0[pixel_index(wn, bx, by)]);
            }
        }
        head += 1;
    }
    proof {
        let s = seen@;
        let q = queue@;
        assert forall|px: int, py: int| in_image(wn, hn, px, py) && #[trigger] s[pixel_index(wn, px, py)]
            implies settled(src@, wn, hn, thr, s, px, py) by {
            let k = choose|k: int| 0 <= k < q.len() && #[trigger] q[k] == (px as usize, py as usize);
            assert(q[k] == (px as usize, py as usize));
        }
    }
    let mut mask: Vec<u8> = Vec::new();
    let mut i: usize = 0;
    while i < n
        invariant
            i <= n,
            n == wn * hn,
            seen@.len() == n,
            mask@.len() == i,
            forall|j: int| 0 <= j < i ==> #[trigger] mask@[j] == if seen@[j] { 0u8 } else { 255u8 },
        decreases n - i,
    {
        mask.push(if seen[i] { 0u8 } else { 255u8 });
        i += 1;
    }
    proof {
        let s = seen@;
        assert forall|x: int, y: int| in_image(wn, hn, x, y) implies
            #[trigger] mask@[pixel_index(wn, x, y)] == if is_paper(src@, wn, hn, thr, x, y) { 0u8 } else { 255u8 } by {
            lemma_index_in_image(wn, hn, x, y);
            if is_paper(src@, wn, hn, thr, x, y) {
                let m = choose|m: nat| paper_within(src@, wn, hn, thr, m, x, y);
                lemma_flood_complete(src@, wn, hn, thr, s, m, x, y);
            }
        }
        let pm = paper_mask(src@, wn, hn, thr);
        assert forall|j: int| 0 <= j < pm.len() implies #[trigger] mask@[j] == pm[j] by {
            lemma_index_owner(wn, hn, j);
            assert(mask@[pixel_index(wn, j % wn, j / wn)] == pm[j]);
        }
        assert(mask@ =~= pm);
    }
    mask
}


/// Pixel `(x, y)` of a `w`×`h` alpha mask is part of the artwork.
pub open spec fn is_ink(mask: Seq<u8>, w: int, h: int, x: int, y: int) -> bool {
    in_image(w, h, x, y) && mask[pixel_index(w, x, y)] != 0
}

pub open spec fn has_ink(mask: Seq<u8>, w: int, h: int) -> bool {
    exists|x: int, y: int| #[trigger] is_ink(mask, w, h, x, y)
}

/// `e` is (least column, least row, greatest column, greatest row) of the
/// artwork pixels.
pub open spec fn is_ink_extent(mask: Seq<u8>, w: int, h: int, e: (int, int, int, int)) -> bool {
    &&& forall|x: int, y: int| #[trigger] is_ink(mask, w, h, x, y) ==> e.0 <= x <= e.2 && e.1 <= y <= e.3
    &&& exists|x: int, y: int| #[trigger] is_ink(mask, w, h, x, y) && x == e.0
    &&& exists|x: int, y: int| #[trigger] is_ink(mask, w, h, x, y) && y == e.1
    &&& exists|x: int, y: int| #[trigger] is_ink(mask, w, h, x, y) && x == e.2
    &&& exists|x: int, y: int| #[trigger] is_ink(mask, w, h, x, y) && y == e.3
}

/// The artwork's extent, or `(w, h, 0, 0)` when the mask holds no artwork.
pub open spec fn ink_extent(mask: Seq<u8>, w: int, h: int) -> (int, int, int, int) {
    if has_ink(mask, w, h) {
        choose|e: (int, int, int, int)| is_ink_extent(mask, w, h, e)
    } else {
        (w, h, 0, 0)
    }
}

/// The crop `(x, y, width, height)` around extent `e`, grown by `pad` on
/// every side and kept inside the image; all zero when the extent spans no
/// more than one column or one row.
pub open spec fn padded_crop(e: (int, int, int, int), w: int, h: int, pad: int) -> (u32, u32, u32, u32) {
    if e.2 <= e.0 || e.3 <= e.1 {
        (0, 0, 0, 0)
    } else {
        let x0 = if e.0 >= pad { e.0 - pad } else { 0 };
        let y0 = if e.1 >= pad { e.1 - pad } else { 0 };
        let x1 = if e.2 + pad <= w - 1 { e.2 + pad } else { w - 1 };
        let y1 = if e.3 + pad <= h - 1 { e.3 + pad } else { h - 1 };
        (x0 as u32, y0 as u32, (x1 - x0 + 1) as u32, (y1 - y0 + 1) as u32)
    }
}

proof fn lemma_ink_extent_unique(mask: Seq<u8>, w: int, h: int, e: (int, int, int, int))
    requires
        is_ink_extent(mask, w, h, e),
    ensures
        has_ink(mask, w, h),
        ink_extent(mask, w, h) == e,
{
    let (ax, ay) = choose|x: int, y: int| #[trigger] is_ink(mask, w, h, x, y) && x == e.0;
    assert(is_ink(mask, w, h, ax, ay));
    let f = ink_extent(mask, w, h);
    assert(is_ink_extent(mask, w, h, f));
    let (bx, by) = choose|x: int, y: int| #[trigger] is_ink(mask, w, h, x, y) && x == f.0;
    let (cx, cy) = choose|x: int, y: int| #[trigger] is_ink(mask, w, h, x, y) && y == e.1;
    let (dx, dy) = choose|x: int, y: int| #[trigger] is_ink(mask, w, h, x, y) && y == f.1;
    let (gx, gy) = choose|x: int, y: int| #[trigger] is_ink(mask, w, h, x, y) && x == e.2;
    let (hx, hy) = choose|x: int, y: int| #[trigger] is_ink(mask, w, h, x, y) && x == f.2;
    let (ix, iy) = choose|x: int, y: int| #[trigger] is_ink(mask, w, h, x, y) && y == e.3;
    let (jx, jy) = choose|x: int, y: int| #[trigger] is_ink(mask, w, h, x, y) && y == f.3;
    assert(is_ink(mask, w, h, bx, by));
    assert(is_ink(mask, w, h, cx, cy));
    assert(is_ink(mask, w, h, dx, dy));
    assert(is_ink(mask, w, h, gx, gy));
    assert(is_ink(mask, w, h, hx, hy));
    assert(is_ink(mask, w, h, ix, iy));
    assert(is_ink(mask, w, h, jx, jy));
}

/// Pixel `(px, py)` comes before `(x, y)` in row-major order.
pub open spec fn scanned(x: int, y: int, px: int, py: int) -> bool {
    py < y || (py == y && px < x)
}

/// Extent `(least column, least row, greatest column, greatest row)` of the
/// non-zero bytes of a `w`×`h` mask, or `(w, h, 0, 0)` when there are none.
pub fn ink_bounds(mask: &[u8], w: u32, h: u32) -> (r: (u32, u32, u32, u32))
    requires
        w * h <= mask@.len(),
        w * h <= u32::MAX,
    ensures
        (r.0 as int, r.1 as int, r.2 as int, r.3 as int) == ink_extent(mask@, w as int, h as int),
        has_ink(mask@, w as int, h as int) ==> r.0 <= r.2 < w && r.1 <= r.3 < h,
        forall|x: int, y: int| #[trigger] is_ink(mask@, w as int, h as int, x, y) ==> r.0 <= x <= r.2 && r.1 <= y <= r.3,
{
    let ghost wn = w as int;
    let ghost hn = h as int;
    let (mut x0, mut y0, mut x1, mut y1) = (w, h, 0u32, 0u32);
    let ghost mut found = false;
    let ghost mut wit: ((int, int), (int, int), (int, int), (int, int)) = ((0, 0), (0, 0), (0, 0), (0, 0));
    let mut y: u32 = 0;
    while y < h
        invariant
            y <= h,
            wn == w,
            hn == h,
            w * h <= mask@.len(),
            w * h <= u32::MAX,
            !found ==> x0 == w && y0 == h && x1 == 0 && y1 == 0,
            !found ==> forall|px: int, py: int| scanned(0, y as int, px, py) ==> !#[trigger] is_ink(mask@, wn, hn, px, py),
            found ==> forall|px: int, py: int| scanned(0, y as int, px, py) && #[trigger] is_ink(mask@, wn, hn, px, py)
                ==> x0 <= px <= x1 && y0 <= py <= y1,
            found ==> is_ink(mask@, wn, hn, wit.0.0, wit.0.1) && wit.0.0 == x0,
            found ==> is_ink(mask@, wn, hn, wit.1.0, wit.1.1) && wit.1.1 == y0,
            found ==> is_ink(mask@, wn, hn, wit.2.0, wit.2.1) && wit.2.0 == x1,
            found ==> is_ink(mask@, wn, hn, wit.3.0, wit.3.1) && wit.3.1 == y1,
        decreases h - y,
    {
        assert(y * w + w <= w * h) by (nonlinear_arith)
            requires y < h, w >= 0;
        let row = y * w;
        let mut x: u32 = 0;
        while x < w
            invariant
                x <= w,
                y < h,
                row == y * w,
                row + w <= w * h,
                wn == w,
                hn == h,
                w * h <= mask@.len(),
                w * h <= u32::MAX,
                !found ==> x0 == w && y0 == h && x1 == 0 && y1 == 0,
                !found ==> forall|px: int, py: int| scanned(x as int, y as int, px, py) ==> !#[trigger] is_ink(mask@, wn, hn, px, py),
                found ==> forall|px: int, py: int| scanned(x as int, y as int, px, py) && #[trigger] is_ink(mask@, wn, hn, px, py)
                    ==> x0 <= px <= x1 && y0 <= py <= y1,
                found ==> is_ink(mask@, wn, hn, wit.0.0, wit.0.1) && wit.0.0 == x0,
                found ==> is_ink(mask@, wn, hn, wit.1.0, wit.1.1) && wit.1.1 == y0,
                found ==> is_ink(mask@, wn, hn, wit.2.0, wit.2.1) && wit.2.0 == x1,
                found ==> is_ink(mask@, wn, hn, wit.3.0, wit.3.1) && wit.3.1 == y1,
            decreases w - x,
        {
            let i = (row + x) as usize;
            if mask[i] != 0 {
                let ghost p = (x as int, y as int);
                assert(is_ink(mask@, wn, hn, p.0, p.1));
                proof {
                    if !found {
                        wit = (p, p, p, p);
                    }
                }
                if x < x0 {
                    x0 = x;
                    proof { wit.0 = p; }
                }
                if y < y0 {
                    y0 = y;
                    proof { wit.1 = p; }
                }
                if x > x1 {
                    x1 = x;
                    proof { wit.2 = p; }
                }
                if y > y1 {
                    y1 = y;
                    proof { wit.3 = p; }
                }
                proof { found = true; }
            }
            x += 1;
        }
        y += 1;
    }
    proof {
        if found {
            let e = (x0 as int, y0 as int, x1 as int, y1 as int);
            assert forall|px: int, py: int| #[trigger] is_ink(mask@, wn, hn, px, py) implies e.0 <= px <= e.2 && e.1 <= py <= e.3 by {
                assert(scanned(0, hn, px, py));
            }
            assert(is_ink(mask@, wn, hn, wit.0.0, wit.0.1));
            assert(is_ink(mask@, wn, hn, wit.1.0, wit.1.1));
            assert(is_ink(mask@, wn, hn, wit.2.0, wit.2.1));
            assert(is_ink(mask@, wn, hn, wit.3.0, wit.3.1));
            lemma_ink_extent_unique(mask@, wn, hn, e);
        } else {
            assert forall|px: int, py: int| !#[trigger] is_ink(mask@, wn, hn, px, py) by {
                if is_ink(mask@, wn, hn, px, py) {
                    assert(scanned(0, hn, px, py));
                }
            }
        }
    }
    (x0, y0, x1, y1)
}

/// Bounding box `(x, y, width, height)` of the artwork pixels (non-zero
/// mask bytes), padded by `pad` and kept inside the image.
pub fn artwork_bbox(mask: &[u8], w: u32, h: u32, pad: u32) -> (r: (u32, u32, u32, u32))
    requires
        w * h <= mask@.len(),
        w * h <= u32::MAX,
        w + pad <= u32::MAX + 1,
        h + pad <= u32::MAX + 1,
    ensures
        r == padded_crop(ink_extent(mask@, w as int, h as int), w as int, h as int, pad as int),
        (r.2 == 0) == (r.3 == 0),
        r.2 > 0 ==> r.0 + r.2 <= w && r.1 + r.3 <= h,
        r.2 > 0 ==> forall|x: int, y: int| #[trigger] is_ink(mask@, w as int, h as int, x, y)
            ==> r.0 <= x < r.0 + r.2 && r.1 <= y < r.1 + r.3,
{
    let (x0, y0, x1, y1) = ink_bounds(mask, w, h);
    if x1 <= x0 || y1 <= y0 {
        return (0, 0, 0, 0);
    }
    let x0 = if x0 >= pad { x0 - pad } else { 0 };
    let y0 = if y0 >= pad { y0 - pad } else { 0 };
    let x1 = if x1 + pad <= w - 1 { x1 + pad } else { w - 1 };
    let y1 = if y1 + pad <= h - 1 { y1 + pad } else { h - 1 };
    (x0, y0, x1 - x0 + 1, y1 - y0 + 1)
}


/// A reminder card bitmap, already sized to the reminder window.
pub struct ReminderCard {
    pub w: u32,
    pub h: u32,
    pub rgba: Vec<u8>,
}

/// Fill of the feed hint pill: warm cream.
pub const HINT_BG: [u8; 4] = [0xFF, 0xF3, 0xE4, 0xCE];
/// Ink of the feed hint text: brown.
pub const HINT_TEXT: [u8; 4] = [0x45, 0x40, 0x36, 0xFF];
/// Horizontal padding between the hint text and the pill's ends.
pub const HINT_PAD_X: u32 = 14;
/// Vertical padding between the hint text and the pill's edges.
pub const HINT_PAD_Y: u32 = 6;
/// Gap kept between the pill and the bottom of the card.
pub const HINT_BOTTOM_GAP: u32 = 12;
/// Room kept free beside the hint text when it is rasterized.
pub const HINT_SIDE_MARGIN: u32 = 40;

/// The feed hint under the card: an invitation to feed, or the thanks once
/// feeding has started.
pub fn feed_hint_text(feeding: bool) -> (t: &'static str)
    ensures
        t@ == (if feeding { "呼～活力恢复了！"@ } else { "点击投喂"@ }),
{
    if feeding { "呼～活力恢复了！" } else { "点击投喂" }
}

/// Where the hint pill of a `tw`×`th` text goes on a `w`×`h` card:
/// `(x, y, width, height)`, centred horizontally (against the left edge when
/// wider than the card) and `HINT_BOTTOM_GAP` above the bottom edge
/// (against the top edge when taller).
pub open spec fn hint_pill(w: int, h: int, tw: int, th: int) -> (int, int, int, int) {
    let pw = tw + 2 * HINT_PAD_X;
    let ph = th + 2 * HINT_PAD_Y;
    let x = if w >= pw { (w - pw) / 2 } else { 0 };
    let y = if h >= ph + HINT_BOTTOM_GAP { h - ph - HINT_BOTTOM_GAP } else { 0 };
    (x, y, pw, ph)
}

/// The card frame with the hint pill: `mid` is the card with the pill's
/// rounded rectangle filled, `out` is `mid` with the text raster blitted
/// into the pill.
pub open spec fn hint_painted(card: Seq<u8>, w: u32, h: u32, tw: u32, th: u32, text: Seq<u8>, mid: Seq<u8>, out: Seq<u8>) -> bool {
    let (x, y, pw, ph) = hint_pill(w as int, h as int, tw as int, th as int);
    let x1 = x + pw;
    let y1 = if y + ph <= h { y + ph } else { h as int };
    let shape = Shape::RoundRect { x0: x as i64, y0: y as i64, x1: x1 as i64, y1: y1 as i64, r: (ph / 2) as i64 };
    &&& painted(card, mid, w as int, all_pixels(), |qx: int, qy: int| fill_color(shape, x, y, x1, y1, HINT_BG, qx, qy))
    &&& painted(mid, out, w as int, all_pixels(),
        |qx: int, qy: int| blit_color(text, tw as int, th as int, x + HINT_PAD_X, y + HINT_PAD_Y, h as int, qx, qy))
}

/// The reminder frame: the card bitmap with the feed hint under it.
/// `label` is the hint text rasterized (width, height, RGBA), or `None` when
/// it could not be rasterized, which leaves the card as it is.
pub fn compose_reminder_card_frame(card: &ReminderCard, label: Option<(u32, u32, Vec<u8>)>) -> (r: (u32, u32, Vec<u8>))
    requires
        card.rgba@.len() <= u32::MAX,
        card.w <= i32::MAX,
        card.h <= i32::MAX,
        label matches Some((tw, th, t)) ==> {
            &&& tw + 2 * HINT_PAD_X <= i32::MAX
            &&& th + 2 * HINT_PAD_Y <= i32::MAX
            &&& tw * th * 4 <= u32::MAX
        },
    ensures
        r.0 == card.w,
        r.1 == card.h,
        label is None ==> r.2@ == card.rgba@,
        label matches Some((tw, th, t)) ==> exists|mid: Seq<u8>| hint_painted(card.rgba@, card.w, card.h, tw, th, t@, mid, r.2@),
{
    let mut out = card.rgba.clone();
    proof {
        assert(out@ == card.rgba@);
    }
    let w = card.w;
    let h = card.h;
    match &label {
        None => {
            let r = (w, h, out);
            assert(r.2@ == card.rgba@);
            r
        },
        Some((tw, th, trgba)) => {
            let tw = *tw;
            let th = *th;
            let pw = tw + HINT_PAD_X * 2;
            let ph = th + HINT_PAD_Y * 2;
            let x: u32 = if w >= pw { (w - pw) / 2 } else { 0 };
            let y: u32 = if h >= ph + HINT_BOTTOM_GAP { h - ph - HINT_BOTTOM_GAP } else { 0 };
            let ghost before = out@;
            fill_round_rect(&mut out, w, h, x, y, pw, ph, (ph / 2) as i32, HINT_BG);
            let ghost mid = out@;
            blit_rgba(&mut out, w, h, trgba, tw, th, x + HINT_PAD_X, y + HINT_PAD_Y);
            let r = (w, h, out);
            proof {
                assert(hint_painted(card.rgba@, w, h, tw, th, trgba@, mid, r.2@));
                assert(exists|m: Seq<u8>| hint_painted(card.rgba@, card.w, card.h, tw, th, trgba@, m, r.2@));
            }
            r
        },
    }
}

} // verus!
