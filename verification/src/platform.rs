//! Screen geometry: rectangles, monitor work areas, keeping the pet window
//! on screen, the launcher's click bounds and edge detection.
use vstd::prelude::*;

use crate::state::Edge;

verus! {

/// Axis-aligned rectangle in screen coordinates (physical pixels).
#[derive(Debug, Clone, Copy, PartialEq, Eq, Structural)]
pub struct Rect {
    pub x: i32,
    pub y: i32,
    pub width: i32,
    pub height: i32,
}

/// Monitor / work-area description.
#[derive(Debug, Clone)]
pub struct MonitorInfo {
    pub name: String,
    pub bounds: Rect,
    pub work_area: Rect,
    pub is_primary: bool,
}

pub open spec fn fits_i32(v: int) -> bool {
    i32::MIN <= v <= i32::MAX
}

/// Integer division by two rounded toward zero, as Rust's `/` does.
pub open spec fn half_toward_zero(v: int) -> int {
    if v >= 0 { v / 2 } else { -((-v) / 2) }
}

/// Whether the point lies inside the rectangle (right and bottom edges
/// excluded).
pub open spec fn rect_contains(r: Rect, x: int, y: int) -> bool {
    x >= r.x && y >= r.y && x < r.x + r.width && y < r.y + r.height
}

impl Rect {
    pub fn contains(&self, x: i32, y: i32) -> (r: bool)
        requires
            x >= self.x && y >= self.y ==> fits_i32(self.x + self.width),
            x >= self.x && y >= self.y && x < self.x + self.width ==> fits_i32(self.y + self.height),
        ensures
            r == rect_contains(*self, x as int, y as int),
    {
        x >= self.x && y >= self.y && x < self.x + self.width && y < self.y + self.height
    }

    pub fn center(&self) -> (r: (i32, i32))
        requires
            fits_i32(self.x + half_toward_zero(self.width as int)),
            fits_i32(self.y + half_toward_zero(self.height as int)),
        ensures
            r.0 == self.x + half_toward_zero(self.width as int),
            r.1 == self.y + half_toward_zero(self.height as int),
    {
        (self.x + self.width / 2, self.y + self.height / 2)
    }
}

/// A rectangle from its left, top, right and bottom edges.
pub fn rect_from_win(left: i32, top: i32, right: i32, bottom: i32) -> (r: Rect)
    requires
        fits_i32(right - left),
        fits_i32(bottom - top),
    ensures
        r == (Rect { x: left, y: top, width: (right - left) as i32, height: (bottom - top) as i32 }),
{
    Rect { x: left, y: top, width: right - left, height: bottom - top }
}

pub open spec fn clamp_int(v: int, lo: int, hi: int) -> int {
    if v < lo { lo } else if v > hi { hi } else { v }
}

pub open spec fn min_int(a: int, b: int) -> int {
    if a <= b { a } else { b }
}

pub open spec fn max_int(a: int, b: int) -> int {
    if a >= b { a } else { b }
}

fn min_i32(a: i32, b: i32) -> (r: i32)
    ensures
        r == min_int(a as int, b as int),
{
    if a <= b { a } else { b }
}

fn max_i32(a: i32, b: i32) -> (r: i32)
    ensures
        r == max_int(a as int, b as int),
{
    if a >= b { a } else { b }
}

/// `v.clamp(lo, hi)` for `lo <= hi` (std panics otherwise).
fn clamp_i32(v: i32, lo: i32, hi: i32) -> (r: i32)
    requires
        lo <= hi,
    ensures
        r == clamp_int(v as int, lo as int, hi as int),
{
    if v < lo { lo } else if v > hi { hi } else { v }
}

/// Margin kept between the window and the work-area border when it fits.
pub const WORK_MARGIN: i32 = 8;

/// Pixels of the window kept visible on each axis at the least.
pub const MIN_PEEK: i32 = 40;

/// Whether the work area has room for the window and a margin on every
/// side.
pub open spec fn fits_with_margin(win_w: int, win_h: int, work: Rect) -> bool {
    work.width >= win_w + 2 * WORK_MARGIN && work.height >= win_h + 2 * WORK_MARGIN
}

/// Pixels of the window that must stay visible on each axis.
pub open spec fn peek_of(win_w: int, win_h: int) -> int {
    min_int(min_int(MIN_PEEK as int, win_w), win_h)
}

/// Where `clamp_top_left_to_work_area` puts the window's top-left corner:
/// fully inside the work area, a margin from every border, when the area has
/// room for that; otherwise anywhere that keeps `peek` pixels of the window
/// over the area on each axis.
pub open spec fn clamp_top_left_spec(x: int, y: int, win_w: int, win_h: int, work: Rect) -> (int, int) {
    let margin = WORK_MARGIN as int;
    let peek = peek_of(win_w, win_h);
    let min_x = work.x - win_w + peek;
    let max_x = work.x + work.width - peek;
    let min_y = work.y - win_h + peek;
    let max_y = work.y + work.height - peek;
    if fits_with_margin(win_w, win_h, work) {
        (
            clamp_int(x, work.x + margin, work.x + work.width - win_w - margin),
            clamp_int(y, work.y + margin, work.y + work.height - win_h - margin),
        )
    } else {
        (
            clamp_int(x, min_int(min_x, max_x), max_int(max_x, min_x)),
            clamp_int(y, min_int(min_y, max_y), max_int(max_y, min_y)),
        )
    }
}

/// The bounds that keep `peek` pixels visible fit in `i32`.
pub open spec fn clamp_top_left_in_range(win_w: int, win_h: int, work: Rect) -> bool {
    let peek = peek_of(win_w, win_h);
    &&& fits_i32(work.x - win_w + peek)
    &&& fits_i32(work.x + work.width - peek)
    &&& fits_i32(work.y - win_h + peek)
    &&& fits_i32(work.y + work.height - peek)
}

/// Keep the window's top-left corner so the window stays mostly inside the
/// work area: fully inside with a margin when there is room, else with at
/// least `peek` pixels visible on each axis.
pub fn clamp_top_left_to_work_area(x: i32, y: i32, win_w: i32, win_h: i32, work: Rect) -> (r: (i32, i32))
    requires
        clamp_top_left_in_range(win_w as int, win_h as int, work),
    ensures
        (r.0 as int, r.1 as int) == clamp_top_left_spec(x as int, y as int, win_w as int, win_h as int, work),
{
    let margin = WORK_MARGIN as i64;
    let peek = min_i32(min_i32(MIN_PEEK, win_w), win_h) as i64;
    let (wx, wy, ww, wh) = (work.x as i64, work.y as i64, work.width as i64, work.height as i64);
    let (w, h) = (win_w as i64, win_h as i64);
    if ww >= w + 2 * margin && wh >= h + 2 * margin {
        let lo_x = (wx + margin) as i32;
        let hi_x = (wx + ww - w - margin) as i32;
        let lo_y = (wy + margin) as i32;
        let hi_y = (wy + wh - h - margin) as i32;
        (clamp_i32(x, lo_x, hi_x), clamp_i32(y, lo_y, hi_y))
    } else {
        let min_x = (wx - w + peek) as i32;
        let max_x = (wx + ww - peek) as i32;
        let min_y = (wy - h + peek) as i32;
        let max_y = (wy + wh - peek) as i32;
        (
            clamp_i32(x, min_i32(min_x, max_x), max_i32(max_x, min_x)),
            clamp_i32(y, min_i32(min_y, max_y), max_i32(max_y, min_y)),
        )
    }
}

/// Clamp a window's top-left so the whole window stays inside the work area
/// (a window larger than the area sticks to its left / top edge).
pub fn clamp_position_to_work_area(x: i32, y: i32, win_w: i32, win_h: i32, work: Rect) -> (r: (i32, i32))
    requires
        fits_i32(work.x + work.width),
        fits_i32(work.y + work.height),
        fits_i32(work.x + work.width - max_int(win_w as int, 1)),
        fits_i32(work.y + work.height - max_int(win_h as int, 1)),
    ensures
        r.0 == clamp_int(x as int, work.x as int,
            max_int(work.x + work.width - max_int(win_w as int, 1), work.x as int)),
        r.1 == clamp_int(y as int, work.y as int,
            max_int(work.y + work.height - max_int(win_h as int, 1), work.y as int)),
        r.0 >= work.x,
        r.1 >= work.y,
{
    let max_x = work.x + work.width - max_i32(win_w, 1);
    let max_y = work.y + work.height - max_i32(win_h, 1);
    let nx = clamp_i32(x, work.x, max_i32(max_x, work.x));
    let ny = clamp_i32(y, work.y, max_i32(max_y, work.y));
    (nx, ny)
}

/// The launcher window's bounds as the outside-click guard reads them:
/// left, top, right and bottom, right and bottom saturating.
#[derive(Debug, Clone, Copy, PartialEq, Eq, Structural)]
pub struct LauncherBounds {
    pub left: i32,
    pub top: i32,
    pub right: i32,
    pub bottom: i32,
}

pub open spec fn sat_i32(v: int) -> int {
    if v > i32::MAX { i32::MAX as int } else if v < i32::MIN { i32::MIN as int } else { v }
}

fn saturating_add_i32(a: i32, b: i32) -> (r: i32)
    ensures
        r == sat_i32(a + b),
{
    let s = a as i64 + b as i64;
    if s > i32::MAX as i64 {
        i32::MAX
    } else if s < i32::MIN as i64 {
        i32::MIN
    } else {
        s as i32
    }
}

/// Record the launcher rectangle for the outside-click check.
pub fn set_launcher_rect(bounds: &mut LauncherBounds, rect: &Rect)
    ensures
        final(bounds).left == rect.x,
        final(bounds).top == rect.y,
        final(bounds).right == sat_i32(rect.x + rect.width),
        final(bounds).bottom == sat_i32(rect.y + rect.height),
{
    bounds.left = rect.x;
    bounds.top = rect.y;
    bounds.right = saturating_add_i32(rect.x, rect.width);
    bounds.bottom = saturating_add_i32(rect.y, rect.height);
}

/// Whether the cursor counts as inside the launcher. An unknown cursor, or
/// bounds not set yet (empty), count as inside so a failed query never closes
/// the dock by mistake.
pub fn cursor_inside_launcher(bounds: &LauncherBounds, cursor: Option<(i32, i32)>) -> (r: bool)
    ensures
        r == match cursor {
            None => true,
            Some((x, y)) => bounds.right <= bounds.left || bounds.bottom <= bounds.top
                || (x >= bounds.left && y >= bounds.top && x < bounds.right && y < bounds.bottom),
        },
{
    let (x, y) = match cursor {
        None => return true,
        Some(p) => p,
    };
    if bounds.right <= bounds.left || bounds.bottom <= bounds.top {
        return true;
    }
    x >= bounds.left && y >= bounds.top && x < bounds.right && y < bounds.bottom
}

/// Distance (px) from a work-area border that triggers edge-hide.
pub const EDGE_THRESHOLD: i32 = 24;

/// Gap between each side of the pet window and the matching work-area border.
pub open spec fn edge_gaps(pet: Rect, work: Rect) -> (int, int, int, int) {
    (
        pet.x - work.x,
        work.x + work.width - (pet.x + pet.width),
        pet.y - work.y,
        work.y + work.height - (pet.y + pet.height),
    )
}

/// The nearest border within the threshold; on a tie the earlier of left,
/// right, top, bottom.
pub open spec fn detect_edge_spec(pet: Rect, work: Rect) -> Option<Edge> {
    let (l, r, t, b) = edge_gaps(pet, work);
    let th = EDGE_THRESHOLD as int;
    let s1: Option<(Edge, int)> = if l <= th { Some((Edge::Left, l)) } else { None };
    let s2 = if r <= th && (s1 matches Some((_, d)) ==> r < d) { Some((Edge::Right, r)) } else { s1 };
    let s3 = if t <= th && (s2 matches Some((_, d)) ==> t < d) { Some((Edge::Top, t)) } else { s2 };
    let s4 = if b <= th && (s3 matches Some((_, d)) ==> b < d) { Some((Edge::Bottom, b)) } else { s3 };
    match s4 {
        Some((e, _)) => Some(e),
        None => None,
    }
}

/// Which work-area edge the pet window is within `EDGE_THRESHOLD` of, if any.
pub fn detect_edge(pet: Rect, work: Rect) -> (r: Option<Edge>)
    requires
        fits_i32(pet.x - work.x),
        fits_i32(pet.y - work.y),
        fits_i32(work.x + work.width),
        fits_i32(work.y + work.height),
        fits_i32(pet.x + pet.width),
        fits_i32(pet.y + pet.height),
        fits_i32(work.x + work.width - (pet.x + pet.width)),
        fits_i32(work.y + work.height - (pet.y + pet.height)),
    ensures
        r == detect_edge_spec(pet, work),
{
    let gaps = [
        (Edge::Left, pet.x - work.x),
        (Edge::Right, work.x + work.width - (pet.x + pet.width)),
        (Edge::Top, pet.y - work.y),
        (Edge::Bottom, work.y + work.height - (pet.y + pet.height)),
    ];
    let mut best: Option<(Edge, i32)> = None;
    let mut i: usize = 0;
    while i < 4
        invariant
            0 <= i <= 4,
            gaps@ == seq![
                (Edge::Left, (pet.x - work.x) as i32),
                (Edge::Right, (work.x + work.width - (pet.x + pet.width)) as i32),
                (Edge::Top, (pet.y - work.y) as i32),
                (Edge::Bottom, (work.y + work.height - (pet.y + pet.height)) as i32),
            ],
            best == best_prefix(gaps@, i as int),
        decreases 4 - i,
    {
        let (edge, dist) = gaps[i];
        if dist <= EDGE_THRESHOLD {
            match best {
                Some((_, bd)) if dist >= bd => {},
                _ => best = Some((edge, dist)),
            }
        }
        i += 1;
    }
    proof {
        reveal_with_fuel(best_prefix, 5);
    }
    match best {
        Some((e, _)) => Some(e),
        None => None,
    }
}

pub open spec fn best_prefix(g: Seq<(Edge, i32)>, n: int) -> Option<(Edge, i32)>
    decreases n,
{
    if n <= 0 {
        None
    } else {
        let prev = best_prefix(g, n - 1);
        let (e, d) = g[n - 1];
        if d <= EDGE_THRESHOLD && (prev matches Some((_, bd)) ==> d < bd) { Some((e, d)) } else { prev }
    }
}

/// When the work area has room for the window and its margins, the window
/// ends up fully inside, a margin away from every border, and a window
/// already placed so is left where it is.
pub proof fn lemma_clamp_top_left_keeps_window_inside(x: int, y: int, win_w: int, win_h: int, work: Rect)
    requires
        fits_with_margin(win_w, win_h, work),
    ensures
        ({
            let (nx, ny) = clamp_top_left_spec(x, y, win_w, win_h, work);
            &&& work.x + WORK_MARGIN <= nx
            &&& nx + win_w <= work.x + work.width - WORK_MARGIN
            &&& work.y + WORK_MARGIN <= ny
            &&& ny + win_h <= work.y + work.height - WORK_MARGIN
        }),
        x >= work.x + WORK_MARGIN && x + win_w <= work.x + work.width - WORK_MARGIN
            && y >= work.y + WORK_MARGIN && y + win_h <= work.y + work.height - WORK_MARGIN
            ==> clamp_top_left_spec(x, y, win_w, win_h, work) == (x, y),
{
}

/// Length of the overlap of `[a, a + len_a)` and `[b, b + len_b)`.
pub open spec fn overlap_len(a: int, len_a: int, b: int, len_b: int) -> int {
    min_int(a + len_a, b + len_b) - max_int(a, b)
}

/// The window always stays mostly inside the work area: on each axis at
/// least `peek` pixels of it overlap the area (or the whole area, when the
/// area is narrower than that).
pub proof fn lemma_clamp_top_left_keeps_peek_visible(x: int, y: int, win_w: int, win_h: int, work: Rect)
    requires
        win_w >= 1,
        win_h >= 1,
        work.width >= 1,
        work.height >= 1,
    ensures
        ({
            let (nx, ny) = clamp_top_left_spec(x, y, win_w, win_h, work);
            let peek = peek_of(win_w, win_h);
            &&& overlap_len(nx, win_w, work.x as int, work.width as int) >= min_int(peek, work.width as int)
            &&& overlap_len(ny, win_h, work.y as int, work.height as int) >= min_int(peek, work.height as int)
        }),
{
}

/// A window that fits in the work area is kept entirely inside it, and a
/// window already inside is left where it is.
pub proof fn lemma_clamp_position_inside(x: int, y: int, win_w: int, win_h: int, work: Rect)
    requires
        1 <= win_w <= work.width,
        1 <= win_h <= work.height,
    ensures
        ({
            let nx = clamp_int(x, work.x as int, max_int(work.x + work.width - max_int(win_w, 1), work.x as int));
            let ny = clamp_int(y, work.y as int, max_int(work.y + work.height - max_int(win_h, 1), work.y as int));
            &&& work.x <= nx && nx + win_w <= work.x + work.width
            &&& work.y <= ny && ny + win_h <= work.y + work.height
            &&& (work.x <= x && x + win_w <= work.x + work.width ==> nx == x)
            &&& (work.y <= y && y + win_h <= work.y + work.height ==> ny == y)
        }),
{
}

/// The gap between the pet window and work-area border `e`.
pub open spec fn gap_to(pet: Rect, work: Rect, e: Edge) -> int {
    match e {
        Edge::Left => pet.x - work.x,
        Edge::Right => work.x + work.width - (pet.x + pet.width),
        Edge::Top => pet.y - work.y,
        Edge::Bottom => work.y + work.height - (pet.y + pet.height),
    }
}

/// Position of a border in the tie-break order left, right, top, bottom.
pub open spec fn edge_rank(e: Edge) -> int {
    match e {
        Edge::Left => 0,
        Edge::Right => 1,
        Edge::Top => 2,
        Edge::Bottom => 3,
    }
}

/// Edge detection picks the nearest border within `EDGE_THRESHOLD` (24 px):
/// none when every gap is wider; otherwise a border whose gap is within the
/// threshold and no wider than any other gap within it, and on equal gaps
/// the earliest of left, right, top, bottom.
pub proof fn lemma_detect_edge_picks_nearest(pet: Rect, work: Rect)
    ensures
        detect_edge_spec(pet, work) is None
            <==> forall|e: Edge| #[trigger] gap_to(pet, work, e) > 24,
        detect_edge_spec(pet, work) matches Some(e) ==> {
            &&& gap_to(pet, work, e) <= 24
            &&& forall|o: Edge| #[trigger] gap_to(pet, work, o) <= 24 ==> gap_to(pet, work, e) <= gap_to(pet, work, o)
            &&& forall|o: Edge| gap_to(pet, work, o) == gap_to(pet, work, e) ==> edge_rank(e) <= #[trigger] edge_rank(o)
        },
{
    assert(gap_to(pet, work, Edge::Left) == edge_gaps(pet, work).0);
    assert(gap_to(pet, work, Edge::Right) == edge_gaps(pet, work).1);
    assert(gap_to(pet, work, Edge::Top) == edge_gaps(pet, work).2);
    assert(gap_to(pet, work, Edge::Bottom) == edge_gaps(pet, work).3);
    if detect_edge_spec(pet, work) is None {
        assert forall|e: Edge| #[trigger] gap_to(pet, work, e) > 24 by {
            match e {
                Edge::Left => {},
                Edge::Right => {},
                Edge::Top => {},
                Edge::Bottom => {},
            }
        }
    }
    if let Some(e) = detect_edge_spec(pet, work) {
        assert forall|o: Edge| #[trigger] gap_to(pet, work, o) <= 24 implies gap_to(pet, work, e) <= gap_to(pet, work, o) by {
            match o {
                Edge::Left => {},
                Edge::Right => {},
                Edge::Top => {},
                Edge::Bottom => {},
            }
        }
        assert forall|o: Edge| gap_to(pet, work, o) == gap_to(pet, work, e) implies edge_rank(e) <= #[trigger] edge_rank(o) by {
            match o {
                Edge::Left => {},
                Edge::Right => {},
                Edge::Top => {},
                Edge::Bottom => {},
            }
        }
    }
}

} // verus!
