//! Filled shapes painted onto RGBA canvases: rounded rectangles, discs,
//! rounded-rectangle outlines and triangles.
use vstd::prelude::*;

use crate::canvas::{
    all_pixels, in_canvas, lemma_painted_extend, lemma_painted_start, lemma_painted_step, painted, put,
};

verus! {

/// Corner test of the reminder card's rounded rectangle `[x0, x1) × [y0, y1)`
/// with corner radius `r`: inside unless in a corner square and farther than
/// `r` from that corner's centre.
pub open spec fn round_rect_covers(x0: int, y0: int, x1: int, y1: int, r: int, px: int, py: int) -> bool {
    let cx = if px < x0 + r { x0 + r } else if px >= x1 - r { x1 - r - 1 } else { px };
    let cy = if py < y0 + r { y0 + r } else if py >= y1 - r { y1 - r - 1 } else { py };
    if (px < x0 + r || px >= x1 - r) && (py < y0 + r || py >= y1 - r) {
        (px - cx) * (px - cx) + (py - cy) * (py - cy) <= r * r
    } else {
        true
    }
}

/// The yawn bubble's rounded rectangle test: `(x, y)` inside `[x0, x1) ×
/// [y0, y1)` and, in a corner, within the radius (negative radii count as 0).
pub open spec fn inside_rrect_spec(x: int, y: int, x0: int, y0: int, x1: int, y1: int, r: int) -> bool {
    if x < x0 || y < y0 || x >= x1 || y >= y1 {
        false
    } else {
        let r = if r >= 0 { r } else { 0 };
        if !(x < x0 + r || x >= x1 - r) || !(y < y0 + r || y >= y1 - r) {
            true
        } else {
            let cx = if x < x0 + r { x0 + r } else { x1 - 1 - r };
            let cy = if y < y0 + r { y0 + r } else { y1 - 1 - r };
            (x - cx) * (x - cx) + (y - cy) * (y - cy) <= r * r
        }
    }
}

/// Signed area test: the point is inside or on the triangle when the three
/// edge cross products do not take both signs.
pub open spec fn point_in_tri_spec(px: int, py: int, x0: int, y0: int, x1: int, y1: int, x2: int, y2: int) -> bool {
    let d1 = (px - x1) * (y0 - y1) - (x0 - x1) * (py - y1);
    let d2 = (px - x2) * (y1 - y2) - (x1 - x2) * (py - y2);
    let d3 = (px - x0) * (y2 - y0) - (x2 - x0) * (py - y0);
    let has_neg = d1 < 0 || d2 < 0 || d3 < 0;
    let has_pos = d1 > 0 || d2 > 0 || d3 > 0;
    !(has_neg && has_pos)
}

/// A region painted pixel by pixel inside a bounding box.
pub enum Shape {
    /// Reminder-card rounded rectangle.
    RoundRect { x0: i64, y0: i64, x1: i64, y1: i64, r: i64 },
    /// Disc of radius `r` around `(cx, cy)`, limited to `[0, w) × [0, h)`.
    Disc { cx: i64, cy: i64, r: i64, w: i64, h: i64 },
    /// Yawn-bubble rounded rectangle.
    RRect { x0: i64, y0: i64, x1: i64, y1: i64, r: i64 },
    /// Yawn-bubble outline: the rounded rectangle minus its `thick`-inset copy.
    RRectRing { x0: i64, y0: i64, x1: i64, y1: i64, r: i64, thick: i64 },
    /// Triangle with the given corners.
    Triangle { x0: i64, y0: i64, x1: i64, y1: i64, x2: i64, y2: i64 },
}

/// Coordinates small enough that every product the tests form fits in 128
/// bits.
pub open spec fn small(v: int) -> bool {
    -0x1_0000_0000_0000 <= v <= 0x1_0000_0000_0000
}

impl Shape {
    pub open spec fn wf(&self) -> bool {
        match *self {
            Shape::RoundRect { x0, y0, x1, y1, r } => small(x0 as int) && small(y0 as int) && small(x1 as int) && small(y1 as int) && small(r as int),
            Shape::Disc { cx, cy, r, w, h } => small(cx as int) && small(cy as int) && small(r as int),
            Shape::RRect { x0, y0, x1, y1, r } => small(x0 as int) && small(y0 as int) && small(x1 as int) && small(y1 as int) && small(r as int),
            Shape::RRectRing { x0, y0, x1, y1, r, thick } => small(x0 as int) && small(y0 as int) && small(x1 as int) && small(y1 as int) && small(r as int) && small(thick as int),
            Shape::Triangle { x0, y0, x1, y1, x2, y2 } => small(x0 as int) && small(y0 as int) && small(x1 as int) && small(y1 as int) && small(x2 as int) && small(y2 as int),
        }
    }

    pub open spec fn covers(&self, x: int, y: int) -> bool {
        match *self {
            Shape::RoundRect { x0, y0, x1, y1, r } => round_rect_covers(x0 as int, y0 as int, x1 as int, y1 as int, r as int, x, y),
            Shape::Disc { cx, cy, r, w, h } => 0 <= x < w && 0 <= y < h && (x - cx) * (x - cx) + (y - cy) * (y - cy) <= r * r,
            Shape::RRect { x0, y0, x1, y1, r } => inside_rrect_spec(x, y, x0 as int, y0 as int, x1 as int, y1 as int, r as int),
            Shape::RRectRing { x0, y0, x1, y1, r, thick } => {
                let r = if r >= 0 { r as int } else { 0 };
                let ri = if r - thick >= 0 { r - thick } else { 0 };
                inside_rrect_spec(x, y, x0 as int, y0 as int, x1 as int, y1 as int, r)
                    && !inside_rrect_spec(x, y, x0 + thick, y0 + thick, x1 - thick, y1 - thick, ri)
            },
            Shape::Triangle { x0, y0, x1, y1, x2, y2 } => point_in_tri_spec(x, y, x0 as int, y0 as int, x1 as int, y1 as int, x2 as int, y2 as int),
        }
    }
}

pub open spec fn medium(v: int) -> bool {
    -0x4_0000_0000_0000 <= v <= 0x4_0000_0000_0000
}

fn sq(v: i128) -> (r: i128)
    requires
        -0x10_0000_0000_0000 <= v <= 0x10_0000_0000_0000,
    ensures
        r == v * v,
        0 <= r <= 0x100_0000_0000_0000_0000_0000_0000,
{
    assert(v * v <= 0x100_0000_0000_0000_0000_0000_0000) by (nonlinear_arith)
        requires -0x10_0000_0000_0000 <= v <= 0x10_0000_0000_0000;
    assert(v * v >= 0) by (nonlinear_arith);
    v * v
}

fn round_rect_test(x0: i64, y0: i64, x1: i64, y1: i64, r: i64, px: i64, py: i64) -> (b: bool)
    requires
        small(x0 as int), small(y0 as int), small(x1 as int), small(y1 as int), small(r as int),
        small(px as int), small(py as int),
    ensures
        b == round_rect_covers(x0 as int, y0 as int, x1 as int, y1 as int, r as int, px as int, py as int),
{
    let cx = if px < x0 + r { x0 + r } else if px >= x1 - r { x1 - r - 1 } else { px };
    let cy = if py < y0 + r { y0 + r } else if py >= y1 - r { y1 - r - 1 } else { py };
    if (px < x0 + r || px >= x1 - r) && (py < y0 + r || py >= y1 - r) {
        sq((px - cx) as i128) + sq((py - cy) as i128) <= sq(r as i128)
    } else {
        true
    }
}

fn inside_rrect_test(x: i64, y: i64, x0: i64, y0: i64, x1: i64, y1: i64, r: i64) -> (b: bool)
    requires
        small(x as int), small(y as int), medium(x0 as int), medium(y0 as int), medium(x1 as int), medium(y1 as int),
        medium(r as int),
    ensures
        b == inside_rrect_spec(x as int, y as int, x0 as int, y0 as int, x1 as int, y1 as int, r as int),
{
    if x < x0 || y < y0 || x >= x1 || y >= y1 {
        return false;
    }
    let r = if r >= 0 { r } else { 0 };
    let cx = if x < x0 + r {
        x0 + r
    } else if x >= x1 - r {
        x1 - 1 - r
    } else {
        return true;
    };
    let cy = if y < y0 + r {
        y0 + r
    } else if y >= y1 - r {
        y1 - 1 - r
    } else {
        return true;
    };
    sq((x - cx) as i128) + sq((y - cy) as i128) <= sq(r as i128)
}

fn point_in_tri_test(px: i64, py: i64, x0: i64, y0: i64, x1: i64, y1: i64, x2: i64, y2: i64) -> (b: bool)
    requires
        small(px as int), small(py as int), small(x0 as int), small(y0 as int),
        small(x1 as int), small(y1 as int), small(x2 as int), small(y2 as int),
    ensures
        b == point_in_tri_spec(px as int, py as int, x0 as int, y0 as int, x1 as int, y1 as int, x2 as int, y2 as int),
{
    let d1 = cross((px - x1) as i128, (y0 - y1) as i128, (x0 - x1) as i128, (py - y1) as i128);
    let d2 = cross((px - x2) as i128, (y1 - y2) as i128, (x1 - x2) as i128, (py - y2) as i128);
    let d3 = cross((px - x0) as i128, (y2 - y0) as i128, (x2 - x0) as i128, (py - y0) as i128);
    let has_neg = d1 < 0 || d2 < 0 || d3 < 0;
    let has_pos = d1 > 0 || d2 > 0 || d3 > 0;
    !(has_neg && has_pos)
}

fn cross(a: i128, b: i128, c: i128, d: i128) -> (r: i128)
    requires
        -0x4_0000_0000_0000 <= a <= 0x4_0000_0000_0000,
        -0x4_0000_0000_0000 <= b <= 0x4_0000_0000_0000,
        -0x4_0000_0000_0000 <= c <= 0x4_0000_0000_0000,
        -0x4_0000_0000_0000 <= d <= 0x4_0000_0000_0000,
    ensures
        r == a * b - c * d,
{
    assert(-0x10_0000_0000_0000_0000_0000_0000 <= a * b <= 0x10_0000_0000_0000_0000_0000_0000) by (nonlinear_arith)
        requires -0x4_0000_0000_0000 <= a <= 0x4_0000_0000_0000, -0x4_0000_0000_0000 <= b <= 0x4_0000_0000_0000;
    assert(-0x10_0000_0000_0000_0000_0000_0000 <= c * d <= 0x10_0000_0000_0000_0000_0000_0000) by (nonlinear_arith)
        requires -0x4_0000_0000_0000 <= c <= 0x4_0000_0000_0000, -0x4_0000_0000_0000 <= d <= 0x4_0000_0000_0000;
    a * b - c * d
}

impl Shape {
    fn contains(&self, x: i64, y: i64) -> (b: bool)
        requires
            self.wf(),
            small(x as int),
            small(y as int),
        ensures
            b == self.covers(x as int, y as int),
    {
        match *self {
            Shape::RoundRect { x0, y0, x1, y1, r } => round_rect_test(x0, y0, x1, y1, r, x, y),
            Shape::Disc { cx, cy, r, w, h } => {
                0 <= x && x < w && 0 <= y && y < h
                    && sq((x - cx) as i128) + sq((y - cy) as i128) <= sq(r as i128)
            },
            Shape::RRect { x0, y0, x1, y1, r } => inside_rrect_test(x, y, x0, y0, x1, y1, r),
            Shape::RRectRing { x0, y0, x1, y1, r, thick } => {
                let r = if r >= 0 { r } else { 0 };
                let ri = if r - thick >= 0 { r - thick } else { 0 };
                inside_rrect_test(x, y, x0, y0, x1, y1, r)
                    && !inside_rrect_test(x, y, x0 + thick, y0 + thick, x1 - thick, y1 - thick, ri)
            },
            Shape::Triangle { x0, y0, x1, y1, x2, y2 } => point_in_tri_test(x, y, x0, y0, x1, y1, x2, y2),
        }
    }
}

/// What filling `shape` inside the box `[bx0, bx1) × [by0, by1)` paints on
/// pixel `(x, y)`.
pub open spec fn fill_color(shape: Shape, bx0: int, by0: int, bx1: int, by1: int, c: [u8; 4], x: int, y: int) -> Option<[u8; 4]> {
    if bx0 <= x < bx1 && by0 <= y < by1 && shape.covers(x, y) { Some(c) } else { None }
}

/// Paint `c` over every pixel of the box `[bx0, bx1) × [by0, by1)` that the
/// shape covers, row by row.
fn fill_box(px: &mut [u8], w: u32, shape: &Shape, bx0: i64, by0: i64, bx1: i64, by1: i64, c: [u8; 4])
    requires
        old(px)@.len() <= u32::MAX,
        shape.wf(),
        i32::MIN <= bx0,
        i32::MIN <= by0,
        bx1 <= i32::MAX as int + 1,
        by1 <= i32::MAX as int + 1,
    ensures
        painted(old(px)@, final(px)@, w as int, all_pixels(),
            |x: int, y: int| fill_color(*shape, bx0 as int, by0 as int, bx1 as int, by1 as int, c, x, y)),
{
    let ghost old_p = px@;
    let ghost color = |x: int, y: int| fill_color(*shape, bx0 as int, by0 as int, bx1 as int, by1 as int, c, x, y);
    proof {
        lemma_painted_start(old_p, w as int, |x: int, y: int| false, color);
    }
    let mut y = by0;
    while y < by1
        invariant
            by0 <= y,
            y <= by1 || y == by0,
            old_p == old(px)@,
            old_p.len() <= u32::MAX,
            shape.wf(),
            i32::MIN <= bx0,
            i32::MIN <= by0,
            bx1 <= i32::MAX as int + 1,
            by1 <= i32::MAX as int + 1,
            color == (|x: int, y: int| fill_color(*shape, bx0 as int, by0 as int, bx1 as int, by1 as int, c, x, y)),
            painted(old_p, px@, w as int, |qx: int, qy: int| qy < y, color),
        decreases by1 - y,
    {
        let ghost done_rows = |qx: int, qy: int| qy < y;
        let mut x = bx0;
        while x < bx1
            invariant
                bx0 <= x,
                x <= bx1 || x == bx0,
                by0 <= y < by1,
                old_p == old(px)@,
                old_p.len() <= u32::MAX,
                shape.wf(),
                i32::MIN <= bx0,
                i32::MIN <= by0,
                bx1 <= i32::MAX as int + 1,
                by1 <= i32::MAX as int + 1,
                color == (|x: int, y: int| fill_color(*shape, bx0 as int, by0 as int, bx1 as int, by1 as int, c, x, y)),
                painted(old_p, px@, w as int, |qx: int, qy: int| qy < y || (qy == y && qx < x), color),
            decreases bx1 - x,
        {
            let ghost done = |qx: int, qy: int| qy < y || (qy == y && qx < x);
            let ghost done2 = |qx: int, qy: int| qy < y || (qy == y && qx < x + 1);
            if shape.contains(x, y) {
                let ghost before = px@;
                put(px, w, x as i32, y as i32, c);
                proof {
                    lemma_painted_step(old_p, before, w as int, done, done2, color, x as int, y as int, c);
                }
            } else {
                proof {
                    lemma_painted_extend(old_p, px@, w as int, done, done2, color);
                }
            }
            x += 1;
        }
        proof {
            lemma_painted_extend(old_p, px@, w as int,
                |qx: int, qy: int| qy < y || (qy == y && qx < x), |qx: int, qy: int| qy < y + 1, color);
        }
        y += 1;
    }
    proof {
        lemma_painted_extend(old_p, px@, w as int, |qx: int, qy: int| qy < y, all_pixels(), color);
    }
}

/// Fill the reminder card's rounded rectangle at `(x, y)` of size `rw`×`rh`
/// (clipped to the canvas height `h`) with corner radius `radius`.
pub fn fill_round_rect(px: &mut [u8], w: u32, h: u32, x: u32, y: u32, rw: u32, rh: u32, radius: i32, c: [u8; 4])
    requires
        old(px)@.len() <= u32::MAX,
        x + rw <= i32::MAX,
        y + rh <= i32::MAX,
    ensures
        ({
            let x1 = x + rw;
            let y1 = if y + rh <= h { y + rh } else { h as int };
            let shape = Shape::RoundRect { x0: x as i64, y0: y as i64, x1: x1 as i64, y1: y1 as i64, r: radius as i64 };
            painted(old(px)@, final(px)@, w as int, all_pixels(),
                |qx: int, qy: int| fill_color(shape, x as int, y as int, x1, y1, c, qx, qy))
        }),
{
    let x0 = x as i64;
    let y0 = y as i64;
    let x1 = (x + rw) as i64;
    let y1: i64 = if y + rh <= h { (y + rh) as i64 } else { h as i64 };
    let shape = Shape::RoundRect { x0, y0, x1, y1, r: radius as i64 };
    fill_box(px, w, &shape, x0, y0, x1, y1, c);
}

/// Fill a disc of radius `radius` around `(cx, cy)`, limited to the `w`×`h`
/// canvas.
pub fn fill_circle(px: &mut [u8], w: u32, h: u32, cx: i32, cy: i32, radius: i32, c: [u8; 4])
    requires
        old(px)@.len() <= u32::MAX,
        i32::MIN <= cx - radius,
        cx + radius + 1 <= i32::MAX,
        i32::MIN <= cy - radius,
        cy + radius + 1 <= i32::MAX,
        2 * radius * radius <= i32::MAX,
    ensures
        ({
            let shape = Shape::Disc {
                cx: cx as i64,
                cy: cy as i64,
                r: radius as i64,
                w: crate::canvas::signed_extent(w) as i64,
                h: crate::canvas::signed_extent(h) as i64,
            };
            painted(old(px)@, final(px)@, w as int, all_pixels(),
                |qx: int, qy: int| fill_color(shape, cx - radius, cy - radius, cx + radius + 1, cy + radius + 1, c, qx, qy))
        }),
{
    let wi: i64 = if w <= i32::MAX as u32 { w as i64 } else { -1 };
    let hi: i64 = if h <= i32::MAX as u32 { h as i64 } else { -1 };
    let shape = Shape::Disc { cx: cx as i64, cy: cy as i64, r: radius as i64, w: wi, h: hi };
    fill_box(
        px,
        w,
        &shape,
        cx as i64 - radius as i64,
        cy as i64 - radius as i64,
        cx as i64 + radius as i64 + 1,
        cy as i64 + radius as i64 + 1,
        c,
    );
}

/// Whether `(x, y)` lies inside the rounded rectangle `[x0, x1) × [y0, y1)`
/// with corner radius `r` (negative radii count as 0).
pub fn inside_rrect(x: i32, y: i32, x0: i32, y0: i32, x1: i32, y1: i32, r: i32) -> (b: bool)
    ensures
        b == inside_rrect_spec(x as int, y as int, x0 as int, y0 as int, x1 as int, y1 as int, r as int),
{
    inside_rrect_test(x as i64, y as i64, x0 as i64, y0 as i64, x1 as i64, y1 as i64, r as i64)
}

/// Whether `(px, py)` lies inside or on the triangle.
pub fn point_in_tri(px: i32, py: i32, x0: i32, y0: i32, x1: i32, y1: i32, x2: i32, y2: i32) -> (b: bool)
    ensures
        b == point_in_tri_spec(px as int, py as int, x0 as int, y0 as int, x1 as int, y1 as int, x2 as int, y2 as int),
{
    point_in_tri_test(px as i64, py as i64, x0 as i64, y0 as i64, x1 as i64, y1 as i64, x2 as i64, y2 as i64)
}

/// Fill the yawn bubble's rounded rectangle `[x0, x1) × [y0, y1)`.
pub fn fill_rrect(px: &mut [u8], w: u32, h: u32, x0: i32, y0: i32, x1: i32, y1: i32, r: i32, c: [u8; 4])
    requires
        old(px)@.len() <= u32::MAX,
    ensures
        ({
            let rr = if r >= 0 { r } else { 0 };
            let shape = Shape::RRect { x0: x0 as i64, y0: y0 as i64, x1: x1 as i64, y1: y1 as i64, r: rr as i64 };
            painted(old(px)@, final(px)@, w as int, all_pixels(),
                |qx: int, qy: int| fill_color(shape, x0 as int, y0 as int, x1 as int, y1 as int, c, qx, qy))
        }),
{
    let r = if r >= 0 { r } else { 0 };
    let shape = Shape::RRect { x0: x0 as i64, y0: y0 as i64, x1: x1 as i64, y1: y1 as i64, r: r as i64 };
    fill_box(px, w, &shape, x0 as i64, y0 as i64, x1 as i64, y1 as i64, c);
}

/// Paint the `thick`-pixel outline of the yawn bubble's rounded rectangle.
pub fn stroke_rrect(px: &mut [u8], w: u32, h: u32, x0: i32, y0: i32, x1: i32, y1: i32, r: i32, c: [u8; 4], thick: i32)
    requires
        old(px)@.len() <= u32::MAX,
    ensures
        ({
            let shape = Shape::RRectRing { x0: x0 as i64, y0: y0 as i64, x1: x1 as i64, y1: y1 as i64, r: r as i64, thick: thick as i64 };
            painted(old(px)@, final(px)@, w as int, all_pixels(),
                |qx: int, qy: int| fill_color(shape, x0 as int, y0 as int, x1 as int, y1 as int, c, qx, qy))
        }),
{
    let shape = Shape::RRectRing { x0: x0 as i64, y0: y0 as i64, x1: x1 as i64, y1: y1 as i64, r: r as i64, thick: thick as i64 };
    fill_box(px, w, &shape, x0 as i64, y0 as i64, x1 as i64, y1 as i64, c);
}

fn min3(a: i32, b: i32, c: i32) -> (r: i32)
    ensures
        r == min3_spec(a as int, b as int, c as int),
{
    let m = if a <= b { a } else { b };
    if m <= c { m } else { c }
}

fn max3(a: i32, b: i32, c: i32) -> (r: i32)
    ensures
        r == max3_spec(a as int, b as int, c as int),
{
    let m = if a >= b { a } else { b };
    if m >= c { m } else { c }
}

pub open spec fn min3_spec(a: int, b: int, c: int) -> int {
    let m = if a <= b { a } else { b };
    if m <= c { m } else { c }
}

pub open spec fn max3_spec(a: int, b: int, c: int) -> int {
    let m = if a >= b { a } else { b };
    if m >= c { m } else { c }
}

/// Fill the triangle with corners `(x0, y0)`, `(x1, y1)`, `(x2, y2)`, edges
/// included, scanning its bounding box.
pub fn fill_triangle(px: &mut [u8], w: u32, h: u32, x0: i32, y0: i32, x1: i32, y1: i32, x2: i32, y2: i32, c: [u8; 4])
    requires
        old(px)@.len() <= u32::MAX,
    ensures
        ({
            let shape = Shape::Triangle { x0: x0 as i64, y0: y0 as i64, x1: x1 as i64, y1: y1 as i64, x2: x2 as i64, y2: y2 as i64 };
            let bx0 = min3_spec(x0 as int, x1 as int, x2 as int);
            let by0 = min3_spec(y0 as int, y1 as int, y2 as int);
            let bx1 = max3_spec(x0 as int, x1 as int, x2 as int) + 1;
            let by1 = max3_spec(y0 as int, y1 as int, y2 as int) + 1;
            painted(old(px)@, final(px)@, w as int, all_pixels(),
                |qx: int, qy: int| fill_color(shape, bx0, by0, bx1, by1, c, qx, qy))
        }),
{
    let minx = min3(x0, x1, x2);
    let maxx = max3(x0, x1, x2);
    let miny = min3(y0, y1, y2);
    let maxy = max3(y0, y1, y2);
    let shape = Shape::Triangle { x0: x0 as i64, y0: y0 as i64, x1: x1 as i64, y1: y1 as i64, x2: x2 as i64, y2: y2 as i64 };
    fill_box(px, w, &shape, minx as i64, miny as i64, maxx as i64 + 1, maxy as i64 + 1, c);
}

/// Triangle membership does not depend on how the corners are listed:
/// swapping two corners or rotating them gives the same answer, and every
/// corner lies in its triangle.
pub proof fn lemma_point_in_tri_corner_order(
    px: int,
    py: int,
    x0: int,
    y0: int,
    x1: int,
    y1: int,
    x2: int,
    y2: int,
)
    ensures
        point_in_tri_spec(px, py, x0, y0, x1, y1, x2, y2) == point_in_tri_spec(px, py, x0, y0, x2, y2, x1, y1),
        point_in_tri_spec(px, py, x0, y0, x1, y1, x2, y2) == point_in_tri_spec(px, py, x1, y1, x2, y2, x0, y0),
        point_in_tri_spec(x0, y0, x0, y0, x1, y1, x2, y2),
        point_in_tri_spec(x1, y1, x0, y0, x1, y1, x2, y2),
        point_in_tri_spec(x2, y2, x0, y0, x1, y1, x2, y2),
{
    let d1 = (px - x1) * (y0 - y1) - (x0 - x1) * (py - y1);
    let d2 = (px - x2) * (y1 - y2) - (x1 - x2) * (py - y2);
    let d3 = (px - x0) * (y2 - y0) - (x2 - x0) * (py - y0);
    // The same three edge tests with the last two corners swapped.
    let e1 = (px - x2) * (y0 - y2) - (x0 - x2) * (py - y2);
    let e2 = (px - x1) * (y2 - y1) - (x2 - x1) * (py - y1);
    let e3 = (px - x0) * (y1 - y0) - (x1 - x0) * (py - y0);
    assert(e1 == -d3 && e2 == -d2 && e3 == -d1) by (nonlinear_arith)
        requires
            d1 == (px - x1) * (y0 - y1) - (x0 - x1) * (py - y1),
            d2 == (px - x2) * (y1 - y2) - (x1 - x2) * (py - y2),
            d3 == (px - x0) * (y2 - y0) - (x2 - x0) * (py - y0),
            e1 == (px - x2) * (y0 - y2) - (x0 - x2) * (py - y2),
            e2 == (px - x1) * (y2 - y1) - (x2 - x1) * (py - y1),
            e3 == (px - x0) * (y1 - y0) - (x1 - x0) * (py - y0);
    assert((x0 - x1) * (y0 - y1) - (x0 - x1) * (y0 - y1) == 0) by (nonlinear_arith);
    assert((x0 - x0) * (y2 - y0) - (x2 - x0) * (y0 - y0) == 0) by (nonlinear_arith);
    assert((x1 - x1) * (y0 - y1) - (x0 - x1) * (y1 - y1) == 0) by (nonlinear_arith);
    assert((x1 - x2) * (y1 - y2) - (x1 - x2) * (y1 - y2) == 0) by (nonlinear_arith);
    assert((x2 - x2) * (y1 - y2) - (x1 - x2) * (y2 - y2) == 0) by (nonlinear_arith);
    assert((x2 - x0) * (y2 - y0) - (x2 - x0) * (y2 - y0) == 0) by (nonlinear_arith);
}

} // verus!
