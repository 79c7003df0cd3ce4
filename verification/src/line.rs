//! One-pixel lines drawn with the integer error-diffusion (Bresenham)
//! algorithm, as used for the outline of the yawn bubble's tail.
use vstd::prelude::*;

use crate::canvas::{put, put_spec};
use crate::platform::fits_i32;

verus! {

pub open spec fn abs_int(v: int) -> int {
    if v >= 0 { v } else { -v }
}

/// Direction of travel from `from` toward `to`: 1, or -1 when not increasing.
pub open spec fn step_dir(from: int, to: int) -> int {
    if from < to { 1 } else { -1 }
}

/// One step of the line algorithm on `(x, y, err)`: step along x when twice
/// the error is at least `-b`, along y when it is at most `a`, where `a`
/// and `b` are the line's extents along x and y.
pub open spec fn line_next(s: (int, int, int), a: int, b: int, sx: int, sy: int) -> (int, int, int) {
    let e2 = 2 * s.2;
    let (x, e) = if e2 >= -b { (s.0 + sx, s.2 - b) } else { (s.0, s.2) };
    let (y, e) = if e2 <= a { (s.1 + sy, e + a) } else { (s.1, e) };
    (x, y, e)
}

/// The algorithm's state `(x, y, err)` after `k` steps of the line from
/// `(x0, y0)` to `(x1, y1)`.
pub open spec fn line_state(x0: int, y0: int, x1: int, y1: int, k: nat) -> (int, int, int)
    decreases k,
{
    let a = abs_int(x1 - x0);
    let b = abs_int(y1 - y0);
    if k == 0 {
        (x0, y0, a - b)
    } else {
        line_next(line_state(x0, y0, x1, y1, (k - 1) as nat), a, b, step_dir(x0, x1), step_dir(y0, y1))
    }
}

/// The line reaches its end `(x1, y1)` at step `n`, and not before.
pub open spec fn line_ends_at(x0: int, y0: int, x1: int, y1: int, n: nat) -> bool {
    &&& line_state(x0, y0, x1, y1, n).0 == x1
    &&& line_state(x0, y0, x1, y1, n).1 == y1
    &&& forall|k: nat| k < n ==> !(#[trigger] line_state(x0, y0, x1, y1, k).0 == x1 && line_state(x0, y0, x1, y1, k).1 == y1)
}

/// The canvas after plotting the first `n` points of the line.
pub open spec fn line_painted(old: Seq<u8>, w: int, x0: int, y0: int, x1: int, y1: int, n: nat, c: [u8; 4]) -> Seq<u8>
    decreases n,
{
    if n == 0 {
        old
    } else {
        let s = line_state(x0, y0, x1, y1, (n - 1) as nat);
        put_spec(line_painted(old, w, x0, y0, x1, y1, (n - 1) as nat, c), w, s.0, s.1, c)
    }
}

/// Steps taken so far along an axis from `start` in direction `dir`.
pub open spec fn progress(start: int, cur: int, dir: int) -> int {
    if dir == 1 { cur - start } else { start - cur }
}

/// Draw a one-pixel line from `(x0, y0)` to `(x1, y1)` inclusive, painting
/// `c` over each of its points in order; points off the canvas are skipped.
pub fn stroke_line(px: &mut [u8], w: u32, h: u32, x0: i32, y0: i32, x1: i32, y1: i32, c: [u8; 4])
    requires
        old(px)@.len() <= u32::MAX,
        4 * abs_int(x1 - x0) <= i32::MAX,
        4 * abs_int(y1 - y0) <= i32::MAX,
    ensures
        exists|n: nat| #[trigger] line_ends_at(x0 as int, y0 as int, x1 as int, y1 as int, n)
            && final(px)@ == line_painted(old(px)@, w as int, x0 as int, y0 as int, x1 as int, y1 as int, n + 1, c),
{
    let ghost gx0 = x0 as int;
    let ghost gy0 = y0 as int;
    let ghost gx1 = x1 as int;
    let ghost gy1 = y1 as int;
    let ghost a = abs_int(gx1 - gx0);
    let ghost b = abs_int(gy1 - gy0);
    let ghost old_px = px@;
    let mut x = x0;
    let mut y = y0;
    let dx = if x1 >= x0 { x1 - x0 } else { x0 - x1 };
    let sx: i32 = if x0 < x1 { 1 } else { -1 };
    let dy = if y1 >= y0 { -(y1 - y0) } else { -(y0 - y1) };
    let sy: i32 = if y0 < y1 { 1 } else { -1 };
    let mut err = dx + dy;
    let ghost mut k: nat = 0;
    let ghost mut u: int = 0;
    let ghost mut v: int = 0;
    let ghost mut ub: int = 0;
    let ghost mut va: int = 0;
    loop
        invariant_except_break
            gx0 == x0,
            gy0 == y0,
            gx1 == x1,
            gy1 == y1,
            a == abs_int(gx1 - gx0),
            b == abs_int(gy1 - gy0),
            dx == a,
            dy == -b,
            sx == step_dir(gx0, gx1),
            sy == step_dir(gy0, gy1),
            4 * a <= i32::MAX,
            4 * b <= i32::MAX,
            (x as int, y as int, err as int) == line_state(gx0, gy0, gx1, gy1, k),
            forall|j: nat| j < k ==> !(#[trigger] line_state(gx0, gy0, gx1, gy1, j).0 == gx1
                && line_state(gx0, gy0, gx1, gy1, j).1 == gy1),
            px@ == line_painted(old_px, w as int, gx0, gy0, gx1, gy1, k, c),
            old_px == old(px)@,
            old_px.len() <= u32::MAX,
            px@.len() == old_px.len(),
            0 <= u <= a,
            0 <= v <= b,
            u == progress(gx0, x as int, sx as int),
            v == progress(gy0, y as int, sy as int),
            ub == u * b,
            va == v * a,
            err == a - b - ub + va,
            -2 * b <= err <= 2 * a,
        ensures
            exists|n: nat| #[trigger] line_ends_at(gx0, gy0, gx1, gy1, n)
                && px@ == line_painted(old_px, w as int, gx0, gy0, gx1, gy1, n + 1, c),
        decreases (a - u) + (b - v),
    {
        proof {
            assert(line_painted(old_px, w as int, gx0, gy0, gx1, gy1, k + 1, c)
                == put_spec(px@, w as int, x as int, y as int, c));
        }
        let ghost before = px@;
        put(px, w, x, y, c);
        proof {
            if crate::canvas::in_canvas(before.len() as int, w as int, x as int, y as int) {
                crate::canvas::lemma_pixel_in_bounds(before.len() as int, w as int, x as int, y as int, 0);
                crate::canvas::lemma_pixel_in_bounds(before.len() as int, w as int, x as int, y as int, 3);
            }
            assert(px@.len() == before.len());
        }
        if x == x1 && y == y1 {
            proof {
                let st = line_state(gx0, gy0, gx1, gy1, k);
                assert(st.0 == x as int);
                assert(st.1 == y as int);
                assert(st.0 == gx1 && st.1 == gy1);
                assert forall|j: nat| j < k implies !(#[trigger] line_state(gx0, gy0, gx1, gy1, j).0 == gx1
                    && line_state(gx0, gy0, gx1, gy1, j).1 == gy1) by {
                }
                assert(line_ends_at(gx0, gy0, gx1, gy1, k));
            }
            break;
        }
        let ghost s0 = (x as int, y as int, err as int);
        let e2 = 2 * err;
        let ghost e2g = e2 as int;
        proof {
            // Neither axis overshoots its end.
            if u == a {
                assert(v < b);
                assert(ub == a * b);
                assert(va <= a * b - a) by (nonlinear_arith)
                    requires va == v * a, v <= b - 1, a >= 0;
                assert(e2g < -b);
            }
            if v == b {
                assert(u < a);
                assert(va == b * a);
                assert(ub <= a * b - b) by (nonlinear_arith)
                    requires ub == u * b, u <= a - 1, b >= 0;
                assert(e2g > a);
            }
            assert(e2g >= -b ==> u < a);
            assert(e2g <= a ==> v < b);
        }
        if e2 >= dy {
            assert(u < a);
            if sx == 1 {
                assert(gx0 < gx1 && a == gx1 - gx0 && u == x - gx0);
            } else {
                assert(gx0 >= gx1 && a == gx0 - gx1 && u == gx0 - x);
            }
            err += dy;
            x += sx;
            proof {
                u = u + 1;
                ub = ub + b;
                assert(ub == u * b) by (nonlinear_arith)
                    requires ub == (u - 1) * b + b;
            }
        }
        if e2 <= dx {
            assert(v < b);
            if sy == 1 {
                assert(gy0 < gy1 && b == gy1 - gy0 && v == y - gy0);
            } else {
                assert(gy0 >= gy1 && b == gy0 - gy1 && v == gy0 - y);
            }
            err += dx;
            y += sy;
            proof {
                v = v + 1;
                va = va + a;
                assert(va == v * a) by (nonlinear_arith)
                    requires va == (v - 1) * a + a;
            }
        }
        proof {
            assert(line_state(gx0, gy0, gx1, gy1, k + 1) == line_next(s0, a, b, sx as int, sy as int));
            k = k + 1;
        }
    }
}


/// Before the line reaches its end, the algorithm's error term is the
/// scaled distance from the ideal line, and the position stays between the
/// endpoints.
proof fn lemma_line_invariant(x0: int, y0: int, x1: int, y1: int, k: nat)
    requires
        forall|j: nat| j < k ==> !(#[trigger] line_state(x0, y0, x1, y1, j).0 == x1 && line_state(x0, y0, x1, y1, j).1 == y1),
    ensures
        ({
            let a = abs_int(x1 - x0);
            let b = abs_int(y1 - y0);
            let s = line_state(x0, y0, x1, y1, k);
            let u = progress(x0, s.0, step_dir(x0, x1));
            let v = progress(y0, s.1, step_dir(y0, y1));
            &&& 0 <= u <= a
            &&& 0 <= v <= b
            &&& s.2 == a - b - u * b + v * a
            &&& -2 * b <= s.2 <= 2 * a
        }),
    decreases k,
{
    let a = abs_int(x1 - x0);
    let b = abs_int(y1 - y0);
    if k > 0 {
        let p = (k - 1) as nat;
        lemma_line_invariant(x0, y0, x1, y1, p);
        let s0 = line_state(x0, y0, x1, y1, p);
        let u = progress(x0, s0.0, step_dir(x0, x1));
        let v = progress(y0, s0.1, step_dir(y0, y1));
        assert(!(s0.0 == x1 && s0.1 == y1));
        let e2 = 2 * s0.2;
        if u == a {
            assert(v < b);
            assert(u * b == a * b);
            assert(v * a <= a * b - a) by (nonlinear_arith)
                requires v <= b - 1, a >= 0;
        }
        if v == b {
            assert(u < a);
            assert(v * a == b * a);
            assert(u * b <= a * b - b) by (nonlinear_arith)
                requires u <= a - 1, b >= 0;
        }
        let u1 = if e2 >= -b { u + 1 } else { u };
        let v1 = if e2 <= a { v + 1 } else { v };
        let db = if e2 >= -b { b } else { 0 };
        let da = if e2 <= a { a } else { 0 };
        assert(u1 * b == u * b + db) by (nonlinear_arith)
            requires u1 == u + 1 && db == b || u1 == u && db == 0;
        assert(v1 * a == v * a + da) by (nonlinear_arith)
            requires v1 == v + 1 && da == a || v1 == v && da == 0;
        let t = line_state(x0, y0, x1, y1, k);
        assert(t == line_next(s0, a, b, step_dir(x0, x1), step_dir(y0, y1)));
        assert(progress(x0, t.0, step_dir(x0, x1)) == u1);
        assert(progress(y0, t.1, step_dir(y0, y1)) == v1);
        assert(t.2 == s0.2 - db + da);
        assert(u1 <= a);
        assert(v1 <= b);
    }
}

/// The line never leaves the box spanned by its endpoints, and each step
/// moves by one pixel along x, along y, or both, toward the end.
pub proof fn lemma_line_steps_toward_end(x0: int, y0: int, x1: int, y1: int, n: nat, k: nat)
    requires
        line_ends_at(x0, y0, x1, y1, n),
        k < n,
    ensures
        ({
            let s = line_state(x0, y0, x1, y1, k);
            let t = line_state(x0, y0, x1, y1, k + 1);
            let sx = step_dir(x0, x1);
            let sy = step_dir(y0, y1);
            &&& 0 <= progress(x0, s.0, sx) <= abs_int(x1 - x0)
            &&& 0 <= progress(y0, s.1, sy) <= abs_int(y1 - y0)
            &&& t.0 - s.0 == 0 || t.0 - s.0 == sx
            &&& t.1 - s.1 == 0 || t.1 - s.1 == sy
            &&& t != s
        }),
{
    assert forall|j: nat| j < k implies !(#[trigger] line_state(x0, y0, x1, y1, j).0 == x1 && line_state(x0, y0, x1, y1, j).1 == y1) by {
        assert(j < n);
    }
    lemma_line_invariant(x0, y0, x1, y1, k);
    let s = line_state(x0, y0, x1, y1, k);
    assert(!(s.0 == x1 && s.1 == y1));
    let a = abs_int(x1 - x0);
    let b = abs_int(y1 - y0);
    assert(line_state(x0, y0, x1, y1, k + 1) == line_next(s, a, b, step_dir(x0, x1), step_dir(y0, y1)));
}

} // verus!
