//! Layout of the comic speech bubble shown with the idle yawn: the pet
//! stays where it is and the bubble grows to its right, or to its left when
//! the work area has no room on the right.
use vstd::prelude::*;

use crate::platform::{fits_i32, Rect};

verus! {

/// Text of the yawn bubble.
pub const YAWN_TEXT: &'static str = "困死我了…";
/// Bubble width in logical pixels.
pub const BUBBLE_LOGICAL_W: u32 = 112;
/// Bubble height in logical pixels.
pub const BUBBLE_LOGICAL_H: u32 = 44;
/// Gap between pet and bubble in logical pixels.
pub const BUBBLE_GAP: u32 = 6;
/// Room kept free between the bubble and the right edge of the work area.
pub const RIGHT_MARGIN: i32 = 4;

/// Where the yawn window goes and where the pet and the bubble sit in it
/// (physical pixels).
#[derive(Debug, Clone, Copy)]
pub struct YawnPlacement {
    pub window: Rect,
    pub pet_local: (i32, i32),
    pub bubble_local: (i32, i32),
    pub bubble_w: i32,
    pub bubble_h: i32,
    pub bubble_on_left: bool,
}

/// `v / 8` rounded toward zero, as Rust's integer division does.
pub open spec fn div8_toward_zero(v: int) -> int {
    if v >= 0 { v / 8 } else { -((-v) / 8) }
}

/// Height in the bubble column where the bubble's top goes: an eighth of
/// the pet height, at least 4.
pub open spec fn head_offset(pet_h: int) -> int {
    if div8_toward_zero(pet_h) >= 4 { div8_toward_zero(pet_h) } else { 4 }
}

/// Whether a `bw`-wide bubble fits right of the pet (after `gap`) and
/// `RIGHT_MARGIN` inside the work area.
pub open spec fn bubble_fits_right(pet: Rect, work: Rect, bw: int, gap: int) -> bool {
    pet.x + pet.width + gap + bw <= work.x + work.width - RIGHT_MARGIN
}

/// The placement for a pet at `pet` in `work`, with a `bw`×`bh` bubble
/// `gap` away from the pet.
pub open spec fn yawn_placement(pet: Rect, work: Rect, bw: int, bh: int, gap: int) -> YawnPlacement {
    let head_y = head_offset(pet.height as int);
    let on_left = !bubble_fits_right(pet, work, bw, gap);
    let win_h = if pet.height >= bh + head_y { pet.height as int } else { bh + head_y };
    let (win_x, pet_lx, bubble_lx) = if on_left {
        (pet.x - gap - bw, gap + bw, 0int)
    } else {
        (pet.x as int, 0int, pet.width + gap)
    };
    YawnPlacement {
        window: Rect { x: win_x as i32, y: pet.y, width: (pet.width + gap + bw) as i32, height: win_h as i32 },
        pet_local: (pet_lx as i32, 0),
        bubble_local: (bubble_lx as i32, head_y as i32),
        bubble_w: bw as i32,
        bubble_h: bh as i32,
        bubble_on_left: on_left,
    }
}

/// Place the yawn bubble beside the pet. The pet is pinned: the bubble
/// prefers the right side so the window origin does not move, and flips
/// to the left when it would leave the work area. `bw`, `bh` and `gap` are
/// the bubble size and gap in physical pixels.
pub fn place_yawn_bubble(pet: Rect, work: Rect, bw: i32, bh: i32, gap: i32) -> (p: YawnPlacement)
    requires
        fits_i32(pet.x + pet.width + gap + bw),
        fits_i32(pet.x + pet.width),
        fits_i32(pet.x + pet.width + gap),
        fits_i32(work.x + work.width),
        fits_i32(work.x + work.width - RIGHT_MARGIN),
        fits_i32(pet.x - gap),
        fits_i32(pet.x - gap - bw),
        fits_i32(pet.width + gap),
        fits_i32(pet.width + gap + bw),
        fits_i32(gap + bw),
        fits_i32(bh + head_offset(pet.height as int)),
    ensures
        p == yawn_placement(pet, work, bw as int, bh as int, gap as int),
{
    let eighth = pet.height / 8;
    let head_y = if eighth >= 4 { eighth } else { 4 };
    let fits_right = pet.x + pet.width + gap + bw <= work.x + work.width - RIGHT_MARGIN;
    let bubble_on_left = !fits_right;
    let win_h = if pet.height >= bh + head_y { pet.height } else { bh + head_y };
    let (win_x, pet_lx, bubble_lx) = if bubble_on_left {
        (pet.x - gap - bw, gap + bw, 0)
    } else {
        (pet.x, 0, pet.width + gap)
    };
    YawnPlacement {
        window: Rect { x: win_x, y: pet.y, width: pet.width + gap + bw, height: win_h },
        pet_local: (pet_lx, 0),
        bubble_local: (bubble_lx, head_y),
        bubble_w: bw,
        bubble_h: bh,
        bubble_on_left,
    }
}


/// The yawn never moves the pet: inside the yawn window the pet sits where
/// it stood on screen, and the bubble lies beside it, `gap` away, without
/// covering it.
pub proof fn lemma_yawn_pins_pet(pet: Rect, work: Rect, bw: int, bh: int, gap: int)
    requires
        fits_i32(bw),
        fits_i32(bh),
        fits_i32(pet.x - gap - bw),
        fits_i32(pet.width + gap),
        fits_i32(pet.width + gap + bw),
        fits_i32(gap + bw),
        fits_i32(bh + head_offset(pet.height as int)),
    ensures
        ({
            let p = yawn_placement(pet, work, bw, bh, gap);
            &&& p.window.x + p.pet_local.0 == pet.x
            &&& p.window.y + p.pet_local.1 == pet.y
            &&& p.bubble_on_left ==> p.bubble_local.0 + p.bubble_w + gap == p.pet_local.0
            &&& !p.bubble_on_left ==> p.bubble_local.0 == p.pet_local.0 + pet.width + gap
            &&& p.window.height >= pet.height
            &&& p.window.height >= p.bubble_local.1 + p.bubble_h
        }),
{
}

/// The bubble stays on the right, and the window origin stays put, exactly
/// when it fits inside the work area there.
pub proof fn lemma_yawn_prefers_right(pet: Rect, work: Rect, bw: int, bh: int, gap: int)
    ensures
        ({
            let p = yawn_placement(pet, work, bw, bh, gap);
            &&& !p.bubble_on_left <==> bubble_fits_right(pet, work, bw, gap)
            &&& !p.bubble_on_left ==> p.window.x == pet.x
        }),
{
}

} // verus!
