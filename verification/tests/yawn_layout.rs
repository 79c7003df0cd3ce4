use pawdesk::platform::Rect;
use pawdesk::yawn::{place_yawn_bubble, BUBBLE_GAP, BUBBLE_LOGICAL_H, BUBBLE_LOGICAL_W};

/// Bubble size and gap at a device pixel ratio of 1.
fn sizes() -> (i32, i32, i32) {
    (BUBBLE_LOGICAL_W as i32, BUBBLE_LOGICAL_H as i32, BUBBLE_GAP as i32)
}

#[test]
fn places_right_when_room() {
    let pet = Rect { x: 400, y: 400, width: 128, height: 128 };
    let work = Rect { x: 0, y: 0, width: 1920, height: 1080 };
    let (bw, bh, gap) = sizes();
    let p = place_yawn_bubble(pet, work, bw, bh, gap);
    assert!(!p.bubble_on_left);
    assert_eq!(p.window.x, pet.x);
    assert_eq!(p.pet_local, (0, 0));
}

#[test]
fn flips_left_near_right_edge() {
    let pet = Rect { x: 1784, y: 400, width: 128, height: 128 };
    let work = Rect { x: 0, y: 0, width: 1920, height: 1080 };
    let (bw, bh, gap) = sizes();
    let p = place_yawn_bubble(pet, work, bw, bh, gap);
    assert!(p.bubble_on_left);
    assert!(p.window.x < pet.x);
}

#[test]
fn yawn_window_geometry() {
    let work = Rect { x: 0, y: 0, width: 1920, height: 1080 };
    let pet = Rect { x: 400, y: 300, width: 128, height: 128 };
    let p = place_yawn_bubble(pet, work, 112, 44, 6);
    assert_eq!(p.window, Rect { x: 400, y: 300, width: 246, height: 128 });
    assert_eq!(p.bubble_local, (134, 16));
    assert_eq!((p.bubble_w, p.bubble_h), (112, 44));
    // Flipped: the window starts bubble + gap left of the pet.
    let pet = Rect { x: 1800, y: 300, width: 128, height: 128 };
    let p = place_yawn_bubble(pet, work, 112, 44, 6);
    assert_eq!(p.window.x, 1800 - 118);
    assert_eq!(p.pet_local, (118, 0));
    assert_eq!(p.bubble_local, (0, 16));
    // A small pet: the bubble sets the height, with its top 4 px down.
    let pet = Rect { x: 0, y: 0, width: 24, height: 24 };
    let p = place_yawn_bubble(pet, work, 112, 44, 6);
    assert_eq!(p.window.height, 48);
    assert_eq!(p.bubble_local, (30, 4));
    // Exactly fitting against the 4 px margin stays on the right.
    let pet = Rect { x: 1920 - 4 - 112 - 6 - 128, y: 0, width: 128, height: 128 };
    assert!(!place_yawn_bubble(pet, work, 112, 44, 6).bubble_on_left);
}
