use pawdesk::platform::{
    clamp_position_to_work_area, clamp_top_left_to_work_area, cursor_inside_launcher, detect_edge,
    rect_from_win, set_launcher_rect, LauncherBounds, Rect,
};
use pawdesk::state::Edge;

fn work() -> Rect {
    Rect { x: 0, y: 0, width: 1920, height: 1080 }
}

#[test]
fn rect_contains_and_center() {
    let r = Rect { x: 10, y: 20, width: 30, height: 40 };
    assert!(r.contains(10, 20));
    assert!(!r.contains(40, 20));
    assert!(r.contains(39, 59));
    assert!(!r.contains(39, 60));
    assert_eq!(r.center(), (25, 40));
    assert_eq!(Rect { x: 0, y: 0, width: -3, height: 5 }.center(), (-1, 2));
    assert_eq!(rect_from_win(5, 6, 15, 26), Rect { x: 5, y: 6, width: 10, height: 20 });
}

#[test]
fn clamps_keep_window_on_screen() {
    assert_eq!(clamp_top_left_to_work_area(-500, 2000, 128, 128, work()), (8, 1080 - 128 - 8));
    assert_eq!(clamp_top_left_to_work_area(300, 400, 128, 128, work()), (300, 400));
    // A window as large as the work area falls back to keeping 40 px visible.
    assert_eq!(clamp_top_left_to_work_area(0, 0, 1920, 1080, work()), (0, 0));
    assert_eq!(clamp_top_left_to_work_area(5000, -5000, 1920, 1080, work()), (1880, -1040));
    let small = Rect { x: 0, y: 0, width: 50, height: 50 };
    assert_eq!(clamp_top_left_to_work_area(5000, -3000, 100, 100, small), (10, -60));
    let far = Rect { x: i32::MAX - 1000, y: 0, width: 900, height: 1080 };
    assert_eq!(clamp_top_left_to_work_area(0, 0, 128, 128, far), (i32::MAX - 992, 8));
    assert_eq!(clamp_position_to_work_area(-5, 5000, 100, 100, work()), (0, 980));
    assert_eq!(clamp_position_to_work_area(3000, -1, 3000, 100, work()), (0, 0));
}

#[test]
fn launcher_outside_click_bounds() {
    let mut b = LauncherBounds { left: 0, top: 0, right: 0, bottom: 0 };
    assert!(cursor_inside_launcher(&b, Some((500, 500))));
    set_launcher_rect(&mut b, &Rect { x: 100, y: 200, width: 50, height: 50 });
    assert!(cursor_inside_launcher(&b, Some((120, 210))));
    assert!(!cursor_inside_launcher(&b, Some((150, 210))));
    assert!(cursor_inside_launcher(&b, None));
    set_launcher_rect(&mut b, &Rect { x: i32::MAX - 1, y: 0, width: 10, height: 10 });
    assert_eq!(b.right, i32::MAX);
}

#[test]
fn edge_detection() {
    let pet = |x, y| Rect { x, y, width: 128, height: 128 };
    assert_eq!(detect_edge(pet(10, 500), work()), Some(Edge::Left));
    assert_eq!(detect_edge(pet(1920 - 128 - 5, 500), work()), Some(Edge::Right));
    assert_eq!(detect_edge(pet(500, 3), work()), Some(Edge::Top));
    assert_eq!(detect_edge(pet(500, 1080 - 128), work()), Some(Edge::Bottom));
    assert_eq!(detect_edge(pet(800, 400), work()), None);
    assert_eq!(detect_edge(pet(0, 0), work()), Some(Edge::Left));
}

fn pet_at(x: i32, y: i32) -> Rect {
    Rect { x, y, width: 128, height: 128 }
}

#[test]
fn edge_detected_left() {
    let work = Rect { x: 0, y: 0, width: 1920, height: 1080 };
    assert_eq!(detect_edge(pet_at(0, 500), work), Some(Edge::Left));
}

#[test]
fn edge_detected_right() {
    let work = Rect { x: 0, y: 0, width: 1920, height: 1080 };
    assert_eq!(detect_edge(pet_at(1920 - 128, 500), work), Some(Edge::Right));
}

#[test]
fn edge_detected_top() {
    let work = Rect { x: 0, y: 0, width: 1920, height: 1080 };
    assert_eq!(detect_edge(pet_at(500, 0), work), Some(Edge::Top));
}

#[test]
fn edge_detected_bottom() {
    let work = Rect { x: 0, y: 0, width: 1920, height: 1080 };
    assert_eq!(detect_edge(pet_at(500, 1080 - 128), work), Some(Edge::Bottom));
}

#[test]
fn no_edge_when_centered() {
    let work = Rect { x: 0, y: 0, width: 1920, height: 1080 };
    assert_eq!(detect_edge(pet_at(800, 400), work), None);
}
