use unistroke::capture::{pointer_event, PointerEvent, StrokeCapture};
use unistroke::shape::Point;

fn point(x: f32, y: f32) -> Point {
    Point { x: x.to_bits(), y: y.to_bits() }
}

#[test]
fn capture_starts_idle() {
    let mut capture = StrokeCapture::new();
    assert!(!capture.is_capturing());
    assert!(!capture.is_completed());
    assert_eq!(capture.last_point(), None);
    assert_eq!(capture.take_stroke(), None);
}

#[test]
fn stroke_runs_from_down_through_moves_to_up() {
    let mut capture = StrokeCapture::new();
    capture.handle(PointerEvent::Down(point(1.0, 2.0)));
    assert!(capture.is_capturing());
    assert_eq!(capture.last_point(), Some(point(1.0, 2.0)));
    capture.handle(PointerEvent::Move(point(3.0, 4.0)));
    capture.handle(PointerEvent::Move(point(5.0, 6.0)));
    assert_eq!(capture.last_point(), Some(point(5.0, 6.0)));
    assert!(!capture.is_completed());
    assert_eq!(capture.take_stroke(), None);
    assert!(capture.is_capturing());
    capture.handle(PointerEvent::Up);
    assert!(capture.is_completed());
    assert!(!capture.is_capturing());
    assert_eq!(capture.last_point(), None);
    assert_eq!(
        capture.take_stroke(),
        Some(vec![point(1.0, 2.0), point(3.0, 4.0), point(5.0, 6.0)])
    );
    assert!(!capture.is_completed());
    assert_eq!(capture.take_stroke(), None);
}

#[test]
fn stroke_of_a_tap_holds_one_point() {
    let mut capture = StrokeCapture::new();
    capture.handle(PointerEvent::Down(point(7.0, 8.0)));
    capture.handle(PointerEvent::Up);
    assert_eq!(capture.take_stroke(), Some(vec![point(7.0, 8.0)]));
}

#[test]
fn repeated_positions_are_kept() {
    let mut capture = StrokeCapture::new();
    capture.handle(PointerEvent::Down(point(7.0, 8.0)));
    capture.handle(PointerEvent::Move(point(7.0, 8.0)));
    capture.handle(PointerEvent::Move(point(7.0, 8.0)));
    capture.handle(PointerEvent::Up);
    assert_eq!(capture.take_stroke().unwrap().len(), 3);
}

#[test]
fn moves_and_up_outside_a_stroke_change_nothing() {
    let mut capture = StrokeCapture::new();
    capture.handle(PointerEvent::Move(point(1.0, 1.0)));
    assert!(!capture.is_capturing());
    capture.handle(PointerEvent::Up);
    assert!(!capture.is_completed());
    assert_eq!(capture.take_stroke(), None);
    capture.handle(PointerEvent::Down(point(1.0, 2.0)));
    capture.handle(PointerEvent::Up);
    capture.handle(PointerEvent::Move(point(9.0, 9.0)));
    capture.handle(PointerEvent::Up);
    assert_eq!(capture.take_stroke(), Some(vec![point(1.0, 2.0)]));
}

#[test]
fn down_begins_a_new_stroke_from_any_state() {
    let mut capture = StrokeCapture::new();
    capture.handle(PointerEvent::Down(point(1.0, 2.0)));
    capture.handle(PointerEvent::Move(point(3.0, 4.0)));
    capture.handle(PointerEvent::Down(point(5.0, 6.0)));
    capture.handle(PointerEvent::Up);
    assert!(capture.is_completed());
    capture.handle(PointerEvent::Down(point(7.0, 8.0)));
    assert!(capture.is_capturing());
    capture.handle(PointerEvent::Move(point(9.0, 10.0)));
    capture.handle(PointerEvent::Up);
    assert_eq!(capture.take_stroke(), Some(vec![point(7.0, 8.0), point(9.0, 10.0)]));
}

#[test]
fn cancel_drops_the_stroke() {
    let mut capture = StrokeCapture::new();
    capture.handle(PointerEvent::Down(point(1.0, 2.0)));
    capture.handle(PointerEvent::Cancel);
    assert!(!capture.is_capturing());
    capture.handle(PointerEvent::Move(point(3.0, 4.0)));
    capture.handle(PointerEvent::Up);
    assert_eq!(capture.take_stroke(), None);
    capture.handle(PointerEvent::Down(point(1.0, 2.0)));
    capture.handle(PointerEvent::Up);
    capture.handle(PointerEvent::Cancel);
    assert!(!capture.is_completed());
    assert_eq!(capture.take_stroke(), None);
}

#[test]
fn release_counts_before_all_else() {
    let p = point(1.0, 2.0);
    assert_eq!(pointer_event(true, true, Some(p), Some((true, p)), true), Some(PointerEvent::Up));
    assert_eq!(pointer_event(false, false, None, None, true), Some(PointerEvent::Up));
}

#[test]
fn mouse_press_with_a_cursor_is_down_then_move() {
    let p = point(1.0, 2.0);
    let q = point(3.0, 4.0);
    assert_eq!(pointer_event(true, true, Some(p), None, false), Some(PointerEvent::Down(p)));
    assert_eq!(pointer_event(true, false, Some(p), None, false), Some(PointerEvent::Down(p)));
    assert_eq!(pointer_event(false, true, Some(q), None, false), Some(PointerEvent::Move(q)));
}

#[test]
fn mouse_press_without_a_cursor_says_nothing() {
    let p = point(1.0, 2.0);
    assert_eq!(pointer_event(true, true, None, None, false), None);
    assert_eq!(pointer_event(false, true, None, None, false), None);
    assert_eq!(pointer_event(true, true, None, Some((true, p)), false), None);
    assert_eq!(pointer_event(false, true, None, Some((false, p)), false), None);
}

#[test]
fn mouse_counts_before_touch() {
    let p = point(1.0, 2.0);
    let q = point(3.0, 4.0);
    assert_eq!(pointer_event(true, true, Some(p), Some((false, q)), false), Some(PointerEvent::Down(p)));
    assert_eq!(pointer_event(false, true, Some(p), Some((true, q)), false), Some(PointerEvent::Move(p)));
}

#[test]
fn touch_is_down_when_it_began_and_move_after() {
    let p = point(1.0, 2.0);
    assert_eq!(pointer_event(false, false, None, Some((true, p)), false), Some(PointerEvent::Down(p)));
    assert_eq!(pointer_event(false, false, Some(p), Some((false, p)), false), Some(PointerEvent::Move(p)));
}

#[test]
fn idle_input_says_nothing() {
    assert_eq!(pointer_event(false, false, None, None, false), None);
    assert_eq!(pointer_event(false, false, Some(point(1.0, 2.0)), None, false), None);
}
