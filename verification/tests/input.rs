use tachibana::game::{
    EventHandleResult, InputEvent, InputState, LogicalSize, MouseButton, OsEvent, Point,
};

#[test]
fn fresh_snapshot_has_the_pointer_at_the_origin() {
    let s = InputState::new(LogicalSize::new(1280, 720));
    assert_eq!(s.window_size, LogicalSize { width: 1280, height: 720 });
    assert_eq!(s.mouse_position, Point { x: 0, y: 0 });
}

#[test]
fn quit_asks_for_exit_and_changes_nothing() {
    let mut s = InputState::new(LogicalSize::new(10, 20));
    let before = s;
    assert_eq!(s.handle_event(&OsEvent::Quit), Some(EventHandleResult::Exit));
    assert_eq!(s, before);
}

#[test]
fn resize_sets_the_window_size() {
    let mut s = InputState::new(LogicalSize::new(10, 20));
    let r = s.handle_event(&OsEvent::Resized { width: 800, height: 600 });
    assert_eq!(r, Some(EventHandleResult::Resized(LogicalSize::new(800, 600))));
    assert_eq!(s.window_size, LogicalSize::new(800, 600));
    assert_eq!(s.mouse_position, Point::new(0, 0));
}

#[test]
fn negative_dimension_counts_as_zero() {
    let mut s = InputState::new(LogicalSize::new(10, 20));
    let r = s.handle_event(&OsEvent::Resized { width: -1, height: i32::MIN });
    assert_eq!(r, Some(EventHandleResult::Resized(LogicalSize::new(0, 0))));
    assert_eq!(s.window_size, LogicalSize::new(0, 0));
    let r = s.handle_event(&OsEvent::Resized { width: i32::MAX, height: 0 });
    assert_eq!(r, Some(EventHandleResult::Resized(LogicalSize::new(2147483647, 0))));
}

#[test]
fn pointer_events_set_the_pointer_position() {
    let mut s = InputState::new(LogicalSize::new(10, 20));
    assert_eq!(
        s.handle_event(&OsEvent::MouseMotion { x: 3, y: -4 }),
        Some(EventHandleResult::Input(InputEvent::MouseMove(Point::new(3, -4))))
    );
    assert_eq!(s.mouse_position, Point::new(3, -4));
    assert_eq!(
        s.handle_event(&OsEvent::MouseButtonDown { button: MouseButton::Left, x: 5, y: 6 }),
        Some(EventHandleResult::Input(InputEvent::MouseDown(MouseButton::Left, Point::new(5, 6))))
    );
    assert_eq!(s.mouse_position, Point::new(5, 6));
    assert_eq!(
        s.handle_event(&OsEvent::MouseButtonUp { button: MouseButton::Right, x: 7, y: 8 }),
        Some(EventHandleResult::Input(InputEvent::MouseUp(MouseButton::Right, Point::new(7, 8))))
    );
    assert_eq!(s.mouse_position, Point::new(7, 8));
    assert_eq!(s.window_size, LogicalSize::new(10, 20));
}

#[test]
fn keys_pass_through_and_change_nothing() {
    let mut s = InputState::new(LogicalSize::new(10, 20));
    let before = s;
    assert_eq!(
        s.handle_event(&OsEvent::KeyDown { keycode: 27 }),
        Some(EventHandleResult::Input(InputEvent::KeyDown(27)))
    );
    assert_eq!(
        s.handle_event(&OsEvent::KeyUp { keycode: -5 }),
        Some(EventHandleResult::Input(InputEvent::KeyUp(-5)))
    );
    assert_eq!(s, before);
}

#[test]
fn other_events_are_ignored() {
    let mut s = InputState::new(LogicalSize::new(10, 20));
    let before = s;
    assert_eq!(s.handle_event(&OsEvent::Other), None);
    assert_eq!(s, before);
}
