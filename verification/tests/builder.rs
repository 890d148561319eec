use tachibana::game::{Builder, LogicalSize};

#[test]
fn builder_defaults() {
    let b = Builder::new();
    assert_eq!(b.size(), LogicalSize::new(1280, 720));
    assert_eq!(b.title(), "Tachibana");
    let d = Builder::default();
    assert_eq!(d.size(), LogicalSize::new(1280, 720));
    assert_eq!(d.title(), "Tachibana");
}

#[test]
fn builder_setters_change_one_option_each() {
    let b = Builder::new().inner_size(LogicalSize::new(640, 480));
    assert_eq!(b.size(), LogicalSize::new(640, 480));
    assert_eq!(b.title(), "Tachibana");
    let b = b.window_title("Demo");
    assert_eq!(b.size(), LogicalSize::new(640, 480));
    assert_eq!(b.title(), "Demo");
    let b = b.window_title("").inner_size(LogicalSize::new(0, 0));
    assert_eq!(b.size(), LogicalSize::new(0, 0));
    assert_eq!(b.title(), "");
}
