use retrox::platform::{Event, Key, MouseButton, PixelBuffer};
use retrox::window_events::{
    bgr_frame, cocoa_event, cocoa_key, win32_event, win32_key, x11_key, CocoaEvent, WindowSize, X11Event,
    WM_CLOSE, WM_DESTROY, WM_KEYDOWN, WM_LBUTTONDOWN, WM_MBUTTONDOWN, WM_MOUSEMOVE, WM_MOUSEWHEEL,
    WM_RBUTTONDOWN, WM_SIZE,
};

fn is_resize(ev: &Option<Event>, w: u32, h: u32) -> bool {
    matches!(ev, Some(Event::Resize { width, height }) if *width == w && *height == h)
}

// ─── Window size ───────────────────────────────────────────

#[test]
fn resize_only_when_the_size_changes() {
    let mut s = WindowSize::new(800, 600);
    assert!(s.resized(800, 600).is_none());
    assert!(is_resize(&s.resized(1024, 768), 1024, 768));
    assert_eq!((s.width, s.height), (1024, 768));
    assert!(s.resized(1024, 768).is_none());
}

#[test]
fn toplevel_configure_of_zero_changes_nothing() {
    let mut s = WindowSize::new(800, 600);
    assert!(s.configured(0, 500).is_none());
    assert!(s.configured(640, -1).is_none());
    assert_eq!((s.width, s.height), (800, 600));
    assert!(is_resize(&s.configured(640, 480), 640, 480));
    assert!(s.configured(640, 480).is_none());
}

// ─── X11 ───────────────────────────────────────────────────

#[test]
fn x11_keys_are_input_codes_offset_by_eight() {
    assert_eq!(x11_key(111), Key::Up);
    assert_eq!(x11_key(116), Key::Down);
    assert_eq!(x11_key(113), Key::Left);
    assert_eq!(x11_key(114), Key::Right);
    assert_eq!(x11_key(112), Key::PageUp);
    assert_eq!(x11_key(117), Key::PageDown);
    assert_eq!(x11_key(36), Key::Enter);
    assert_eq!(x11_key(9), Key::Escape);
    assert_eq!(x11_key(22), Key::Backspace);
    assert_eq!(x11_key(38), Key::Char(' '));
    assert_eq!(x11_key(1), Key::Char(' '));
}

#[test]
fn x11_buttons_and_wheel() {
    let mut s = WindowSize::new(800, 600);
    let ev = s.x11_event(X11Event::ButtonPress { button: 1, x: 10, y: 20 }, 7);
    assert!(matches!(ev, Some(Event::MouseClick { x: 10, y: 20, button: MouseButton::Left })));
    let ev = s.x11_event(X11Event::ButtonPress { button: 2, x: 1, y: 2 }, 7);
    assert!(matches!(ev, Some(Event::MouseClick { button: MouseButton::Middle, .. })));
    let ev = s.x11_event(X11Event::ButtonPress { button: 3, x: 1, y: 2 }, 7);
    assert!(matches!(ev, Some(Event::MouseClick { button: MouseButton::Right, .. })));
    assert!(matches!(s.x11_event(X11Event::ButtonPress { button: 4, x: 0, y: 0 }, 7), Some(Event::Scroll(-3))));
    assert!(matches!(s.x11_event(X11Event::ButtonPress { button: 5, x: 0, y: 0 }, 7), Some(Event::Scroll(3))));
    assert!(s.x11_event(X11Event::ButtonPress { button: 8, x: 0, y: 0 }, 7).is_none());
}

#[test]
fn x11_negative_coordinates_wrap() {
    let mut s = WindowSize::new(800, 600);
    let ev = s.x11_event(X11Event::MotionNotify { x: -1, y: 5 }, 7);
    assert!(matches!(ev, Some(Event::MouseMove { x: 4294967295, y: 5 })));
}

#[test]
fn x11_configure_expose_and_close() {
    let mut s = WindowSize::new(800, 600);
    assert!(s.x11_event(X11Event::ConfigureNotify { width: 800, height: 600 }, 7).is_none());
    assert!(is_resize(&s.x11_event(X11Event::ConfigureNotify { width: 1024, height: 768 }, 7), 1024, 768));
    assert!(is_resize(&s.x11_event(X11Event::Expose { count: 0 }, 7), 1024, 768));
    assert!(s.x11_event(X11Event::Expose { count: 2 }, 7).is_none());
    assert!(matches!(s.x11_event(X11Event::ClientMessage { data32: Some(7) }, 7), Some(Event::Close)));
    assert!(s.x11_event(X11Event::ClientMessage { data32: Some(8) }, 7).is_none());
    assert!(s.x11_event(X11Event::ClientMessage { data32: None }, 7).is_none());
    assert!(s.x11_event(X11Event::Other, 7).is_none());
    let ev = s.x11_event(X11Event::KeyPress { keycode: 9 }, 7);
    assert!(matches!(ev, Some(Event::KeyPress(Key::Escape))));
}

// ─── Win32 ─────────────────────────────────────────────────

#[test]
fn win32_close_and_size() {
    assert!(matches!(win32_event(WM_CLOSE, 0, 0), Some(Event::Close)));
    assert!(matches!(win32_event(WM_DESTROY, 0, 0), Some(Event::Close)));
    assert!(is_resize(&win32_event(WM_SIZE, 0, (600 << 16) | 800), 800, 600));
    assert!(win32_event(WM_SIZE, 0, 600 << 16).is_none());
    assert!(win32_event(WM_SIZE, 0, 800).is_none());
    // WM_PAINT is not the browser's.
    assert!(win32_event(0x000F, 0, 0).is_none());
}

#[test]
fn win32_virtual_keys() {
    assert_eq!(win32_key(0x26), Key::Up);
    assert_eq!(win32_key(0x28), Key::Down);
    assert_eq!(win32_key(0x25), Key::Left);
    assert_eq!(win32_key(0x27), Key::Right);
    assert_eq!(win32_key(0x21), Key::PageUp);
    assert_eq!(win32_key(0x22), Key::PageDown);
    assert_eq!(win32_key(0x0D), Key::Enter);
    assert_eq!(win32_key(0x1B), Key::Escape);
    assert_eq!(win32_key(0x08), Key::Backspace);
    assert_eq!(win32_key(0x41), Key::Char(' '));
    assert!(matches!(win32_event(WM_KEYDOWN, 0x0D, 0), Some(Event::KeyPress(Key::Enter))));
}

#[test]
fn win32_pointer_positions() {
    let lp: isize = (40 << 16) | 30;
    assert!(matches!(win32_event(WM_MOUSEMOVE, 0, lp), Some(Event::MouseMove { x: 30, y: 40 })));
    assert!(matches!(
        win32_event(WM_LBUTTONDOWN, 0, lp),
        Some(Event::MouseClick { x: 30, y: 40, button: MouseButton::Left })
    ));
    assert!(matches!(
        win32_event(WM_RBUTTONDOWN, 0, lp),
        Some(Event::MouseClick { x: 30, y: 40, button: MouseButton::Right })
    ));
    assert!(matches!(
        win32_event(WM_MBUTTONDOWN, 0, lp),
        Some(Event::MouseClick { x: 30, y: 40, button: MouseButton::Middle })
    ));
    // A position left of or above the window comes as the low and high 16 bits.
    assert!(matches!(win32_event(WM_MOUSEMOVE, 0, -1), Some(Event::MouseMove { x: 65535, y: 65535 })));
}

#[test]
fn win32_wheel_notches() {
    // One notch away from the user scrolls up three lines.
    assert!(matches!(win32_event(WM_MOUSEWHEEL, 120 << 16, 0), Some(Event::Scroll(-3))));
    // Two notches toward the user (-240 as a 16-bit number) scroll down six.
    assert!(matches!(win32_event(WM_MOUSEWHEEL, (65536 - 240) << 16, 0), Some(Event::Scroll(6))));
    // Less than a notch counts as none.
    assert!(matches!(win32_event(WM_MOUSEWHEEL, 60 << 16, 0), Some(Event::Scroll(0))));
    assert!(matches!(win32_event(WM_MOUSEWHEEL, (65536 - 119) << 16, 0), Some(Event::Scroll(0))));
    // The low word (key states) does not matter.
    assert!(matches!(win32_event(WM_MOUSEWHEEL, (360 << 16) | 0x8, 0), Some(Event::Scroll(-9))));
}

// ─── Cocoa ─────────────────────────────────────────────────

#[test]
fn cocoa_keys_and_events() {
    assert_eq!(cocoa_key(126), Key::Up);
    assert_eq!(cocoa_key(125), Key::Down);
    assert_eq!(cocoa_key(123), Key::Left);
    assert_eq!(cocoa_key(124), Key::Right);
    assert_eq!(cocoa_key(116), Key::PageUp);
    assert_eq!(cocoa_key(121), Key::PageDown);
    assert_eq!(cocoa_key(36), Key::Enter);
    assert_eq!(cocoa_key(53), Key::Escape);
    assert_eq!(cocoa_key(51), Key::Backspace);
    assert_eq!(cocoa_key(0), Key::Char(' '));
    assert!(matches!(cocoa_event(CocoaEvent::KeyDown { keycode: 53 }), Some(Event::KeyPress(Key::Escape))));
    assert!(matches!(
        cocoa_event(CocoaEvent::LeftMouseDown { x: 3, y: 4 }),
        Some(Event::MouseClick { x: 3, y: 4, button: MouseButton::Left })
    ));
    assert!(matches!(
        cocoa_event(CocoaEvent::RightMouseDown { x: 3, y: 4 }),
        Some(Event::MouseClick { x: 3, y: 4, button: MouseButton::Right })
    ));
    assert!(matches!(cocoa_event(CocoaEvent::MouseMoved { x: 9, y: 8 }), Some(Event::MouseMove { x: 9, y: 8 })));
    assert!(matches!(cocoa_event(CocoaEvent::ScrollWheel { delta: -2 }), Some(Event::Scroll(-2))));
    assert!(cocoa_event(CocoaEvent::ScrollWheel { delta: 0 }).is_none());
    assert!(cocoa_event(CocoaEvent::Other).is_none());
}

// ─── Frames ────────────────────────────────────────────────

#[test]
fn bgr_frames_swap_red_and_blue() {
    let mut b = PixelBuffer::new(2, 1);
    b.set_pixel(0, 0, 1, 2, 3, 4);
    b.set_pixel(1, 0, 10, 20, 30, 40);
    assert_eq!(bgr_frame(&b, 0), vec![3, 2, 1, 0, 30, 20, 10, 0]);
    assert_eq!(bgr_frame(&b, 0xFF), vec![3, 2, 1, 255, 30, 20, 10, 255]);
    assert!(bgr_frame(&PixelBuffer::new(0, 5), 0).is_empty());
}
