//! What the native window systems report, turned into the browser's events, and frames
//! turned into the byte order those systems display.
//!
//! Each back end reads its system's event as plain numbers (key codes, button numbers,
//! message parameters, sizes) and hands them here; what comes back is an `Event`, or
//! nothing for events the browser ignores.
use vstd::prelude::*;
use crate::platform::{Event, Key, MouseButton, PixelBuffer, evdev_key_of};

verus! {

// ─── The window's size ──────────────────────────────────────

/// The frame size a back end last reported, so that a new size becomes a resize event
/// only when it differs.
#[derive(Debug, Clone, Copy, PartialEq, Eq, Structural)]
pub struct WindowSize {
    pub width: u32,
    pub height: u32,
}

impl WindowSize {
    pub fn new(width: u32, height: u32) -> (s: Self)
        ensures
            s == (WindowSize { width, height }),
    {
        WindowSize { width, height }
    }

    /// Records a frame of `width` by `height` pixels: a resize event when the size changed,
    /// nothing when it is the one recorded.
    pub fn resized(&mut self, width: u32, height: u32) -> (ev: Option<Event>)
        ensures
            ev == resize_of(*old(self), width, height),
            *final(self) == (WindowSize { width, height }),
    {
        if width != self.width || height != self.height {
            self.width = width;
            self.height = height;
            Some(Event::Resize { width, height })
        } else {
            None
        }
    }

    /// A Wayland toplevel `configure`: a size of zero in either direction leaves the choice
    /// to the client, so it changes nothing; any other size is recorded as by `resized`.
    pub fn configured(&mut self, width: i32, height: i32) -> (ev: Option<Event>)
        ensures
            width > 0 && height > 0 ==> ev == resize_of(*old(self), width as u32, height as u32)
                && *final(self) == (WindowSize { width: width as u32, height: height as u32 }),
            !(width > 0 && height > 0) ==> ev is None && *final(self) == *old(self),
    {
        if width > 0 && height > 0 {
            self.resized(width as u32, height as u32)
        } else {
            None
        }
    }
}

/// The event for a frame of `width` by `height` after `size`: a resize when they differ.
pub open spec fn resize_of(size: WindowSize, width: u32, height: u32) -> Option<Event> {
    if width != size.width || height != size.height {
        Some(Event::Resize { width, height })
    } else {
        None
    }
}

/// `v as u32` for a signed coordinate: negative values wrap to the top of the range.
pub open spec fn coord(v: int) -> u32 {
    (if v >= 0 {
        v
    } else {
        v + 0x1_0000_0000
    }) as u32
}

fn i16_coord(v: i16) -> (r: u32)
    ensures
        r == coord(v as int),
{
    if v >= 0 {
        v as u32
    } else {
        (v as i64 + 0x1_0000_0000) as u32
    }
}

// ─── X11 ────────────────────────────────────────────────────

/// The X11 events the browser reads, with the fields it reads.
pub enum X11Event {
    KeyPress { keycode: u8 },
    ButtonPress { button: u8, x: i16, y: i16 },
    MotionNotify { x: i16, y: i16 },
    ConfigureNotify { width: u16, height: u16 },
    Expose { count: u16 },
    /// A client message; `data32` is its first word when its data are 32-bit words.
    ClientMessage { data32: Option<u32> },
    Other,
}

/// The key of an X11 key code. X11 numbers keys as the Linux input layer does, offset by 8.
pub open spec fn x11_key_of(keycode: u8) -> Key {
    if keycode >= 8 {
        evdev_key_of((keycode - 8) as u32)
    } else {
        Key::Char(' ')
    }
}

/// The key of an X11 key code (standard US layout): arrows, page keys, Enter, Escape and
/// Backspace; any other key reads as a space.
pub fn x11_key(keycode: u8) -> (k: Key)
    ensures
        k == x11_key_of(keycode),
{
    match keycode {
        111 => Key::Up,
        116 => Key::Down,
        113 => Key::Left,
        114 => Key::Right,
        112 => Key::PageUp,
        117 => Key::PageDown,
        36 => Key::Enter,
        9 => Key::Escape,
        22 => Key::Backspace,
        _ => Key::Char(' '),
    }
}

/// What an X11 button press means: buttons 1, 2 and 3 are the left, middle and right
/// buttons, 4 and 5 the wheel (three lines up, three down).
pub open spec fn x11_button_of(button: u8, x: i16, y: i16) -> Option<Event> {
    if button == 1 {
        Some(Event::MouseClick { x: coord(x as int), y: coord(y as int), button: MouseButton::Left })
    } else if button == 2 {
        Some(Event::MouseClick { x: coord(x as int), y: coord(y as int), button: MouseButton::Middle })
    } else if button == 3 {
        Some(Event::MouseClick { x: coord(x as int), y: coord(y as int), button: MouseButton::Right })
    } else if button == 4 {
        Some(Event::Scroll(-3i32))
    } else if button == 5 {
        Some(Event::Scroll(3i32))
    } else {
        None
    }
}

/// The event an X11 event becomes, and the size recorded after it. A configure records
/// the new size; an expose of the last damaged region redraws at the recorded size; a
/// client message carrying the window's delete atom closes the window.
pub open spec fn x11_translation(size: WindowSize, ev: X11Event, wm_delete: u32) -> (Option<Event>, WindowSize) {
    match ev {
        X11Event::KeyPress { keycode } => (Some(Event::KeyPress(x11_key_of(keycode))), size),
        X11Event::ButtonPress { button, x, y } => (x11_button_of(button, x, y), size),
        X11Event::MotionNotify { x, y } => (Some(Event::MouseMove { x: coord(x as int), y: coord(y as int) }), size),
        X11Event::ConfigureNotify { width, height } => (
            resize_of(size, width as u32, height as u32),
            WindowSize { width: width as u32, height: height as u32 },
        ),
        X11Event::Expose { count } => (
            if count == 0 {
                Some(Event::Resize { width: size.width, height: size.height })
            } else {
                None
            },
            size,
        ),
        X11Event::ClientMessage { data32 } => (
            if data32 == Some(wm_delete) {
                Some(Event::Close)
            } else {
                None
            },
            size,
        ),
        X11Event::Other => (None, size),
    }
}

impl WindowSize {
    /// Turns an X11 event into the browser's event, if it means one; `wm_delete` is the
    /// atom the window registered for its close button.
    pub fn x11_event(&mut self, ev: X11Event, wm_delete: u32) -> (r: Option<Event>)
        ensures
            (r, *final(self)) == x11_translation(*old(self), ev, wm_delete),
    {
        match ev {
            X11Event::KeyPress { keycode } => Some(Event::KeyPress(x11_key(keycode))),
            X11Event::ButtonPress { button, x, y } => {
                let px = i16_coord(x);
                let py = i16_coord(y);
                match button {
                    1 => Some(Event::MouseClick { x: px, y: py, button: MouseButton::Left }),
                    2 => Some(Event::MouseClick { x: px, y: py, button: MouseButton::Middle }),
                    3 => Some(Event::MouseClick { x: px, y: py, button: MouseButton::Right }),
                    4 => Some(Event::Scroll(-3)),
                    5 => Some(Event::Scroll(3)),
                    _ => None,
                }
            },
            X11Event::MotionNotify { x, y } => Some(Event::MouseMove { x: i16_coord(x), y: i16_coord(y) }),
            X11Event::ConfigureNotify { width, height } => self.resized(width as u32, height as u32),
            X11Event::Expose { count } => {
                if count == 0 {
                    Some(Event::Resize { width: self.width, height: self.height })
                } else {
                    None
                }
            },
            X11Event::ClientMessage { data32 } => match data32 {
                Some(atom) => {
                    if atom == wm_delete {
                        Some(Event::Close)
                    } else {
                        None
                    }
                },
                None => None,
            },
            X11Event::Other => None,
        }
    }
}

// ─── Win32 ──────────────────────────────────────────────────

pub const WM_DESTROY: u32 = 0x0002;
pub const WM_SIZE: u32 = 0x0005;
pub const WM_CLOSE: u32 = 0x0010;
pub const WM_KEYDOWN: u32 = 0x0100;
pub const WM_MOUSEMOVE: u32 = 0x0200;
pub const WM_LBUTTONDOWN: u32 = 0x0201;
pub const WM_RBUTTONDOWN: u32 = 0x0204;
pub const WM_MBUTTONDOWN: u32 = 0x0207;
pub const WM_MOUSEWHEEL: u32 = 0x020A;

/// Bits 0 to 15 of a message parameter (`LOWORD`), as a number from 0 to 65535.
pub open spec fn low_word(v: int) -> int {
    v % 65536
}

/// Bits 16 to 31 of a message parameter (`HIWORD`), as a number from 0 to 65535.
pub open spec fn high_word(v: int) -> int {
    (v / 65536) % 65536
}

fn lparam_low(l: isize) -> (r: u32)
    ensures
        r == low_word(l as int),
{
    let v = l as i64;
    let m: i64 = v & 0xFFFF;
    assert(m == v % 65536 && 0 <= m < 65536) by (bit_vector)
        requires
            m == v & 0xFFFF,
    ;
    m as u32
}

fn lparam_high(l: isize) -> (r: u32)
    ensures
        r == high_word(l as int),
{
    let v = l as i64;
    let m: i64 = (v >> 16) & 0xFFFF;
    assert(m == (v / 65536) % 65536 && 0 <= m < 65536) by (bit_vector)
        requires
            m == (v >> 16) & 0xFFFF,
    ;
    m as u32
}

/// The key of a Win32 virtual-key code, read from the low 32 bits of `wparam`: arrows,
/// Page Up (`VK_PRIOR`), Page Down (`VK_NEXT`), Return, Escape and Backspace; any other key
/// reads as a space.
pub open spec fn win32_key_of(wparam: int) -> Key {
    let k = wparam % 0x1_0000_0000;
    if k == 0x26 {
        Key::Up
    } else if k == 0x28 {
        Key::Down
    } else if k == 0x25 {
        Key::Left
    } else if k == 0x27 {
        Key::Right
    } else if k == 0x21 {
        Key::PageUp
    } else if k == 0x22 {
        Key::PageDown
    } else if k == 0x0D {
        Key::Enter
    } else if k == 0x1B {
        Key::Escape
    } else if k == 0x08 {
        Key::Backspace
    } else {
        Key::Char(' ')
    }
}

pub fn win32_key(wparam: usize) -> (k: Key)
    ensures
        k == win32_key_of(wparam as int),
{
    let w = wparam as u64;
    let low: u64 = w & 0xFFFF_FFFF;
    assert(low == w % 0x1_0000_0000) by (bit_vector)
        requires
            low == w & 0xFFFF_FFFF,
    ;
    match low {
        0x26 => Key::Up,
        0x28 => Key::Down,
        0x25 => Key::Left,
        0x27 => Key::Right,
        0x21 => Key::PageUp,
        0x22 => Key::PageDown,
        0x0D => Key::Enter,
        0x1B => Key::Escape,
        0x08 => Key::Backspace,
        _ => Key::Char(' '),
    }
}

/// The wheel's turn carried by a `WM_MOUSEWHEEL` (`GET_WHEEL_DELTA_WPARAM`): the high word
/// of `wparam` read as a signed 16-bit number, in multiples of 120 per notch.
pub open spec fn wheel_delta(wparam: int) -> int {
    let hi = high_word(wparam);
    if hi >= 0x8000 {
        hi - 0x10000
    } else {
        hi
    }
}

/// The scroll a wheel turn asks for: three lines per whole notch, away from the turn
/// (notches counted toward zero).
pub open spec fn wheel_scroll(wparam: int) -> int {
    let d = wheel_delta(wparam);
    let notches = if d >= 0 {
        d / 120
    } else {
        -((-d) / 120)
    };
    -notches * 3
}

fn wheel_scroll_of(wparam: usize) -> (s: i32)
    ensures
        s == wheel_scroll(wparam as int),
{
    let w = wparam as u64;
    let hi: u64 = (w >> 16) & 0xFFFF;
    assert(hi == (w / 65536) % 65536 && hi < 65536) by (bit_vector)
        requires
            hi == (w >> 16) & 0xFFFF,
    ;
    let delta: i32 = if hi >= 0x8000 {
        hi as i32 - 0x10000
    } else {
        hi as i32
    };
    let mag: u32 = if delta >= 0 {
        delta as u32
    } else {
        (-delta) as u32
    };
    let notches: i32 = if delta >= 0 {
        (mag / 120) as i32
    } else {
        -((mag / 120) as i32)
    };
    -notches * 3
}

/// The event a Win32 window message becomes, if any: closing or destroying the window
/// closes it; a size with both sides non-zero (low and high word of `lparam`) resizes; a
/// key press, the pointer's moves and presses (at the low and high word of `lparam`) and
/// the wheel are passed on; every other message is not the browser's.
pub open spec fn win32_event_of(msg: u32, wparam: int, lparam: int) -> Option<Event> {
    let x = low_word(lparam) as u32;
    let y = high_word(lparam) as u32;
    if msg == WM_CLOSE || msg == WM_DESTROY {
        Some(Event::Close)
    } else if msg == WM_SIZE {
        if x > 0 && y > 0 {
            Some(Event::Resize { width: x, height: y })
        } else {
            None
        }
    } else if msg == WM_KEYDOWN {
        Some(Event::KeyPress(win32_key_of(wparam)))
    } else if msg == WM_MOUSEMOVE {
        Some(Event::MouseMove { x, y })
    } else if msg == WM_LBUTTONDOWN {
        Some(Event::MouseClick { x, y, button: MouseButton::Left })
    } else if msg == WM_RBUTTONDOWN {
        Some(Event::MouseClick { x, y, button: MouseButton::Right })
    } else if msg == WM_MBUTTONDOWN {
        Some(Event::MouseClick { x, y, button: MouseButton::Middle })
    } else if msg == WM_MOUSEWHEEL {
        Some(Event::Scroll(wheel_scroll(wparam) as i32))
    } else {
        None
    }
}

/// Turns a message sent to the window into the browser's event, if it means one.
pub fn win32_event(msg: u32, wparam: usize, lparam: isize) -> (r: Option<Event>)
    ensures
        r == win32_event_of(msg, wparam as int, lparam as int),
{
    let x = lparam_low(lparam);
    let y = lparam_high(lparam);
    if msg == WM_CLOSE || msg == WM_DESTROY {
        Some(Event::Close)
    } else if msg == WM_SIZE {
        if x > 0 && y > 0 {
            Some(Event::Resize { width: x, height: y })
        } else {
            None
        }
    } else if msg == WM_KEYDOWN {
        Some(Event::KeyPress(win32_key(wparam)))
    } else if msg == WM_MOUSEMOVE {
        Some(Event::MouseMove { x, y })
    } else if msg == WM_LBUTTONDOWN {
        Some(Event::MouseClick { x, y, button: MouseButton::Left })
    } else if msg == WM_RBUTTONDOWN {
        Some(Event::MouseClick { x, y, button: MouseButton::Right })
    } else if msg == WM_MBUTTONDOWN {
        Some(Event::MouseClick { x, y, button: MouseButton::Middle })
    } else if msg == WM_MOUSEWHEEL {
        Some(Event::Scroll(wheel_scroll_of(wparam)))
    } else {
        None
    }
}

// ─── Cocoa ──────────────────────────────────────────────────

/// The Cocoa events the browser reads. Pointer positions are already flipped to count
/// from the top of the view; the wheel's turn is already rounded and turned to scroll
/// downward for a positive value.
pub enum CocoaEvent {
    KeyDown { keycode: u16 },
    LeftMouseDown { x: u32, y: u32 },
    RightMouseDown { x: u32, y: u32 },
    /// The pointer moved, or was dragged with the left button held.
    MouseMoved { x: u32, y: u32 },
    ScrollWheel { delta: i32 },
    Other,
}

/// The key of a macOS virtual key code: arrows, Page Up, Page Down, Return, Escape and
/// Delete (Backspace); any other key reads as a space.
pub open spec fn cocoa_key_of(keycode: u16) -> Key {
    if keycode == 126 {
        Key::Up
    } else if keycode == 125 {
        Key::Down
    } else if keycode == 123 {
        Key::Left
    } else if keycode == 124 {
        Key::Right
    } else if keycode == 116 {
        Key::PageUp
    } else if keycode == 121 {
        Key::PageDown
    } else if keycode == 36 {
        Key::Enter
    } else if keycode == 53 {
        Key::Escape
    } else if keycode == 51 {
        Key::Backspace
    } else {
        Key::Char(' ')
    }
}

pub fn cocoa_key(keycode: u16) -> (k: Key)
    ensures
        k == cocoa_key_of(keycode),
{
    match keycode {
        126 => Key::Up,
        125 => Key::Down,
        123 => Key::Left,
        124 => Key::Right,
        116 => Key::PageUp,
        121 => Key::PageDown,
        36 => Key::Enter,
        53 => Key::Escape,
        51 => Key::Backspace,
        _ => Key::Char(' '),
    }
}

/// Turns a Cocoa event into the browser's event, if it means one; a wheel turn that rounds
/// to nothing is dropped.
pub fn cocoa_event(ev: CocoaEvent) -> (r: Option<Event>)
    ensures
        r == (match ev {
            CocoaEvent::KeyDown { keycode } => Some(Event::KeyPress(cocoa_key_of(keycode))),
            CocoaEvent::LeftMouseDown { x, y } => Some(Event::MouseClick { x, y, button: MouseButton::Left }),
            CocoaEvent::RightMouseDown { x, y } => Some(Event::MouseClick { x, y, button: MouseButton::Right }),
            CocoaEvent::MouseMoved { x, y } => Some(Event::MouseMove { x, y }),
            CocoaEvent::ScrollWheel { delta } => if delta != 0 {
                Some(Event::Scroll(delta))
            } else {
                None
            },
            CocoaEvent::Other => None,
        }),
{
    match ev {
        CocoaEvent::KeyDown { keycode } => Some(Event::KeyPress(cocoa_key(keycode))),
        CocoaEvent::LeftMouseDown { x, y } => Some(Event::MouseClick { x, y, button: MouseButton::Left }),
        CocoaEvent::RightMouseDown { x, y } => Some(Event::MouseClick { x, y, button: MouseButton::Right }),
        CocoaEvent::MouseMoved { x, y } => Some(Event::MouseMove { x, y }),
        CocoaEvent::ScrollWheel { delta } => {
            if delta != 0 {
                Some(Event::Scroll(delta))
            } else {
                None
            }
        },
        CocoaEvent::Other => None,
    }
}

// ─── Frames in the systems' byte order ─────────────────────

/// The frame in blue, green, red, pad order: what X11 (pad 0), Win32 (pad 0) and Wayland's
/// XRGB8888 (pad 255) take, from the buffer's red, green, blue, alpha.
pub fn bgr_frame(buf: &PixelBuffer, pad: u8) -> (out: Vec<u8>)
    requires
        buf.wf(),
    ensures
        out@.len() == buf.data@.len(),
        forall|i: int|
            0 <= i < buf.width * buf.height ==> {
                &&& #[trigger] out@[4 * i] == buf.data@[4 * i + 2]
                &&& out@[4 * i + 1] == buf.data@[4 * i + 1]
                &&& out@[4 * i + 2] == buf.data@[4 * i]
                &&& out@[4 * i + 3] == pad
            },
{
    let pixels = buf.width * buf.height;
    let n = pixels as usize;
    let mut out: Vec<u8> = Vec::with_capacity(n * 4);
    let mut i: usize = 0;
    while i < n
        invariant
            buf.wf(),
            n == buf.width * buf.height,
            buf.data@.len() == 4 * n,
            0 <= i <= n,
            out@.len() == 4 * i,
            forall|k: int|
                0 <= k < i ==> {
                    &&& #[trigger] out@[4 * k] == buf.data@[4 * k + 2]
                    &&& out@[4 * k + 1] == buf.data@[4 * k + 1]
                    &&& out@[4 * k + 2] == buf.data@[4 * k]
                    &&& out@[4 * k + 3] == pad
                },
        decreases n - i,
    {
        let s = i * 4;
        let ghost before = out@;
        out.push(buf.data[s + 2]);
        out.push(buf.data[s + 1]);
        out.push(buf.data[s]);
        out.push(pad);
        proof {
            assert(out@ == before.push(buf.data@[4 * i + 2]).push(buf.data@[4 * i + 1]).push(buf.data@[4 * i as int]).push(pad));
            assert forall|k: int| 0 <= k < i + 1 implies {
                &&& #[trigger] out@[4 * k] == buf.data@[4 * k + 2]
                &&& out@[4 * k + 1] == buf.data@[4 * k + 1]
                &&& out@[4 * k + 2] == buf.data@[4 * k]
                &&& out@[4 * k + 3] == pad
            } by {
                if k < i {
                    assert(before[4 * k] == buf.data@[4 * k + 2]);
                    assert(out@[4 * k] == before[4 * k]);
                    assert(out@[4 * k + 1] == before[4 * k + 1]);
                    assert(out@[4 * k + 2] == before[4 * k + 2]);
                    assert(out@[4 * k + 3] == before[4 * k + 3]);
                }
            }
        }
        i = i + 1;
    }
    out
}

} // verus!
