//! The platform abstraction: input events, the RGBA pixel buffer that all
//! drawing goes to, and the window interface the native back ends implement.
use vstd::prelude::*;

verus! {

#[derive(Debug, Clone, PartialEq)]
pub enum Key {
    Up,
    Down,
    Left,
    Right,
    PageUp,
    PageDown,
    Enter,
    Escape,
    Backspace,
    Char(char),
}

#[derive(Debug, Clone, PartialEq)]
pub enum MouseButton {
    Left,
    Right,
    Middle,
}

#[derive(Debug, Clone)]
pub enum Event {
    Close,
    KeyPress(Key),
    MouseClick { x: u32, y: u32, button: MouseButton },
    MouseMove { x: u32, y: u32 },
    Scroll(i32),
    Resize { width: u32, height: u32 },
}

// ─── Input codes ────────────────────────────────────────────

/// The key of a Linux input-event key code (arrows, page keys, Enter, Escape, Backspace);
/// any other key reads as a space.
pub open spec fn evdev_key_of(code: u32) -> Key {
    if code == 103 {
        Key::Up
    } else if code == 108 {
        Key::Down
    } else if code == 105 {
        Key::Left
    } else if code == 106 {
        Key::Right
    } else if code == 104 {
        Key::PageUp
    } else if code == 109 {
        Key::PageDown
    } else if code == 28 {
        Key::Enter
    } else if code == 1 {
        Key::Escape
    } else if code == 14 {
        Key::Backspace
    } else {
        Key::Char(' ')
    }
}

pub fn evdev_key(code: u32) -> (k: Key)
    ensures
        k == evdev_key_of(code),
{
    match code {
        103 => Key::Up,
        108 => Key::Down,
        105 => Key::Left,
        106 => Key::Right,
        104 => Key::PageUp,
        109 => Key::PageDown,
        28 => Key::Enter,
        1 => Key::Escape,
        14 => Key::Backspace,
        _ => Key::Char(' '),
    }
}

/// The mouse button of a Linux input-event button code (0x110 left, 0x111 right, 0x112
/// middle); any other button reads as the left one.
pub fn evdev_button(code: u32) -> (b: MouseButton)
    ensures
        b == (if code == 0x111 {
            MouseButton::Right
        } else if code == 0x112 {
            MouseButton::Middle
        } else {
            MouseButton::Left
        }),
{
    match code {
        0x110 => MouseButton::Left,
        0x111 => MouseButton::Right,
        0x112 => MouseButton::Middle,
        _ => MouseButton::Left,
    }
}

// ─── Pixel grids ────────────────────────────────────────────

/// Index of the first byte of pixel (x, y) in a row-major RGBA grid `w` pixels wide.
pub open spec fn byte_index(w: int, x: int, y: int) -> int {
    (y * w + x) * 4
}

/// Byte `c` (0 = red … 3 = alpha) of pixel (x, y).
pub open spec fn channel(data: Seq<u8>, w: int, x: int, y: int, c: int) -> u8 {
    data[byte_index(w, x, y) + c]
}

pub open spec fn rgba_channel(r: u8, g: u8, b: u8, a: u8, c: int) -> u8 {
    if c == 0 {
        r
    } else if c == 1 {
        g
    } else if c == 2 {
        b
    } else {
        a
    }
}

/// A grid of `w` by `h` RGBA pixels held in `data`.
pub open spec fn grid_ok(data: Seq<u8>, w: int, h: int) -> bool {
    0 <= w && 0 <= h && data.len() == w * h * 4 && w * h * 4 <= u32::MAX
}

pub proof fn lemma_index_in_bounds(w: int, h: int, x: int, y: int, c: int)
    requires
        0 <= x < w,
        0 <= y < h,
        0 <= c < 4,
    ensures
        0 <= byte_index(w, x, y) + c,
        byte_index(w, x, y) + 3 < w * h * 4,
        byte_index(w, x, y) + c < w * h * 4,
{
    assert(0 <= y * w) by (nonlinear_arith)
        requires
            0 <= y,
            0 <= w,
    ;
    assert(y * w + x < w * h) by (nonlinear_arith)
        requires
            0 <= x < w,
            0 <= y < h,
    ;
}

/// Distinct pixels and channels sit at distinct bytes.
pub proof fn lemma_index_injective(w: int, x1: int, y1: int, c1: int, x2: int, y2: int, c2: int)
    requires
        0 <= x1 < w,
        0 <= x2 < w,
        0 <= y1,
        0 <= y2,
        0 <= c1 < 4,
        0 <= c2 < 4,
        byte_index(w, x1, y1) + c1 == byte_index(w, x2, y2) + c2,
    ensures
        x1 == x2 && y1 == y2 && c1 == c2,
{
    let p1 = y1 * w + x1;
    let p2 = y2 * w + x2;
    assert(p1 == p2 && c1 == c2);
    assert(y1 == y2) by (nonlinear_arith)
        requires
            y1 * w + x1 == y2 * w + x2,
            0 <= x1 < w,
            0 <= x2 < w,
            0 <= y1,
            0 <= y2,
    ;
}

/// The grid `data` with pixel (x, y) set to (r, g, b, a).
pub open spec fn with_pixel(data: Seq<u8>, w: int, x: int, y: int, r: u8, g: u8, b: u8, a: u8) -> Seq<u8> {
    let i = byte_index(w, x, y);
    data.update(i, r).update(i + 1, g).update(i + 2, b).update(i + 3, a)
}

pub proof fn lemma_with_pixel(
    data: Seq<u8>,
    w: int,
    h: int,
    x: int,
    y: int,
    r: u8,
    g: u8,
    b: u8,
    a: u8,
)
    requires
        grid_ok(data, w, h),
        0 <= x < w,
        0 <= y < h,
    ensures
        with_pixel(data, w, x, y, r, g, b, a).len() == data.len(),
        forall|px: int, py: int, c: int|
            0 <= px < w && 0 <= py < h && 0 <= c < 4 ==> #[trigger] channel(
                with_pixel(data, w, x, y, r, g, b, a),
                w,
                px,
                py,
                c,
            ) == if px == x && py == y {
                rgba_channel(r, g, b, a, c)
            } else {
                channel(data, w, px, py, c)
            },
{
    lemma_index_in_bounds(w, h, x, y, 0);
    assert forall|px: int, py: int, c: int|
        0 <= px < w && 0 <= py < h && 0 <= c < 4 implies #[trigger] channel(
            with_pixel(data, w, x, y, r, g, b, a),
            w,
            px,
            py,
            c,
        ) == if px == x && py == y {
            rgba_channel(r, g, b, a, c)
        } else {
            channel(data, w, px, py, c)
        } by {
        lemma_index_in_bounds(w, h, px, py, c);
        let i = byte_index(w, x, y);
        let j = byte_index(w, px, py) + c;
        if !(px == x && py == y) {
            if j == i {
                lemma_index_injective(w, px, py, c, x, y, 0);
            }
            if j == i + 1 {
                lemma_index_injective(w, px, py, c, x, y, 1);
            }
            if j == i + 2 {
                lemma_index_injective(w, px, py, c, x, y, 2);
            }
            if j == i + 3 {
                lemma_index_injective(w, px, py, c, x, y, 3);
            }
        }
    }
}

// ─── Pixel Buffer ───────────────────────────────────────────

pub struct PixelBuffer {
    pub width: u32,
    pub height: u32,
    /// RGBA, 4 bytes per pixel, row-major.
    pub data: Vec<u8>,
}

impl PixelBuffer {
    /// Whether `data` holds exactly `width` × `height` pixels.
    pub open spec fn wf(&self) -> bool {
        grid_ok(self.data@, self.width as int, self.height as int)
    }

    /// Byte `c` of pixel (x, y).
    pub open spec fn at(&self, x: int, y: int, c: int) -> u8 {
        channel(self.data@, self.width as int, x, y, c)
    }

    /// A black, fully transparent buffer.
    pub fn new(width: u32, height: u32) -> (b: Self)
        requires
            width * height * 4 <= u32::MAX,
        ensures
            b.wf(),
            b.width == width,
            b.height == height,
            forall|i: int| 0 <= i < b.data@.len() ==> b.data@[i] == 0,
    {
        let n = width * height * 4;
        PixelBuffer { width, height, data: vec![0u8; n as usize] }
    }

    /// Sets pixel (x, y); does nothing outside the buffer.
    pub fn set_pixel(&mut self, x: u32, y: u32, r: u8, g: u8, b: u8, a: u8)
        requires
            old(self).wf(),
        ensures
            final(self).wf(),
            final(self).width == old(self).width,
            final(self).height == old(self).height,
            x < old(self).width && y < old(self).height ==> final(self).data@ == with_pixel(
                old(self).data@,
                old(self).width as int,
                x as int,
                y as int,
                r,
                g,
                b,
                a,
            ),
            !(x < old(self).width && y < old(self).height) ==> final(self).data@ == old(self).data@,
    {
        if x >= self.width || y >= self.height {
            return;
        }
        proof {
            lemma_index_in_bounds(self.width as int, self.height as int, x as int, y as int, 0);
        }
        let i = ((y * self.width + x) * 4) as usize;
        self.data.set(i, r);
        self.data.set(i + 1, g);
        self.data.set(i + 2, b);
        self.data.set(i + 3, a);
    }

    /// Pixel (x, y), or transparent black outside the buffer.
    pub fn get_pixel(&self, x: u32, y: u32) -> (p: (u8, u8, u8, u8))
        requires
            self.wf(),
        ensures
            x < self.width && y < self.height ==> p == (
                self.at(x as int, y as int, 0),
                self.at(x as int, y as int, 1),
                self.at(x as int, y as int, 2),
                self.at(x as int, y as int, 3),
            ),
            !(x < self.width && y < self.height) ==> p == (0u8, 0u8, 0u8, 0u8),
    {
        if x >= self.width || y >= self.height {
            return (0, 0, 0, 0);
        }
        proof {
            lemma_index_in_bounds(self.width as int, self.height as int, x as int, y as int, 0);
        }
        let i = ((y * self.width + x) * 4) as usize;
        (self.data[i], self.data[i + 1], self.data[i + 2], self.data[i + 3])
    }

    /// Paints every pixel (r, g, b) and opaque.
    pub fn clear(&mut self, r: u8, g: u8, b: u8)
        requires
            old(self).wf(),
        ensures
            final(self).wf(),
            final(self).width == old(self).width,
            final(self).height == old(self).height,
            forall|i: int|
                0 <= i < final(self).data@.len() ==> #[trigger] final(self).data@[i]
                    == rgba_channel(r, g, b, 255, i % 4),
    {
        let n = (self.width * self.height) as usize;
        let mut i: usize = 0;
        while i < n
            invariant
                self.wf(),
                self.width == old(self).width,
                self.height == old(self).height,
                n * 4 == self.data@.len(),
                i <= n,
                forall|k: int| 0 <= k < i * 4 ==> #[trigger] self.data@[k] == rgba_channel(r, g, b, 255, k % 4),
            decreases n - i,
        {
            self.data.set(i * 4, r);
            self.data.set(i * 4 + 1, g);
            self.data.set(i * 4 + 2, b);
            self.data.set(i * 4 + 3, 255);
            proof {
                assert forall|k: int| 0 <= k < (i + 1) * 4 implies #[trigger] self.data@[k]
                    == rgba_channel(r, g, b, 255, k % 4) by {
                    if k >= i * 4 {
                        assert(k % 4 == k - i * 4);
                    }
                }
            }
            i = i + 1;
        }
    }

    /// A new size, all pixels transparent black.
    pub fn resize(&mut self, width: u32, height: u32)
        requires
            width * height * 4 <= u32::MAX,
        ensures
            final(self).wf(),
            final(self).width == width,
            final(self).height == height,
            forall|i: int| 0 <= i < final(self).data@.len() ==> final(self).data@[i] == 0,
    {
        self.width = width;
        self.height = height;
        let n = width * height * 4;
        self.data = vec![0u8; n as usize];
    }
}


/// `new` is `old` with the pixels in `[x0, x1) × [y0, y1)` set to (r, g, b, a).
pub open spec fn rect_filled(
    old: Seq<u8>,
    new: Seq<u8>,
    w: int,
    h: int,
    x0: int,
    x1: int,
    y0: int,
    y1: int,
    r: u8,
    g: u8,
    b: u8,
    a: u8,
) -> bool {
    &&& new.len() == old.len()
    &&& forall|px: int, py: int, c: int|
        0 <= px < w && 0 <= py < h && 0 <= c < 4 ==> #[trigger] channel(new, w, px, py, c) == if x0
            <= px < x1 && y0 <= py < y1 {
            rgba_channel(r, g, b, a, c)
        } else {
            channel(old, w, px, py, c)
        }
}

impl PixelBuffer {
    /// Sets every pixel of the buffer in `[x0, x1) × [y0, y1)`.
    pub fn fill_region(&mut self, x0: u64, x1: u64, y0: u64, y1: u64, r: u8, g: u8, b: u8, a: u8)
        requires
            old(self).wf(),
        ensures
            final(self).wf(),
            final(self).width == old(self).width,
            final(self).height == old(self).height,
            rect_filled(
                old(self).data@,
                final(self).data@,
                old(self).width as int,
                old(self).height as int,
                x0 as int,
                x1 as int,
                y0 as int,
                y1 as int,
                r,
                g,
                b,
                a,
            ),
    {
        let ghost w = self.width as int;
        let ghost h = self.height as int;
        let ghost d0 = self.data@;
        let xe: u64 = if x1 < self.width as u64 {
            x1
        } else {
            self.width as u64
        };
        let ye: u64 = if y1 < self.height as u64 {
            y1
        } else {
            self.height as u64
        };
        let mut py = y0;
        while py < ye
            invariant
                self.wf(),
                self.width as int == w,
                self.height as int == h,
                ye <= h,
                xe <= w,
                xe <= x1,
                ye <= y1,
                ye == y1 || ye == h,
                xe == x1 || xe == w,
                y0 <= py || ye <= py,
                py <= ye || py == y0,
                rect_filled(d0, self.data@, w, h, x0 as int, x1 as int, y0 as int, py as int, r, g, b, a),
            decreases ye - py,
        {
            let mut px = x0;
            while px < xe
                invariant
                    self.wf(),
                    self.width as int == w,
                    self.height as int == h,
                    py < ye,
                    ye <= h,
                    xe <= w,
                    xe == x1 || xe == w,
                    xe <= x1,
                    ye <= y1,
                    y0 <= py,
                    x0 <= px || xe <= px,
                    d0.len() == self.data@.len(),
                    forall|qx: int, qy: int, c: int|
                        0 <= qx < w && 0 <= qy < h && 0 <= c < 4 ==> #[trigger] channel(
                            self.data@,
                            w,
                            qx,
                            qy,
                            c,
                        ) == if x0 <= qx < x1 && (y0 <= qy < py || (qy == py && qx < px)) {
                            rgba_channel(r, g, b, a, c)
                        } else {
                            channel(d0, w, qx, qy, c)
                        },
                decreases xe - px,
            {
                proof {
                    lemma_with_pixel(self.data@, w, h, px as int, py as int, r, g, b, a);
                }
                self.set_pixel(px as u32, py as u32, r, g, b, a);
                px = px + 1;
            }
            py = py + 1;
        }
    }
}

// ─── Platform Window Trait ──────────────────────────────────

/// A native window that shows a pixel buffer and reports input events.
pub trait PlatformWindow {
    fn new(title: &str, width: u32, height: u32) -> Self where Self: Sized;

    fn present(&mut self, buffer: &PixelBuffer);

    fn next_event(&mut self) -> Option<Event>;

    fn width(&self) -> u32;

    fn height(&self) -> u32;

    fn set_title(&mut self, title: &str);
}

} // verus!
