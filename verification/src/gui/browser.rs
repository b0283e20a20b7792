//! The browser's state and its decisions: what each input event does to the page state and
//! which outside work (loading a file, drawing a decoded image, presenting the frame) the
//! caller must do next, and what each part of a frame draws.
//!
//! The caller owns the window and the event loop: it hands each event to `handle_event`,
//! performs the returned `Action`, and draws a frame with the `draw_*` methods.
use vstd::prelude::*;
use crate::platform::{PixelBuffer, Event, Key, MouseButton};
use crate::text::{string_of, append_str, copy_string, str_eq};
use crate::gui::layout::{Layout, Element, SpecElement, elements_view, NAV_H, STATUS_H};
use crate::gui::paint::{Color, fits_i32, wrap_i32, half_toward_zero, wrapped_lines, chars_per_line, draw_text, draw_text_wrapped, fill_rect, draw_horizontal_rule, draw_link_underline, draw_image_placeholder};
use crate::gui::layout::{element_y, element_height, heading_scale, MARGIN_X};
use crate::gui::layers::{Layer, shows, lemma_shows_chain, lemma_shows_none, fill_layer, glyph_layer, wrapped_layers, placeholder_layers};
use crate::text::{utf8_len, cuttable, str_utf8_len, signed_decimal, append_signed_decimal};

verus! {

/// What the caller must do after an event.
#[derive(Debug)]
pub enum Action {
    /// Nothing changed.
    Nothing,
    /// Draw and present a new frame.
    Redraw,
    /// Close the browser.
    Quit,
    /// Load the current document again (the window was resized), then redraw.
    Reload(String),
    /// Load this earlier document (taken off the history), then redraw.
    GoBack(String),
    /// Follow a link to this target, then redraw.
    Follow(String),
}

/// Everything the browser knows except its window: the frame being drawn, the scroll
/// position, the history, the document shown and its layout, the hovered link and the
/// status line.
pub struct BrowserState {
    pub buf: PixelBuffer,
    pub scroll_y: i32,
    pub history: Vec<String>,
    pub current: String,
    pub asset_base: String,
    pub layout: Option<Layout>,
    pub hover_link: Option<usize>,
    pub status_msg: String,
}

/// The height of the content area of a frame `height` pixels high: the frame less the
/// navigation and status bars (the height read as an `i32`).
pub open spec fn viewport_h(height: u32) -> int {
    wrap_i32(height as int) - NAV_H - STATUS_H
}

/// The height of the page shown, 0 when there is none.
pub open spec fn content_height(layout: Option<Layout>) -> int {
    match layout {
        Some(l) => l.content_h as int,
        None => 0,
    }
}

/// How far the page can scroll: its height less the viewport, at least 0.
pub open spec fn max_scroll_of(content_h: int, height: u32) -> int {
    if content_h - viewport_h(height) > 0 {
        content_h - viewport_h(height)
    } else {
        0
    }
}

/// Whether (x, y) on screen falls on element `e`, a link whose line is within the viewport.
pub open spec fn link_hit(e: SpecElement, scroll: int, vh: int, x: int, y: int) -> bool {
    match e {
        SpecElement::Link { y: ey, x: ex, w, .. } => {
            let sy = ey - scroll + NAV_H;
            !(sy < NAV_H || sy > NAV_H + vh) && x >= ex && x <= ex + w && y >= sy && y <= sy + 16
        },
        _ => false,
    }
}

/// Hit-testing `e` stays within the `i32` range.
pub open spec fn hit_fits(e: SpecElement, scroll: int, vh: int) -> bool {
    match e {
        SpecElement::Link { y: ey, x: ex, w, .. } => fits_i32(ey - scroll) && fits_i32(ey - scroll
            + NAV_H) && fits_i32(NAV_H + vh) && fits_i32(ex + w) && fits_i32(ey - scroll + NAV_H
            + 16),
        _ => true,
    }
}

/// The first link at or after index `i` that (x, y) falls on.
pub open spec fn link_from(es: Seq<SpecElement>, scroll: int, vh: int, x: int, y: int, i: int) -> Option<int>
    decreases es.len() - i,
{
    if i < 0 || i >= es.len() {
        None
    } else if link_hit(es[i], scroll, vh, x, y) {
        Some(i)
    } else {
        link_from(es, scroll, vh, x, y, i + 1)
    }
}

proof fn lemma_link_from(es: Seq<SpecElement>, scroll: int, vh: int, x: int, y: int, i: int)
    ensures
        link_from(es, scroll, vh, x, y, i) matches Some(k) ==> 0 <= i <= k < es.len()
            && link_hit(es[k], scroll, vh, x, y),
    decreases es.len() - i,
{
    if 0 <= i < es.len() && !link_hit(es[i], scroll, vh, x, y) {
        lemma_link_from(es, scroll, vh, x, y, i + 1);
    }
}

/// The link under (x, y) on the page of `st`, if any.
pub open spec fn link_under(st: BrowserState, x: int, y: int) -> Option<int> {
    match st.layout {
        Some(l) => link_from(elements_view(l.elements@), st.scroll_y as int, viewport_h(st.buf.height), x, y, 0),
        None => None,
    }
}

/// Hit-testing any point of the page of `st` stays within the `i32` range.
pub open spec fn hits_fit(st: BrowserState) -> bool {
    &&& fits_i32(viewport_h(st.buf.height))
    &&& st.layout matches Some(l) ==> forall|k: int|
        0 <= k < l.elements@.len() ==> #[trigger] hit_fits(
            l.elements@[k]@,
            st.scroll_y as int,
            viewport_h(st.buf.height),
        )
}

/// Whether element `k` of the page is a link, and its target.
pub open spec fn link_target(st: BrowserState, k: int) -> Option<Seq<char>> {
    match st.layout {
        Some(l) => if 0 <= k < l.elements@.len() {
            match l.elements@[k]@ {
                SpecElement::Link { target, .. } => Some(target),
                _ => None,
            }
        } else {
            None
        },
        None => None,
    }
}

/// `v` clamped to `[lo, hi]`.
pub open spec fn clamp(v: int, lo: int, hi: int) -> int {
    if v < lo {
        lo
    } else if v > hi {
        hi
    } else {
        v
    }
}

/// The scroll position after an event, and whether scrolling by it stays in the `i32` range.
pub open spec fn scrolled(st: BrowserState, ev: Event) -> Option<int> {
    let s = st.scroll_y as int;
    let m = max_scroll_of(content_height(st.layout), st.buf.height);
    let h = wrap_i32(st.buf.height as int);
    match ev {
        Event::Scroll(d) => if fits_i32(d * 12) && fits_i32(s + d * 12) {
            Some(clamp(s + d * 12, 0, m))
        } else {
            None
        },
        Event::KeyPress(Key::PageUp) => if fits_i32(s - h) {
            Some(if s - h > 0 {
                s - h
            } else {
                0
            })
        } else {
            None
        },
        Event::KeyPress(Key::PageDown) => if fits_i32(s + h) {
            Some(if s + h < m {
                s + h
            } else {
                m
            })
        } else {
            None
        },
        Event::KeyPress(Key::Up) => if fits_i32(s - 20) {
            Some(if s - 20 > 0 {
                s - 20
            } else {
                0
            })
        } else {
            None
        },
        Event::KeyPress(Key::Down) => if fits_i32(s + 20) {
            Some(if s + 20 < m {
                s + 20
            } else {
                m
            })
        } else {
            None
        },
        _ => Some(s),
    }
}

/// What `handle_event` needs to stay within the `i32` range: hit-testing, the scroll limit,
/// and the scroll arithmetic of the event.
pub open spec fn event_fits(st: BrowserState, ev: Event) -> bool {
    &&& st.buf.wf()
    &&& hits_fit(st)
    &&& fits_i32(content_height(st.layout) - viewport_h(st.buf.height))
    &&& scrolled(st, ev) is Some
    &&& ev matches Event::Resize { width, height } ==> width * height * 4 <= u32::MAX
}

/// `v as i32` for a `u32`.
fn as_i32(v: u32) -> (r: i32)
    ensures
        r == wrap_i32(v as int),
{
    if v <= 2147483647 {
        v as i32
    } else {
        (v as i64 - 4294967296) as i32
    }
}

impl BrowserState {
    /// A browser with a blank frame and no document.
    pub fn new(width: u32, height: u32) -> (st: Self)
        requires
            width * height * 4 <= u32::MAX,
        ensures
            st.buf.wf(),
            st.buf.width == width,
            st.buf.height == height,
            st.scroll_y == 0,
            st.history@.len() == 0,
            st.current@.len() == 0,
            st.asset_base@.len() == 0,
            st.layout is None,
            st.hover_link is None,
            st.status_msg@.len() == 0,
    {
        BrowserState {
            buf: PixelBuffer::new(width, height),
            scroll_y: 0,
            history: Vec::new(),
            current: String::new(),
            asset_base: String::new(),
            layout: None,
            hover_link: None,
            status_msg: String::new(),
        }
    }

    /// How far the page can scroll.
    pub fn max_scroll(&self) -> (m: i32)
        requires
            fits_i32(viewport_h(self.buf.height)),
            fits_i32(content_height(self.layout) - viewport_h(self.buf.height)),
        ensures
            m == max_scroll_of(content_height(self.layout), self.buf.height),
    {
        let content_h: i32 = match &self.layout {
            Some(l) => l.content_h,
            None => 0,
        };
        let h: i32 = if self.buf.height <= 2147483647 {
            self.buf.height as i32
        } else {
            (self.buf.height as i64 - 4294967296) as i32
        };
        let viewport = h - NAV_H - STATUS_H;
        let d = content_h - viewport;
        if d > 0 {
            d
        } else {
            0
        }
    }

    /// The link under (x, y) on screen, if any.
    pub fn link_at(&self, x: i32, y: i32) -> (r: Option<usize>)
        requires
            hits_fit(*self),
        ensures
            match r {
                Some(k) => link_under(*self, x as int, y as int) == Some(k as int),
                None => link_under(*self, x as int, y as int) is None,
            },
    {
        let layout = match &self.layout {
            Some(l) => l,
            None => {
                return None;
            },
        };
        let ghost es = elements_view(layout.elements@);
        let scroll = self.scroll_y;
        let h: i32 = if self.buf.height <= 2147483647 {
            self.buf.height as i32
        } else {
            (self.buf.height as i64 - 4294967296) as i32
        };
        let vh = h - NAV_H - STATUS_H;
        let mut i: usize = 0;
        while i < layout.elements.len()
            invariant
                i <= layout.elements.len(),
                es == elements_view(layout.elements@),
                es.len() == layout.elements.len(),
                vh == viewport_h(self.buf.height),
                scroll == self.scroll_y,
                self.layout == Some(*layout),
                hits_fit(*self),
                link_from(es, scroll as int, vh as int, x as int, y as int, 0) == link_from(
                    es,
                    scroll as int,
                    vh as int,
                    x as int,
                    y as int,
                    i as int,
                ),
            decreases layout.elements.len() - i,
        {
            assert(hit_fits(layout.elements@[i as int]@, scroll as int, vh as int));
            assert(es[i as int] == layout.elements@[i as int]@);
            if let Element::Link { y: ey, x: ex, w, .. } = &layout.elements[i] {
                let screen_y = *ey - scroll + NAV_H;
                if !(screen_y < NAV_H || screen_y > NAV_H + vh) {
                    if x >= *ex && x <= *ex + *w && y >= screen_y && y <= screen_y + 16 {
                        return Some(i);
                    }
                }
            }
            i = i + 1;
        }
        None
    }

    /// Handles one input event: scrolling and keys move the page, hovering a link shows its
    /// target on the status line, a click on a link or on the back button asks the caller to
    /// load a document, closing or Escape quits, and a resize clears the frame and asks for
    /// the document to be laid out again.
    pub fn handle_event(&mut self, ev: Event) -> (act: Action)
        requires
            event_fits(*old(self), ev),
        ensures
            final(self).buf.wf(),
            final(self).scroll_y == scrolled(*old(self), ev)->Some_0,
            final(self).current == old(self).current,
            final(self).asset_base == old(self).asset_base,
            final(self).layout == old(self).layout,
            !(ev is Resize) ==> final(self).buf == old(self).buf,
            !(ev is MouseMove) ==> final(self).hover_link == old(self).hover_link,
            !(ev is MouseMove) ==> final(self).status_msg == old(self).status_msg,
            !(act is GoBack) ==> final(self).history == old(self).history,
            match ev {
                Event::Close => act is Quit,
                Event::Resize { width, height } => {
                    &&& final(self).buf.width == width
                    &&& final(self).buf.height == height
                    &&& forall|i: int|
                        0 <= i < final(self).buf.data@.len() ==> final(self).buf.data@[i] == 0
                    &&& if old(self).current@.len() > 0 {
                        act matches Action::Reload(p) && p@ == old(self).current@
                    } else {
                        act is Redraw
                    }
                },
                Event::Scroll(_) => act is Redraw,
                Event::KeyPress(k) => match k {
                    Key::PageUp | Key::PageDown | Key::Up | Key::Down => act is Redraw,
                    Key::Escape => act is Quit,
                    _ => act is Nothing,
                },
                Event::MouseMove { x, y } => {
                    let hit = link_under(*old(self), wrap_i32(x as int), wrap_i32(y as int));
                    let was = match old(self).hover_link {
                        Some(k) => Some(k as int),
                        None => None,
                    };
                    &&& match final(self).hover_link {
                        Some(k) => hit == Some(k as int),
                        None => hit is None,
                    }
                    &&& if hit != was {
                        &&& act is Redraw
                        &&& final(self).status_msg@ == match hit {
                            Some(k) => match link_target(*old(self), k) {
                                Some(t) => "→ "@ + t,
                                None => old(self).status_msg@,
                            },
                            None => Seq::<char>::empty(),
                        }
                    } else {
                        act is Nothing && final(self).status_msg == old(self).status_msg
                    }
                },
                Event::MouseClick { x, y, button } => if button is Left {
                    if y < NAV_H {
                        if x < 80 && old(self).history@.len() > 0 {
                            &&& act matches Action::GoBack(p) && p@ == old(self).history@.last()@
                            &&& final(self).history@ == old(self).history@.drop_last()
                        } else {
                            act is Nothing
                        }
                    } else {
                        match link_under(*old(self), wrap_i32(x as int), wrap_i32(y as int)) {
                            Some(k) => match link_target(*old(self), k) {
                                Some(t) => act matches Action::Follow(p) && p@ == t,
                                None => act is Nothing,
                            },
                            None => act is Nothing,
                        }
                    }
                } else {
                    act is Nothing
                },
            },
    {
        let ghost st = *self;
        match ev {
            Event::Close => Action::Quit,
            Event::Resize { width, height } => {
                self.buf.resize(width, height);
                if !self.current.as_str().is_empty() {
                    Action::Reload(copy_string(&self.current))
                } else {
                    Action::Redraw
                }
            },
            Event::Scroll(delta) => {
                let max = self.max_scroll();
                let v = self.scroll_y + delta * 12;
                self.scroll_y = if v < 0 {
                    0
                } else if v > max {
                    max
                } else {
                    v
                };
                Action::Redraw
            },
            Event::KeyPress(key) => {
                let h: i32 = if self.buf.height <= 2147483647 {
                    self.buf.height as i32
                } else {
                    (self.buf.height as i64 - 4294967296) as i32
                };
                match key {
                    Key::PageUp => {
                        let v = self.scroll_y - h;
                        self.scroll_y = if v > 0 {
                            v
                        } else {
                            0
                        };
                        Action::Redraw
                    },
                    Key::PageDown => {
                        let max = self.max_scroll();
                        let v = self.scroll_y + h;
                        self.scroll_y = if v < max {
                            v
                        } else {
                            max
                        };
                        Action::Redraw
                    },
                    Key::Up => {
                        let v = self.scroll_y - 20;
                        self.scroll_y = if v > 0 {
                            v
                        } else {
                            0
                        };
                        Action::Redraw
                    },
                    Key::Down => {
                        let max = self.max_scroll();
                        let v = self.scroll_y + 20;
                        self.scroll_y = if v < max {
                            v
                        } else {
                            max
                        };
                        Action::Redraw
                    },
                    Key::Escape => Action::Quit,
                    _ => Action::Nothing,
                }
            },
            Event::MouseMove { x, y } => {
                let prev = self.hover_link;
                let now = self.link_at(as_i32(x), as_i32(y));
                proof {
                    if let Some(l) = st.layout {
                        lemma_link_from(elements_view(l.elements@), st.scroll_y as int, viewport_h(st.buf.height), wrap_i32(x as int), wrap_i32(y as int), 0);
                    }
                }
                self.hover_link = now;
                let changed = match (prev, now) {
                    (Some(a), Some(b)) => a != b,
                    (None, None) => false,
                    _ => true,
                };
                if changed {
                    match now {
                        Some(idx) => {
                            if let Some(layout) = &self.layout {
                                if let Element::Link { target, .. } = &layout.elements[idx] {
                                    let mut msg = string_of("→ ");
                                    append_str(&mut msg, target.as_str());
                                    self.status_msg = msg;
                                }
                            }
                        },
                        None => {
                            self.status_msg = String::new();
                        },
                    }
                    Action::Redraw
                } else {
                    Action::Nothing
                }
            },
            Event::MouseClick { x, y, button: MouseButton::Left } => {
                if y < NAV_H as u32 {
                    if x < 80 && self.history.len() > 0 {
                        match self.history.pop() {
                            Some(prev) => Action::GoBack(prev),
                            None => Action::Nothing,
                        }
                    } else {
                        Action::Nothing
                    }
                } else {
                    let hit = self.link_at(as_i32(x), as_i32(y));
                    proof {
                        if let Some(l) = st.layout {
                            lemma_link_from(elements_view(l.elements@), st.scroll_y as int, viewport_h(st.buf.height), wrap_i32(x as int), wrap_i32(y as int), 0);
                        }
                    }
                    match hit {
                        Some(idx) => {
                            match &self.layout {
                                Some(layout) => match &layout.elements[idx] {
                                    Element::Link { target, .. } => Action::Follow(copy_string(target)),
                                    _ => Action::Nothing,
                                },
                                None => Action::Nothing,
                            }
                        },
                        None => Action::Nothing,
                    }
                }
            },
            _ => Action::Nothing,
        }
    }

    /// A document was loaded from `path`: it is shown from the top, with no link hovered.
    pub fn loaded(&mut self, path: &str, asset_base: String, layout: Layout)
        ensures
            final(self).buf == old(self).buf,
            final(self).history == old(self).history,
            final(self).asset_base == asset_base,
            final(self).current@ == path@,
            final(self).scroll_y == 0,
            final(self).hover_link is None,
            final(self).status_msg@ == "Loaded: "@ + path@,
            final(self).layout == Some(layout),
    {
        self.asset_base = asset_base;
        self.current = string_of(path);
        self.scroll_y = 0;
        self.hover_link = None;
        let mut msg = string_of("Loaded: ");
        append_str(&mut msg, path);
        self.status_msg = msg;
        self.layout = Some(layout);
    }

    /// Following a link: the current document goes on the history.
    pub fn push_history(&mut self)
        ensures
            final(self).history@.len() == old(self).history@.len() + 1,
            forall|k: int|
                0 <= k < old(self).history@.len() ==> #[trigger] final(self).history@[k]
                    == old(self).history@[k],
            final(self).history@.last()@ == old(self).current@,
            final(self).buf == old(self).buf,
            final(self).scroll_y == old(self).scroll_y,
            final(self).current == old(self).current,
            final(self).layout == old(self).layout,
            final(self).hover_link == old(self).hover_link,
            final(self).status_msg == old(self).status_msg,
    {
        let c = copy_string(&self.current);
        self.history.push(c);
    }

    /// A followed link could not be loaded: the history entry is taken back and the status
    /// line shows the error.
    pub fn navigation_failed(&mut self, error: &str)
        ensures
            old(self).history@.len() > 0 ==> final(self).history@ == old(self).history@.drop_last(),
            old(self).history@.len() == 0 ==> final(self).history@ == old(self).history@,
            final(self).status_msg@ == "Error: "@ + error@,
            final(self).buf == old(self).buf,
            final(self).scroll_y == old(self).scroll_y,
            final(self).current == old(self).current,
            final(self).layout == old(self).layout,
            final(self).hover_link == old(self).hover_link,
    {
        let mut msg = string_of("Error: ");
        append_str(&mut msg, error);
        self.status_msg = msg;
        let _ = self.history.pop();
    }
}

// ─── Drawing a frame ────────────────────────────────────────

/// Where element `e` appears on screen, below the navigation bar.
pub open spec fn screen_y(e: SpecElement, scroll: int) -> int {
    element_y(e) - scroll + NAV_H
}

/// Whether any of `e` falls within the viewport.
pub open spec fn element_visible(e: SpecElement, scroll: int, vh: int) -> bool {
    !(screen_y(e, scroll) + element_height(e) < NAV_H) && !(screen_y(e, scroll) > NAV_H + vh)
}

/// A decoded image: the caller draws it (its scaling works in floating point).
pub open spec fn is_picture(e: SpecElement) -> bool {
    e matches SpecElement::Image { image: Some(_), .. }
}

/// The heading colours: gold, green, lavender.
pub open spec fn heading_color(level: u8) -> Color {
    if level == 1 {
        Color::h1()
    } else if level == 2 {
        Color::h2()
    } else {
        Color::h3()
    }
}

/// Whether the hovered element is a link to `target`.
pub open spec fn link_hovered(es: Seq<SpecElement>, hover: Option<usize>, target: Seq<char>) -> bool {
    match hover {
        Some(hi) => hi < es.len() && (es[hi as int] matches SpecElement::Link { target: t, .. } && t
            == target),
        None => false,
    }
}

/// What drawing element `e` paints, in a frame `w` pixels wide.
pub open spec fn element_layers(
    e: SpecElement,
    es: Seq<SpecElement>,
    hover: Option<usize>,
    scroll: int,
    w: int,
) -> Seq<Layer> {
    element_paint(
        e,
        screen_y(e, scroll),
        w,
        e matches SpecElement::Link { target, .. } && link_hovered(es, hover, target),
    )
}

/// What drawing elements `i..j` paints: the visible ones in order, decoded images left to
/// the caller.
pub open spec fn content_layers(
    es: Seq<SpecElement>,
    i: int,
    j: int,
    hover: Option<usize>,
    scroll: int,
    vh: int,
    w: int,
) -> Seq<Layer>
    decreases j - i,
{
    if j <= i {
        seq![]
    } else {
        let e = es[j - 1];
        content_layers(es, i, j - 1, hover, scroll, vh, w) + if element_visible(e, scroll, vh)
            && !is_picture(e) {
            element_layers(e, es, hover, scroll, w)
        } else {
            seq![]
        }
    }
}

/// The first visible decoded image at or after `i`.
pub open spec fn next_picture(es: Seq<SpecElement>, i: int, scroll: int, vh: int) -> Option<int>
    decreases es.len() - i,
{
    if i < 0 || i >= es.len() {
        None
    } else if element_visible(es[i], scroll, vh) && is_picture(es[i]) {
        Some(i)
    } else {
        next_picture(es, i + 1, scroll, vh)
    }
}

/// Drawing element `e` with its top at `ey`, in a frame `w` pixels wide, stays within the
/// `i32` range and cuts captions where it can.
pub open spec fn draw_fits(e: SpecElement, ey: int, w: int) -> bool {
    match e {
        SpecElement::Paragraph { text, .. } => fits_i32(w - MARGIN_X * 2 - 16) && ey
            + wrapped_lines(text, chars_per_line(w - MARGIN_X * 2 - 16, 8)).len() * 10
            <= i32::MAX,
        SpecElement::Image { alt, w: iw, h: ih, image, .. } => image is None ==> {
            &&& fits_i32(MARGIN_X + iw)
            &&& fits_i32(ey + ih)
            &&& fits_i32(MARGIN_X + iw - 1)
            &&& fits_i32(ey + ih - 1)
            &&& fits_i32(ey + 1)
            &&& fits_i32(ey + half_toward_zero(ih))
            &&& fits_i32(ey + half_toward_zero(ih) - 4)
            &&& cuttable(alt, 30)
        },
        SpecElement::Link { x: lx, w: lw, .. } => fits_i32(lx + lw) && fits_i32(ey + 10),
        SpecElement::HRule { .. } => fits_i32(w - MARGIN_X * 2) && fits_i32(ey + 1),
        _ => true,
    }
}

/// Drawing element `e` stays within the `i32` range and cuts captions where it can.
pub open spec fn element_fits(e: SpecElement, scroll: int, vh: int, w: int) -> bool {
    let ey = screen_y(e, scroll);
    &&& fits_i32(element_y(e) - scroll)
    &&& fits_i32(ey)
    &&& fits_i32(element_height(e))
    &&& fits_i32(ey + element_height(e))
    &&& element_visible(e, scroll, vh) ==> draw_fits(e, ey, w)
}

/// Drawing the page of `st` stays within the `i32` range.
pub open spec fn content_fits(st: BrowserState) -> bool {
    let w = wrap_i32(st.buf.width as int);
    &&& fits_i32(viewport_h(st.buf.height))
    &&& fits_i32(NAV_H + viewport_h(st.buf.height))
    &&& st.layout matches Some(l) ==> forall|k: int|
        0 <= k < l.elements@.len() ==> #[trigger] element_fits(
            l.elements@[k]@,
            st.scroll_y as int,
            viewport_h(st.buf.height),
            w,
        )
}

/// The message shown when no document is loaded.
pub open spec fn no_document_layers() -> Seq<Layer> {
    seq![
        glyph_layer(
            "No document loaded. Use: retrox gui <file.rnmdl>"@,
            MARGIN_X as int,
            NAV_H + 32,
            1,
            Color::fg(),
        ),
    ]
}


/// Whether the hovered element is a link to `target`.
fn link_is_hovered(layout: &Layout, hover: Option<usize>, target: &str) -> (b: bool)
    ensures
        b == link_hovered(elements_view(layout.elements@), hover, target@),
{
    match hover {
        Some(hi) => if hi < layout.elements.len() {
            match &layout.elements[hi] {
                Element::Link { target: t, .. } => str_eq(t.as_str(), target),
                _ => false,
            }
        } else {
            false
        },
        None => false,
    }
}

/// The layers of a visible element other than a decoded image, drawn with its top at `ey`
/// on screen (a hovered link lighter).
pub open spec fn element_paint(e: SpecElement, ey: int, w: int, hov: bool) -> Seq<Layer> {
    match e {
        SpecElement::Heading { text, level, .. } => seq![
            glyph_layer(text, MARGIN_X as int, ey, heading_scale(level), heading_color(level)),
        ],
        SpecElement::Paragraph { text, .. } => wrapped_layers(
            text,
            MARGIN_X as int,
            ey,
            w - MARGIN_X * 2 - 16,
            1,
            Color::fg(),
        ),
        SpecElement::Image { alt, w: iw, h: ih, image, .. } => if image is Some {
            seq![]
        } else {
            placeholder_layers(alt, MARGIN_X as int, ey, iw, ih)
        },
        SpecElement::Link { text, x: lx, w: lw, .. } => seq![
            glyph_layer(text, lx, ey, 1, if hov {
                Color::link_hover()
            } else {
                Color::link()
            }),
            fill_layer(lx, ey + 9, lw, 1, if hov {
                Color::link_hover()
            } else {
                Color::link_underline()
            }),
        ],
        SpecElement::HRule { .. } => seq![
            fill_layer(MARGIN_X as int, ey, w - MARGIN_X * 2, 1, Color::divider()),
        ],
        SpecElement::Spacer { .. } => seq![],
    }
}

/// Draws one element (not a decoded image) with its top at `ey` on screen.
pub(crate) fn draw_element(buf: &mut PixelBuffer, el: &Element, ey: i32, w: i32, hov: bool)
    requires
        old(buf).wf(),
        !is_picture(el@),
        draw_fits(el@, ey as int, w as int),
    ensures
        final(buf).wf(),
        final(buf).width == old(buf).width,
        final(buf).height == old(buf).height,
        shows(
            old(buf).data@,
            final(buf).data@,
            old(buf).width as int,
            old(buf).height as int,
            element_paint(el@, ey as int, w as int, hov),
        ),
{
    let ghost bw = buf.width as int;
    let ghost bh = buf.height as int;
    let ghost d0 = buf.data@;
    match el {
        Element::Heading { text, level, .. } => {
            let color = if *level == 1 {
                Color::h1()
            } else if *level == 2 {
                Color::h2()
            } else {
                Color::h3()
            };
            let scale: u32 = if *level == 1 {
                3
            } else {
                2
            };
            draw_text(buf, text.as_str(), MARGIN_X, ey, color, scale);
        },
        Element::Paragraph { text, .. } => {
            let max_w = w - MARGIN_X * 2 - 16;
            let _ = draw_text_wrapped(buf, text.as_str(), MARGIN_X, ey, max_w, Color::fg(), 1);
        },
        Element::Image { alt, w: iw, h: ih, .. } => {
            draw_image_placeholder(buf, alt.as_str(), MARGIN_X, ey, *iw, *ih);
        },
        Element::Link { text, x: lx, w: lw, .. } => {
            let color = if hov {
                Color::link_hover()
            } else {
                Color::link()
            };
            draw_text(buf, text.as_str(), *lx, ey, color, 1);
            let ghost mid = buf.data@;
            draw_link_underline(buf, *lx, ey + 9, *lw, hov);
            proof {
                let a = seq![glyph_layer(text@, *lx as int, ey as int, 1, color)];
                let b = seq![
                    fill_layer(*lx as int, ey + 9, *lw as int, 1, if hov {
                        Color::link_hover()
                    } else {
                        Color::link_underline()
                    }),
                ];
                lemma_shows_chain(d0, mid, buf.data@, bw, bh, a, b);
                assert(element_paint(el@, ey as int, w as int, hov) =~= a + b);
            }
        },
        Element::HRule { .. } => {
            draw_horizontal_rule(buf, MARGIN_X, ey, w - MARGIN_X * 2, Color::divider());
        },
        Element::Spacer { .. } => {
            proof {
                lemma_shows_none(d0, bw, bh);
            }
        },
    }
}

impl BrowserState {
    /// Draws the page from element `from` on, in order, up to the first visible decoded
    /// image, whose index it returns for the caller to draw before going on after it; `None`
    /// when the page is done. Without a document it writes a hint instead.
    #[verifier::rlimit(50)]
    pub fn draw_content_from(&mut self, from: usize) -> (r: Option<usize>)
        requires
            old(self).buf.wf(),
            content_fits(*old(self)),
            old(self).layout matches Some(l) ==> from <= l.elements@.len(),
        ensures
            final(self).buf.wf(),
            final(self).buf.width == old(self).buf.width,
            final(self).buf.height == old(self).buf.height,
            final(self).scroll_y == old(self).scroll_y,
            final(self).layout == old(self).layout,
            final(self).hover_link == old(self).hover_link,
            final(self).history == old(self).history,
            final(self).current == old(self).current,
            final(self).status_msg == old(self).status_msg,
            match old(self).layout {
                Some(l) => {
                    let es = elements_view(l.elements@);
                    let s = old(self).scroll_y as int;
                    let vh = viewport_h(old(self).buf.height);
                    let w = wrap_i32(old(self).buf.width as int);
                    let stop = match r {
                        Some(k) => k as int,
                        None => es.len() as int,
                    };
                    &&& match r {
                        Some(k) => next_picture(es, from as int, s, vh) == Some(k as int),
                        None => next_picture(es, from as int, s, vh) is None,
                    }
                    &&& shows(
                        old(self).buf.data@,
                        final(self).buf.data@,
                        old(self).buf.width as int,
                        old(self).buf.height as int,
                        content_layers(es, from as int, stop, old(self).hover_link, s, vh, w),
                    )
                },
                None => r is None && shows(
                    old(self).buf.data@,
                    final(self).buf.data@,
                    old(self).buf.width as int,
                    old(self).buf.height as int,
                    no_document_layers(),
                ),
            },
    {
        let ghost st = *self;
        let w = as_i32(self.buf.width);
        let h = as_i32(self.buf.height);
        let layout = match &self.layout {
            Some(l) => l,
            None => {
                draw_text(
                    &mut self.buf,
                    "No document loaded. Use: retrox gui <file.rnmdl>",
                    MARGIN_X,
                    NAV_H + 32,
                    Color::fg(),
                    1,
                );
                return None;
            },
        };
        let ghost es = elements_view(layout.elements@);
        let ghost bw = st.buf.width as int;
        let ghost bh = st.buf.height as int;
        let ghost d0 = st.buf.data@;
        let ghost hover = st.hover_link;
        let scroll = self.scroll_y;
        let viewport = h - NAV_H - STATUS_H;
        let mut i = from;
        proof {
            lemma_shows_none(d0, bw, bh);
        }
        while i < layout.elements.len()
            invariant
                self.buf.wf(),
                self.buf.width as int == bw,
                self.buf.height as int == bh,
                self.scroll_y == st.scroll_y,
                self.hover_link == hover,
                st == *old(self),
                bw == st.buf.width as int,
                bh == st.buf.height as int,
                d0 == st.buf.data@,
                hover == st.hover_link,
                self.layout == st.layout,
                self.history == st.history,
                self.current == st.current,
                self.status_msg == st.status_msg,
                st.layout == Some(*layout),
                es == elements_view(layout.elements@),
                es.len() == layout.elements.len(),
                from <= i <= layout.elements.len(),
                scroll == st.scroll_y,
                w == wrap_i32(bw),
                viewport == viewport_h(st.buf.height),
                content_fits(st),
                next_picture(es, from as int, scroll as int, viewport as int) == next_picture(
                    es,
                    i as int,
                    scroll as int,
                    viewport as int,
                ),
                shows(
                    d0,
                    self.buf.data@,
                    bw,
                    bh,
                    content_layers(es, from as int, i as int, hover, scroll as int, viewport as int, w as int),
                ),
            decreases layout.elements.len() - i,
        {
            let ghost e = es[i as int];
            let ghost prev = self.buf.data@;
            proof {
                assert(e == layout.elements@[i as int]@);
                let l = st.layout->Some_0;
                assert(l == *layout);
                assert(element_fits(l.elements@[i as int]@, st.scroll_y as int, viewport_h(st.buf.height), wrap_i32(st.buf.width as int)));
            }
            let el = &layout.elements[i];
            let ey = el.y() - scroll + NAV_H;
            let eh = el.height(w);
            if ey + eh < NAV_H || ey > NAV_H + viewport {
                proof {
                    assert(content_layers(es, from as int, i + 1, hover, scroll as int, viewport as int, w as int)
                        =~= content_layers(es, from as int, i as int, hover, scroll as int, viewport as int, w as int));
                }
                i = i + 1;
                continue;
            }
            let ghost el_layers = element_layers(e, es, hover, scroll as int, w as int);
            if let Element::Image { image: Some(_), .. } = el {
                return Some(i);
            }
            let is_hover = match el {
                Element::Link { target, .. } => link_is_hovered(layout, self.hover_link, target.as_str()),
                _ => false,
            };
            draw_element(&mut self.buf, el, ey, w, is_hover);
            proof {
                assert(shows(prev, self.buf.data@, bw, bh, el_layers));
                lemma_shows_chain(
                    d0,
                    prev,
                    self.buf.data@,
                    bw,
                    bh,
                    content_layers(es, from as int, i as int, hover, scroll as int, viewport as int, w as int),
                    el_layers,
                );
                assert(content_layers(es, from as int, i + 1, hover, scroll as int, viewport as int, w as int)
                    =~= content_layers(es, from as int, i as int, hover, scroll as int, viewport as int, w as int) + el_layers);
            }
            i = i + 1;
        }
        None
    }
}

/// Where the document's name starts on a navigation bar `w` pixels wide: centred, and, when
/// `clamped`, no further left than the bar's edge.
pub open spec fn title_x(w: int, name: Seq<char>, clamped: bool) -> int {
    let t = half_toward_zero(w) - half_toward_zero(utf8_len(name) as int * 8);
    if clamped && t < 0 {
        0
    } else {
        t
    }
}

/// What the navigation bar shows: its background and lower rule, the back button (lit when
/// there is history), "< Back", the document's file name centred (see `title_x`), and
/// "RetroX GN-Z11" on the right.
pub open spec fn nav_layers(w: int, has_history: bool, name: Seq<char>, clamped: bool) -> Seq<Layer> {
    seq![
        fill_layer(0, 0, w, NAV_H as int, Color::nav_bg()),
        fill_layer(0, NAV_H - 1, w, 1, Color::divider()),
        fill_layer(8, 6, 64, NAV_H - 12, if has_history {
            Color::nav_btn_hover()
        } else {
            Color::nav_btn()
        }),
        glyph_layer("< Back"@, 14, 11, 1, Color::nav_text()),
        glyph_layer(name, title_x(w, name, clamped), 11, 1, Color::nav_text()),
        glyph_layer("RetroX GN-Z11"@, w - 13 * 8 - 16, 11, 1, Color::divider()),
    ]
}

/// The status line: the status message, or the scroll position when there is none.
pub open spec fn status_text(msg: Seq<char>, scroll: int) -> Seq<char> {
    if msg.len() == 0 {
        "RetroX RNMDL GN-Z11 | Scroll: "@ + signed_decimal(scroll) + "px"@
    } else {
        msg
    }
}

/// What the status bar shows: its background, its upper rule and the status line.
pub open spec fn status_layers(w: int, h: int, text: Seq<char>) -> Seq<Layer> {
    seq![
        fill_layer(0, h - STATUS_H, w, STATUS_H as int, Color::status_bg()),
        fill_layer(0, h - STATUS_H, w, 1, Color::divider()),
        glyph_layer(text, 8, h - STATUS_H + 6, 1, Color::status_text()),
    ]
}

impl BrowserState {
    /// Draws the navigation bar; `name` is the file name of the document shown, and
    /// `clamp_title` keeps it from starting left of the bar when it is wider than the bar.
    pub fn draw_nav(&mut self, name: &str, clamp_title: bool)
        requires
            old(self).buf.wf(),
            fits_i32(wrap_i32(old(self).buf.width as int) - 13 * 8 - 16),
            utf8_len(name@) * 8 <= i32::MAX,
            fits_i32(half_toward_zero(wrap_i32(old(self).buf.width as int)) - half_toward_zero(
                utf8_len(name@) as int * 8,
            )),
        ensures
            final(self).buf.wf(),
            final(self).buf.width == old(self).buf.width,
            final(self).buf.height == old(self).buf.height,
            final(self).scroll_y == old(self).scroll_y,
            final(self).layout == old(self).layout,
            final(self).hover_link == old(self).hover_link,
            final(self).history == old(self).history,
            final(self).current == old(self).current,
            final(self).status_msg == old(self).status_msg,
            shows(
                old(self).buf.data@,
                final(self).buf.data@,
                old(self).buf.width as int,
                old(self).buf.height as int,
                nav_layers(wrap_i32(old(self).buf.width as int), old(self).history@.len() > 0, name@, clamp_title),
            ),
    {
        let ghost bw = self.buf.width as int;
        let ghost bh = self.buf.height as int;
        let ghost d0 = self.buf.data@;
        let w = as_i32(self.buf.width);
        fill_rect(&mut self.buf, 0, 0, w, NAV_H, Color::nav_bg());
        let ghost d1 = self.buf.data@;
        draw_horizontal_rule(&mut self.buf, 0, NAV_H - 1, w, Color::divider());
        let ghost d2 = self.buf.data@;
        let has_history = self.history.len() > 0;
        let btn_color = if has_history {
            Color::nav_btn_hover()
        } else {
            Color::nav_btn()
        };
        fill_rect(&mut self.buf, 8, 6, 64, NAV_H - 12, btn_color);
        let ghost d3 = self.buf.data@;
        draw_text(&mut self.buf, "< Back", 14, 11, Color::nav_text(), 1);
        let ghost d4 = self.buf.data@;
        let n = str_utf8_len(name);
        let centred = w / 2 - (n as i32 * 8) / 2;
        let tx = if clamp_title && centred < 0 {
            0
        } else {
            centred
        };
        draw_text(&mut self.buf, name, tx, 11, Color::nav_text(), 1);
        let ghost d5 = self.buf.data@;
        let lx = w - 13 * 8 - 16;
        draw_text(&mut self.buf, "RetroX GN-Z11", lx, 11, Color::divider(), 1);
        proof {
            let ls = nav_layers(w as int, has_history, name@, clamp_title);
            lemma_shows_chain(d0, d1, d2, bw, bh, seq![ls[0]], seq![ls[1]]);
            assert(seq![ls[0]] + seq![ls[1]] =~= seq![ls[0], ls[1]]);
            lemma_shows_chain(d0, d2, d3, bw, bh, seq![ls[0], ls[1]], seq![ls[2]]);
            assert(seq![ls[0], ls[1]] + seq![ls[2]] =~= seq![ls[0], ls[1], ls[2]]);
            lemma_shows_chain(d0, d3, d4, bw, bh, seq![ls[0], ls[1], ls[2]], seq![ls[3]]);
            assert(seq![ls[0], ls[1], ls[2]] + seq![ls[3]] =~= seq![ls[0], ls[1], ls[2], ls[3]]);
            lemma_shows_chain(d0, d4, d5, bw, bh, seq![ls[0], ls[1], ls[2], ls[3]], seq![ls[4]]);
            assert(seq![ls[0], ls[1], ls[2], ls[3]] + seq![ls[4]] =~= seq![ls[0], ls[1], ls[2], ls[3], ls[4]]);
            lemma_shows_chain(d0, d5, self.buf.data@, bw, bh, seq![ls[0], ls[1], ls[2], ls[3], ls[4]], seq![ls[5]]);
            assert(seq![ls[0], ls[1], ls[2], ls[3], ls[4]] + seq![ls[5]] =~= ls);
        }
    }

    /// Draws the status bar at the bottom of the frame.
    pub fn draw_status(&mut self)
        requires
            old(self).buf.wf(),
            fits_i32(wrap_i32(old(self).buf.height as int) - STATUS_H),
        ensures
            final(self).buf.wf(),
            final(self).buf.width == old(self).buf.width,
            final(self).buf.height == old(self).buf.height,
            final(self).scroll_y == old(self).scroll_y,
            final(self).layout == old(self).layout,
            final(self).hover_link == old(self).hover_link,
            final(self).history == old(self).history,
            final(self).current == old(self).current,
            final(self).status_msg == old(self).status_msg,
            shows(
                old(self).buf.data@,
                final(self).buf.data@,
                old(self).buf.width as int,
                old(self).buf.height as int,
                status_layers(
                    wrap_i32(old(self).buf.width as int),
                    wrap_i32(old(self).buf.height as int),
                    status_text(old(self).status_msg@, old(self).scroll_y as int),
                ),
            ),
    {
        let ghost bw = self.buf.width as int;
        let ghost bh = self.buf.height as int;
        let ghost d0 = self.buf.data@;
        let w = as_i32(self.buf.width);
        let h = as_i32(self.buf.height);
        let sy = h - STATUS_H;
        fill_rect(&mut self.buf, 0, sy, w, STATUS_H, Color::status_bg());
        let ghost d1 = self.buf.data@;
        draw_horizontal_rule(&mut self.buf, 0, sy, w, Color::divider());
        let ghost d2 = self.buf.data@;
        let msg = if self.status_msg.as_str().is_empty() {
            let mut m = string_of("RetroX RNMDL GN-Z11 | Scroll: ");
            append_signed_decimal(&mut m, self.scroll_y);
            append_str(&mut m, "px");
            m
        } else {
            copy_string(&self.status_msg)
        };
        draw_text(&mut self.buf, msg.as_str(), 8, sy + 6, Color::status_text(), 1);
        proof {
            let ls = status_layers(w as int, h as int, msg@);
            assert(msg@ == status_text(old(self).status_msg@, old(self).scroll_y as int));
            lemma_shows_chain(d0, d1, d2, bw, bh, seq![ls[0]], seq![ls[1]]);
            assert(seq![ls[0]] + seq![ls[1]] =~= seq![ls[0], ls[1]]);
            lemma_shows_chain(d0, d2, self.buf.data@, bw, bh, seq![ls[0], ls[1]], seq![ls[2]]);
            assert(seq![ls[0], ls[1]] + seq![ls[2]] =~= ls);
        }
    }
}

} // verus!
