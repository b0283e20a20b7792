//! RetroBrowser's browser: the whole page is drawn once into a page buffer and each frame
//! copies the visible part out of it; the wheel throws the page, which coasts to a stop; and
//! a resize waits for the window to settle before the page is laid out or drawn again.
//!
//! The caller owns the clock and the momentum: it tells the browser when a resize has
//! settled, and how far the momentum moves the page in a frame.
use vstd::prelude::*;
use crate::platform::{PixelBuffer, Event, Key, MouseButton};
use crate::text::{copy_string, string_of};
use super::browser::{
    Action, BrowserState, hits_fit, link_under, link_target, content_height, viewport_h, max_scroll_of,
    clamp,
};
use super::layout::{Layout, MARGIN_X, NAV_H};
use super::layers::{shows, glyph_layer};
use super::paint::{Color, fits_i32, wrap_i32, draw_text};
use super::page::{composite_page, viewport_copied};

verus! {

/// What the caller must do after an event or a frame.
#[derive(Debug)]
pub enum PagedAction {
    /// Nothing changed.
    Nothing,
    /// Draw and present a new frame.
    Redraw,
    /// Close the browser.
    Quit,
    /// Add this turn of the wheel to the page's momentum, then redraw.
    Fling(i32),
    /// Stop the page's momentum, then redraw.
    Halt,
    /// Load this earlier document (taken off the history), then redraw.
    GoBack(String),
    /// Follow a link to this target, then redraw.
    Follow(String),
    /// Lay this document out again at the frame's new width (load it again), then redraw.
    Reload(String),
    /// Draw the page buffer again for the frame's new size, then redraw.
    Repaint,
}

/// RetroBrowser's state: the browser's, the page buffer, the width the page was laid out
/// for, and a resize that has not settled yet, with the size it asked for.
pub struct PagedBrowser {
    pub state: BrowserState,
    pub page: Option<PixelBuffer>,
    pub last_vw: i32,
    pub resize_pending: bool,
    pub pending_w: u32,
    pub pending_h: u32,
}

/// The scroll position after an event: the page keys move by a frame's height, the arrows
/// by 40 pixels, both kept between 0 and the largest scroll; `None` when the move leaves
/// the `i32` range.
pub open spec fn paged_scrolled(st: BrowserState, ev: Event) -> Option<int> {
    let s = st.scroll_y as int;
    let m = max_scroll_of(content_height(st.layout), st.buf.height);
    let h = wrap_i32(st.buf.height as int);
    match ev {
        Event::KeyPress(Key::PageUp) => if fits_i32(s - h) {
            Some(if s - h > 0 {
                s - h
            } else {
                0
            })
        } else {
            None
        },
        Event::KeyPress(Key::PageDown) => if fits_i32(s + h) {
            Some(if s + h < m {
                s + h
            } else {
                m
            })
        } else {
            None
        },
        Event::KeyPress(Key::Up) => if fits_i32(s - 40) {
            Some(if s - 40 > 0 {
                s - 40
            } else {
                0
            })
        } else {
            None
        },
        Event::KeyPress(Key::Down) => if fits_i32(s + 40) {
            Some(if s + 40 < m {
                s + 40
            } else {
                m
            })
        } else {
            None
        },
        _ => Some(s),
    }
}

/// What `handle_event` needs to stay within the `i32` range.
pub open spec fn paged_event_fits(st: BrowserState, ev: Event) -> bool {
    &&& st.buf.wf()
    &&& hits_fit(st)
    &&& fits_i32(content_height(st.layout) - viewport_h(st.buf.height))
    &&& paged_scrolled(st, ev) is Some
    &&& ev matches Event::Resize { width, height } ==> width * height * 4 <= u32::MAX
}

/// `"No document loaded. Use: retrox gui <file.rnmdl>"`, the line shown without a page.
pub open spec fn no_page_text() -> Seq<char> {
    "No document loaded. Use: retrox gui <file.rnmdl>"@
}

impl PagedBrowser {
    /// A browser with a blank frame, no page and no resize waiting.
    pub fn new(width: u32, height: u32) -> (b: Self)
        requires
            width * height * 4 <= u32::MAX,
        ensures
            b.state.buf.wf(),
            b.state.buf.width == width,
            b.state.buf.height == height,
            b.state.scroll_y == 0,
            b.state.history@.len() == 0,
            b.state.current@.len() == 0,
            b.state.layout is None,
            b.state.hover_link is None,
            b.page is None,
            b.last_vw == 0,
            !b.resize_pending,
            b.pending_w == width,
            b.pending_h == height,
    {
        PagedBrowser {
            state: BrowserState::new(width, height),
            page: None,
            last_vw: 0,
            resize_pending: false,
            pending_w: width,
            pending_h: height,
        }
    }

    /// Handles one input event: the wheel throws the page, the keys move it and stop it,
    /// hovering marks a link, a click on a link or on the back button asks the caller to
    /// load a document, closing or Escape quits, and a resize clears the frame and waits to
    /// settle.
    pub fn handle_event(&mut self, ev: Event) -> (act: PagedAction)
        requires
            paged_event_fits(old(self).state, ev),
        ensures
            final(self).state.buf.wf(),
            final(self).state.scroll_y == paged_scrolled(old(self).state, ev)->Some_0,
            final(self).state.current == old(self).state.current,
            final(self).state.asset_base == old(self).state.asset_base,
            final(self).state.layout == old(self).state.layout,
            final(self).state.status_msg@ == old(self).state.status_msg@,
            final(self).page == old(self).page,
            final(self).last_vw == old(self).last_vw,
            !(ev is Resize) ==> final(self).state.buf == old(self).state.buf,
            !(ev is Resize) ==> final(self).resize_pending == old(self).resize_pending
                && final(self).pending_w == old(self).pending_w && final(self).pending_h == old(self).pending_h,
            !(ev is MouseMove) ==> final(self).state.hover_link == old(self).state.hover_link,
            !(act is GoBack) ==> final(self).state.history == old(self).state.history,
            match ev {
                Event::Close => act is Quit,
                Event::Resize { width, height } => {
                    &&& final(self).state.buf.width == width
                    &&& final(self).state.buf.height == height
                    &&& forall|i: int|
                        0 <= i < final(self).state.buf.data@.len() ==> final(self).state.buf.data@[i] == 0
                    &&& final(self).resize_pending
                    &&& final(self).pending_w == width
                    &&& final(self).pending_h == height
                    &&& act is Redraw
                },
                Event::Scroll(d) => act == PagedAction::Fling(d),
                Event::KeyPress(k) => match k {
                    Key::PageUp | Key::PageDown | Key::Up | Key::Down => act is Halt,
                    Key::Escape => act is Quit,
                    _ => act is Nothing,
                },
                Event::MouseMove { x, y } => {
                    let hit = link_under(old(self).state, wrap_i32(x as int), wrap_i32(y as int));
                    let was = match old(self).state.hover_link {
                        Some(k) => Some(k as int),
                        None => None,
                    };
                    &&& match final(self).state.hover_link {
                        Some(k) => hit == Some(k as int),
                        None => hit is None,
                    }
                    &&& if hit != was {
                        act is Redraw
                    } else {
                        act is Nothing
                    }
                },
                Event::MouseClick { x, y, button } => if button is Left {
                    if y < NAV_H {
                        if x < 80 && old(self).state.history@.len() > 0 {
                            &&& act matches PagedAction::GoBack(p) && p@ == old(self).state.history@.last()@
                            &&& final(self).state.history@ == old(self).state.history@.drop_last()
                        } else {
                            act is Nothing
                        }
                    } else {
                        match link_under(old(self).state, wrap_i32(x as int), wrap_i32(y as int)) {
                            Some(k) => match link_target(old(self).state, k) {
                                Some(t) => act matches PagedAction::Follow(p) && p@ == t,
                                None => act is Nothing,
                            },
                            None => act is Nothing,
                        }
                    }
                } else {
                    act is Nothing
                },
            },
    {
        match ev {
            Event::Close => PagedAction::Quit,
            Event::Resize { width, height } => {
                self.resize_pending = true;
                self.pending_w = width;
                self.pending_h = height;
                self.state.buf.resize(width, height);
                PagedAction::Redraw
            },
            Event::Scroll(delta) => PagedAction::Fling(delta),
            Event::KeyPress(key) => {
                let h: i32 = if self.state.buf.height <= 2147483647 {
                    self.state.buf.height as i32
                } else {
                    (self.state.buf.height as i64 - 4294967296) as i32
                };
                match key {
                    Key::PageUp => {
                        let v = self.state.scroll_y - h;
                        self.state.scroll_y = if v > 0 {
                            v
                        } else {
                            0
                        };
                        PagedAction::Halt
                    },
                    Key::PageDown => {
                        let max = self.state.max_scroll();
                        let v = self.state.scroll_y + h;
                        self.state.scroll_y = if v < max {
                            v
                        } else {
                            max
                        };
                        PagedAction::Halt
                    },
                    Key::Up => {
                        let v = self.state.scroll_y - 40;
                        self.state.scroll_y = if v > 0 {
                            v
                        } else {
                            0
                        };
                        PagedAction::Halt
                    },
                    Key::Down => {
                        let max = self.state.max_scroll();
                        let v = self.state.scroll_y + 40;
                        self.state.scroll_y = if v < max {
                            v
                        } else {
                            max
                        };
                        PagedAction::Halt
                    },
                    Key::Escape => PagedAction::Quit,
                    _ => PagedAction::Nothing,
                }
            },
            Event::MouseMove { .. } => {
                // The hover is the browser's; the status line stays as it is.
                let msg = copy_string(&self.state.status_msg);
                let prev = self.state.hover_link;
                let act = self.state.handle_event(ev);
                let now = self.state.hover_link;
                self.state.status_msg = msg;
                let changed = match (prev, now) {
                    (Some(a), Some(b)) => a != b,
                    (None, None) => false,
                    _ => true,
                };
                if changed {
                    PagedAction::Redraw
                } else {
                    PagedAction::Nothing
                }
            },
            Event::MouseClick { .. } => match self.state.handle_event(ev) {
                Action::GoBack(p) => PagedAction::GoBack(p),
                Action::Follow(t) => PagedAction::Follow(t),
                _ => PagedAction::Nothing,
            },
        }
    }

    /// A resize has settled: the frame takes the size last asked for, and the document is
    /// laid out again when the width changed (and there is a document), else the page is
    /// drawn again. Without a resize waiting, nothing happens.
    pub fn settle_resize(&mut self) -> (act: PagedAction)
        requires
            old(self).resize_pending ==> old(self).pending_w * old(self).pending_h * 4 <= u32::MAX,
        ensures
            final(self).state.scroll_y == old(self).state.scroll_y,
            final(self).state.history == old(self).state.history,
            final(self).state.current == old(self).state.current,
            final(self).state.layout == old(self).state.layout,
            final(self).state.hover_link == old(self).state.hover_link,
            final(self).state.status_msg == old(self).state.status_msg,
            final(self).page == old(self).page,
            final(self).pending_w == old(self).pending_w,
            final(self).pending_h == old(self).pending_h,
            !final(self).resize_pending,
            !old(self).resize_pending ==> act is Nothing && final(self).state.buf == old(self).state.buf
                && final(self).last_vw == old(self).last_vw,
            old(self).resize_pending ==> {
                &&& final(self).state.buf.wf()
                &&& final(self).state.buf.width == old(self).pending_w
                &&& final(self).state.buf.height == old(self).pending_h
                &&& forall|i: int|
                    0 <= i < final(self).state.buf.data@.len() ==> final(self).state.buf.data@[i] == 0
                &&& if old(self).last_vw != wrap_i32(old(self).pending_w as int) && old(self).state.current@.len()
                    > 0 {
                    &&& final(self).last_vw == wrap_i32(old(self).pending_w as int)
                    &&& act matches PagedAction::Reload(p) && p@ == old(self).state.current@
                } else {
                    final(self).last_vw == old(self).last_vw && act is Repaint
                }
            },
    {
        if !self.resize_pending {
            return PagedAction::Nothing;
        }
        self.resize_pending = false;
        let w = self.pending_w;
        let h = self.pending_h;
        self.state.buf.resize(w, h);
        let vw: i32 = if w <= 2147483647 {
            w as i32
        } else {
            (w as i64 - 4294967296) as i32
        };
        if self.last_vw != vw && !self.state.current.as_str().is_empty() {
            self.last_vw = vw;
            PagedAction::Reload(copy_string(&self.state.current))
        } else {
            PagedAction::Repaint
        }
    }

    /// One frame of momentum: the page moves by `step` pixels, the whole part of its
    /// momentum, and stays between 0 and the largest scroll. Returns whether it came to rest
    /// against either end, where the momentum stops.
    pub fn coast(&mut self, step: i32) -> (stopped: bool)
        requires
            fits_i32(viewport_h(old(self).state.buf.height)),
            fits_i32(content_height(old(self).state.layout) - viewport_h(old(self).state.buf.height)),
            fits_i32(old(self).state.scroll_y + step),
        ensures
            final(self).state.scroll_y == clamp(
                old(self).state.scroll_y + step,
                0,
                max_scroll_of(content_height(old(self).state.layout), old(self).state.buf.height),
            ),
            stopped == (final(self).state.scroll_y <= 0 || final(self).state.scroll_y >= max_scroll_of(
                content_height(old(self).state.layout),
                old(self).state.buf.height,
            )),
            final(self).state.buf == old(self).state.buf,
            final(self).state.history == old(self).state.history,
            final(self).state.current == old(self).state.current,
            final(self).state.layout == old(self).state.layout,
            final(self).state.hover_link == old(self).state.hover_link,
            final(self).state.status_msg == old(self).state.status_msg,
            final(self).page == old(self).page,
            final(self).last_vw == old(self).last_vw,
            final(self).resize_pending == old(self).resize_pending,
    {
        let max = self.state.max_scroll();
        let v = self.state.scroll_y + step;
        let s = if v < 0 {
            0
        } else if v > max {
            max
        } else {
            v
        };
        self.state.scroll_y = s;
        s <= 0 || s >= max
    }

    /// A document was loaded from `path` and laid out at the frame's width: it is shown from
    /// the top, and that width is remembered. The page buffer is drawn next.
    pub fn loaded(&mut self, path: &str, asset_base: String, layout: Layout)
        ensures
            final(self).state.buf == old(self).state.buf,
            final(self).state.history == old(self).state.history,
            final(self).state.asset_base == asset_base,
            final(self).state.current@ == path@,
            final(self).state.scroll_y == 0,
            final(self).state.hover_link is None,
            final(self).state.status_msg@ == "Loaded: "@ + path@,
            final(self).state.layout == Some(layout),
            final(self).last_vw == wrap_i32(old(self).state.buf.width as int),
            final(self).page == old(self).page,
            final(self).resize_pending == old(self).resize_pending,
    {
        self.state.loaded(path, asset_base, layout);
        let w = self.state.buf.width;
        self.last_vw = if w <= 2147483647 {
            w as i32
        } else {
            (w as i64 - 4294967296) as i32
        };
    }

    /// The content area of the frame: the visible part of the page buffer at the scroll
    /// position, or, with no page yet, a line saying how to open a document.
    pub fn show_page(&mut self)
        requires
            old(self).state.buf.wf(),
            old(self).page matches Some(p) ==> p.wf(),
        ensures
            final(self).state.buf.wf(),
            final(self).state.buf.width == old(self).state.buf.width,
            final(self).state.buf.height == old(self).state.buf.height,
            final(self).state.scroll_y == old(self).state.scroll_y,
            final(self).state.history == old(self).state.history,
            final(self).state.current == old(self).state.current,
            final(self).state.layout == old(self).state.layout,
            final(self).state.hover_link == old(self).state.hover_link,
            final(self).state.status_msg == old(self).state.status_msg,
            final(self).page == old(self).page,
            match old(self).page {
                Some(p) => viewport_copied(
                    old(self).state.buf.data@,
                    final(self).state.buf.data@,
                    old(self).state.buf.width as int,
                    old(self).state.buf.height as int,
                    p.data@,
                    p.width as int,
                    p.height as int,
                    if old(self).state.scroll_y > 0 {
                        old(self).state.scroll_y as int
                    } else {
                        0
                    },
                ),
                None => shows(
                    old(self).state.buf.data@,
                    final(self).state.buf.data@,
                    old(self).state.buf.width as int,
                    old(self).state.buf.height as int,
                    seq![glyph_layer(no_page_text(), MARGIN_X as int, NAV_H + 32, 1, Color::fg())],
                ),
            },
    {
        match &self.page {
            Some(page) => composite_page(&mut self.state.buf, page, self.state.scroll_y),
            None => {
                let msg = string_of("No document loaded. Use: retrox gui <file.rnmdl>");
                draw_text(&mut self.state.buf, msg.as_str(), MARGIN_X, NAV_H + 32, Color::fg(), 1);
            },
        }
    }
}

} // verus!
