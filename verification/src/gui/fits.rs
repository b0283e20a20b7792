//! The tests a caller makes before drawing a page: that every coordinate the drawing
//! computes stays within the `i32` range, and that the caption of an image that could not be
//! shown is cut at a character's end. Each returns exactly the condition the drawing
//! functions require.
use vstd::prelude::*;
use crate::text::{is_cuttable, split_whitespace};
use super::layout::{
    Layout, Element, elements_view, element_height, paragraph_line_count, lemma_wrapped_count, MARGIN_X, H1_SCALE,
    H2_SCALE, H3_SCALE,
};
use super::paint::{fits_i32, wrap_i32, chars_per_line};
use super::browser::{
    BrowserState, draw_fits, element_fits, content_fits, viewport_h, hit_fits, hits_fit, event_fits, content_height,
};
use super::paged::paged_event_fits;
use crate::platform::{PixelBuffer, Event, Key};
use super::page::{page_drawing_fits, page_y, on_page};

verus! {

fn fits(v: i64) -> (b: bool)
    ensures
        b == fits_i32(v as int),
{
    -2147483648 <= v && v <= 2147483647
}

/// The height of an element, computed without overflow.
fn height_wide(e: &Element) -> (h: i64)
    ensures
        h == element_height(e@),
{
    match e {
        Element::Heading { level, .. } => {
            let scale: i64 = if *level == 1 {
                H1_SCALE as i64
            } else if *level == 2 {
                H2_SCALE as i64
            } else {
                H3_SCALE as i64
            };
            8 * scale + 28
        },
        Element::Paragraph { h, .. } => *h as i64,
        Element::Image { h, .. } => *h as i64 + 14,
        Element::Link { .. } => 24,
        Element::HRule { .. } => 8,
        Element::Spacer { h, .. } => *h as i64,
    }
}

/// Whether drawing element `e` with its top at `ey`, in a frame `w` pixels wide, stays
/// within the `i32` range and cuts its caption where it can (`draw_fits`).
pub fn draw_fits_check(e: &Element, ey: i32, w: i32) -> (b: bool)
    ensures
        b == draw_fits(e@, ey as int, w as int),
{
    match e {
        Element::Paragraph { text, .. } => {
            if !fits(w as i64 - 96) {
                return false;
            }
            let n = paragraph_line_count(text.as_str(), w);
            let nwords = split_whitespace(text.as_str()).len();
            proof {
                lemma_wrapped_count(text@, chars_per_line(w - MARGIN_X * 2 - 16, 8));
            }
            let lines: u128 = if nwords == 0 {
                0
            } else {
                n
            };
            (ey as i128) + (lines as i128) * 10 <= 2147483647
        },
        Element::Image { alt, w: iw, h: ih, image, .. } => {
            if image.is_some() {
                return true;
            }
            let half: i32 = *ih / 2;
            assert(half as int == crate::gui::paint::half_toward_zero(*ih as int));
            fits(40 + *iw as i64) && fits(ey as i64 + *ih as i64) && fits(40 + *iw as i64 - 1) && fits(
                ey as i64 + *ih as i64 - 1,
            ) && fits(ey as i64 + 1) && fits(ey as i64 + half as i64) && fits(ey as i64 + half as i64 - 4)
                && is_cuttable(alt.as_str(), 30)
        },
        Element::Link { x, w: lw, .. } => fits(*x as i64 + *lw as i64) && fits(ey as i64 + 10),
        Element::HRule { .. } => fits(w as i64 - 80) && fits(ey as i64 + 1),
        _ => true,
    }
}

/// Whether drawing element `e` on screen at the scroll position `scroll`, with a viewport
/// `vh` high in a frame `w` wide, stays within range (`element_fits`).
pub fn element_fits_check(e: &Element, scroll: i32, vh: i32, w: i32) -> (b: bool)
    ensures
        b == element_fits(e@, scroll as int, vh as int, w as int),
{
    let y = e.y();
    let h = height_wide(e);
    let ey = y as i64 - scroll as i64 + 32;
    if !(fits(y as i64 - scroll as i64) && fits(ey) && fits(h) && fits(ey + h)) {
        return false;
    }
    let visible = !(ey + h < 32) && !(ey > 32 + vh as i64);
    if visible {
        draw_fits_check(e, ey as i32, w)
    } else {
        true
    }
}

/// `v as i32` for a `u32`.
fn as_i32(v: u32) -> (r: i32)
    ensures
        r == wrap_i32(v as int),
{
    if v <= 2147483647 {
        v as i32
    } else {
        (v as i64 - 4294967296) as i32
    }
}

/// Whether drawing the page of `st` into its frame stays within range (`content_fits`).
pub fn content_fits_check(st: &BrowserState) -> (b: bool)
    ensures
        b == content_fits(*st),
{
    let w = as_i32(st.buf.width);
    let vh = as_i32(st.buf.height) as i64 - 52;
    if !(fits(vh) && fits(32 + vh)) {
        return false;
    }
    let vh = vh as i32;
    match &st.layout {
        None => true,
        Some(l) => {
            let mut i: usize = 0;
            while i < l.elements.len()
                invariant
                    i <= l.elements@.len(),
                    st.layout == Some(*l),
                    w == wrap_i32(st.buf.width as int),
                    vh == viewport_h(st.buf.height),
                    forall|k: int|
                        0 <= k < i ==> #[trigger] element_fits(
                            l.elements@[k]@,
                            st.scroll_y as int,
                            vh as int,
                            w as int,
                        ),
                decreases l.elements@.len() - i,
            {
                if !element_fits_check(&l.elements[i], st.scroll_y, vh, w) {
                    proof {
                        assert(!element_fits(
                            l.elements@[i as int]@,
                            st.scroll_y as int,
                            viewport_h(st.buf.height),
                            wrap_i32(st.buf.width as int),
                        ));
                        assert(st.layout->Some_0 == *l);
                    }
                    return false;
                }
                i = i + 1;
            }
            true
        },
    }
}

/// Whether drawing the elements of `layout` on a page `ph` high and `w` wide stays within
/// range (`page_drawing_fits`).
pub fn page_drawing_fits_check(layout: &Layout, ph: i32, w: i32) -> (b: bool)
    ensures
        b == page_drawing_fits(elements_view(layout.elements@), ph as int, w as int),
{
    let ghost es = elements_view(layout.elements@);
    let mut i: usize = 0;
    while i < layout.elements.len()
        invariant
            i <= layout.elements@.len(),
            es == elements_view(layout.elements@),
            forall|k: int|
                0 <= k < i ==> {
                    let e = #[trigger] es[k];
                    &&& fits_i32(page_y(e))
                    &&& fits_i32(element_height(e))
                    &&& fits_i32(page_y(e) + element_height(e))
                    &&& on_page(e, ph as int) ==> draw_fits(e, page_y(e), w as int)
                },
        decreases layout.elements@.len() - i,
    {
        let e = &layout.elements[i];
        proof {
            assert(es[i as int] == e@);
        }
        let py = e.y() as i64 + 32;
        let h = height_wide(e);
        if !(fits(py) && fits(h) && fits(py + h)) {
            return false;
        }
        let shown = !(py + h < 0) && !(py > ph as i64);
        if shown && !draw_fits_check(e, py as i32, w) {
            return false;
        }
        i = i + 1;
    }
    true
}

// ─── Events ─────────────────────────────────────────────────

/// Whether the frame's bytes are those of its size.
fn frame_ok(buf: &PixelBuffer) -> (b: bool)
    ensures
        b == buf.wf(),
{
    let w = buf.width as u128;
    let h = buf.height as u128;
    assert(w * h <= 0xFFFF_FFFF * 0xFFFF_FFFF) by (nonlinear_arith)
        requires
            w <= 0xFFFF_FFFF,
            h <= 0xFFFF_FFFF,
    ;
    let n = w * h * 4;
    n <= 0xFFFF_FFFF && buf.data.len() as u128 == n
}

fn hit_fits_check(e: &Element, scroll: i32, vh: i32) -> (b: bool)
    ensures
        b == hit_fits(e@, scroll as int, vh as int),
{
    match e {
        Element::Link { y, x, w, .. } => {
            let d = *y as i64 - scroll as i64;
            fits(d) && fits(d + 32) && fits(32 + vh as i64) && fits(*x as i64 + *w as i64) && fits(d + 48)
        },
        _ => true,
    }
}

/// Whether hit-testing any point of the page of `st` stays within range (`hits_fit`).
pub fn hits_fit_check(st: &BrowserState) -> (b: bool)
    ensures
        b == hits_fit(*st),
{
    let vh = as_i32(st.buf.height) as i64 - 52;
    if !fits(vh) {
        return false;
    }
    let vh = vh as i32;
    match &st.layout {
        None => true,
        Some(l) => {
            let mut i: usize = 0;
            while i < l.elements.len()
                invariant
                    i <= l.elements@.len(),
                    st.layout == Some(*l),
                    vh == viewport_h(st.buf.height),
                    forall|k: int|
                        0 <= k < i ==> #[trigger] hit_fits(l.elements@[k]@, st.scroll_y as int, vh as int),
                decreases l.elements@.len() - i,
            {
                if !hit_fits_check(&l.elements[i], st.scroll_y, vh) {
                    proof {
                        assert(!hit_fits(l.elements@[i as int]@, st.scroll_y as int, viewport_h(st.buf.height)));
                        assert(st.layout->Some_0 == *l);
                    }
                    return false;
                }
                i = i + 1;
            }
            true
        },
    }
}

/// Whether the page's height less the viewport fits an `i32`.
fn scroll_limit_fits(st: &BrowserState) -> (b: bool)
    ensures
        b == fits_i32(content_height(st.layout) - viewport_h(st.buf.height)),
{
    let c: i64 = match &st.layout {
        Some(l) => l.content_h as i64,
        None => 0,
    };
    fits(c - (as_i32(st.buf.height) as i64 - 52))
}

/// Whether the scroll move of `ev` stays in range, with `step` pixels for an arrow key and,
/// when `wheel` holds, 12 pixels a wheel step.
fn scroll_move_fits(s: i32, h: i32, ev: &Event, step: i64, wheel: bool) -> (b: bool)
    requires
        step == 20 || step == 40,
    ensures
        b == match *ev {
            Event::Scroll(d) => !wheel || (fits_i32(d * 12) && fits_i32(s + d * 12)),
            Event::KeyPress(Key::PageUp) => fits_i32(s - h),
            Event::KeyPress(Key::PageDown) => fits_i32(s + h),
            Event::KeyPress(Key::Up) => fits_i32(s - step),
            Event::KeyPress(Key::Down) => fits_i32(s + step),
            _ => true,
        },
{
    match ev {
        Event::Scroll(d) => !wheel || (fits(*d as i64 * 12) && fits(s as i64 + *d as i64 * 12)),
        Event::KeyPress(Key::PageUp) => fits(s as i64 - h as i64),
        Event::KeyPress(Key::PageDown) => fits(s as i64 + h as i64),
        Event::KeyPress(Key::Up) => fits(s as i64 - step),
        Event::KeyPress(Key::Down) => fits(s as i64 + step),
        _ => true,
    }
}

/// Whether a resize asks for a frame whose bytes can be counted in a `u32`.
fn resize_fits(ev: &Event) -> (b: bool)
    ensures
        b == (*ev matches Event::Resize { width, height } ==> width * height * 4 <= u32::MAX),
{
    match ev {
        Event::Resize { width, height } => {
            let w = *width as u128;
            let h = *height as u128;
            assert(w * h <= 0xFFFF_FFFF * 0xFFFF_FFFF) by (nonlinear_arith)
                requires
                    w <= 0xFFFF_FFFF,
                    h <= 0xFFFF_FFFF,
            ;
            w * h * 4 <= 0xFFFF_FFFF
        },
        _ => true,
    }
}

/// Whether `handle_event` can take `ev` in `st` within the `i32` range (`event_fits`).
pub fn event_fits_check(st: &BrowserState, ev: &Event) -> (b: bool)
    ensures
        b == event_fits(*st, *ev),
{
    frame_ok(&st.buf) && hits_fit_check(st) && scroll_limit_fits(st) && scroll_move_fits(
        st.scroll_y,
        as_i32(st.buf.height),
        ev,
        20,
        true,
    ) && resize_fits(ev)
}

/// Whether RetroBrowser's `handle_event` can take `ev` within the `i32` range
/// (`paged_event_fits`).
pub fn paged_event_fits_check(st: &BrowserState, ev: &Event) -> (b: bool)
    ensures
        b == paged_event_fits(*st, *ev),
{
    frame_ok(&st.buf) && hits_fit_check(st) && scroll_limit_fits(st) && scroll_move_fits(
        st.scroll_y,
        as_i32(st.buf.height),
        ev,
        40,
        false,
    ) && resize_fits(ev)
}

} // verus!
