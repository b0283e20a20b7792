//! The page buffer: the whole page drawn once, below a navigation bar's height, and the
//! frame's content area copied out of it at the scroll position.
use vstd::prelude::*;
use crate::platform::{PixelBuffer, channel, lemma_with_pixel};
use super::layers::{Layer, shows, lemma_shows_chain, lemma_shows_none};
use super::layout::{Layout, Element, SpecElement, elements_view, element_y, element_height, NAV_H, STATUS_H};
use super::browser::{element_paint, is_picture, draw_fits, draw_element};
use super::paint::{fits_i32, wrap_i32};

verus! {

/// The height of the page buffer: the content, both bars and a 32-pixel margin, at least
/// the frame's height.
pub open spec fn page_height(content_h: int, frame_h: int) -> int {
    if content_h + NAV_H + STATUS_H + 32 > frame_h {
        content_h + NAV_H + STATUS_H + 32
    } else {
        frame_h
    }
}

/// The height of the page buffer for a page `content_h` high in a frame `frame_h` high (the
/// frame's height read as an `i32`).
pub fn page_height_of(content_h: i32, frame_h: u32) -> (h: i32)
    requires
        content_h + NAV_H + STATUS_H + 32 <= i32::MAX,
    ensures
        h == page_height(content_h as int, wrap_i32(frame_h as int)),
{
    let fh: i32 = if frame_h <= 0x7FFF_FFFF {
        frame_h as i32
    } else {
        (frame_h as i64 - 0x1_0000_0000) as i32
    };
    let ph = content_h + NAV_H + STATUS_H + 32;
    if ph > fh {
        ph
    } else {
        fh
    }
}

/// Where element `e` goes on the page.
pub open spec fn page_y(e: SpecElement) -> int {
    element_y(e) + NAV_H
}

/// Whether any of `e` falls on a page `ph` pixels high.
pub open spec fn on_page(e: SpecElement, ph: int) -> bool {
    !(page_y(e) + element_height(e) < 0) && !(page_y(e) > ph)
}

/// What drawing elements `i..j` on the page paints: those on the page in order, links not
/// hovered, decoded images left to the caller.
pub open spec fn page_layers(es: Seq<SpecElement>, i: int, j: int, ph: int, w: int) -> Seq<Layer>
    decreases j - i,
{
    if j <= i {
        seq![]
    } else {
        let e = es[j - 1];
        page_layers(es, i, j - 1, ph, w) + if on_page(e, ph) && !is_picture(e) {
            element_paint(e, page_y(e), w, false)
        } else {
            seq![]
        }
    }
}

/// The first decoded image on the page at or after `i`.
pub open spec fn next_page_picture(es: Seq<SpecElement>, i: int, ph: int) -> Option<int>
    decreases es.len() - i,
{
    if i < 0 || i >= es.len() {
        None
    } else if on_page(es[i], ph) && is_picture(es[i]) {
        Some(i)
    } else {
        next_page_picture(es, i + 1, ph)
    }
}

/// Drawing the elements on a page `ph` high and `w` wide stays within the `i32` range.
pub open spec fn page_drawing_fits(es: Seq<SpecElement>, ph: int, w: int) -> bool {
    forall|k: int|
        0 <= k < es.len() ==> {
            let e = #[trigger] es[k];
            &&& fits_i32(page_y(e))
            &&& fits_i32(element_height(e))
            &&& fits_i32(page_y(e) + element_height(e))
            &&& on_page(e, ph) ==> draw_fits(e, page_y(e), w)
        }
}

/// Draws the page from element `from` on, in order, up to the first decoded image on the
/// page, whose index it returns for the caller to draw before going on after it; `None`
/// when the page is done.
#[verifier::rlimit(50)]
pub fn draw_page_from(page: &mut PixelBuffer, layout: &Layout, from: usize) -> (r: Option<usize>)
    requires
        old(page).wf(),
        page_drawing_fits(
            elements_view(layout.elements@),
            wrap_i32(old(page).height as int),
            wrap_i32(old(page).width as int),
        ),
        from <= layout.elements@.len(),
    ensures
        final(page).wf(),
        final(page).width == old(page).width,
        final(page).height == old(page).height,
        ({
            let es = elements_view(layout.elements@);
            let ph = wrap_i32(old(page).height as int);
            let w = wrap_i32(old(page).width as int);
            let stop = match r {
                Some(k) => k as int,
                None => es.len() as int,
            };
            &&& match r {
                Some(k) => next_page_picture(es, from as int, ph) == Some(k as int),
                None => next_page_picture(es, from as int, ph) is None,
            }
            &&& shows(
                old(page).data@,
                final(page).data@,
                old(page).width as int,
                old(page).height as int,
                page_layers(es, from as int, stop, ph, w),
            )
        }),
{
    let ghost es = elements_view(layout.elements@);
    let ghost bw = page.width as int;
    let ghost bh = page.height as int;
    let ghost d0 = page.data@;
    let w: i32 = if page.width <= 0x7FFF_FFFF {
        page.width as i32
    } else {
        (page.width as i64 - 0x1_0000_0000) as i32
    };
    let ph: i32 = if page.height <= 0x7FFF_FFFF {
        page.height as i32
    } else {
        (page.height as i64 - 0x1_0000_0000) as i32
    };
    let mut i = from;
    proof {
        lemma_shows_none(d0, bw, bh);
    }
    while i < layout.elements.len()
        invariant
            page.wf(),
            page.width as int == bw,
            page.height as int == bh,
            bw == old(page).width as int,
            bh == old(page).height as int,
            d0 == old(page).data@,
            es == elements_view(layout.elements@),
            es.len() == layout.elements.len(),
            from <= i <= layout.elements.len(),
            w == wrap_i32(bw),
            ph == wrap_i32(bh),
            page_drawing_fits(es, ph as int, w as int),
            next_page_picture(es, from as int, ph as int) == next_page_picture(es, i as int, ph as int),
            shows(d0, page.data@, bw, bh, page_layers(es, from as int, i as int, ph as int, w as int)),
        decreases layout.elements.len() - i,
    {
        let ghost e = es[i as int];
        let ghost prev = page.data@;
        proof {
            assert(e == layout.elements@[i as int]@);
        }
        let el = &layout.elements[i];
        let ey = el.y() + NAV_H;
        let eh = el.height(w);
        if ey + eh < 0 || ey > ph {
            proof {
                assert(page_layers(es, from as int, i + 1, ph as int, w as int) =~= page_layers(
                    es,
                    from as int,
                    i as int,
                    ph as int,
                    w as int,
                ));
            }
            i = i + 1;
            continue;
        }
        if let Element::Image { image: Some(_), .. } = el {
            return Some(i);
        }
        let ghost el_layers = element_paint(e, page_y(e), w as int, false);
        draw_element(page, el, ey, w, false);
        proof {
            lemma_shows_chain(
                d0,
                prev,
                page.data@,
                bw,
                bh,
                page_layers(es, from as int, i as int, ph as int, w as int),
                el_layers,
            );
            assert(page_layers(es, from as int, i + 1, ph as int, w as int) =~= page_layers(
                es,
                from as int,
                i as int,
                ph as int,
                w as int,
            ) + el_layers);
        }
        i = i + 1;
    }
    None
}

// ─── Compositing ────────────────────────────────────────────

/// The rows of the content area: the frame less both bars, none when it is lower.
pub open spec fn content_rows(frame_h: int) -> int {
    if frame_h > NAV_H + STATUS_H {
        frame_h - NAV_H - STATUS_H
    } else {
        0
    }
}

/// The rows copied from a page `ph` high from row `s` on: as many as the content area has,
/// but none past the page's end.
pub open spec fn rows_copied(frame_h: int, ph: int, s: int) -> int {
    if s >= ph {
        0
    } else if ph - s < content_rows(frame_h) {
        ph - s
    } else {
        content_rows(frame_h)
    }
}

/// `new` is frame `old` (`w` by `h`) with its content area showing page `page` (`pw` wide,
/// `ph` high) from row `s`: frame row `NAV_H + k` takes page row `s + k`, for as many rows
/// as `rows_copied` gives and across the narrower of the two widths.
pub open spec fn viewport_copied(
    old: Seq<u8>,
    new: Seq<u8>,
    w: int,
    h: int,
    page: Seq<u8>,
    pw: int,
    ph: int,
    s: int,
) -> bool {
    &&& new.len() == old.len()
    &&& forall|px: int, py: int, c: int|
        0 <= px < w && 0 <= py < h && 0 <= c < 4 ==> #[trigger] channel(new, w, px, py, c) == if NAV_H
            <= py < NAV_H + rows_copied(h, ph, s) && px < pw {
            channel(page, pw, px, s + py - NAV_H, c)
        } else {
            channel(old, w, px, py, c)
        }
}

/// Copies the part of `page` that the scroll position `scroll_y` (at least 0) shows into the
/// content area of the frame `buf`, row by row.
pub fn composite_page(buf: &mut PixelBuffer, page: &PixelBuffer, scroll_y: i32)
    requires
        old(buf).wf(),
        page.wf(),
    ensures
        final(buf).wf(),
        final(buf).width == old(buf).width,
        final(buf).height == old(buf).height,
        viewport_copied(
            old(buf).data@,
            final(buf).data@,
            old(buf).width as int,
            old(buf).height as int,
            page.data@,
            page.width as int,
            page.height as int,
            if scroll_y > 0 {
                scroll_y as int
            } else {
                0
            },
        ),
{
    let ghost w = buf.width as int;
    let ghost h = buf.height as int;
    let ghost d0 = buf.data@;
    let s: u64 = if scroll_y > 0 {
        scroll_y as u64
    } else {
        0
    };
    let content_h: u64 = if buf.height as u64 > 52 {
        buf.height as u64 - 52
    } else {
        0
    };
    let cols: u64 = if (buf.width as u64) < page.width as u64 {
        buf.width as u64
    } else {
        page.width as u64
    };
    let ghost n = rows_copied(h, page.height as int, s as int);
    let mut dy: u64 = 0;
    while dy < content_h
        invariant
            buf.wf(),
            page.wf(),
            buf.width as int == w,
            buf.height as int == h,
            d0.len() == buf.data@.len(),
            content_h == content_rows(h),
            cols <= w,
            cols <= page.width,
            cols == w || cols == page.width,
            n == rows_copied(h, page.height as int, s as int),
            s <= 0x7FFF_FFFF,
            dy <= n,
            forall|qx: int, qy: int, c: int|
                0 <= qx < w && 0 <= qy < h && 0 <= c < 4 ==> #[trigger] channel(buf.data@, w, qx, qy, c)
                    == if NAV_H <= qy < NAV_H + dy && qx < page.width {
                    channel(page.data@, page.width as int, qx, s + qy - NAV_H, c)
                } else {
                    channel(d0, w, qx, qy, c)
                },
        ensures
            dy == n,
        decreases content_h - dy,
    {
        let sy = s + dy;
        if sy >= page.height as u64 {
            break;
        }
        let ty = NAV_H as u64 + dy;
        let mut x: u64 = 0;
        while x < cols
            invariant
                buf.wf(),
                page.wf(),
                buf.width as int == w,
                buf.height as int == h,
                d0.len() == buf.data@.len(),
                dy < content_h,
                content_h == content_rows(h),
                cols <= w,
                cols <= page.width,
                sy == s + dy,
                sy < page.height,
                ty == NAV_H + dy,
                ty < h,
                dy < n,
                n == rows_copied(h, page.height as int, s as int),
                x <= cols,
                cols == w || cols == page.width,
                forall|qx: int, qy: int, c: int|
                    0 <= qx < w && 0 <= qy < h && 0 <= c < 4 ==> #[trigger] channel(buf.data@, w, qx, qy, c)
                        == if NAV_H <= qy < NAV_H + dy && qx < page.width {
                        channel(page.data@, page.width as int, qx, s + qy - NAV_H, c)
                    } else if qy == ty && qx < x {
                        channel(page.data@, page.width as int, qx, sy as int, c)
                    } else {
                        channel(d0, w, qx, qy, c)
                    },
            decreases cols - x,
        {
            let (r, g, b, a) = page.get_pixel(x as u32, sy as u32);
            proof {
                lemma_with_pixel(buf.data@, w, h, x as int, ty as int, r, g, b, a);
            }
            buf.set_pixel(x as u32, ty as u32, r, g, b, a);
            x = x + 1;
        }
        dy = dy + 1;
    }
}

} // verus!
