//! Drawing primitives on a pixel buffer: filled and outlined rectangles, text, word-wrapped
//! text, image frames, rules and link underlines.
//!
//! Coordinates are `i32` and may lie off the buffer; each primitive clips as `fill_rect` does
//! and states, pixel by pixel, which colour every pixel of the buffer ends up with.
use vstd::prelude::*;
use crate::platform::{PixelBuffer, channel, rgba_channel, rect_filled, lemma_with_pixel};
use crate::image::{Image, pixel_of};
use crate::font::{draw_str, drawn_count, str_covers_upto, painted};
use crate::gui::layers::{Layer, shows, any_covers, layer_covers, lemma_union_layers, lemma_shows_chain, fill_layer, glyph_layer, frame_layers, wrapped_layers, placeholder_layers};
use crate::text::{utf8_len, words, split_whitespace, string_of, append_str, push_char, cuttable, byte_prefix, byte_prefix_of, utf8_len_capped, lemma_utf8_len_push};

verus! {

// ─── Colours ────────────────────────────────────────────────

#[derive(Debug, Clone, Copy, PartialEq, Eq, Structural)]
pub struct Color {
    pub r: u8,
    pub g: u8,
    pub b: u8,
    pub a: u8,
}

impl Color {
    /// An opaque colour.
    pub fn rgb(r: u8, g: u8, b: u8) -> (c: Self)
        ensures
            c == (Color { r, g, b, a: 255 }),
    {
        Color { r, g, b, a: 255 }
    }

    pub fn rgba(r: u8, g: u8, b: u8, a: u8) -> (c: Self)
        ensures
            c == (Color { r, g, b, a }),
    {
        Color { r, g, b, a }
    }

    // The RetroX palette.

    #[verifier::allow_in_spec]
    pub fn bg() -> Color
        returns
            (Color { r: 18, g: 18, b: 24, a: 255 }),
    {
        Color { r: 18, g: 18, b: 24, a: 255 }
    }

    #[verifier::allow_in_spec]
    pub fn fg() -> Color
        returns
            (Color { r: 220, g: 220, b: 220, a: 255 }),
    {
        Color { r: 220, g: 220, b: 220, a: 255 }
    }

    #[verifier::allow_in_spec]
    pub fn h1() -> Color
        returns
            (Color { r: 255, g: 200, b: 80, a: 255 }),
    {
        Color { r: 255, g: 200, b: 80, a: 255 }
    }

    #[verifier::allow_in_spec]
    pub fn h2() -> Color
        returns
            (Color { r: 100, g: 200, b: 140, a: 255 }),
    {
        Color { r: 100, g: 200, b: 140, a: 255 }
    }

    #[verifier::allow_in_spec]
    pub fn h3() -> Color
        returns
            (Color { r: 200, g: 200, b: 255, a: 255 }),
    {
        Color { r: 200, g: 200, b: 255, a: 255 }
    }

    #[verifier::allow_in_spec]
    pub fn link() -> Color
        returns
            (Color { r: 80, g: 160, b: 255, a: 255 }),
    {
        Color { r: 80, g: 160, b: 255, a: 255 }
    }

    #[verifier::allow_in_spec]
    pub fn link_hover() -> Color
        returns
            (Color { r: 140, g: 200, b: 255, a: 255 }),
    {
        Color { r: 140, g: 200, b: 255, a: 255 }
    }

    #[verifier::allow_in_spec]
    pub fn link_underline() -> Color
        returns
            (Color { r: 60, g: 120, b: 200, a: 255 }),
    {
        Color { r: 60, g: 120, b: 200, a: 255 }
    }

    #[verifier::allow_in_spec]
    pub fn image_bg() -> Color
        returns
            (Color { r: 30, g: 30, b: 40, a: 255 }),
    {
        Color { r: 30, g: 30, b: 40, a: 255 }
    }

    #[verifier::allow_in_spec]
    pub fn image_border() -> Color
        returns
            (Color { r: 60, g: 60, b: 80, a: 255 }),
    {
        Color { r: 60, g: 60, b: 80, a: 255 }
    }

    #[verifier::allow_in_spec]
    pub fn scrollbar() -> Color
        returns
            (Color { r: 60, g: 60, b: 80, a: 255 }),
    {
        Color { r: 60, g: 60, b: 80, a: 255 }
    }

    #[verifier::allow_in_spec]
    pub fn scrollthumb() -> Color
        returns
            (Color { r: 100, g: 100, b: 130, a: 255 }),
    {
        Color { r: 100, g: 100, b: 130, a: 255 }
    }

    #[verifier::allow_in_spec]
    pub fn divider() -> Color
        returns
            (Color { r: 50, g: 50, b: 65, a: 255 }),
    {
        Color { r: 50, g: 50, b: 65, a: 255 }
    }

    #[verifier::allow_in_spec]
    pub fn nav_bg() -> Color
        returns
            (Color { r: 12, g: 12, b: 18, a: 255 }),
    {
        Color { r: 12, g: 12, b: 18, a: 255 }
    }

    #[verifier::allow_in_spec]
    pub fn nav_btn() -> Color
        returns
            (Color { r: 40, g: 40, b: 60, a: 255 }),
    {
        Color { r: 40, g: 40, b: 60, a: 255 }
    }

    #[verifier::allow_in_spec]
    pub fn nav_btn_hover() -> Color
        returns
            (Color { r: 70, g: 70, b: 100, a: 255 }),
    {
        Color { r: 70, g: 70, b: 100, a: 255 }
    }

    #[verifier::allow_in_spec]
    pub fn nav_text() -> Color
        returns
            (Color { r: 180, g: 180, b: 200, a: 255 }),
    {
        Color { r: 180, g: 180, b: 200, a: 255 }
    }

    #[verifier::allow_in_spec]
    pub fn status_bg() -> Color
        returns
            (Color { r: 12, g: 12, b: 18, a: 255 }),
    {
        Color { r: 12, g: 12, b: 18, a: 255 }
    }

    #[verifier::allow_in_spec]
    pub fn status_text() -> Color
        returns
            (Color { r: 120, g: 120, b: 150, a: 255 }),
    {
        Color { r: 120, g: 120, b: 150, a: 255 }
    }

}

// ─── Integer views of the casts the primitives make ─────────

pub open spec fn fits_i32(v: int) -> bool {
    i32::MIN <= v <= i32::MAX
}

/// `u as i32` for a `u32`: values above `i32::MAX` wrap to negative ones.
pub open spec fn wrap_i32(u: int) -> int {
    if u <= i32::MAX {
        u
    } else {
        u - 0x1_0000_0000
    }
}

/// `v as u32` for an `i32`: negative values wrap to the top of the range.
pub open spec fn wrap_u32(v: int) -> int {
    if v >= 0 {
        v
    } else {
        v + 0x1_0000_0000
    }
}

/// The first column (or row) a rectangle starting at `start` paints: `start.max(0)`.
pub open spec fn span_start(start: int) -> int {
    if start > 0 {
        start
    } else {
        0
    }
}

/// Where a rectangle ending at `end` stops on a buffer `size` pixels across:
/// `end.min(size as i32) as u32`. A rectangle that ends above or left of the buffer gets a
/// negative end, which wraps to a large `u32`, so it then reaches the far edge.
pub open spec fn span_end(end: int, size: int) -> int {
    wrap_u32(
        if end < wrap_i32(size) {
            end
        } else {
            wrap_i32(size)
        },
    )
}

/// Whether `fill_rect(x, y, w, h)` on a `bw` by `bh` buffer paints pixel (px, py).
pub open spec fn rect_covers(bw: int, bh: int, x: int, y: int, w: int, h: int, px: int, py: int) -> bool {
    span_start(x) <= px < span_end(x + w, bw) && span_start(y) <= py < span_end(y + h, bh)
}

/// `new` is `old` with the pixels in `cover` set to (r, g, b, a).
pub open spec fn recoloured(
    old: Seq<u8>,
    new: Seq<u8>,
    w: int,
    h: int,
    cover: spec_fn(int, int) -> bool,
    r: u8,
    g: u8,
    b: u8,
    a: u8,
) -> bool {
    &&& new.len() == old.len()
    &&& forall|px: int, py: int, c: int|
        0 <= px < w && 0 <= py < h && 0 <= c < 4 ==> #[trigger] channel(new, w, px, py, c) == if cover(
            px,
            py,
        ) {
            rgba_channel(r, g, b, a, c)
        } else {
            channel(old, w, px, py, c)
        }
}

/// Painting `c1` and then `c2` in one colour paints their union.
proof fn lemma_recoloured_chain(
    d0: Seq<u8>,
    d1: Seq<u8>,
    d2: Seq<u8>,
    w: int,
    h: int,
    c1: spec_fn(int, int) -> bool,
    c2: spec_fn(int, int) -> bool,
    c3: spec_fn(int, int) -> bool,
    r: u8,
    g: u8,
    b: u8,
    a: u8,
)
    requires
        recoloured(d0, d1, w, h, c1, r, g, b, a),
        recoloured(d1, d2, w, h, c2, r, g, b, a),
        forall|px: int, py: int| #[trigger] c3(px, py) == (c1(px, py) || c2(px, py)),
    ensures
        recoloured(d0, d2, w, h, c3, r, g, b, a),
{
    assert forall|px: int, py: int, c: int|
        0 <= px < w && 0 <= py < h && 0 <= c < 4 implies #[trigger] channel(d2, w, px, py, c) == if c3(
            px,
            py,
        ) {
            rgba_channel(r, g, b, a, c)
        } else {
            channel(d0, w, px, py, c)
        } by {
        assert(channel(d1, w, px, py, c) == channel(d1, w, px, py, c));
        assert(c3(px, py) == (c1(px, py) || c2(px, py)));
    }
}

// ─── Rectangles ─────────────────────────────────────────────

/// Fills the rectangle at (x, y) of `w` by `h` pixels, clipped to the buffer; see
/// `rect_covers` for the pixels it reaches.
pub fn fill_rect(buf: &mut PixelBuffer, x: i32, y: i32, w: i32, h: i32, color: Color)
    requires
        old(buf).wf(),
        fits_i32(x + w),
        fits_i32(y + h),
    ensures
        final(buf).wf(),
        final(buf).width == old(buf).width,
        final(buf).height == old(buf).height,
        recoloured(
            old(buf).data@,
            final(buf).data@,
            old(buf).width as int,
            old(buf).height as int,
            |px: int, py: int|
                rect_covers(
                    old(buf).width as int,
                    old(buf).height as int,
                    x as int,
                    y as int,
                    w as int,
                    h as int,
                    px,
                    py,
                ),
            color.r,
            color.g,
            color.b,
            color.a,
        ),
        shows(
            old(buf).data@,
            final(buf).data@,
            old(buf).width as int,
            old(buf).height as int,
            seq![fill_layer(x as int, y as int, w as int, h as int, color)],
        ),
{
    let ghost bw = buf.width as int;
    let ghost bh = buf.height as int;
    let x0: u64 = if x > 0 {
        x as u64
    } else {
        0
    };
    let y0: u64 = if y > 0 {
        y as u64
    } else {
        0
    };
    let x1 = clip_end(x as i64 + w as i64, buf.width);
    let y1 = clip_end(y as i64 + h as i64, buf.height);
    let ghost d0 = buf.data@;
    buf.fill_region(x0, x1, y0, y1, color.r, color.g, color.b, color.a);
    assert(rect_filled(d0, buf.data@, bw, bh, x0 as int, x1 as int, y0 as int, y1 as int, color.r,
        color.g, color.b, color.a));
    proof {
        let l = fill_layer(x as int, y as int, w as int, h as int, color);
        let cover = |px: int, py: int| rect_covers(bw, bh, x as int, y as int, w as int, h as int, px, py);
        assert(recoloured(d0, buf.data@, bw, bh, cover, color.r, color.g, color.b, color.a));
        assert forall|px: int, py: int| #[trigger] cover(px, py) == any_covers(seq![l], bw, bh, px, py) by {
            if cover(px, py) {
                assert(layer_covers(seq![l][0], bw, bh, px, py));
            }
        }
        lemma_union_layers(d0, buf.data@, bw, bh, seq![l], cover, color.r, color.g, color.b, color.a);
    }
}

/// `end.min(size as i32) as u32`, for an `end` in `i32` range.
fn clip_end(end: i64, size: u32) -> (r: u64)
    requires
        fits_i32(end as int),
    ensures
        r == span_end(end as int, size as int),
{
    let s: i64 = if size <= 2147483647 {
        size as i64
    } else {
        size as i64 - 4294967296
    };
    let m: i64 = if end < s {
        end
    } else {
        s
    };
    if m >= 0 {
        m as u64
    } else {
        (m + 4294967296) as u64
    }
}

/// Whether `draw_rect(x, y, w, h)` paints pixel (px, py): one of its four one-pixel sides.
pub open spec fn frame_covers(bw: int, bh: int, x: int, y: int, w: int, h: int, px: int, py: int) -> bool {
    ||| rect_covers(bw, bh, x, y, w, 1, px, py)
    ||| rect_covers(bw, bh, x, y + h - 1, w, 1, px, py)
    ||| rect_covers(bw, bh, x, y, 1, h, px, py)
    ||| rect_covers(bw, bh, x + w - 1, y, 1, h, px, py)
}

/// Outlines the rectangle at (x, y) of `w` by `h` pixels with one-pixel sides.
pub fn draw_rect(buf: &mut PixelBuffer, x: i32, y: i32, w: i32, h: i32, color: Color)
    requires
        old(buf).wf(),
        fits_i32(x + w),
        fits_i32(y + h),
        fits_i32(x + w - 1),
        fits_i32(y + h - 1),
        fits_i32(x + 1),
        fits_i32(y + 1),
    ensures
        final(buf).wf(),
        final(buf).width == old(buf).width,
        final(buf).height == old(buf).height,
        recoloured(
            old(buf).data@,
            final(buf).data@,
            old(buf).width as int,
            old(buf).height as int,
            |px: int, py: int|
                frame_covers(
                    old(buf).width as int,
                    old(buf).height as int,
                    x as int,
                    y as int,
                    w as int,
                    h as int,
                    px,
                    py,
                ),
            color.r,
            color.g,
            color.b,
            color.a,
        ),
        shows(
            old(buf).data@,
            final(buf).data@,
            old(buf).width as int,
            old(buf).height as int,
            frame_layers(x as int, y as int, w as int, h as int, color),
        ),
{
    let ghost bw = buf.width as int;
    let ghost bh = buf.height as int;
    let ghost d0 = buf.data@;
    let ghost (xi, yi, wi, hi) = (x as int, y as int, w as int, h as int);
    fill_rect(buf, x, y, w, 1, color);
    let ghost d1 = buf.data@;
    fill_rect(buf, x, y + h - 1, w, 1, color);
    let ghost d2 = buf.data@;
    fill_rect(buf, x, y, 1, h, color);
    let ghost d3 = buf.data@;
    fill_rect(buf, x + w - 1, y, 1, h, color);
    proof {
        let c1 = |px: int, py: int| rect_covers(bw, bh, xi, yi, wi, 1, px, py);
        let c2 = |px: int, py: int| rect_covers(bw, bh, xi, yi + hi - 1, wi, 1, px, py);
        let c3 = |px: int, py: int| rect_covers(bw, bh, xi, yi, 1, hi, px, py);
        let c4 = |px: int, py: int| rect_covers(bw, bh, xi + wi - 1, yi, 1, hi, px, py);
        let u2 = |px: int, py: int| c1(px, py) || c2(px, py);
        let u3 = |px: int, py: int| u2(px, py) || c3(px, py);
        let u4 = |px: int, py: int| frame_covers(bw, bh, xi, yi, wi, hi, px, py);
        lemma_recoloured_chain(d0, d1, d2, bw, bh, c1, c2, u2, color.r, color.g, color.b, color.a);
        lemma_recoloured_chain(d0, d2, d3, bw, bh, u2, c3, u3, color.r, color.g, color.b, color.a);
        lemma_recoloured_chain(d0, d3, buf.data@, bw, bh, u3, c4, u4, color.r, color.g, color.b, color.a);
        let l1 = seq![fill_layer(xi, yi, wi, 1, color)];
        let l2 = seq![fill_layer(xi, yi + hi - 1, wi, 1, color)];
        let l3 = seq![fill_layer(xi, yi, 1, hi, color)];
        let l4 = seq![fill_layer(xi + wi - 1, yi, 1, hi, color)];
        lemma_shows_chain(d0, d1, d2, bw, bh, l1, l2);
        lemma_shows_chain(d0, d2, d3, bw, bh, l1 + l2, l3);
        lemma_shows_chain(d0, d3, buf.data@, bw, bh, l1 + l2 + l3, l4);
        assert(l1 + l2 + l3 + l4 =~= frame_layers(xi, yi, wi, hi, color));
    }
}

/// A one-pixel horizontal line `w` pixels long.
pub fn draw_horizontal_rule(buf: &mut PixelBuffer, x: i32, y: i32, w: i32, color: Color)
    requires
        old(buf).wf(),
        fits_i32(x + w),
        fits_i32(y + 1),
    ensures
        final(buf).wf(),
        final(buf).width == old(buf).width,
        final(buf).height == old(buf).height,
        recoloured(
            old(buf).data@,
            final(buf).data@,
            old(buf).width as int,
            old(buf).height as int,
            |px: int, py: int|
                rect_covers(
                    old(buf).width as int,
                    old(buf).height as int,
                    x as int,
                    y as int,
                    w as int,
                    1,
                    px,
                    py,
                ),
            color.r,
            color.g,
            color.b,
            color.a,
        ),
        shows(
            old(buf).data@,
            final(buf).data@,
            old(buf).width as int,
            old(buf).height as int,
            seq![fill_layer(x as int, y as int, w as int, 1, color)],
        ),
{
    fill_rect(buf, x, y, w, 1, color);
}

/// The underline of a link: light when hovered, darker otherwise.
pub fn draw_link_underline(buf: &mut PixelBuffer, x: i32, y: i32, w: i32, hover: bool)
    requires
        old(buf).wf(),
        fits_i32(x + w),
        fits_i32(y + 1),
    ensures
        final(buf).wf(),
        final(buf).width == old(buf).width,
        final(buf).height == old(buf).height,
        ({
            let c = if hover {
                Color::link_hover()
            } else {
                Color::link_underline()
            };
            recoloured(
                old(buf).data@,
                final(buf).data@,
                old(buf).width as int,
                old(buf).height as int,
                |px: int, py: int|
                    rect_covers(
                        old(buf).width as int,
                        old(buf).height as int,
                        x as int,
                        y as int,
                        w as int,
                        1,
                        px,
                        py,
                    ),
                c.r,
                c.g,
                c.b,
                c.a,
            )
        }),
        shows(
            old(buf).data@,
            final(buf).data@,
            old(buf).width as int,
            old(buf).height as int,
            seq![
                fill_layer(
                    x as int,
                    y as int,
                    w as int,
                    1,
                    if hover {
                        Color::link_hover()
                    } else {
                        Color::link_underline()
                    },
                ),
            ],
        ),
{
    let color = if hover {
        Color::link_hover()
    } else {
        Color::link_underline()
    };
    fill_rect(buf, x, y, w, 1, color);
}

// ─── Text ───────────────────────────────────────────────────

/// Whether `draw_text` draws at all: text lying wholly above the buffer, or starting below
/// its last row, is skipped.
pub open spec fn text_shown(bh: int, y: int, scale: int) -> bool {
    !(y < -(8 * scale)) && !(y > wrap_i32(bh))
}

/// Whether `draw_text(cs, x, y, scale)` on a `bw` by `bh` buffer paints pixel (px, py).
pub open spec fn text_covers(
    bw: int,
    bh: int,
    cs: Seq<char>,
    x: int,
    y: int,
    scale: int,
    px: int,
    py: int,
) -> bool {
    &&& text_shown(bh, y, scale)
    &&& str_covers_upto(
        cs,
        wrap_u32(x),
        wrap_u32(y),
        scale,
        bw,
        bh,
        px,
        py,
        drawn_count(cs, wrap_u32(x), scale, bw, 0),
    )
}

/// Draws `text` at (x, y) with the bitmap font, opaque in `color`; negative coordinates are
/// handed on as `u32`s (wrapped), as the font takes them.
pub fn draw_text(buf: &mut PixelBuffer, text: &str, x: i32, y: i32, color: Color, scale: u32)
    requires
        old(buf).wf(),
        8 * scale <= i32::MAX,
    ensures
        final(buf).wf(),
        final(buf).width == old(buf).width,
        final(buf).height == old(buf).height,
        painted(
            old(buf).data@,
            final(buf).data@,
            old(buf).width as int,
            old(buf).height as int,
            |px: int, py: int|
                text_covers(
                    old(buf).width as int,
                    old(buf).height as int,
                    text@,
                    x as int,
                    y as int,
                    scale as int,
                    px,
                    py,
                ),
            color.r,
            color.g,
            color.b,
        ),
        shows(
            old(buf).data@,
            final(buf).data@,
            old(buf).width as int,
            old(buf).height as int,
            seq![glyph_layer(text@, x as int, y as int, scale as int, color)],
        ),
{
    let ghost d0 = buf.data@;
    let ghost bw = buf.width as int;
    let ghost bh = buf.height as int;
    let lim: i64 = 8 * scale as i64;
    let bh64: i64 = if buf.height <= 2147483647 {
        buf.height as i64
    } else {
        buf.height as i64 - 4294967296
    };
    let ghost l = glyph_layer(text@, x as int, y as int, scale as int, color);
    let ghost cover = |px: int, py: int|
        text_covers(bw, bh, text@, x as int, y as int, scale as int, px, py);
    proof {
        assert forall|px: int, py: int| #[trigger] cover(px, py) == any_covers(seq![l], bw, bh, px, py) by {
            if cover(px, py) {
                assert(layer_covers(seq![l][0], bw, bh, px, py));
            }
        }
    }
    if (y as i64) < -lim || (y as i64) > bh64 {
        assert(buf.data@ =~= d0);
        proof {
            lemma_union_layers(d0, buf.data@, bw, bh, seq![l], cover, color.r, color.g, color.b, 255);
        }
        return;
    }
    let xu: u32 = if x >= 0 {
        x as u32
    } else {
        (x as i64 + 4294967296) as u32
    };
    let yu: u32 = if y >= 0 {
        y as u32
    } else {
        (y as i64 + 4294967296) as u32
    };
    draw_str(buf, text, xu, yu, color.r, color.g, color.b, scale);
    proof {
        assert(painted(d0, buf.data@, bw, bh, cover, color.r, color.g, color.b));
        lemma_union_layers(d0, buf.data@, bw, bh, seq![l], cover, color.r, color.g, color.b, 255);
    }
}

/// A wrapped paragraph while its words are placed: the finished lines and the open one.
pub struct LineState {
    pub lines: Seq<Seq<char>>,
    pub current: Seq<char>,
}

/// Places one word: it starts the open line, joins it after a space when the line stays
/// within `per_line` bytes, or else closes the line and starts the next.
pub open spec fn line_step(st: LineState, word: Seq<char>, per_line: int) -> LineState {
    if st.current.len() == 0 {
        LineState { lines: st.lines, current: word }
    } else if utf8_len(st.current) + 1 + utf8_len(word) <= per_line {
        LineState { lines: st.lines, current: st.current + seq![' '] + word }
    } else {
        LineState { lines: st.lines.push(st.current), current: word }
    }
}

pub open spec fn line_fold(ws: Seq<Seq<char>>, per_line: int) -> LineState
    decreases ws.len(),
{
    if ws.len() == 0 {
        LineState { lines: seq![], current: seq![] }
    } else {
        line_step(line_fold(ws.drop_last(), per_line), ws.last(), per_line)
    }
}

/// The lines a paragraph is broken into: its words, joined by single spaces, greedily
/// filled up to `per_line` bytes (a longer word stands on a line of its own).
pub open spec fn wrapped_lines(text: Seq<char>, per_line: int) -> Seq<Seq<char>> {
    let st = line_fold(words(text), per_line);
    if st.current.len() > 0 {
        st.lines.push(st.current)
    } else {
        st.lines
    }
}

/// How many glyphs `max_w` pixels hold at `glyph_w` pixels each, at least one
/// (`(max_w / glyph_w).max(1)`).
pub open spec fn chars_per_line(max_w: int, glyph_w: int) -> int {
    if max_w >= glyph_w {
        max_w / glyph_w
    } else {
        1
    }
}

proof fn lemma_line_fold_grows(ws: Seq<Seq<char>>, per_line: int, i: int, j: int)
    requires
        0 <= i <= j <= ws.len(),
    ensures
        line_fold(ws.take(i), per_line).lines.len() <= line_fold(ws.take(j), per_line).lines.len(),
    decreases j - i,
{
    if i < j {
        lemma_line_fold_grows(ws, per_line, i, j - 1);
        assert(ws.take(j).drop_last() =~= ws.take(j - 1));
    }
}

/// Draws `text` word-wrapped to `max_w` pixels, line under line from (x, y), each line
/// `8 * scale + 2` pixels below the last; returns the y below the last line drawn.
pub fn draw_text_wrapped(
    buf: &mut PixelBuffer,
    text: &str,
    x: i32,
    y: i32,
    max_w: i32,
    color: Color,
    scale: u32,
) -> (end_y: i32)
    requires
        old(buf).wf(),
        0 < scale,
        8 * scale <= i32::MAX,
        y + wrapped_lines(text@, chars_per_line(max_w as int, 8 * scale)).len() * (8 * scale + 2)
            <= i32::MAX,
    ensures
        final(buf).wf(),
        final(buf).width == old(buf).width,
        final(buf).height == old(buf).height,
        ({
            let lines = wrapped_lines(text@, chars_per_line(max_w as int, 8 * scale));
            let step = 8 * scale + 2;
            &&& end_y == y + lines.len() * step
            &&& painted(
                old(buf).data@,
                final(buf).data@,
                old(buf).width as int,
                old(buf).height as int,
                |px: int, py: int|
                    exists|k: int|
                        0 <= k < lines.len() && #[trigger] text_covers(
                            old(buf).width as int,
                            old(buf).height as int,
                            lines[k],
                            x as int,
                            y + k * step,
                            scale as int,
                            px,
                            py,
                        ),
                color.r,
                color.g,
                color.b,
            )
        }),
        shows(
            old(buf).data@,
            final(buf).data@,
            old(buf).width as int,
            old(buf).height as int,
            wrapped_layers(text@, x as int, y as int, max_w as int, scale as int, color),
        ),
{
    let ghost bw = buf.width as int;
    let ghost bh = buf.height as int;
    let ghost d0 = buf.data@;
    let glyph_w: i32 = (8 * scale) as i32;
    let glyph_h: i32 = (8 * scale) as i32;
    let per_line: i32 = if max_w >= glyph_w {
        max_w / glyph_w
    } else {
        1
    };
    let ghost cpl = chars_per_line(max_w as int, 8 * scale);
    let ghost step = 8 * scale + 2;
    assert(per_line as int == cpl);
    let ws = split_whitespace(text);
    let ghost wv = ws@.map_values(|w: String| w@);
    assert(wv =~= words(text@));
    let ghost total = wrapped_lines(text@, cpl).len();
    let mut cy: i32 = y;
    let mut line = String::new();
    let mut line_len: u64 = 0;
    let mut i: usize = 0;
    proof {
        assert(wv.take(0) =~= Seq::<Seq<char>>::empty());
        assert(line_fold(wv.take(0), cpl).lines.len() == 0);
        assert(cy == y + line_fold(wv.take(0), cpl).lines.len() * step);
        assert(line@ =~= Seq::<char>::empty());
        if max_w >= 8 * scale {
            assert((max_w as int) / (8 * scale as int) >= 1) by (nonlinear_arith)
                requires
                    max_w >= 8 * scale,
                    8 * scale > 0,
            ;
        }
        assert(buf.data@ =~= d0);
    }
    while i < ws.len()
        invariant
            buf.wf(),
            buf.width as int == bw,
            buf.height as int == bh,
            0 < scale,
            8 * scale <= i32::MAX,
            glyph_h == 8 * scale,
            step == 8 * scale + 2,
            per_line == cpl,
            1 <= cpl,
            i <= ws.len(),
            wv == ws@.map_values(|w: String| w@),
            wv == words(text@),
            total == wrapped_lines(text@, cpl).len(),
            y + total * step <= i32::MAX,
            line@ == line_fold(wv.take(i as int), cpl).current,
            line_len == if utf8_len(line@) < 0x1_0000_0000 {
                utf8_len(line@)
            } else {
                0x1_0000_0000
            },
            cy == y + line_fold(wv.take(i as int), cpl).lines.len() * step,
            painted(
                d0,
                buf.data@,
                bw,
                bh,
                |px: int, py: int|
                    exists|k: int|
                        0 <= k < line_fold(wv.take(i as int), cpl).lines.len()
                            && #[trigger] text_covers(
                            bw,
                            bh,
                            line_fold(wv.take(i as int), cpl).lines[k],
                            x as int,
                            y + k * step,
                            scale as int,
                            px,
                            py,
                        ),
                color.r,
                color.g,
                color.b,
            ),
        decreases ws.len() - i,
    {
        let ghost st = line_fold(wv.take(i as int), cpl);
        let ghost word = wv[i as int];
        proof {
            assert(wv.take(i + 1).drop_last() =~= wv.take(i as int));
            assert(wv.take(i + 1).last() == word);
            lemma_line_fold_grows(wv, cpl, i + 1, wv.len() as int);
            assert(wv.take(wv.len() as int) =~= wv);
        }
        let wl = utf8_len_capped(ws[i].as_str());
        proof {
            crate::text::lemma_utf8_len_bounds(line@);
        }
        if line_len == 0 {
            line = crate::text::copy_string(&ws[i]);
            line_len = wl;
        } else if wl < per_line as u64 && line_len <= per_line as u64 - 1 - wl {
            push_char(&mut line, ' ');
            append_str(&mut line, ws[i].as_str());
            line_len = line_len + 1 + wl;
            proof {
                crate::text::lemma_utf8_len_concat(st.current + seq![' '], word);
                lemma_utf8_len_push(st.current, ' ');
                assert(st.current.push(' ') =~= st.current + seq![' ']);
            }
        } else {
            let ghost before = buf.data@;
            let ghost k0 = st.lines.len() as int;
            proof {
                assert(line_fold(wv.take(i + 1), cpl).lines.len() == k0 + 1);
                assert(y + (k0 + 1) * step <= y + total * step) by (nonlinear_arith)
                    requires
                        k0 + 1 <= total,
                        step >= 0,
                ;
                assert(y + k0 * step + step == y + (k0 + 1) * step) by (nonlinear_arith);
            }
            draw_text(buf, line.as_str(), x, cy, color, scale);
            proof {
                let c_old = |px: int, py: int|
                    exists|k: int|
                        0 <= k < st.lines.len() && #[trigger] text_covers(
                            bw,
                            bh,
                            st.lines[k],
                            x as int,
                            y + k * step,
                            scale as int,
                            px,
                            py,
                        );
                let c_line = |px: int, py: int|
                    text_covers(bw, bh, st.current, x as int, cy as int, scale as int, px, py);
                let lines2 = st.lines.push(st.current);
                let c_new = |px: int, py: int|
                    exists|k: int|
                        0 <= k < lines2.len() && #[trigger] text_covers(
                            bw,
                            bh,
                            lines2[k],
                            x as int,
                            y + k * step,
                            scale as int,
                            px,
                            py,
                        );
                assert forall|px: int, py: int| #[trigger] c_new(px, py) == (c_old(px, py) || c_line(
                    px,
                    py,
                )) by {
                    if c_new(px, py) {
                        let k = choose|k: int|
                            0 <= k < lines2.len() && #[trigger] text_covers(
                                bw,
                                bh,
                                lines2[k],
                                x as int,
                                y + k * step,
                                scale as int,
                                px,
                                py,
                            );
                        if k < st.lines.len() {
                            assert(lines2[k] == st.lines[k]);
                        }
                    }
                    if c_old(px, py) {
                        let k = choose|k: int|
                            0 <= k < st.lines.len() && #[trigger] text_covers(
                                bw,
                                bh,
                                st.lines[k],
                                x as int,
                                y + k * step,
                                scale as int,
                                px,
                                py,
                            );
                        assert(lines2[k] == st.lines[k]);
                    }
                    if c_line(px, py) {
                        assert(lines2[k0] == st.current);
                    }
                }
                lemma_painted_chain(d0, before, buf.data@, bw, bh, c_old, c_line, c_new, color.r,
                    color.g, color.b);
            }
            cy = cy + glyph_h + 2;
            line = crate::text::copy_string(&ws[i]);
            line_len = wl;
        }
        i = i + 1;
    }
    let ghost st = line_fold(wv, cpl);
    assert(wv.take(i as int) =~= wv);
    proof {
        crate::text::lemma_utf8_len_bounds(line@);
    }
    if line_len > 0 {
        let ghost before = buf.data@;
        let ghost k0 = st.lines.len() as int;
        proof {
            assert(y + k0 * step + step == y + (k0 + 1) * step) by (nonlinear_arith);
        }
        draw_text(buf, line.as_str(), x, cy, color, scale);
        proof {
            let lines2 = wrapped_lines(text@, cpl);
            assert(lines2 == st.lines.push(st.current));
            let c_old = |px: int, py: int|
                exists|k: int|
                    0 <= k < st.lines.len() && #[trigger] text_covers(
                        bw,
                        bh,
                        st.lines[k],
                        x as int,
                        y + k * step,
                        scale as int,
                        px,
                        py,
                    );
            let c_line = |px: int, py: int|
                text_covers(bw, bh, st.current, x as int, cy as int, scale as int, px, py);
            let c_new = |px: int, py: int|
                exists|k: int|
                    0 <= k < lines2.len() && #[trigger] text_covers(
                        bw,
                        bh,
                        lines2[k],
                        x as int,
                        y + k * step,
                        scale as int,
                        px,
                        py,
                    );
            assert forall|px: int, py: int| #[trigger] c_new(px, py) == (c_old(px, py) || c_line(
                px,
                py,
            )) by {
                if c_new(px, py) {
                    let k = choose|k: int|
                        0 <= k < lines2.len() && #[trigger] text_covers(
                            bw,
                            bh,
                            lines2[k],
                            x as int,
                            y + k * step,
                            scale as int,
                            px,
                            py,
                        );
                    if k < st.lines.len() {
                        assert(lines2[k] == st.lines[k]);
                    }
                }
                if c_old(px, py) {
                    let k = choose|k: int|
                        0 <= k < st.lines.len() && #[trigger] text_covers(
                            bw,
                            bh,
                            st.lines[k],
                            x as int,
                            y + k * step,
                            scale as int,
                            px,
                            py,
                        );
                    assert(lines2[k] == st.lines[k]);
                }
                if c_line(px, py) {
                    assert(lines2[k0] == st.current);
                }
            }
            lemma_painted_chain(d0, before, buf.data@, bw, bh, c_old, c_line, c_new, color.r,
                color.g, color.b);
        }
        cy = cy + glyph_h + 2;
    }
    proof {
        let lines = wrapped_lines(text@, cpl);
        let ls = wrapped_layers(text@, x as int, y as int, max_w as int, scale as int, color);
        let c_fin = |px: int, py: int|
            exists|k: int|
                0 <= k < lines.len() && #[trigger] text_covers(
                    bw,
                    bh,
                    lines[k],
                    x as int,
                    y + k * step,
                    scale as int,
                    px,
                    py,
                );
        assert(painted(d0, buf.data@, bw, bh, c_fin, color.r, color.g, color.b));
        assert forall|px: int, py: int| #[trigger] c_fin(px, py) == any_covers(ls, bw, bh, px, py) by {
            if c_fin(px, py) {
                let k = choose|k: int|
                    0 <= k < lines.len() && #[trigger] text_covers(
                        bw,
                        bh,
                        lines[k],
                        x as int,
                        y + k * step,
                        scale as int,
                        px,
                        py,
                    );
                assert(layer_covers(ls[k], bw, bh, px, py));
            }
            if any_covers(ls, bw, bh, px, py) {
                let k = choose|k: int| 0 <= k < ls.len() && #[trigger] layer_covers(ls[k], bw, bh, px, py);
                assert(text_covers(bw, bh, lines[k], x as int, y + k * step, scale as int, px, py));
            }
        }
        lemma_union_layers(d0, buf.data@, bw, bh, ls, c_fin, color.r, color.g, color.b, 255);
    }
    cy
}

/// Painting `c1` and then `c2` opaque in one colour paints their union.
proof fn lemma_painted_chain(
    d0: Seq<u8>,
    d1: Seq<u8>,
    d2: Seq<u8>,
    w: int,
    h: int,
    c1: spec_fn(int, int) -> bool,
    c2: spec_fn(int, int) -> bool,
    c3: spec_fn(int, int) -> bool,
    r: u8,
    g: u8,
    b: u8,
)
    requires
        painted(d0, d1, w, h, c1, r, g, b),
        painted(d1, d2, w, h, c2, r, g, b),
        forall|px: int, py: int| #[trigger] c3(px, py) == (c1(px, py) || c2(px, py)),
    ensures
        painted(d0, d2, w, h, c3, r, g, b),
{
    assert forall|px: int, py: int, c: int|
        0 <= px < w && 0 <= py < h && 0 <= c < 4 implies #[trigger] channel(d2, w, px, py, c) == if c3(
            px,
            py,
        ) {
            rgba_channel(r, g, b, 255, c)
        } else {
            channel(d0, w, px, py, c)
        } by {
        assert(channel(d1, w, px, py, c) == channel(d1, w, px, py, c));
        assert(c3(px, py) == (c1(px, py) || c2(px, py)));
    }
}

// ─── Image frames ───────────────────────────────────────────

/// `h / 2` as Rust computes it on an `i32`: rounded toward zero.
pub open spec fn half_toward_zero(h: int) -> int {
    if h >= 0 {
        h / 2
    } else {
        -((-h) / 2)
    }
}

/// The caption of an image that could not be shown: "[IMG] " and the first 30 bytes of
/// its alt text.
pub open spec fn placeholder_label(alt: Seq<char>) -> Seq<char> {
    "[IMG] "@ + byte_prefix(alt, 30)
}

/// Whether the caption of a placeholder at `y`, `h` high, is drawn: only when its line
/// (4 pixels above the middle) lies strictly inside the box.
pub open spec fn label_inside(y: int, h: int) -> bool {
    y + half_toward_zero(h) - 4 > y && y + half_toward_zero(h) - 4 < y + h
}

/// The colour byte `c` of pixel (px, py) after `draw_image_placeholder`: the caption in the
/// foreground colour over the frame, over the filled box, over what was there.
pub open spec fn placeholder_pixel(
    old: Seq<u8>,
    bw: int,
    bh: int,
    alt: Seq<char>,
    x: int,
    y: int,
    w: int,
    h: int,
    px: int,
    py: int,
    c: int,
) -> u8 {
    if label_inside(y, h) && text_covers(
        bw,
        bh,
        placeholder_label(alt),
        x + 8,
        y + half_toward_zero(h) - 4,
        1,
        px,
        py,
    ) {
        rgba_channel(Color::fg().r, Color::fg().g, Color::fg().b, 255, c)
    } else if frame_covers(bw, bh, x, y, w, h, px, py) {
        rgba_channel(Color::image_border().r, Color::image_border().g, Color::image_border().b, 255, c)
    } else if rect_covers(bw, bh, x, y, w, h, px, py) {
        rgba_channel(Color::image_bg().r, Color::image_bg().g, Color::image_bg().b, 255, c)
    } else {
        channel(old, bw, px, py, c)
    }
}

/// A framed box with the caption "[IMG] alt", drawn where an image could not be shown.
pub fn draw_image_placeholder(buf: &mut PixelBuffer, alt: &str, x: i32, y: i32, w: i32, h: i32)
    requires
        old(buf).wf(),
        fits_i32(x + w),
        fits_i32(y + h),
        fits_i32(x + w - 1),
        fits_i32(y + h - 1),
        fits_i32(x + 1),
        fits_i32(y + 1),
        fits_i32(x + 8),
        fits_i32(y + half_toward_zero(h as int)),
        fits_i32(y + half_toward_zero(h as int) - 4),
        cuttable(alt@, 30),
    ensures
        final(buf).wf(),
        final(buf).width == old(buf).width,
        final(buf).height == old(buf).height,
        forall|px: int, py: int, c: int|
            0 <= px < old(buf).width && 0 <= py < old(buf).height && 0 <= c < 4 ==> #[trigger] channel(
                final(buf).data@,
                old(buf).width as int,
                px,
                py,
                c,
            ) == placeholder_pixel(
                old(buf).data@,
                old(buf).width as int,
                old(buf).height as int,
                alt@,
                x as int,
                y as int,
                w as int,
                h as int,
                px,
                py,
                c,
            ),
        shows(
            old(buf).data@,
            final(buf).data@,
            old(buf).width as int,
            old(buf).height as int,
            placeholder_layers(alt@, x as int, y as int, w as int, h as int),
        ),
{
    let ghost bw = buf.width as int;
    let ghost bh = buf.height as int;
    let ghost d0 = buf.data@;
    fill_rect(buf, x, y, w, h, Color::image_bg());
    let ghost d1 = buf.data@;
    draw_rect(buf, x, y, w, h, Color::image_border());
    let ghost d2 = buf.data@;
    let mut label = string_of("[IMG] ");
    let cut = byte_prefix_of(alt, 30);
    append_str(&mut label, cut.as_str());
    let half: i32 = h / 2;
    assert(half as int == half_toward_zero(h as int));
    let tx = x + 8;
    let ty = y + half - 4;
    proof {
        assert(label@ == placeholder_label(alt@));
        lemma_shows_chain(d0, d1, d2, bw, bh, seq![fill_layer(x as int, y as int, w as int, h as int, Color::image_bg())], frame_layers(x as int, y as int, w as int, h as int, Color::image_border()));
    }
    if ty > y && ty < y + h {
        draw_text(buf, label.as_str(), tx, ty, Color::fg(), 1);
        proof {
            lemma_shows_chain(d0, d2, buf.data@, bw, bh, seq![fill_layer(x as int, y as int, w as int, h as int, Color::image_bg())] + frame_layers(x as int, y as int, w as int, h as int, Color::image_border()), seq![glyph_layer(label@, tx as int, ty as int, 1, Color::fg())]);
            assert(placeholder_layers(alt@, x as int, y as int, w as int, h as int) =~= seq![fill_layer(x as int, y as int, w as int, h as int, Color::image_bg())] + frame_layers(x as int, y as int, w as int, h as int, Color::image_border()) + seq![glyph_layer(label@, tx as int, ty as int, 1, Color::fg())]);
        }
    } else {
        proof {
            assert(placeholder_layers(alt@, x as int, y as int, w as int, h as int) =~= seq![fill_layer(x as int, y as int, w as int, h as int, Color::image_bg())] + frame_layers(x as int, y as int, w as int, h as int, Color::image_border()));
        }
    }
    proof {
        assert(label@ == placeholder_label(alt@));
        assert forall|px: int, py: int, c: int|
            0 <= px < bw && 0 <= py < bh && 0 <= c < 4 implies #[trigger] channel(
                buf.data@,
                bw,
                px,
                py,
                c,
            ) == placeholder_pixel(d0, bw, bh, alt@, x as int, y as int, w as int, h as int, px, py, c) by {
            assert(channel(d1, bw, px, py, c) == channel(d1, bw, px, py, c));
            assert(channel(d2, bw, px, py, c) == channel(d2, bw, px, py, c));
        }
    }
}


// ─── Scroll bar ─────────────────────────────────────────────

/// The left edge of the scroll bar, 8 pixels in from the right of a buffer `bw` wide:
/// `buf.width as i32 - 8`.
pub open spec fn scrollbar_x(bw: int) -> int {
    wrap_i32(bw) - 8
}

/// What `draw_scrollbar` draws: the track down the right edge, `viewport_h` high, and, when
/// the content is taller than the viewport, the thumb `thumb_h` high at `thumb_y`.
pub open spec fn scrollbar_layers(bw: int, content_h: int, viewport_h: int, thumb_y: int, thumb_h: int) -> Seq<Layer> {
    seq![fill_layer(scrollbar_x(bw), 0, 8, viewport_h, Color::scrollbar())] + if content_h > viewport_h {
        seq![fill_layer(scrollbar_x(bw), thumb_y, 8, thumb_h, Color::scrollthumb())]
    } else {
        seq![]
    }
}

/// `u as i32` for a `u32`.
fn as_i32(u: u32) -> (r: i32)
    ensures
        r == wrap_i32(u as int),
{
    if u <= 2147483647 {
        u as i32
    } else {
        (u as i64 - 4294967296) as i32
    }
}

/// The scroll bar: an 8-pixel track down the right edge of the buffer, `viewport_h` high,
/// and, when the content (`content_h` high) does not fit in the viewport, the thumb. The
/// thumb's top and height on the track, `thumb_y` and `thumb_h`, are the scroll position
/// and the viewport's share of the content scaled to the track, at least 20 pixels high;
/// the caller scales them.
pub fn draw_scrollbar(buf: &mut PixelBuffer, content_h: i32, viewport_h: i32, thumb_y: i32, thumb_h: i32)
    requires
        old(buf).wf(),
        fits_i32(scrollbar_x(old(buf).width as int)),
        content_h > viewport_h ==> fits_i32(thumb_y + thumb_h),
    ensures
        final(buf).wf(),
        final(buf).width == old(buf).width,
        final(buf).height == old(buf).height,
        shows(
            old(buf).data@,
            final(buf).data@,
            old(buf).width as int,
            old(buf).height as int,
            scrollbar_layers(old(buf).width as int, content_h as int, viewport_h as int, thumb_y as int, thumb_h as int),
        ),
{
    let ghost bw = buf.width as int;
    let ghost bh = buf.height as int;
    let ghost d0 = buf.data@;
    let bar_x = as_i32(buf.width) - 8;
    fill_rect(buf, bar_x, 0, 8, viewport_h, Color::scrollbar());
    let ghost track = seq![fill_layer(bar_x as int, 0, 8, viewport_h as int, Color::scrollbar())];
    if content_h > viewport_h {
        let ghost d1 = buf.data@;
        fill_rect(buf, bar_x, thumb_y, 8, thumb_h, Color::scrollthumb());
        proof {
            let thumb = seq![fill_layer(bar_x as int, thumb_y as int, 8, thumb_h as int, Color::scrollthumb())];
            lemma_shows_chain(d0, d1, buf.data@, bw, bh, track, thumb);
            assert(scrollbar_layers(bw, content_h as int, viewport_h as int, thumb_y as int, thumb_h as int) =~= track + thumb);
        }
    } else {
        proof {
            assert(scrollbar_layers(bw, content_h as int, viewport_h as int, thumb_y as int, thumb_h as int) =~= track);
        }
    }
}

// ─── Pictures ───────────────────────────────────────────────

/// Where `draw_image` stops along one axis: `(start + len).min(size as i32)`.
pub open spec fn picture_end(start: int, len: int, size: int) -> int {
    if start + len < wrap_i32(size) {
        start + len
    } else {
        wrap_i32(size)
    }
}

/// How many columns (or rows) of the buffer `draw_image` paints along one axis.
pub open spec fn picture_count(start: int, len: int, size: int) -> int {
    if picture_end(start, len, size) > span_start(start) {
        picture_end(start, len, size) - span_start(start)
    } else {
        0
    }
}

/// The first and the end (exclusive) column, or row, that a picture at `start`, `len`
/// pixels long, covers on a buffer `size` pixels across: `start.max(0)` and
/// `(start + len).min(size as i32)`.
pub fn picture_span(start: i32, len: i32, size: u32) -> (r: (i32, i32))
    requires
        fits_i32(start + len),
    ensures
        r.0 == span_start(start as int),
        r.1 == picture_end(start as int, len as int, size as int),
{
    let first = if start > 0 {
        start
    } else {
        0
    };
    let end = start + len;
    let s = as_i32(size);
    let last = if end < s {
        end
    } else {
        s
    };
    (first, last)
}

/// Pixel (sx, sy) of `img` as `get_pixel` reads it: opaque black outside the image.
pub open spec fn sample(img: Image, sx: int, sy: int) -> (u8, u8, u8, u8) {
    if 0 <= sx < img.width && 0 <= sy < img.height {
        pixel_of(img, sx, sy)
    } else {
        (0u8, 0u8, 0u8, 255u8)
    }
}

pub open spec fn pixel_channel(p: (u8, u8, u8, u8), c: int) -> u8 {
    rgba_channel(p.0, p.1, p.2, p.3, c)
}

/// Byte `c` of pixel (px, py) after a row of the picture, sampled from row `sy` of `img`
/// at the columns `cols`, is drawn from column `x0` of row `row`: a pixel whose sample is
/// not fully transparent takes the sample; every other pixel keeps its byte.
pub open spec fn picture_row_pixel(
    old: Seq<u8>,
    bw: int,
    img: Image,
    x0: int,
    row: int,
    sy: int,
    cols: Seq<u32>,
    px: int,
    py: int,
    c: int,
) -> u8 {
    if py == row && x0 <= px < x0 + cols.len() && sample(img, cols[px - x0] as int, sy).3 > 0 {
        pixel_channel(sample(img, cols[px - x0] as int, sy), c)
    } else {
        channel(old, bw, px, py, c)
    }
}

/// Draws one row of a picture: pixel (x0 + i, row) takes pixel (cols[i], sy) of `img`
/// unless that is fully transparent.
fn draw_picture_row(buf: &mut PixelBuffer, img: &Image, x0: u32, row: u32, sy: u32, cols: &[u32])
    requires
        old(buf).wf(),
        img.wf(),
        row < old(buf).height,
        cols@.len() > 0 ==> x0 + cols@.len() <= old(buf).width,
    ensures
        final(buf).wf(),
        final(buf).width == old(buf).width,
        final(buf).height == old(buf).height,
        forall|px: int, py: int, c: int|
            0 <= px < old(buf).width && 0 <= py < old(buf).height && 0 <= c < 4 ==> #[trigger] channel(
                final(buf).data@,
                old(buf).width as int,
                px,
                py,
                c,
            ) == picture_row_pixel(
                old(buf).data@,
                old(buf).width as int,
                *img,
                x0 as int,
                row as int,
                sy as int,
                cols@,
                px,
                py,
                c,
            ),
{
    let ghost bw = buf.width as int;
    let ghost bh = buf.height as int;
    let ghost d0 = buf.data@;
    let mut i: usize = 0;
    while i < cols.len()
        invariant
            buf.wf(),
            img.wf(),
            buf.width == bw,
            buf.height == bh,
            row < bh,
            cols@.len() > 0 ==> x0 + cols@.len() <= bw,
            0 <= i <= cols@.len(),
            forall|px: int, py: int, c: int|
                0 <= px < bw && 0 <= py < bh && 0 <= c < 4 ==> #[trigger] channel(buf.data@, bw, px, py, c)
                    == picture_row_pixel(d0, bw, *img, x0 as int, row as int, sy as int, cols@.take(i as int), px, py, c),
        decreases cols@.len() - i,
    {
        let ghost before = buf.data@;
        let p = img.get_pixel(cols[i], sy);
        assert(p == sample(*img, cols@[i as int] as int, sy as int));
        let px = x0 + i as u32;
        if p.3 > 0 {
            buf.set_pixel(px, row, p.0, p.1, p.2, p.3);
            proof {
                lemma_with_pixel(before, bw, bh, px as int, row as int, p.0, p.1, p.2, p.3);
            }
        }
        proof {
            assert forall|qx: int, qy: int, c: int|
                0 <= qx < bw && 0 <= qy < bh && 0 <= c < 4 implies #[trigger] channel(buf.data@, bw, qx, qy, c)
                    == picture_row_pixel(d0, bw, *img, x0 as int, row as int, sy as int, cols@.take(i + 1), qx, qy, c) by {
                assert(channel(before, bw, qx, qy, c) == picture_row_pixel(d0, bw, *img, x0 as int, row as int, sy as int, cols@.take(i as int), qx, qy, c));
                if qy == row && x0 <= qx < x0 + i {
                    assert(cols@.take(i + 1)[qx - x0] == cols@.take(i as int)[qx - x0]);
                }
                if qy == row && qx == x0 + i {
                    assert(cols@.take(i + 1)[qx - x0] == cols@[i as int]);
                }
            }
        }
        i = i + 1;
    }
    assert(cols@.take(cols@.len() as int) =~= cols@);
}

/// Byte `c` of pixel (px, py) after `draw_image`: inside the picture's clipped box, whose
/// top-left corner is (x0, y0), the pixel takes the sample at (cols[px - x0], rows[py - y0])
/// of `img` unless that is fully transparent; every other pixel keeps its byte.
pub open spec fn picture_pixel(
    old: Seq<u8>,
    bw: int,
    img: Image,
    x0: int,
    y0: int,
    cols: Seq<u32>,
    rows: Seq<u32>,
    px: int,
    py: int,
    c: int,
) -> u8 {
    if x0 <= px < x0 + cols.len() && y0 <= py < y0 + rows.len() && sample(
        img,
        cols[px - x0] as int,
        rows[py - y0] as int,
    ).3 > 0 {
        pixel_channel(sample(img, cols[px - x0] as int, rows[py - y0] as int), c)
    } else {
        channel(old, bw, px, py, c)
    }
}

/// Draws `image` stretched over the `w` by `h` box at (x, y), clipped to the buffer, and
/// skips the fully transparent pixels of the image. `cols[i]` is the image column sampled
/// for the box's `i`-th visible column (buffer column `x.max(0) + i`), `rows[j]` the image
/// row sampled for its `j`-th visible row: the box's offset scaled from the box to the
/// image, which the caller computes.
pub fn draw_image(buf: &mut PixelBuffer, image: &Image, x: i32, y: i32, w: i32, h: i32, cols: &[u32], rows: &[u32])
    requires
        old(buf).wf(),
        image.wf(),
        fits_i32(x + w),
        fits_i32(y + h),
        cols@.len() == picture_count(x as int, w as int, old(buf).width as int),
        rows@.len() == picture_count(y as int, h as int, old(buf).height as int),
    ensures
        final(buf).wf(),
        final(buf).width == old(buf).width,
        final(buf).height == old(buf).height,
        forall|px: int, py: int, c: int|
            0 <= px < old(buf).width && 0 <= py < old(buf).height && 0 <= c < 4 ==> #[trigger] channel(
                final(buf).data@,
                old(buf).width as int,
                px,
                py,
                c,
            ) == picture_pixel(
                old(buf).data@,
                old(buf).width as int,
                *image,
                span_start(x as int),
                span_start(y as int),
                cols@,
                rows@,
                px,
                py,
                c,
            ),
{
    let ghost bw = buf.width as int;
    let ghost bh = buf.height as int;
    let ghost d0 = buf.data@;
    let (x0, _x1) = picture_span(x, w, buf.width);
    let (y0, _y1) = picture_span(y, h, buf.height);
    let mut j: usize = 0;
    while j < rows.len()
        invariant
            buf.wf(),
            image.wf(),
            buf.width == bw,
            buf.height == bh,
            0 <= x0,
            0 <= y0,
            cols@.len() > 0 ==> x0 + cols@.len() <= bw,
            rows@.len() > 0 ==> y0 + rows@.len() <= bh,
            0 <= j <= rows@.len(),
            forall|px: int, py: int, c: int|
                0 <= px < bw && 0 <= py < bh && 0 <= c < 4 ==> #[trigger] channel(buf.data@, bw, px, py, c)
                    == picture_pixel(d0, bw, *image, x0 as int, y0 as int, cols@, rows@.take(j as int), px, py, c),
        decreases rows@.len() - j,
    {
        let ghost before = buf.data@;
        let row = y0 as u32 + j as u32;
        let sy = rows[j];
        draw_picture_row(buf, image, x0 as u32, row, sy, cols);
        proof {
            assert forall|qx: int, qy: int, c: int|
                0 <= qx < bw && 0 <= qy < bh && 0 <= c < 4 implies #[trigger] channel(buf.data@, bw, qx, qy, c)
                    == picture_pixel(d0, bw, *image, x0 as int, y0 as int, cols@, rows@.take(j + 1), qx, qy, c) by {
                assert(channel(before, bw, qx, qy, c) == picture_pixel(d0, bw, *image, x0 as int, y0 as int, cols@, rows@.take(j as int), qx, qy, c));
                if y0 <= qy < y0 + j {
                    assert(rows@.take(j + 1)[qy - y0] == rows@.take(j as int)[qy - y0]);
                }
                if qy == y0 + j {
                    assert(rows@.take(j + 1)[qy - y0] == rows@[j as int]);
                }
            }
        }
        j = j + 1;
    }
    assert(rows@.take(rows@.len() as int) =~= rows@);
}

} // verus!
