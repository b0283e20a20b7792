//! Frames as stacks of layers: each drawing primitive paints a rectangle or a line of text
//! over what is there, and a frame is what its layers, drawn in order, leave behind.
use vstd::prelude::*;
use crate::platform::{channel, rgba_channel};

use crate::gui::paint::{Color, rect_covers, text_covers, recoloured, wrapped_lines, chars_per_line, placeholder_label, label_inside, half_toward_zero};

verus! {

/// One thing drawn on a frame: a filled rectangle, or a line of text.
pub enum Layer {
    Fill { x: int, y: int, w: int, h: int, color: Color },
    Glyphs { text: Seq<char>, x: int, y: int, scale: int, color: Color },
}

/// Whether layer `l` paints pixel (px, py) of a `bw` by `bh` buffer.
pub open spec fn layer_covers(l: Layer, bw: int, bh: int, px: int, py: int) -> bool {
    match l {
        Layer::Fill { x, y, w, h, .. } => rect_covers(bw, bh, x, y, w, h, px, py),
        Layer::Glyphs { text, x, y, scale, .. } => text_covers(bw, bh, text, x, y, scale, px, py),
    }
}

/// Byte `c` of the colour layer `l` paints (text is always opaque).
pub open spec fn layer_channel(l: Layer, c: int) -> u8 {
    match l {
        Layer::Fill { color, .. } => rgba_channel(color.r, color.g, color.b, color.a, c),
        Layer::Glyphs { color, .. } => rgba_channel(color.r, color.g, color.b, 255, c),
    }
}

/// Byte `c` of pixel (px, py) after drawing `ls` in order over `old`: the last layer that
/// covers the pixel decides it.
pub open spec fn stacked(old: Seq<u8>, bw: int, bh: int, ls: Seq<Layer>, px: int, py: int, c: int) -> u8
    decreases ls.len(),
{
    if ls.len() == 0 {
        channel(old, bw, px, py, c)
    } else if layer_covers(ls.last(), bw, bh, px, py) {
        layer_channel(ls.last(), c)
    } else {
        stacked(old, bw, bh, ls.drop_last(), px, py, c)
    }
}

/// `new` is `old` with the layers `ls` drawn over it in order.
pub open spec fn shows(old: Seq<u8>, new: Seq<u8>, bw: int, bh: int, ls: Seq<Layer>) -> bool {
    &&& new.len() == old.len()
    &&& forall|px: int, py: int, c: int|
        0 <= px < bw && 0 <= py < bh && 0 <= c < 4 ==> #[trigger] channel(new, bw, px, py, c)
            == stacked(old, bw, bh, ls, px, py, c)
}

proof fn lemma_stacked_concat(
    d0: Seq<u8>,
    d1: Seq<u8>,
    bw: int,
    bh: int,
    a: Seq<Layer>,
    b: Seq<Layer>,
    px: int,
    py: int,
    c: int,
)
    requires
        channel(d1, bw, px, py, c) == stacked(d0, bw, bh, a, px, py, c),
    ensures
        stacked(d1, bw, bh, b, px, py, c) == stacked(d0, bw, bh, a + b, px, py, c),
    decreases b.len(),
{
    if b.len() == 0 {
        assert(a + b =~= a);
    } else {
        assert((a + b).drop_last() =~= a + b.drop_last());
        assert((a + b).last() == b.last());
        lemma_stacked_concat(d0, d1, bw, bh, a, b.drop_last(), px, py, c);
    }
}

/// Drawing `a` and then `b` draws `a + b`.
pub proof fn lemma_shows_chain(d0: Seq<u8>, d1: Seq<u8>, d2: Seq<u8>, bw: int, bh: int, a: Seq<Layer>, b: Seq<Layer>)
    requires
        shows(d0, d1, bw, bh, a),
        shows(d1, d2, bw, bh, b),
    ensures
        shows(d0, d2, bw, bh, a + b),
{
    assert forall|px: int, py: int, c: int|
        0 <= px < bw && 0 <= py < bh && 0 <= c < 4 implies #[trigger] channel(d2, bw, px, py, c)
            == stacked(d0, bw, bh, a + b, px, py, c) by {
        assert(channel(d1, bw, px, py, c) == stacked(d0, bw, bh, a, px, py, c));
        lemma_stacked_concat(d0, d1, bw, bh, a, b, px, py, c);
    }
}

/// Drawing nothing leaves the frame as it is.
pub proof fn lemma_shows_none(d: Seq<u8>, bw: int, bh: int)
    ensures
        shows(d, d, bw, bh, seq![]),
{
}

/// Whether one of the layers `ls` covers pixel (px, py).
pub open spec fn any_covers(ls: Seq<Layer>, bw: int, bh: int, px: int, py: int) -> bool {
    exists|k: int| 0 <= k < ls.len() && #[trigger] layer_covers(ls[k], bw, bh, px, py)
}

proof fn lemma_stacked_same_colour(
    d0: Seq<u8>,
    bw: int,
    bh: int,
    ls: Seq<Layer>,
    r: u8,
    g: u8,
    b: u8,
    a: u8,
    px: int,
    py: int,
    c: int,
)
    requires
        forall|k: int| 0 <= k < ls.len() ==> #[trigger] layer_channel(ls[k], c) == rgba_channel(r, g, b, a, c),
    ensures
        stacked(d0, bw, bh, ls, px, py, c) == if any_covers(ls, bw, bh, px, py) {
            rgba_channel(r, g, b, a, c)
        } else {
            channel(d0, bw, px, py, c)
        },
    decreases ls.len(),
{
    if ls.len() > 0 {
        let init = ls.drop_last();
        assert forall|k: int| 0 <= k < init.len() implies #[trigger] layer_channel(init[k], c)
            == rgba_channel(r, g, b, a, c) by {
            assert(init[k] == ls[k]);
        }
        lemma_stacked_same_colour(d0, bw, bh, init, r, g, b, a, px, py, c);
        assert(layer_channel(ls[ls.len() - 1], c) == rgba_channel(r, g, b, a, c));
        if any_covers(init, bw, bh, px, py) {
            let k = choose|k: int| 0 <= k < init.len() && #[trigger] layer_covers(init[k], bw, bh, px, py);
            assert(ls[k] == init[k]);
        }
        if any_covers(ls, bw, bh, px, py) && !layer_covers(ls.last(), bw, bh, px, py) {
            let k = choose|k: int| 0 <= k < ls.len() && #[trigger] layer_covers(ls[k], bw, bh, px, py);
            assert(init[k] == ls[k]);
        }
    }
}

/// Painting the union of layers of one colour shows those layers.
pub proof fn lemma_union_layers(
    d0: Seq<u8>,
    d1: Seq<u8>,
    bw: int,
    bh: int,
    ls: Seq<Layer>,
    cover: spec_fn(int, int) -> bool,
    r: u8,
    g: u8,
    b: u8,
    a: u8,
)
    requires
        recoloured(d0, d1, bw, bh, cover, r, g, b, a),
        forall|px: int, py: int| #[trigger] cover(px, py) == any_covers(ls, bw, bh, px, py),
        forall|k: int, c: int| 0 <= k < ls.len() && 0 <= c < 4 ==> #[trigger] layer_channel(ls[k], c)
            == rgba_channel(r, g, b, a, c),
    ensures
        shows(d0, d1, bw, bh, ls),
{
    assert forall|px: int, py: int, c: int|
        0 <= px < bw && 0 <= py < bh && 0 <= c < 4 implies #[trigger] channel(d1, bw, px, py, c)
            == stacked(d0, bw, bh, ls, px, py, c) by {
        assert(cover(px, py) == any_covers(ls, bw, bh, px, py));
        assert forall|k: int| 0 <= k < ls.len() implies #[trigger] layer_channel(ls[k], c)
            == rgba_channel(r, g, b, a, c) by {
            assert(layer_channel(ls[k], c) == rgba_channel(r, g, b, a, c));
        }
        lemma_stacked_same_colour(d0, bw, bh, ls, r, g, b, a, px, py, c);
    }
}


// ─── The layers each primitive draws ───────────────────────

pub open spec fn fill_layer(x: int, y: int, w: int, h: int, color: Color) -> Layer {
    Layer::Fill { x, y, w, h, color }
}

pub open spec fn glyph_layer(text: Seq<char>, x: int, y: int, scale: int, color: Color) -> Layer {
    Layer::Glyphs { text, x, y, scale, color }
}

/// The four one-pixel sides `draw_rect` fills: top, bottom, left, right.
pub open spec fn frame_layers(x: int, y: int, w: int, h: int, color: Color) -> Seq<Layer> {
    seq![
        fill_layer(x, y, w, 1, color),
        fill_layer(x, y + h - 1, w, 1, color),
        fill_layer(x, y, 1, h, color),
        fill_layer(x + w - 1, y, 1, h, color),
    ]
}

/// Lines of text one under another, `step` pixels apart.
pub open spec fn line_layers(lines: Seq<Seq<char>>, x: int, y: int, step: int, scale: int, color: Color) -> Seq<Layer> {
    Seq::new(lines.len(), |k: int| glyph_layer(lines[k], x, y + k * step, scale, color))
}

/// What `draw_text_wrapped` draws: the lines of `text` wrapped to `max_w` pixels.
pub open spec fn wrapped_layers(text: Seq<char>, x: int, y: int, max_w: int, scale: int, color: Color) -> Seq<Layer> {
    line_layers(
        wrapped_lines(text, chars_per_line(max_w, 8 * scale)),
        x,
        y,
        8 * scale + 2,
        scale,
        color,
    )
}

/// What `draw_image_placeholder` draws: the box, its frame, and the caption when it fits.
pub open spec fn placeholder_layers(alt: Seq<char>, x: int, y: int, w: int, h: int) -> Seq<Layer> {
    seq![fill_layer(x, y, w, h, Color::image_bg())] + frame_layers(x, y, w, h, Color::image_border())
        + if label_inside(y, h) {
        seq![glyph_layer(placeholder_label(alt), x + 8, y + half_toward_zero(h) - 4, 1, Color::fg())]
    } else {
        seq![]
    }
}

} // verus!
