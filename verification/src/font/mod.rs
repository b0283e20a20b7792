//! The built-in 8x8 monospace bitmap font and text drawing into a pixel buffer.
//!
//! Drawing is stated by coverage: a pixel takes the text colour when some lit
//! bit of some drawn glyph, scaled up, covers it, and keeps its value otherwise.
mod bitmap;

pub use bitmap::FONT_8X8;

use vstd::prelude::*;
use crate::platform::{PixelBuffer, channel, rgba_channel};

verus! {

pub const GLYPH_W: u32 = 8;

pub const GLYPH_H: u32 = 8;

/// The glyph of a character: printable ASCII maps to its own glyph, all else to the blank.
pub open spec fn glyph_of(ch: char) -> int {
    let c = ch as u32;
    if 32 <= c < 127 {
        c - 32
    } else {
        0
    }
}

/// Whether bit `k` (row `k / 8`, column `k % 8`) of glyph `g` is lit.
pub open spec fn lit(g: int, k: int) -> bool {
    ((FONT_8X8[g][k / 8] >> ((k % 8) as u8)) & 1u8) == 1u8
}

/// Whether one of the first `n` bits of glyph `g`, drawn at (x, y) as `scale`-sized
/// squares, covers pixel (px, py).
pub open spec fn covered_upto(g: int, x: int, y: int, scale: int, px: int, py: int, n: int) -> bool
    decreases n,
{
    if n <= 0 {
        false
    } else {
        let k = n - 1;
        covered_upto(g, x, y, scale, px, py, k) || (lit(g, k) && x + (k % 8) * scale <= px < x + (
        k % 8) * scale + scale && y + (k / 8) * scale <= py < y + (k / 8) * scale + scale)
    }
}

/// Whether drawing `ch` at (x, y) on a `w` by `h` buffer colours pixel (px, py).
pub open spec fn char_covers(ch: char, x: int, y: int, scale: int, w: int, h: int, px: int, py: int) -> bool {
    x < w && y < h && scale > 0 && covered_upto(glyph_of(ch), x, y, scale, px, py, 64)
}

/// Whether the lit bits of `ch` stay within a `u32` offset at `scale`.
pub open spec fn char_fits(ch: char, scale: int) -> bool {
    forall|k: int|
        0 <= k < 64 && #[trigger] lit(glyph_of(ch), k) ==> (k % 8) * scale <= u32::MAX && (k / 8)
            * scale <= u32::MAX
}

/// `new` is `old` with the pixels in `cover` set to (r, g, b, 255).
pub open spec fn painted(
    old: Seq<u8>,
    new: Seq<u8>,
    w: int,
    h: int,
    cover: spec_fn(int, int) -> bool,
    r: u8,
    g: u8,
    b: u8,
) -> bool {
    &&& new.len() == old.len()
    &&& forall|px: int, py: int, c: int|
        0 <= px < w && 0 <= py < h && 0 <= c < 4 ==> #[trigger] channel(new, w, px, py, c) == if cover(
            px,
            py,
        ) {
            rgba_channel(r, g, b, 255, c)
        } else {
            channel(old, w, px, py, c)
        }
}

pub fn glyph_index(ch: char) -> (i: usize)
    ensures
        i == glyph_of(ch),
        i < 95,
{
    let c = ch as u32;
    if c >= 32 && c < 127 {
        (c - 32) as usize
    } else {
        0
    }
}

/// Draw a single character into a pixel buffer at (x, y); nothing is drawn when (x, y)
/// lies off the buffer or the scale is 0.
pub fn draw_char(
    buf: &mut PixelBuffer,
    ch: char,
    x: u32,
    y: u32,
    r: u8,
    g: u8,
    b: u8,
    scale: u32,
)
    requires
        old(buf).wf(),
        x < old(buf).width && y < old(buf).height && scale > 0 ==> char_fits(ch, scale as int),
    ensures
        final(buf).wf(),
        final(buf).width == old(buf).width,
        final(buf).height == old(buf).height,
        painted(
            old(buf).data@,
            final(buf).data@,
            old(buf).width as int,
            old(buf).height as int,
            |px: int, py: int|
                char_covers(
                    ch,
                    x as int,
                    y as int,
                    scale as int,
                    old(buf).width as int,
                    old(buf).height as int,
                    px,
                    py,
                ),
            r,
            g,
            b,
        ),
{
    let ghost w = buf.width as int;
    let ghost h = buf.height as int;
    let ghost d0 = buf.data@;
    if x >= buf.width || y >= buf.height {
        return;
    }
    if scale == 0 {
        return;
    }
    let idx = glyph_index(ch);
    let glyph = FONT_8X8[idx];
    let ghost gi = idx as int;
    let mut k: u32 = 0;
    while k < 64
        invariant
            buf.wf(),
            buf.width as int == w,
            buf.height as int == h,
            x < w,
            y < h,
            scale > 0,
            k <= 64,
            gi == glyph_of(ch),
            glyph == FONT_8X8[gi],
            char_fits(ch, scale as int),
            d0.len() == buf.data@.len(),
            forall|px: int, py: int, c: int|
                0 <= px < w && 0 <= py < h && 0 <= c < 4 ==> #[trigger] channel(
                    buf.data@,
                    w,
                    px,
                    py,
                    c,
                ) == if covered_upto(gi, x as int, y as int, scale as int, px, py, k as int) {
                    rgba_channel(r, g, b, 255, c)
                } else {
                    channel(d0, w, px, py, c)
                },
        decreases 64 - k,
    {
        let row = k / 8;
        let col = k % 8;
        let bit = (glyph[row as usize] >> (col as u8)) & 1;
        if bit == 1 {
            assert(lit(gi, k as int));
            let cs = col * scale;
            let rs = row * scale;
            let x0 = x as u64 + cs as u64;
            let y0 = y as u64 + rs as u64;
            let ghost before = buf.data@;
            buf.fill_region(x0, x0 + scale as u64, y0, y0 + scale as u64, r, g, b, 255);
        }
        k = k + 1;
    }
}

/// Pen position before glyph `i` of a string drawn from `x`: `x + i * 8 * scale`, saturated
/// at the largest `u32`.
pub open spec fn pen_at(x: int, i: int, scale: int) -> int {
    if x + i * 8 * scale <= u32::MAX {
        x + i * 8 * scale
    } else {
        u32::MAX as int
    }
}

/// How many characters of `cs` are drawn: up to the first newline, or until the pen leaves
/// the buffer.
pub open spec fn drawn_count(cs: Seq<char>, x: int, scale: int, w: int, i: int) -> int
    decreases cs.len() - i,
{
    if 0 <= i < cs.len() && cs[i] != '\n' && pen_at(x, i, scale) < w {
        drawn_count(cs, x, scale, w, i + 1)
    } else {
        i
    }
}

/// Whether one of the first `n` characters of `cs` drawn from (x, y) covers (px, py).
pub open spec fn str_covers_upto(
    cs: Seq<char>,
    x: int,
    y: int,
    scale: int,
    w: int,
    h: int,
    px: int,
    py: int,
    n: int,
) -> bool
    decreases n,
{
    if n <= 0 {
        false
    } else {
        str_covers_upto(cs, x, y, scale, w, h, px, py, n - 1) || char_covers(
            cs[n - 1],
            pen_at(x, n - 1, scale),
            y,
            scale,
            w,
            h,
            px,
            py,
        )
    }
}

pub proof fn lemma_drawn_count(cs: Seq<char>, x: int, scale: int, w: int, i: int)
    requires
        0 <= i <= cs.len(),
    ensures
        i <= drawn_count(cs, x, scale, w, i) <= cs.len(),
    decreases cs.len() - i,
{
    if i < cs.len() && cs[i] != '\n' && pen_at(x, i, scale) < w {
        lemma_drawn_count(cs, x, scale, w, i + 1);
    }
}

proof fn lemma_char_fits(ch: char, scale: int)
    requires
        0 <= scale,
        8 * scale <= u32::MAX,
    ensures
        char_fits(ch, scale),
{
    assert forall|k: int| 0 <= k < 64 && #[trigger] lit(glyph_of(ch), k) implies (k % 8) * scale
        <= u32::MAX && (k / 8) * scale <= u32::MAX by {
        assert((k % 8) * scale <= 8 * scale) by (nonlinear_arith)
            requires
                0 <= k % 8 < 8,
                0 <= scale,
        ;
        assert((k / 8) * scale <= 8 * scale) by (nonlinear_arith)
            requires
                0 <= k / 8 < 8,
                0 <= scale,
        ;
    }
}

/// Draw a string into a pixel buffer; returns the x position after the last character drawn.
pub fn draw_str(buf: &mut PixelBuffer, text: &str, x: u32, y: u32, r: u8, g: u8, b: u8, scale: u32) -> (end: u32)
    requires
        old(buf).wf(),
        (text@.len() > 0 && text@[0] != '\n' && x < old(buf).width) ==> 8 * scale <= u32::MAX,
    ensures
        final(buf).wf(),
        final(buf).width == old(buf).width,
        final(buf).height == old(buf).height,
        ({
            let n = drawn_count(text@, x as int, scale as int, old(buf).width as int, 0);
            &&& end == pen_at(x as int, n, scale as int)
            &&& painted(
                old(buf).data@,
                final(buf).data@,
                old(buf).width as int,
                old(buf).height as int,
                |px: int, py: int|
                    str_covers_upto(
                        text@,
                        x as int,
                        y as int,
                        scale as int,
                        old(buf).width as int,
                        old(buf).height as int,
                        px,
                        py,
                        n,
                    ),
                r,
                g,
                b,
            )
        }),
{
    let ghost w = buf.width as int;
    let ghost h = buf.height as int;
    let ghost d0 = buf.data@;
    let cs = crate::text::chars_of(text);
    let mut cx = x;
    let mut i: usize = 0;
    proof {
        lemma_drawn_count(cs@, x as int, scale as int, w, 0);
    }
    while i < cs.len()
        invariant
            cs@ == text@,
            buf.wf(),
            buf.width as int == w,
            buf.height as int == h,
            i <= cs.len(),
            cx == pen_at(x as int, i as int, scale as int),
            i > 0 ==> 8 * scale <= u32::MAX,
            (cs@.len() > 0 && cs@[0] != '\n' && x < w) ==> 8 * scale <= u32::MAX,
            drawn_count(cs@, x as int, scale as int, w, 0) == drawn_count(
                cs@,
                x as int,
                scale as int,
                w,
                i as int,
            ),
            d0.len() == buf.data@.len(),
            forall|px: int, py: int, c: int|
                0 <= px < w && 0 <= py < h && 0 <= c < 4 ==> #[trigger] channel(
                    buf.data@,
                    w,
                    px,
                    py,
                    c,
                ) == if str_covers_upto(
                    cs@,
                    x as int,
                    y as int,
                    scale as int,
                    w,
                    h,
                    px,
                    py,
                    i as int,
                ) {
                    rgba_channel(r, g, b, 255, c)
                } else {
                    channel(d0, w, px, py, c)
                },
            w == old(buf).width as int,
            h == old(buf).height as int,
            d0 == old(buf).data@,
        ensures
            buf.wf(),
            buf.width as int == w,
            buf.height as int == h,
            cx == pen_at(x as int, i as int, scale as int),
            drawn_count(cs@, x as int, scale as int, w, 0) == i,
            d0.len() == buf.data@.len(),
            forall|px: int, py: int, c: int|
                0 <= px < w && 0 <= py < h && 0 <= c < 4 ==> #[trigger] channel(
                    buf.data@,
                    w,
                    px,
                    py,
                    c,
                ) == if str_covers_upto(
                    cs@,
                    x as int,
                    y as int,
                    scale as int,
                    w,
                    h,
                    px,
                    py,
                    i as int,
                ) {
                    rgba_channel(r, g, b, 255, c)
                } else {
                    channel(d0, w, px, py, c)
                },
        decreases cs.len() - i,
    {
        let ch = cs[i];
        if ch == '\n' {
            break;
        }
        if cx >= buf.width {
            break;
        }
        proof {
            lemma_char_fits(ch, scale as int);
        }
        draw_char(buf, ch, cx, y, r, g, b, scale);
        let step = GLYPH_W * scale;
        proof {
            assert(pen_at(x as int, i + 1, scale as int) == if cx as int + 8 * scale <= u32::MAX {
                cx as int + 8 * scale
            } else {
                u32::MAX as int
            }) by (nonlinear_arith)
                requires
                    cx == pen_at(x as int, i as int, scale as int),
                    0 <= scale,
                    0 <= x,
                    0 <= i,
            ;
        }
        cx = cx.saturating_add(step);
        i = i + 1;
    }
    cx
}

/// Text width in pixels: eight pixels per character at `scale` (the character count taken
/// as a `u32`).
pub fn measure_str(text: &str, scale: u32) -> (w: u32)
    requires
        (text@.len() as u32) * 8 <= u32::MAX,
        (text@.len() as u32) * 8 * scale <= u32::MAX,
    ensures
        w == (text@.len() as u32) * 8 * scale,
{
    let cs = crate::text::chars_of(text);
    let n: u32 = #[verifier::truncate] (cs.len() as u32);
    n * GLYPH_W * scale
}

} // verus!
