use retrox::platform::PixelBuffer;
use retrox::image::Image;
use retrox::font::{draw_char, draw_str, measure_str, glyph_index, GLYPH_W, GLYPH_H};
use retrox::gui::paint::{
    Color, fill_rect, draw_rect, draw_text, draw_text_wrapped, draw_image_placeholder,
    draw_horizontal_rule, draw_link_underline, draw_image, draw_scrollbar, picture_span,
};

fn lit(buf: &PixelBuffer, x: u32, y: u32) -> bool {
    buf.get_pixel(x, y) != (0, 0, 0, 0)
}

// ─── Pixel buffers and images ──────────────────────────────

#[test]
fn buffer_starts_transparent_black() {
    let b = PixelBuffer::new(3, 2);
    assert_eq!(b.data.len(), 24);
    assert!(b.data.iter().all(|&v| v == 0));
}

#[test]
fn buffer_read_after_write() {
    let mut b = PixelBuffer::new(4, 3);
    b.set_pixel(2, 1, 10, 20, 30, 40);
    assert_eq!(b.get_pixel(2, 1), (10, 20, 30, 40));
    assert_eq!(b.get_pixel(1, 2), (0, 0, 0, 0));
    b.set_pixel(2, 1, 1, 2, 3, 4);
    assert_eq!(b.get_pixel(2, 1), (1, 2, 3, 4));
    assert_eq!(&b.data[(1 * 4 + 2) * 4..(1 * 4 + 2) * 4 + 4], &[1, 2, 3, 4]);
}

#[test]
fn buffer_ignores_writes_outside() {
    let mut b = PixelBuffer::new(2, 2);
    b.set_pixel(2, 0, 9, 9, 9, 9);
    b.set_pixel(0, 5, 9, 9, 9, 9);
    assert!(b.data.iter().all(|&v| v == 0));
    assert_eq!(b.get_pixel(7, 7), (0, 0, 0, 0));
}

#[test]
fn buffer_clear_then_read() {
    let mut b = PixelBuffer::new(3, 3);
    b.set_pixel(1, 1, 9, 9, 9, 9);
    b.clear(5, 6, 7);
    for y in 0..3 {
        for x in 0..3 {
            assert_eq!(b.get_pixel(x, y), (5, 6, 7, 255));
        }
    }
}

#[test]
fn buffer_resize_drops_contents() {
    let mut b = PixelBuffer::new(2, 2);
    b.clear(1, 1, 1);
    b.resize(5, 1);
    assert_eq!((b.width, b.height), (5, 1));
    assert_eq!(b.data, vec![0u8; 20]);
}

#[test]
fn image_read_after_write() {
    let mut img = Image::new(2, 2);
    img.set_pixel(1, 0, 200, 100, 50, 25);
    assert_eq!(img.get_pixel(1, 0), (200, 100, 50, 25));
    assert_eq!(img.get_pixel(0, 1), (0, 0, 0, 0));
    assert_eq!(img.get_pixel(2, 0), (0, 0, 0, 255));
}

// ─── Font ──────────────────────────────────────────────────

#[test]
fn glyph_indices() {
    assert_eq!(glyph_index(' '), 0);
    assert_eq!(glyph_index('A'), 33);
    assert_eq!(glyph_index('~'), 94);
    assert_eq!(glyph_index('é'), 0);
    assert_eq!(glyph_index('\n'), 0);
    assert_eq!((GLYPH_W, GLYPH_H), (8, 8));
}

#[test]
fn draw_char_sets_glyph_bits() {
    // 'A' starts with the row 0x0C: the third and fourth pixels from the left.
    let mut b = PixelBuffer::new(16, 16);
    draw_char(&mut b, 'A', 4, 2, 1, 2, 3, 1);
    assert!(!lit(&b, 4, 2));
    assert!(!lit(&b, 5, 2));
    assert_eq!(b.get_pixel(6, 2), (1, 2, 3, 255));
    assert_eq!(b.get_pixel(7, 2), (1, 2, 3, 255));
    assert!(!lit(&b, 8, 2));
    // The last row of 'A' is empty.
    for x in 0..16 {
        assert!(!lit(&b, x, 9));
    }
}

#[test]
fn draw_char_scales_pixels() {
    let mut b = PixelBuffer::new(32, 32);
    draw_char(&mut b, 'A', 0, 0, 9, 9, 9, 2);
    // Column 2 of row 0 becomes the 2x2 block at (4..6, 0..2).
    assert!(lit(&b, 4, 0) && lit(&b, 5, 0) && lit(&b, 4, 1) && lit(&b, 5, 1));
    assert!(!lit(&b, 3, 0));
}

#[test]
fn draw_char_outside_does_nothing() {
    let mut b = PixelBuffer::new(8, 8);
    draw_char(&mut b, 'A', 8, 0, 9, 9, 9, 1);
    draw_char(&mut b, 'A', 0, 0, 9, 9, 9, 0);
    assert!(b.data.iter().all(|&v| v == 0));
}

#[test]
fn draw_str_returns_pen_position() {
    let mut b = PixelBuffer::new(100, 10);
    assert_eq!(draw_str(&mut b, "AB", 3, 0, 1, 1, 1, 1), 19);
    assert_eq!(draw_str(&mut b, "AB\nCD", 0, 0, 1, 1, 1, 2), 32);
    // Drawing stops once the pen leaves the buffer.
    let mut small = PixelBuffer::new(10, 10);
    assert_eq!(draw_str(&mut small, "ABCD", 0, 0, 1, 1, 1, 1), 16);
}

#[test]
fn measure_counts_characters() {
    assert_eq!(measure_str("hello", 1), 40);
    assert_eq!(measure_str("héllo", 2), 80);
    assert_eq!(measure_str("", 3), 0);
}

// ─── Paint ─────────────────────────────────────────────────

#[test]
fn palette() {
    assert_eq!(Color::rgb(1, 2, 3), Color::rgba(1, 2, 3, 255));
    assert_eq!(Color::bg(), Color::rgb(18, 18, 24));
    assert_eq!(Color::fg(), Color::rgb(220, 220, 220));
    assert_eq!(Color::link_underline(), Color::rgb(60, 120, 200));
    assert_eq!(Color::status_text(), Color::rgb(120, 120, 150));
}

#[test]
fn fill_rect_clips_to_buffer() {
    let mut b = PixelBuffer::new(4, 4);
    fill_rect(&mut b, -1, 2, 3, 5, Color::rgb(7, 7, 7));
    for y in 0..4u32 {
        for x in 0..4u32 {
            let inside = x < 2 && y >= 2;
            assert_eq!(lit(&b, x, y), inside, "pixel ({}, {})", x, y);
        }
    }
    assert_eq!(b.get_pixel(1, 3), (7, 7, 7, 255));
}

#[test]
fn fill_rect_with_zero_width_paints_nothing() {
    let mut b = PixelBuffer::new(4, 4);
    fill_rect(&mut b, 1, 1, 0, 3, Color::rgb(7, 7, 7));
    assert!(b.data.iter().all(|&v| v == 0));
}

#[test]
fn fill_rect_end_before_zero_reads_as_far_end() {
    // The end row -1 is taken as an unsigned row past the buffer, so the fill runs to the
    // bottom edge.
    let mut b = PixelBuffer::new(4, 4);
    fill_rect(&mut b, 1, 1, 3, -2, Color::rgb(7, 7, 7));
    for y in 0..4u32 {
        for x in 0..4u32 {
            assert_eq!(lit(&b, x, y), x >= 1 && y >= 1, "pixel ({}, {})", x, y);
        }
    }
}

#[test]
fn draw_rect_paints_the_frame_only() {
    let mut b = PixelBuffer::new(6, 6);
    draw_rect(&mut b, 1, 1, 4, 4, Color::rgb(3, 3, 3));
    assert!(lit(&b, 1, 1) && lit(&b, 4, 1) && lit(&b, 1, 4) && lit(&b, 4, 4) && lit(&b, 2, 1));
    assert!(!lit(&b, 2, 2) && !lit(&b, 3, 3) && !lit(&b, 0, 0) && !lit(&b, 5, 5));
}

#[test]
fn rules_and_underlines() {
    let mut b = PixelBuffer::new(5, 3);
    draw_horizontal_rule(&mut b, 1, 1, 3, Color::divider());
    assert_eq!(b.get_pixel(1, 1), (50, 50, 65, 255));
    assert!(!lit(&b, 0, 1) && !lit(&b, 4, 1));
    draw_link_underline(&mut b, 0, 2, 2, true);
    assert_eq!(b.get_pixel(1, 2), (140, 200, 255, 255));
    draw_link_underline(&mut b, 0, 0, 1, false);
    assert_eq!(b.get_pixel(0, 0), (60, 120, 200, 255));
}

#[test]
fn draw_text_skips_text_above_or_below() {
    let mut b = PixelBuffer::new(20, 20);
    draw_text(&mut b, "A", 0, -9, Color::fg(), 1);
    draw_text(&mut b, "A", 0, 21, Color::fg(), 1);
    assert!(b.data.iter().all(|&v| v == 0));
    draw_text(&mut b, "A", 0, 0, Color::fg(), 1);
    assert!(lit(&b, 2, 0));
}

#[test]
fn draw_text_wrapped_returns_y_below_last_line() {
    let mut b = PixelBuffer::new(200, 100);
    // Three glyphs per line: "ab cd" does not fit, so two lines of 10 pixels.
    assert_eq!(draw_text_wrapped(&mut b, "ab cd", 0, 5, 24, Color::fg(), 1), 25);
    // Everything on one line.
    assert_eq!(draw_text_wrapped(&mut b, "ab cd", 0, 5, 100, Color::fg(), 1), 15);
    // Nothing to draw.
    assert_eq!(draw_text_wrapped(&mut b, "   ", 0, 5, 100, Color::fg(), 1), 5);
    // Scale 2: 18 pixels a line.
    assert_eq!(draw_text_wrapped(&mut b, "a b", 0, 0, 16, Color::fg(), 2), 36);
}

#[test]
fn placeholder_has_box_frame_and_label() {
    let mut b = PixelBuffer::new(120, 40);
    draw_image_placeholder(&mut b, "sunset over the sea", 0, 0, 120, 40);
    assert_eq!(b.get_pixel(0, 0), (60, 60, 80, 255));
    assert_eq!(b.get_pixel(119, 39), (60, 60, 80, 255));
    assert_eq!(b.get_pixel(1, 1), (30, 30, 40, 255));
    // The label "[IMG] ..." starts at (8, 16); '[' has pixels in its first row.
    let row: Vec<bool> = (8..16).map(|x| b.get_pixel(x, 16) == (220, 220, 220, 255)).collect();
    assert!(row.iter().any(|&v| v));
}

// ─── Input codes ───────────────────────────────────────────

use retrox::platform::{evdev_button, evdev_key, Key, MouseButton};

#[test]
fn linux_input_codes() {
    assert_eq!(evdev_key(103), Key::Up);
    assert_eq!(evdev_key(109), Key::PageDown);
    assert_eq!(evdev_key(1), Key::Escape);
    assert_eq!(evdev_key(30), Key::Char(' '));
    assert_eq!(evdev_button(0x110), MouseButton::Left);
    assert_eq!(evdev_button(0x111), MouseButton::Right);
    assert_eq!(evdev_button(0x112), MouseButton::Middle);
    assert_eq!(evdev_button(0x113), MouseButton::Left);
}

// ─── Pictures and the scroll bar ───────────────────────────

#[test]
fn picture_span_clips_to_the_buffer() {
    assert_eq!(picture_span(-3, 10, 5), (0, 5));
    assert_eq!(picture_span(2, 1, 5), (2, 3));
    assert_eq!(picture_span(10, 5, 4), (10, 4));
    assert_eq!(picture_span(-8, 4, 5), (0, -4));
}

#[test]
fn draw_image_samples_the_given_columns_and_rows() {
    let mut img = Image::new(2, 2);
    img.set_pixel(0, 0, 200, 0, 0, 255);
    img.set_pixel(1, 0, 0, 200, 0, 255);
    img.set_pixel(0, 1, 0, 0, 200, 255);
    // (1, 1) stays fully transparent.
    let mut buf = PixelBuffer::new(5, 5);
    buf.set_pixel(4, 4, 9, 9, 9, 9);
    // A 4 by 4 box at (1, 1) shows 4 by 4 pixels, each image pixel twice across and down.
    let (x0, x1) = picture_span(1, 4, 5);
    let (y0, y1) = picture_span(1, 4, 5);
    assert_eq!((x0, x1, y0, y1), (1, 5, 1, 5));
    let cols = [0u32, 0, 1, 1];
    let rows = [0u32, 0, 1, 1];
    draw_image(&mut buf, &img, 1, 1, 4, 4, &cols, &rows);
    assert_eq!(buf.get_pixel(1, 1), (200, 0, 0, 255));
    assert_eq!(buf.get_pixel(2, 2), (200, 0, 0, 255));
    assert_eq!(buf.get_pixel(3, 1), (0, 200, 0, 255));
    assert_eq!(buf.get_pixel(1, 4), (0, 0, 200, 255));
    // The transparent image pixel leaves what was there.
    assert_eq!(buf.get_pixel(4, 4), (9, 9, 9, 9));
    assert_eq!(buf.get_pixel(3, 3), (0, 0, 0, 0));
    // Outside the box nothing changes.
    assert_eq!(buf.get_pixel(0, 0), (0, 0, 0, 0));
}

#[test]
fn draw_image_outside_the_image_reads_opaque_black() {
    let mut img = Image::new(1, 1);
    img.set_pixel(0, 0, 50, 60, 70, 255);
    let mut buf = PixelBuffer::new(2, 1);
    draw_image(&mut buf, &img, 0, 0, 2, 1, &[0, 1], &[0]);
    assert_eq!(buf.get_pixel(0, 0), (50, 60, 70, 255));
    assert_eq!(buf.get_pixel(1, 0), (0, 0, 0, 255));
}

#[test]
fn draw_image_clipped_off_the_left_and_top() {
    let mut img = Image::new(1, 1);
    img.set_pixel(0, 0, 1, 2, 3, 4);
    let mut buf = PixelBuffer::new(3, 3);
    // The box (-2, -2) 4 by 4 shows its last two columns and rows.
    assert_eq!(picture_span(-2, 4, 3), (0, 2));
    draw_image(&mut buf, &img, -2, -2, 4, 4, &[0, 0], &[0, 0]);
    assert_eq!(buf.get_pixel(0, 0), (1, 2, 3, 4));
    assert_eq!(buf.get_pixel(1, 1), (1, 2, 3, 4));
    assert_eq!(buf.get_pixel(2, 2), (0, 0, 0, 0));
    assert_eq!(buf.get_pixel(2, 0), (0, 0, 0, 0));
}

#[test]
fn scrollbar_track_and_thumb() {
    let mut buf = PixelBuffer::new(20, 40);
    draw_scrollbar(&mut buf, 100, 30, 6, 20);
    let track = Color::scrollbar();
    let thumb = Color::scrollthumb();
    assert_eq!(buf.get_pixel(12, 0), (track.r, track.g, track.b, 255));
    assert_eq!(buf.get_pixel(19, 29), (track.r, track.g, track.b, 255));
    assert_eq!(buf.get_pixel(12, 6), (thumb.r, thumb.g, thumb.b, 255));
    assert_eq!(buf.get_pixel(19, 25), (thumb.r, thumb.g, thumb.b, 255));
    assert_eq!(buf.get_pixel(12, 26), (track.r, track.g, track.b, 255));
    // Left of the bar and below the viewport nothing changes.
    assert_eq!(buf.get_pixel(11, 10), (0, 0, 0, 0));
    assert_eq!(buf.get_pixel(12, 30), (0, 0, 0, 0));
}

#[test]
fn scrollbar_without_thumb_when_everything_fits() {
    let mut buf = PixelBuffer::new(20, 40);
    draw_scrollbar(&mut buf, 30, 30, 6, 20);
    let track = Color::scrollbar();
    assert_eq!(buf.get_pixel(12, 10), (track.r, track.g, track.b, 255));
}

#[test]
fn draw_str_ends_after_its_measured_width() {
    let mut buf = PixelBuffer::new(200, 20);
    let end = draw_str(&mut buf, "hello", 10, 2, 255, 255, 255, 2);
    assert_eq!(end, 10 + measure_str("hello", 2));
    assert_eq!(end, 90);
}
