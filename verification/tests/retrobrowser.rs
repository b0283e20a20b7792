use retrox::ast::Node;
use retrox::gui::browser::BrowserState;
use retrox::gui::fits::{
    content_fits_check, draw_fits_check, element_fits_check, event_fits_check, hits_fit_check,
    page_drawing_fits_check, paged_event_fits_check,
};
use retrox::gui::layout::{paragraph_line_count, Element, Layout};
use retrox::gui::paged::{PagedAction, PagedBrowser};
use retrox::lexer::Lexer;
use retrox::parser::Parser;
use retrox::platform::{Event, Key, MouseButton, PixelBuffer};
use retrox::text::is_cuttable;

fn parse_ok(src: &str) -> Node {
    let tokens = Lexer::new(src).tokenize().expect("lexes");
    Parser::new(tokens).parse().expect("parses")
}

fn tall_page() -> Layout {
    let body: Vec<String> = (0..40).map(|i| format!("[p]paragraph {}[/p]", i)).collect();
    Layout::build(&parse_ok(&format!("<RNMDL>\nfrom gn-z11 declare text\n{}", body.join("\n"))), 900, Vec::new())
}

fn link_page() -> Layout {
    Layout {
        elements: vec![
            Element::Paragraph { text: "intro".to_string(), y: 48, h: 24 },
            Element::Link { text: "next".to_string(), target: "b.rnmdl".to_string(), y: 100, x: 40, w: 32 },
        ],
        content_h: 200,
    }
}

// ─── RetroBrowser's events ─────────────────────────────────

#[test]
fn paged_browser_starts_without_a_page() {
    let b = PagedBrowser::new(900, 650);
    assert!(b.page.is_none());
    assert!(!b.resize_pending);
    assert_eq!((b.pending_w, b.pending_h, b.last_vw), (900, 650, 0));
}

#[test]
fn paged_keys_move_by_forty_and_stop_the_momentum() {
    let mut b = PagedBrowser::new(900, 650);
    b.loaded("a.rnmdl", String::new(), tall_page());
    assert_eq!(b.last_vw, 900);
    assert_eq!(b.state.max_scroll(), 442);
    assert!(matches!(b.handle_event(Event::KeyPress(Key::Down)), PagedAction::Halt));
    assert_eq!(b.state.scroll_y, 40);
    assert!(matches!(b.handle_event(Event::KeyPress(Key::PageDown)), PagedAction::Halt));
    assert_eq!(b.state.scroll_y, 442);
    assert!(matches!(b.handle_event(Event::KeyPress(Key::Up)), PagedAction::Halt));
    assert_eq!(b.state.scroll_y, 402);
    assert!(matches!(b.handle_event(Event::KeyPress(Key::PageUp)), PagedAction::Halt));
    assert_eq!(b.state.scroll_y, 0);
    assert!(matches!(b.handle_event(Event::KeyPress(Key::Enter)), PagedAction::Nothing));
    assert!(matches!(b.handle_event(Event::KeyPress(Key::Escape)), PagedAction::Quit));
    assert!(matches!(b.handle_event(Event::Close), PagedAction::Quit));
}

#[test]
fn paged_wheel_flings_without_moving() {
    let mut b = PagedBrowser::new(900, 650);
    b.loaded("a.rnmdl", String::new(), tall_page());
    assert!(matches!(b.handle_event(Event::Scroll(3)), PagedAction::Fling(3)));
    assert_eq!(b.state.scroll_y, 0);
}

#[test]
fn coasting_stops_at_the_ends() {
    let mut b = PagedBrowser::new(900, 650);
    b.loaded("a.rnmdl", String::new(), tall_page());
    assert!(!b.coast(100));
    assert_eq!(b.state.scroll_y, 100);
    assert!(b.coast(1000));
    assert_eq!(b.state.scroll_y, 442);
    assert!(b.coast(-1000));
    assert_eq!(b.state.scroll_y, 0);
}

#[test]
fn resizes_wait_to_settle() {
    let mut b = PagedBrowser::new(900, 650);
    assert!(matches!(b.settle_resize(), PagedAction::Nothing));
    b.loaded("a.rnmdl", String::new(), tall_page());
    assert!(matches!(b.handle_event(Event::Resize { width: 800, height: 600 }), PagedAction::Redraw));
    assert!(b.resize_pending);
    assert_eq!((b.state.buf.width, b.state.buf.height), (800, 600));
    assert!(matches!(b.handle_event(Event::Resize { width: 700, height: 500 }), PagedAction::Redraw));
    // The width changed from the one the page was laid out for: lay it out again.
    match b.settle_resize() {
        PagedAction::Reload(p) => assert_eq!(p, "a.rnmdl"),
        _ => panic!("expected a reload"),
    }
    assert!(!b.resize_pending);
    assert_eq!(b.last_vw, 700);
    assert_eq!((b.state.buf.width, b.state.buf.height), (700, 500));
    // Only the height changed: draw the page again.
    b.handle_event(Event::Resize { width: 700, height: 900 });
    assert!(matches!(b.settle_resize(), PagedAction::Repaint));
    assert_eq!(b.last_vw, 700);
}

#[test]
fn paged_hover_leaves_the_status_line() {
    let mut b = PagedBrowser::new(900, 650);
    b.loaded("a.rnmdl", String::new(), link_page());
    assert!(matches!(b.handle_event(Event::MouseMove { x: 50, y: 140 }), PagedAction::Redraw));
    assert_eq!(b.state.hover_link, Some(1));
    assert_eq!(b.state.status_msg, "Loaded: a.rnmdl");
    assert!(matches!(b.handle_event(Event::MouseMove { x: 51, y: 141 }), PagedAction::Nothing));
}

#[test]
fn paged_clicks_follow_links_and_go_back() {
    let mut b = PagedBrowser::new(900, 650);
    b.loaded("a.rnmdl", String::new(), link_page());
    match b.handle_event(Event::MouseClick { x: 50, y: 140, button: MouseButton::Left }) {
        PagedAction::Follow(t) => assert_eq!(t, "b.rnmdl"),
        _ => panic!("expected to follow the link"),
    }
    b.state.push_history();
    b.loaded("b.rnmdl", String::new(), link_page());
    match b.handle_event(Event::MouseClick { x: 10, y: 10, button: MouseButton::Left }) {
        PagedAction::GoBack(p) => assert_eq!(p, "a.rnmdl"),
        _ => panic!("expected to go back"),
    }
    assert!(b.state.history.is_empty());
}

#[test]
fn showing_the_page_copies_the_visible_rows() {
    let mut b = PagedBrowser::new(4, 60);
    let mut page = PixelBuffer::new(4, 100);
    for y in 0..100 {
        page.set_pixel(0, y, y as u8, 0, 0, 255);
    }
    b.page = Some(page);
    b.state.scroll_y = 10;
    b.show_page();
    // Frame row 32 (below the navigation bar) shows page row 10; 8 content rows.
    assert_eq!(b.state.buf.get_pixel(0, 32), (10, 0, 0, 255));
    assert_eq!(b.state.buf.get_pixel(0, 39), (17, 0, 0, 255));
    assert_eq!(b.state.buf.get_pixel(0, 40), (0, 0, 0, 0));
    assert_eq!(b.state.buf.get_pixel(0, 31), (0, 0, 0, 0));
}

#[test]
fn without_a_page_a_hint_is_shown() {
    let mut b = PagedBrowser::new(900, 100);
    b.show_page();
    assert!(b.state.buf.data.iter().any(|&v| v != 0));
}

// ─── Checks before drawing ─────────────────────────────────

#[test]
fn captions_cut_at_character_ends() {
    assert!(is_cuttable("short", 30));
    assert!(is_cuttable(&"a".repeat(40), 30));
    // "é" takes two bytes: 29 ASCII bytes and then it would be cut in two at byte 30.
    let s = format!("{}é more", "a".repeat(29));
    assert!(!is_cuttable(&s, 30));
    let t = format!("{}é more", "a".repeat(28));
    assert!(is_cuttable(&t, 30));
}

#[test]
fn paragraph_lines_counted() {
    // 100 - 96 = 4 pixels: one glyph a line, so each word is a line.
    assert_eq!(paragraph_line_count("one two three", 100), 3);
    assert_eq!(paragraph_line_count("", 900), 1);
    assert_eq!(paragraph_line_count("a b c", 900), 1);
}

#[test]
fn drawing_checks_find_overflow() {
    let link = Element::Link { text: "x".to_string(), target: "t".to_string(), y: 0, x: i32::MAX - 5, w: 10 };
    assert!(!draw_fits_check(&link, 0, 900));
    let ok_link = Element::Link { text: "x".to_string(), target: "t".to_string(), y: 0, x: 40, w: 10 };
    assert!(draw_fits_check(&ok_link, 0, 900));
    assert!(!draw_fits_check(&ok_link, i32::MAX - 5, 900));
    let alt = format!("{}é more", "a".repeat(29));
    let img = Element::Image { path: "p.png".to_string(), alt, y: 0, w: 10, h: 10, image: None };
    assert!(!draw_fits_check(&img, 0, 900));
    let para = Element::Paragraph { text: "one two three".to_string(), y: 0, h: 44 };
    assert!(draw_fits_check(&para, i32::MAX - 30, 100));
    assert!(!draw_fits_check(&para, i32::MAX - 29, 100));
    let empty = Element::Paragraph { text: String::new(), y: 0, h: 24 };
    assert!(draw_fits_check(&empty, i32::MAX, 900));
    // Off screen, only the coordinates count.
    assert!(element_fits_check(&img, 10_000, 500, 900));
    assert!(!element_fits_check(&img, 0, 500, 900));
}

#[test]
fn frame_checks_of_ordinary_pages_pass() {
    let mut st = BrowserState::new(900, 650);
    assert!(content_fits_check(&st));
    st.loaded("a.rnmdl", String::new(), tall_page());
    assert!(content_fits_check(&st));
    assert!(hits_fit_check(&st));
    assert!(event_fits_check(&st, &Event::Scroll(3)));
    assert!(event_fits_check(&st, &Event::KeyPress(Key::PageDown)));
    assert!(paged_event_fits_check(&st, &Event::KeyPress(Key::Down)));
    assert!(page_drawing_fits_check(st.layout.as_ref().unwrap(), 1100, 900));
    assert!(!event_fits_check(&st, &Event::Scroll(i32::MAX)));
    assert!(paged_event_fits_check(&st, &Event::Scroll(i32::MAX)));
    assert!(!event_fits_check(&st, &Event::Resize { width: 100_000, height: 100_000 }));
    st.scroll_y = i32::MAX - 10;
    assert!(!event_fits_check(&st, &Event::KeyPress(Key::Down)));
    assert!(!paged_event_fits_check(&st, &Event::KeyPress(Key::Down)));
}
