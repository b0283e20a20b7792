use retrox::ast::Node;
use retrox::gui::browser::{Action, BrowserState};
use retrox::gui::layout::{collect_image_jobs, scale_image, Element, ImageJob, ImageResult, Layout};
use retrox::image::Image;
use retrox::lexer::Lexer;
use retrox::parser::Parser;
use retrox::platform::{Event, Key, MouseButton};
use retrox::paths::{file_name, link_path, parent_dir};

fn parse_ok(src: &str) -> Node {
    let tokens = Lexer::new(src).tokenize().expect("lexes");
    Parser::new(tokens).parse().expect("parses")
}

fn layout_of(src: &str, vw: i32) -> Layout {
    Layout::build(&parse_ok(src), vw, Vec::new())
}

fn tall_page() -> Layout {
    let body: Vec<String> = (0..40).map(|i| format!("[p]paragraph {}[/p]", i)).collect();
    layout_of(&format!("<RNMDL>\nfrom gn-z11 declare text\n{}", body.join("\n")), 900)
}

fn link_page() -> Layout {
    Layout {
        elements: vec![
            Element::Paragraph { text: "intro".to_string(), y: 48, h: 24 },
            Element::Link { text: "next".to_string(), target: "b.rnmdl".to_string(), y: 100, x: 40, w: 32 },
        ],
        content_h: 200,
    }
}

// ─── Layout ────────────────────────────────────────────────

#[test]
fn layout_places_elements_top_to_bottom() {
    let l = layout_of(
        "<RNMDL>\nfrom gn-z11 declare text, images\n[h1]Title[/h1]\n[p]short text[/p]\n[image path=\"x.png\" alt=\"a red barn\"]",
        900,
    );
    assert_eq!(l.elements.len(), 5);
    assert!(matches!(l.elements[0], Element::HRule { y: 62 }));
    assert!(matches!(&l.elements[1], Element::Heading { text, level: 1, y: 70 } if text == "Title"));
    assert!(matches!(l.elements[2], Element::HRule { y: 108 }));
    assert!(matches!(&l.elements[3], Element::Paragraph { text, y: 116, h: 24 } if text == "short text"));
    assert!(matches!(&l.elements[4], Element::Image { path, y: 140, w: 820, h: 120, image: None, .. } if path == "x.png"));
    assert_eq!(l.content_h, 306);
}

#[test]
fn layout_of_smaller_headings() {
    let l = layout_of("<RNMDL>\nfrom gn-z11 declare text\n[h2]Two[/h2]\n[h3]Three[/h3]", 900);
    assert!(matches!(l.elements[0], Element::Heading { level: 2, y: 62, .. }));
    assert!(matches!(l.elements[1], Element::Heading { level: 3, y: 106, .. }));
    assert_eq!(l.content_h, 136 + 32);
}

#[test]
fn layout_wraps_paragraph_lines() {
    // 100 - 80 - 16 = 4 pixels: one glyph a line, so each of the three words is a line.
    let l = layout_of("<RNMDL>\nfrom gn-z11 declare text\n[p]a b c[/p]", 100);
    assert!(matches!(l.elements[0], Element::Paragraph { h: 44, .. }));
    // 900 - 96 = 804 pixels: 100 glyphs a line.
    let long = vec!["abcdefghij"; 10].join(" ");
    let l = layout_of(&format!("<RNMDL>\nfrom gn-z11 declare text\n[p]{}[/p]", long), 900);
    assert!(matches!(l.elements[0], Element::Paragraph { h: 34, .. }));
}

#[test]
fn element_geometry() {
    let l = layout_of("<RNMDL>\nfrom gn-z11 declare text\n[h1]T[/h1]\n[p]x[/p]", 900);
    assert_eq!(l.elements[1].y(), 70);
    assert_eq!(l.elements[1].height(900), 52);
    assert_eq!(l.elements[0].height(900), 8);
    assert_eq!(l.elements[3].height(900), 24);
    let link = Element::Link { text: String::new(), target: String::new(), y: 5, x: 0, w: 0 };
    assert_eq!((link.y(), link.height(0)), (5, 24));
}

#[test]
fn image_jobs_follow_the_document() {
    let doc = parse_ok(
        "<RNMDL>\nfrom gn-z11 declare text, images\n[section]\n[image path=\"pics/a.png\" alt=\"a red barn\"]\n[/section]\n[image path=\"b.jpg\" alt=\"a blue lake\"]",
    );
    let mut jobs: Vec<ImageJob> = Vec::new();
    collect_image_jobs(&doc, 900, "site//", &mut jobs);
    assert_eq!(jobs.len(), 2);
    assert_eq!(jobs[0].path, "pics/a.png");
    assert_eq!(jobs[0].alt, "a red barn");
    assert_eq!(jobs[0].full_path, "site/pics/a.png");
    assert_eq!((jobs[0].target_w, jobs[0].target_h_hint), (820, 800));
    assert_eq!(jobs[1].full_path, "site/b.jpg");
    let mut jobs: Vec<ImageJob> = Vec::new();
    collect_image_jobs(&doc, 50, "", &mut jobs);
    assert_eq!(jobs[1].full_path, "b.jpg");
    assert_eq!(jobs[1].target_w, 1);
}

#[test]
fn layout_uses_decoded_images() {
    let doc = parse_ok("<RNMDL>\nfrom gn-z11 declare images\n[image path=\"a.png\" alt=\"a red barn\"]\n[p]after[/p]");
    let results = vec![ImageResult {
        path: "a.png".to_string(),
        alt: "a red barn".to_string(),
        image: Some(Image::new(10, 5)),
        w: 10,
        h: 5,
    }];
    let l = Layout::build(&doc, 900, results);
    assert!(matches!(&l.elements[0], Element::Image { y: 48, w: 10, h: 5, image: Some(_), .. }));
    assert!(matches!(l.elements[1], Element::Paragraph { y: 67, .. }));
}

#[test]
fn scaling_takes_nearest_pixel() {
    let mut src = Image::new(2, 2);
    src.set_pixel(0, 0, 1, 1, 1, 255);
    src.set_pixel(1, 0, 2, 2, 2, 255);
    src.set_pixel(0, 1, 3, 3, 3, 255);
    src.set_pixel(1, 1, 4, 4, 4, 255);
    let big = scale_image(&src, 4, 4);
    assert_eq!((big.width, big.height), (4, 4));
    assert_eq!(big.get_pixel(1, 1), (1, 1, 1, 255));
    assert_eq!(big.get_pixel(2, 1), (2, 2, 2, 255));
    assert_eq!(big.get_pixel(3, 3), (4, 4, 4, 255));
    let small = scale_image(&src, 1, 1);
    assert_eq!(small.get_pixel(0, 0), (1, 1, 1, 255));
}

// ─── Browser ───────────────────────────────────────────────

#[test]
fn browser_starts_empty() {
    let st = BrowserState::new(900, 650);
    assert_eq!((st.buf.width, st.buf.height), (900, 650));
    assert_eq!(st.scroll_y, 0);
    assert!(st.layout.is_none());
    assert_eq!(st.max_scroll(), 0);
}

#[test]
fn loading_resets_the_view() {
    let mut st = BrowserState::new(900, 650);
    st.scroll_y = 40;
    st.loaded("docs/a.rnmdl", "docs".to_string(), tall_page());
    assert_eq!(st.scroll_y, 0);
    assert_eq!(st.current, "docs/a.rnmdl");
    assert_eq!(st.asset_base, "docs");
    assert_eq!(st.status_msg, "Loaded: docs/a.rnmdl");
    assert!(st.hover_link.is_none());
}

#[test]
fn scrolling_stays_within_the_page() {
    let mut st = BrowserState::new(900, 650);
    st.loaded("a.rnmdl", String::new(), tall_page());
    // 40 paragraphs of 24 pixels from y = 48, plus 32: 1040; the viewport is 598.
    assert_eq!(st.max_scroll(), 442);
    assert!(matches!(st.handle_event(Event::Scroll(3)), Action::Redraw));
    assert_eq!(st.scroll_y, 36);
    assert!(matches!(st.handle_event(Event::Scroll(-10)), Action::Redraw));
    assert_eq!(st.scroll_y, 0);
    st.handle_event(Event::KeyPress(Key::PageDown));
    assert_eq!(st.scroll_y, 442);
    st.handle_event(Event::KeyPress(Key::Down));
    assert_eq!(st.scroll_y, 442);
    st.handle_event(Event::KeyPress(Key::Up));
    assert_eq!(st.scroll_y, 422);
    st.handle_event(Event::KeyPress(Key::PageUp));
    assert_eq!(st.scroll_y, 0);
    st.handle_event(Event::KeyPress(Key::Down));
    assert_eq!(st.scroll_y, 20);
    assert!(matches!(st.handle_event(Event::KeyPress(Key::Enter)), Action::Nothing));
    assert_eq!(st.scroll_y, 20);
}

#[test]
fn quitting() {
    let mut st = BrowserState::new(100, 100);
    assert!(matches!(st.handle_event(Event::Close), Action::Quit));
    assert!(matches!(st.handle_event(Event::KeyPress(Key::Escape)), Action::Quit));
}

#[test]
fn resizing_asks_for_a_reload() {
    let mut st = BrowserState::new(100, 100);
    assert!(matches!(st.handle_event(Event::Resize { width: 50, height: 40 }), Action::Redraw));
    assert_eq!((st.buf.width, st.buf.height, st.buf.data.len()), (50, 40, 8000));
    st.loaded("p.rnmdl", String::new(), link_page());
    match st.handle_event(Event::Resize { width: 60, height: 60 }) {
        Action::Reload(p) => assert_eq!(p, "p.rnmdl"),
        _ => panic!("expected a reload"),
    }
}

#[test]
fn hovering_a_link_shows_its_target() {
    let mut st = BrowserState::new(900, 650);
    st.loaded("a.rnmdl", String::new(), link_page());
    // The link is on page line 100, on screen at 132, from x 40 to 72.
    assert_eq!(st.link_at(50, 140), Some(1));
    assert_eq!(st.link_at(80, 140), None);
    assert!(matches!(st.handle_event(Event::MouseMove { x: 50, y: 140 }), Action::Redraw));
    assert_eq!(st.hover_link, Some(1));
    assert_eq!(st.status_msg, "→ b.rnmdl");
    assert!(matches!(st.handle_event(Event::MouseMove { x: 51, y: 141 }), Action::Nothing));
    assert!(matches!(st.handle_event(Event::MouseMove { x: 500, y: 500 }), Action::Redraw));
    assert_eq!(st.hover_link, None);
    assert_eq!(st.status_msg, "");
}

#[test]
fn clicking_a_link_follows_it() {
    let mut st = BrowserState::new(900, 650);
    st.loaded("a.rnmdl", String::new(), link_page());
    match st.handle_event(Event::MouseClick { x: 50, y: 140, button: MouseButton::Left }) {
        Action::Follow(t) => assert_eq!(t, "b.rnmdl"),
        _ => panic!("expected to follow the link"),
    }
    assert!(matches!(
        st.handle_event(Event::MouseClick { x: 50, y: 140, button: MouseButton::Right }),
        Action::Nothing
    ));
    assert!(matches!(
        st.handle_event(Event::MouseClick { x: 300, y: 300, button: MouseButton::Left }),
        Action::Nothing
    ));
}

#[test]
fn back_after_follow_returns_to_the_page() {
    let mut st = BrowserState::new(900, 650);
    st.loaded("a.rnmdl", String::new(), link_page());
    // Without history the back button does nothing.
    assert!(matches!(
        st.handle_event(Event::MouseClick { x: 10, y: 10, button: MouseButton::Left }),
        Action::Nothing
    ));
    st.push_history();
    st.loaded("b.rnmdl", String::new(), link_page());
    assert_eq!(st.history, vec!["a.rnmdl".to_string()]);
    match st.handle_event(Event::MouseClick { x: 10, y: 10, button: MouseButton::Left }) {
        Action::GoBack(p) => assert_eq!(p, "a.rnmdl"),
        _ => panic!("expected to go back"),
    }
    assert!(st.history.is_empty());
}

#[test]
fn failed_navigation_takes_back_the_history_entry() {
    let mut st = BrowserState::new(900, 650);
    st.loaded("a.rnmdl", String::new(), link_page());
    st.push_history();
    st.navigation_failed("Cannot read 'b.rnmdl'");
    assert!(st.history.is_empty());
    assert_eq!(st.status_msg, "Error: Cannot read 'b.rnmdl'");
    assert_eq!(st.current, "a.rnmdl");
}

#[test]
fn drawing_a_frame() {
    let mut st = BrowserState::new(200, 120);
    st.buf.clear(18, 18, 24);
    assert_eq!(st.draw_content_from(0), None);
    st.draw_nav("", false);
    st.draw_status();
    // The navigation bar background.
    assert_eq!(st.buf.get_pixel(100, 2), (12, 12, 18, 255));
    // The back button.
    assert_eq!(st.buf.get_pixel(9, 7), (40, 40, 60, 255));
    // The status bar divider.
    assert_eq!(st.buf.get_pixel(100, 100), (50, 50, 65, 255));
}

#[test]
fn drawing_stops_at_decoded_images() {
    let mut st = BrowserState::new(200, 300);
    let layout = Layout {
        elements: vec![
            Element::Paragraph { text: "a".to_string(), y: 48, h: 24 },
            Element::Image { path: "i.png".to_string(), alt: "x".to_string(), y: 72, w: 4, h: 4, image: Some(Image::new(4, 4)) },
            Element::Paragraph { text: "b".to_string(), y: 90, h: 24 },
        ],
        content_h: 150,
    };
    st.loaded("a.rnmdl", String::new(), layout);
    assert_eq!(st.draw_content_from(0), Some(1));
    assert_eq!(st.draw_content_from(2), None);
}

// ─── Page buffer ───────────────────────────────────────────

use retrox::gui::page::{composite_page, draw_page_from, page_height_of};
use retrox::platform::PixelBuffer;

#[test]
fn page_is_at_least_the_frame() {
    assert_eq!(page_height_of(306, 650), 650);
    assert_eq!(page_height_of(1000, 650), 1084);
}

#[test]
fn drawing_the_page_stops_at_decoded_images() {
    let layout = Layout {
        elements: vec![
            Element::HRule { y: 0 },
            Element::Image { path: "i.png".to_string(), alt: "x".to_string(), y: 20, w: 4, h: 4, image: Some(Image::new(4, 4)) },
            Element::HRule { y: 500 },
        ],
        content_h: 100,
    };
    let mut page = PixelBuffer::new(100, 200);
    assert_eq!(draw_page_from(&mut page, &layout, 0), Some(1));
    // The rule at page line 0 is drawn at row 32, from x = 40 across 20 pixels.
    assert_eq!(page.get_pixel(40, 32), (50, 50, 65, 255));
    assert_eq!(page.get_pixel(60, 32), (0, 0, 0, 0));
    // The last rule falls below the page.
    assert_eq!(draw_page_from(&mut page, &layout, 2), None);
    assert!((0..100).all(|x| page.get_pixel(x, 199) == (0, 0, 0, 0)));
}

#[test]
fn compositing_copies_the_scrolled_rows() {
    let mut page = PixelBuffer::new(4, 6);
    for y in 0..6 {
        for x in 0..4 {
            page.set_pixel(x, y, x as u8, y as u8, 7, 255);
        }
    }
    let mut frame = PixelBuffer::new(3, 60);
    composite_page(&mut frame, &page, 2);
    // Content rows 32.. show page rows 2..6; the page ends after four rows.
    assert_eq!(frame.get_pixel(0, 32), (0, 2, 7, 255));
    assert_eq!(frame.get_pixel(2, 35), (2, 5, 7, 255));
    assert_eq!(frame.get_pixel(1, 36), (0, 0, 0, 0));
    assert_eq!(frame.get_pixel(1, 31), (0, 0, 0, 0));
    // A negative scroll position reads as the top.
    let mut frame = PixelBuffer::new(3, 60);
    composite_page(&mut frame, &page, -5);
    assert_eq!(frame.get_pixel(1, 32), (1, 0, 7, 255));
    // Scrolled past the page: nothing is copied.
    let mut frame = PixelBuffer::new(3, 60);
    composite_page(&mut frame, &page, 9);
    assert!(frame.data.iter().all(|&v| v == 0));
}

#[test]
fn layout_flattens_nested_containers_in_order() {
    let l = layout_of(
        "<RNMDL>\nfrom gn-z11 declare text\n[container id=\"a\"]\n[p]one[/p]\n[section id=\"b\"]\n<!-- skip -->\n[h2]two[/h2]\n[/section]\n[/container]\n[p]three[/p]",
        900,
    );
    let kinds: Vec<&str> = l
        .elements
        .iter()
        .map(|e| match e {
            Element::Paragraph { text, .. } => text.as_str(),
            Element::Heading { text, .. } => text.as_str(),
            _ => "?",
        })
        .collect();
    assert_eq!(kinds, vec!["one", "two", "three"]);
    let ys: Vec<i32> = l.elements.iter().map(|e| e.y()).collect();
    assert!(ys.windows(2).all(|w| w[0] < w[1]));
    assert!(ys.iter().all(|&y| y >= 48 && y < l.content_h));
}

#[test]
fn link_targets_are_placed_in_the_document_directory() {
    assert_eq!(link_path("docs/index.rnmdl", "about.rnmdl"), "docs/about.rnmdl");
    assert_eq!(link_path("docs/sub/page.rnmdl", "../up.rnmdl"), "docs/sub/../up.rnmdl");
    assert_eq!(link_path("index.rnmdl", "about.rnmdl"), "about.rnmdl");
    assert_eq!(link_path("/site/index.rnmdl", "a.rnmdl"), "/site/a.rnmdl");
}

#[test]
fn document_directory_and_file_name() {
    assert_eq!(parent_dir("docs/sub/page.rnmdl"), "docs/sub");
    assert_eq!(parent_dir("page.rnmdl"), "");
    assert_eq!(parent_dir("/"), "");
    assert_eq!(parent_dir(""), "");
    assert_eq!(file_name("docs/sub/page.rnmdl"), "page.rnmdl");
    assert_eq!(file_name("docs/.."), "");
    assert_eq!(file_name(""), "");
}
