use retrox::ast::{Node, RnmdlVersion};
use retrox::lexer::{Lexer, TokenKind, Token, LexError};
use retrox::parser::{Parser, ParseError};
use retrox::renderer::Renderer;
use retrox::validator::Validator;
use retrox::versions::ValidationError;
use retrox::versions::gn_z11::tags::{get_tag, module_introduced_in, tag_introduced_in};
use retrox::text::lines;
use retrox::excerpt::source_context;
use retrox::document::check_document;
use retrox::text::{is_alphanumeric, is_whitespace, to_ascii_lowercase};

const SAMPLE: &str = "<RNMDL>\nfrom gn-z11 declare text, images\nimplement_bugfixsets = True\n\n[container id=\"home\"]\n[h1]Welcome to RetroX[/h1]\n[p]This is a permanent document.[/p]\n[image path=\"assets/logo.png\" alt=\"RetroX project logo\"]\n[/container]\n";

fn tokens_of(src: &str) -> Vec<Token> {
    Lexer::new(src).tokenize().expect("lexes")
}

fn parse_ok(src: &str) -> Node {
    Parser::new(tokens_of(src)).parse().expect("parses")
}

fn parse_err(src: &str) -> ParseError {
    match Parser::new(tokens_of(src)).parse() {
        Ok(_) => panic!("expected a parse error"),
        Err(e) => e,
    }
}

fn lex_err(src: &str) -> LexError {
    match Lexer::new(src).tokenize() {
        Ok(_) => panic!("expected a lex error"),
        Err(e) => e,
    }
}

fn messages(src: &str) -> Vec<String> {
    Validator::new().validate(&parse_ok(src)).into_iter().map(|e: ValidationError| e.message).collect()
}

fn with_body(body: &str) -> String {
    format!("<RNMDL>\nfrom gn-z11 declare text, images\n{}\n", body)
}

// ─── Lexer ─────────────────────────────────────────────────

#[test]
fn lexer_tokenizes_sample_document() {
    let ts = tokens_of(SAMPLE);
    let kinds: Vec<TokenKind> = ts.iter().map(|t| t.kind.clone()).collect();
    assert_eq!(
        kinds,
        vec![
            TokenKind::RnmdlDecl,
            TokenKind::Declaration("gn-z11".to_string(), vec!["text".to_string(), "images".to_string()]),
            TokenKind::BugfixSets(true),
            TokenKind::OpenTag("container".to_string(), vec![("id".to_string(), "home".to_string())]),
            TokenKind::OpenTag("h1".to_string(), vec![]),
            TokenKind::Text("Welcome to RetroX".to_string()),
            TokenKind::CloseTag("h1".to_string()),
            TokenKind::OpenTag("p".to_string(), vec![]),
            TokenKind::Text("This is a permanent document.".to_string()),
            TokenKind::CloseTag("p".to_string()),
            TokenKind::SelfCloseTag(
                "image".to_string(),
                vec![
                    ("path".to_string(), "assets/logo.png".to_string()),
                    ("alt".to_string(), "RetroX project logo".to_string()),
                ],
            ),
            TokenKind::CloseTag("container".to_string()),
            TokenKind::Eof,
        ]
    );
    assert_eq!((ts[0].line, ts[0].col), (1, 1));
    assert_eq!((ts[1].line, ts[1].col), (2, 1));
    assert_eq!((ts[3].line, ts[3].col), (5, 1));
    assert_eq!((ts[5].line, ts[5].col), (6, 5));
    assert_eq!((ts[6].line, ts[6].col), (6, 22));
    assert_eq!((ts[12].line, ts[12].col), (10, 1));
}

#[test]
fn lexer_always_ends_with_eof() {
    let ts = tokens_of("");
    assert_eq!(ts.len(), 1);
    assert_eq!(ts[0].kind, TokenKind::Eof);
    assert_eq!((ts[0].line, ts[0].col), (1, 1));
}

#[test]
fn lexer_lowercases_tag_names_and_versions() {
    let ts = tokens_of("<rnmdl>\nFROM GN-Z11 DECLARE TEXT\n[H1]Hi[/H1]");
    assert_eq!(ts[1].kind, TokenKind::Declaration("gn-z11".to_string(), vec!["text".to_string()]));
    assert_eq!(ts[2].kind, TokenKind::OpenTag("h1".to_string(), vec![]));
    assert_eq!(ts[4].kind, TokenKind::CloseTag("h1".to_string()));
}

#[test]
fn lexer_reads_trimmed_comments() {
    let ts = tokens_of("<RNMDL>\n<!--   a note   -->\n[p]x[/p]");
    assert_eq!(ts[1].kind, TokenKind::Comment("a note".to_string()));
}

#[test]
fn lexer_reports_unterminated_comment() {
    let e = lex_err("<RNMDL>\n<!-- never closed");
    assert_eq!(e.message, "Unterminated comment");
    assert_eq!((e.line, e.col), (2, 1));
    assert_eq!(e.to_string(), "[Lex Error] Line 2, Col 1: Unterminated comment");
}

#[test]
fn lexer_reports_unterminated_string() {
    let e = lex_err("<RNMDL>\n[image path=\"abc");
    assert_eq!(e.message, "Unterminated string literal");
}

#[test]
fn lexer_reports_missing_equals() {
    let e = lex_err("<RNMDL>\n[container id \"x\"]");
    assert_eq!(e.message, "Expected '=' after attribute 'id'");
}

#[test]
fn lexer_reports_missing_declare() {
    let e = lex_err("<RNMDL>\nfrom gn-z11 text");
    assert_eq!(e.message, "Expected 'declare' after version 'gn-z11'");
}

#[test]
fn lexer_reports_empty_close_tag() {
    let e = lex_err("<RNMDL>\n[p]x[/]");
    assert_eq!(e.message, "Expected tag name after '[/'");
}

// ─── Parser ────────────────────────────────────────────────

#[test]
fn parser_builds_sample_tree() {
    match parse_ok(SAMPLE) {
        Node::Document { header, children } => {
            assert_eq!(header.declarations.len(), 1);
            assert_eq!(header.declarations[0].version, "gn-z11");
            assert_eq!(header.declarations[0].modules, vec!["text".to_string(), "images".to_string()]);
            assert_eq!(header.declarations[0].line, 2);
            assert!(header.implement_bugfixsets);
            assert_eq!(children.len(), 1);
            match &children[0] {
                Node::Container { id, children, line } => {
                    assert_eq!(id.as_deref(), Some("home"));
                    assert_eq!(*line, 5);
                    assert_eq!(children.len(), 3);
                    assert!(matches!(&children[0], Node::Heading { level: 1, text, line: 6 } if text == "Welcome to RetroX"));
                    assert!(matches!(&children[1], Node::Paragraph { text, line: 7 } if text == "This is a permanent document."));
                    assert!(matches!(&children[2], Node::Image { path, alt, line: 8 } if path == "assets/logo.png" && alt == "RetroX project logo"));
                },
                _ => panic!("expected a container"),
            }
        },
        _ => panic!("expected a document"),
    }
}

#[test]
fn parser_requires_rnmdl_line() {
    let e = parse_err("[p]x[/p]");
    assert_eq!(e.message, "Document must start with '<RNMDL>' on the first line");
    assert_eq!(e.to_string(), format!("[Parse Error] Line {}, Col {}: {}", e.line, e.col, e.message));
}

#[test]
fn parser_reports_mismatched_tags() {
    let e = parse_err("<RNMDL>\n[container]\n[section]\n[/container]");
    assert_eq!(e.message, "Mismatched tags: expected '[/section]' but found '[/container]'");
}

#[test]
fn parser_reports_unexpected_eof() {
    let e = parse_err("<RNMDL>\n[container]\n[p]x[/p]");
    assert_eq!(e.message, "Unexpected end of file: expected '[/container]'");
}

#[test]
fn parser_reports_unknown_tag() {
    let e = parse_err("<RNMDL>\n[table]x[/table]");
    assert_eq!(
        e.message,
        "Unknown tag '[table]'. Valid GN-Z11 tags: container, section, h1, h2, h3, heading, paragraph, p, image"
    );
    assert_eq!(e.col, 0);
}

#[test]
fn parser_reports_nested_tags_in_text() {
    let e = parse_err("<RNMDL>\n[h1][p]x[/p][/h1]");
    assert_eq!(e.message, "Tags like '[h1]' can only contain text, not nested tags");
}

#[test]
fn parser_reads_heading_level_attribute() {
    match parse_ok("<RNMDL>\n[heading level=\"2\"]Two[/heading]") {
        Node::Document { children, .. } => {
            assert!(matches!(&children[0], Node::Heading { level: 2, text, .. } if text == "Two"));
        },
        _ => panic!(),
    }
    match parse_ok("<RNMDL>\n[heading level=\"x\"]One[/heading]") {
        Node::Document { children, .. } => {
            assert!(matches!(&children[0], Node::Heading { level: 1, .. }));
        },
        _ => panic!(),
    }
}

#[test]
fn parser_joins_text_parts() {
    match parse_ok("<RNMDL>\n[p]\nfirst\nsecond\n[/p]") {
        Node::Document { children, .. } => {
            assert!(matches!(&children[0], Node::Paragraph { text, .. } if text == "first second"));
        },
        _ => panic!(),
    }
}

#[test]
fn parser_turns_loose_text_into_paragraphs() {
    match parse_ok("<RNMDL>\n[container]\nloose words\n[/container]") {
        Node::Document { children, .. } => match &children[0] {
            Node::Container { children, .. } => {
                assert!(matches!(&children[0], Node::Paragraph { text, line: 3 } if text == "loose words"));
            },
            _ => panic!(),
        },
        _ => panic!(),
    }
}

// ─── Validator ─────────────────────────────────────────────

#[test]
fn validator_accepts_sample() {
    assert!(messages(SAMPLE).is_empty());
}

#[test]
fn validator_rejects_document_without_declaration() {
    let m = messages("<RNMDL>\n[p]text[/p]");
    assert_eq!(
        m,
        vec!["Unknown version 'none'. Known versions: gn-z11, milky-way, sol, luna, andromeda, pallas, halley, ceres, chiron".to_string()]
    );
}

#[test]
fn validator_rejects_unknown_version() {
    let errs = Validator::new().validate(&parse_ok("<RNMDL>\nfrom nowhere declare text\n[p]x[/p]"));
    assert_eq!(errs.len(), 1);
    assert_eq!(
        errs[0].message,
        "Unknown version 'nowhere'. Known versions: gn-z11, milky-way, sol, luna, andromeda, pallas, halley, ceres, chiron"
    );
    assert_eq!(errs[0].line, 1);
    assert_eq!(errs[0].to_string(), format!("[Validation Error] Line 1: {}", errs[0].message));
}

#[test]
fn validator_rejects_unimplemented_version() {
    let m = messages("<RNMDL>\nfrom sol declare text\n[p]x[/p]");
    assert_eq!(m, vec!["Version 'SOL (v1.1.0)' is not yet implemented in this build.".to_string()]);
}

#[test]
fn validator_rejects_module_from_later_version() {
    let m = messages("<RNMDL>\nfrom gn-z11 declare text, links\n[p]x[/p]");
    assert_eq!(
        m,
        vec!["The declared module 'links' does not exist in GN-Z11 (v0.0.0). It was introduced in MILKY-WAY (v1.0.0).".to_string()]
    );
}

#[test]
fn validator_rejects_duplicate_module() {
    let m = messages("<RNMDL>\nfrom gn-z11 declare text, text\n[p]x[/p]");
    assert_eq!(
        m,
        vec!["The declared module 'text' is declared more than once. Each module may only be declared from one version.".to_string()]
    );
}

#[test]
fn validator_rejects_bad_heading_level() {
    let m = messages(&with_body("[heading level=\"4\"]Deep[/heading]"));
    assert_eq!(
        m,
        vec![
            "The declared version GN-Z11 (v0.0.0) does not support tag '[h4]'. It does not exist in any known version.".to_string(),
            "Heading level must be 1, 2, or 3. Got '4'".to_string(),
        ]
    );
}

#[test]
fn validator_rejects_empty_heading_and_paragraph() {
    let m = messages(&with_body("[h2][/h2]\n[p][/p]"));
    assert_eq!(m, vec!["Heading must not be empty".to_string(), "Paragraph must not be empty".to_string()]);
}

#[test]
fn validator_checks_images() {
    let m = messages(&with_body("[image alt=\"a long description\"]"));
    assert_eq!(m, vec!["Image 'path' attribute is required and must not be empty".to_string()]);
    let m = messages(&with_body("[image path=\"a.png\"]"));
    assert_eq!(m, vec!["Image 'alt' attribute is required. Provide a meaningful description of the image.".to_string()]);
    let m = messages(&with_body("[image path=\"a.png\" alt=\"cat\"]"));
    assert_eq!(
        m,
        vec!["Image alt text 'cat' is too short (minimum 5 characters). Describe what the image shows.".to_string()]
    );
    let m = messages(&with_body("[image path=\"a.png\" alt=\"Photo Here\"]"));
    assert_eq!(
        m,
        vec!["Image alt text 'Photo Here' is not meaningful. Describe the actual image content.".to_string()]
    );
    let m = messages(&with_body("[image path=\"a.bmp\" alt=\"a red barn\"]"));
    assert_eq!(
        m,
        vec!["Image 'a.bmp' has unsupported format. Supported formats: jpg, jpeg, png, gif, webp".to_string()]
    );
    assert!(messages(&with_body("[image path=\"A.JPEG\" alt=\"a red barn\"]")).is_empty());
}

#[test]
fn image_alt_length_counts_characters() {
    // Three accented letters are three characters (six bytes): too short.
    let m = messages(&with_body("[image path=\"a.png\" alt=\"éèê\"]"));
    assert_eq!(
        m,
        vec!["Image alt text 'éèê' is too short (minimum 5 characters). Describe what the image shows.".to_string()]
    );
    // Five of them are enough.
    assert!(messages(&with_body("[image path=\"a.png\" alt=\"ééééé\"]")).is_empty());
}

#[test]
fn id_length_counts_utf8_bytes() {
    // Thirty-two accented letters after an `a` are 33 characters but 65 bytes: too long.
    let long = format!("a{}", "é".repeat(32));
    assert_eq!(
        messages(&with_body(&format!("[container id=\"{}\"][/container]", long))),
        vec![format!("ID '{}' exceeds maximum length of 64 characters", long)]
    );
    // Thirty-one of them make 63 bytes, which is allowed.
    let ok = format!("a{}", "é".repeat(31));
    assert!(messages(&with_body(&format!("[container id=\"{}\"][/container]", ok))).is_empty());
}

#[test]
fn validator_requires_declared_module_for_tag() {
    let m = messages("<RNMDL>\nfrom gn-z11 declare text\n[image path=\"a.png\" alt=\"a red barn\"]");
    assert_eq!(
        m,
        vec!["The declared modules do not include 'images', which is required by tag '[image]'. Add 'from gn-z11 declare images' to your document header.".to_string()]
    );
}

#[test]
fn validator_checks_ids() {
    let m = messages(&with_body("[container id=\"9lives\"][/container]"));
    assert_eq!(m, vec!["ID '9lives' must start with a letter".to_string()]);
    let m = messages(&with_body("[container id=\"a_b\"][/container]"));
    assert_eq!(
        m,
        vec!["ID 'a_b' contains invalid characters. Only letters, numbers, and hyphens allowed.".to_string()]
    );
    let long = "a".repeat(65);
    let m = messages(&with_body(&format!("[container id=\"{}\"][/container]", long)));
    assert_eq!(m, vec![format!("ID '{}' exceeds maximum length of 64 characters", long)]);
    let m = messages(&with_body("[container id=\"x\"][/container]\n[section id=\"x\"][/section]"));
    assert_eq!(
        m,
        vec!["Duplicate ID 'x'. All IDs must be unique within the document.".to_string()]
    );
}

#[test]
fn validator_reports_errors_in_document_order() {
    let errs = Validator::new().validate(&parse_ok(&with_body("[h1][/h1]\n[p][/p]")));
    assert_eq!(errs.len(), 2);
    assert_eq!(errs[0].line, 3);
    assert_eq!(errs[1].line, 4);
}

#[test]
fn tag_registry() {
    let t = get_tag("p").expect("p is a tag");
    assert_eq!(t.module, "text");
    assert_eq!(get_tag("image").map(|t| t.module), Some("images"));
    assert!(get_tag("table").is_none());
    assert_eq!(module_introduced_in("forms"), Some("LUNA (v1.1.1)"));
    assert_eq!(module_introduced_in("video"), None);
    assert_eq!(tag_introduced_in("td"), Some("MILKY-WAY (v1.0.0)"));
}

#[test]
fn versions_by_name() {
    assert!(matches!(RnmdlVersion::from_str("GN-Z11"), RnmdlVersion::GnZ11));
    assert!(matches!(RnmdlVersion::from_str("v1.0.0"), RnmdlVersion::MilkyWay));
    assert!(matches!(RnmdlVersion::from_str("v9.9"), RnmdlVersion::Numeric(_)));
    assert!(matches!(RnmdlVersion::from_str("zeta"), RnmdlVersion::Unknown(_)));
    assert_eq!(RnmdlVersion::from_str("gnz11").display_name(), "GN-Z11 (v0.0.0)");
    assert_eq!(RnmdlVersion::from_str("andromeda").display_name(), "ANDROMEDA (v2.0.0)");
}

// ─── Renderer ──────────────────────────────────────────────

#[test]
fn renderer_check_mode_output() {
    let out = Renderer::new().with_meta(false).with_comments(true).render(&parse_ok(
        "<RNMDL>\nfrom gn-z11 declare text\n[h3]Notes[/h3]\n<!-- hidden -->\n[p]one two[/p]",
    ));
    assert_eq!(
        out,
        "\n\x1b[97m\x1b[1m▸ Notes\x1b[0m\n\n\x1b[90m\x1b[2m<!-- hidden -->\x1b[0m\none two\n\n"
    );
}

#[test]
fn renderer_uppercases_top_headings() {
    let out = Renderer::new().with_meta(false).render(&parse_ok("<RNMDL>\n[h1]Big news[/h1]"));
    let bar = "═".repeat(80);
    assert_eq!(
        out,
        format!(
            "\n\x1b[33m\x1b[1m{}\x1b[0m\n\x1b[33m\x1b[1mBIG NEWS\x1b[0m\n\x1b[33m\x1b[1m{}\x1b[0m\n\n",
            bar, bar
        )
    );
}

#[test]
fn renderer_hides_comments_by_default() {
    let out = Renderer::new().with_meta(false).render(&parse_ok("<RNMDL>\n<!-- hidden -->\n[p]x[/p]"));
    assert_eq!(out, "x\n\n");
}

#[test]
fn renderer_wraps_paragraphs_at_eighty_columns() {
    let word = "abcdefghi";
    let text = vec![word; 10].join(" ");
    let out = Renderer::new().with_meta(false).render(&parse_ok(&format!("<RNMDL>\n[p]{}[/p]", text)));
    let first = vec![word; 8].join(" ");
    let second = vec![word; 2].join(" ");
    assert_eq!(out, format!("{}\n{}\n\n", first, second));
}

#[test]
fn renderer_shows_meta() {
    let out = Renderer::new().render(&parse_ok(SAMPLE));
    assert!(out.contains("  ◈ RetroX RNMDL Document  ◈  GN-Z11 (v0.0.0)"));
    assert!(out.contains("    from gn-z11 declare text, images"));
    assert!(out.contains("    implement_bugfixsets = True"));
    assert!(out.contains("[container: home]"));
    assert!(out.contains(&format!("│  Path: assets/logo.png{} │", " ".repeat(10))));
    assert!(out.contains(&format!("│  Alt:  RetroX project logo{} │", " ".repeat(6))));
    assert!(out.ends_with("  RetroX RNMDL GN-Z11 | Rendered by RetroX v0.0.0\x1b[0m\n"));
}

#[test]
fn renderer_truncates_long_image_fields() {
    let out = Renderer::new().with_meta(false).render(&parse_ok(
        "<RNMDL>\n[image path=\"a/very/long/path/to/some/image.png\" alt=\"x\"]",
    ));
    assert!(out.contains("│  Path: a/very/long/path/to/some… │"));
}

// ─── Lines and excerpts ────────────────────────────────────

fn std_lines(s: &str) -> Vec<String> {
    s.lines().map(|l| l.to_string()).collect()
}

#[test]
fn lines_split_as_std_does() {
    for s in ["", "a", "a\n", "a\nb", "a\r\nb\r\n", "\n", "\n\n", "a\n\nb", "x\ry\n", "a\rb\r", "tail\r", "é\r\nü"] {
        assert_eq!(lines(s), std_lines(s), "input {:?}", s);
    }
    assert_eq!(lines("one\r\ntwo\n\nthree"), vec!["one", "two", "", "three"]);
}

#[test]
fn excerpt_around_a_line() {
    let src = "first\nsecond\nthird\n";
    let e = source_context(src, 2);
    assert_eq!(e.before.as_deref(), Some("first"));
    assert_eq!(e.at.as_deref(), Some("second"));
    assert_eq!(e.after.as_deref(), Some("third"));
    let e = source_context(src, 1);
    assert_eq!(e.before, None);
    assert_eq!(e.at.as_deref(), Some("first"));
    assert_eq!(e.after.as_deref(), Some("second"));
    let e = source_context(src, 3);
    assert_eq!(e.after, None);
    let e = source_context(src, 9);
    assert_eq!((e.before, e.at, e.after), (None, None, None));
    let e = source_context(src, 4);
    assert_eq!((e.before.as_deref(), e.at, e.after), (Some("third"), None, None));
}

// ─── Whole documents ───────────────────────────────────────

#[test]
fn checking_a_valid_document() {
    let doc = check_document(&with_body("[p]Hello[/p]")).unwrap();
    assert!(matches!(doc, Node::Document { .. }));
}

#[test]
fn checking_reports_the_first_failing_stage() {
    let e = check_document("<RNMDL>\nfrom gn-z11 declare text\n<!-- open").unwrap_err();
    assert!(e.starts_with("[Lex Error] Line "), "{}", e);
    let e = check_document("[p]x[/p]").unwrap_err();
    assert!(e.starts_with("[Parse Error] Line "), "{}", e);
    let e = check_document(&with_body("[h1][/h1]\n[image path=\"a.png\" alt=\"cat\"]")).unwrap_err();
    let lines: Vec<&str> = e.split('\n').collect();
    assert_eq!(lines.len(), 2);
    assert!(lines[0].starts_with("[Validation Error] Line ") && lines[0].ends_with("Heading must not be empty"));
    assert!(lines[1].ends_with("is too short (minimum 5 characters). Describe what the image shows."));
}

#[test]
fn rendering_refuses_to_cut_inside_a_character() {
    let r = Renderer::new();
    // 23 ASCII bytes and two 2-byte letters: byte 24 falls inside the second letter.
    let alt = format!("{}ééb", "a".repeat(23));
    let bad = Node::Image { path: "a.png".to_string(), alt, line: 1 };
    assert!(r.try_render(&bad).is_none());
    let good = Node::Image { path: "a.png".to_string(), alt: "a red barn".to_string(), line: 1 };
    assert_eq!(r.try_render(&good), Some(r.render(&good)));
}

// ─── Laws on concrete values ───────────────────────────────

#[test]
fn version_names_round_trip() {
    let all = [
        RnmdlVersion::GnZ11,
        RnmdlVersion::MilkyWay,
        RnmdlVersion::Sol,
        RnmdlVersion::Luna,
        RnmdlVersion::Andromeda,
        RnmdlVersion::Pallas,
        RnmdlVersion::Halley,
        RnmdlVersion::Ceres,
        RnmdlVersion::Chiron,
    ];
    for v in all.iter() {
        let name = v.display_name();
        let first = name.split(' ').next().unwrap();
        let back = RnmdlVersion::from_str(first);
        assert_eq!(back.display_name(), name, "{}", name);
    }
    for (num, name) in [("v0.0.0", "GN-Z11 (v0.0.0)"), ("v1.0.0", "MILKY-WAY (v1.0.0)"), ("v2.0.0", "ANDROMEDA (v2.0.0)")] {
        assert_eq!(RnmdlVersion::from_str(num).display_name(), name);
    }
}

#[test]
fn hidden_comments_do_not_change_the_rendering() {
    let plain = parse_ok(&with_body("[p]Hello there[/p]\n[h2]Next[/h2]"));
    let commented = parse_ok(&with_body("[p]Hello there[/p]\n<!-- a note -->\n[h2]Next[/h2]"));
    let hidden = Renderer::new().with_comments(false);
    assert_eq!(hidden.render(&commented), hidden.render(&plain));
    let shown = Renderer::new().with_comments(true);
    let with = shown.render(&commented);
    let without = shown.render(&plain);
    let line = "\x1b[90m\x1b[2m<!-- a note -->\x1b[0m\n";
    assert!(with.contains(line));
    assert_eq!(with.replacen(line, "", 1), without);
}

#[test]
fn hidden_comments_deep_inside_do_not_change_the_rendering() {
    let plain = parse_ok(&with_body(
        "[container id=\"outer\"][section id=\"inner\"][p]Deep text[/p][/section][/container]",
    ));
    let commented = parse_ok(&with_body(
        "[container id=\"outer\"][section id=\"inner\"][p]Deep text[/p]<!-- hidden -->[/section][/container]",
    ));
    for meta in [false, true] {
        let hidden = Renderer::new().with_meta(meta).with_comments(false);
        assert_eq!(hidden.render(&commented), hidden.render(&plain));
    }
    let shown = Renderer::new().with_comments(true);
    assert_ne!(shown.render(&commented), shown.render(&plain));
}

#[test]
fn whitespace_is_the_unicode_property() {
    for u in 0u32..=0x10FFFF {
        if let Some(c) = char::from_u32(u) {
            assert_eq!(is_whitespace(c), c.is_whitespace(), "U+{:04X}", u);
        }
    }
}

#[test]
fn ascii_lowercase_matches_std() {
    for u in 0u32..=0x300 {
        if let Some(c) = char::from_u32(u) {
            assert_eq!(to_ascii_lowercase(c), c.to_ascii_lowercase());
        }
    }
}

#[test]
fn ascii_alphanumerics_are_letters_and_digits() {
    for u in 0u32..128 {
        let c = char::from_u32(u).unwrap();
        assert_eq!(is_alphanumeric(c), c.is_ascii_alphanumeric(), "U+{:04X}", u);
    }
    assert!(is_alphanumeric('é'));
    assert!(!is_alphanumeric('-'));
}
