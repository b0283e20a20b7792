//! Properties that tie several operations of the library together, stated over the spec
//! functions their contracts use.
use vstd::prelude::*;
use crate::platform::{PixelBuffer, channel, rgba_channel, with_pixel, lemma_with_pixel};
use crate::image::Image;
use crate::text::{words, lemma_words_nonempty};
use crate::gui::paint::{wrapped_lines, chars_per_line};
use crate::gui::layout::{paragraph_lines, paragraph_height, lemma_folds_agree, MARGIN_X, PARA_GAP};
use crate::gui::browser::{BrowserState, scrolled, max_scroll_of, content_height, clamp};
use crate::gui::paged::paged_scrolled;
use crate::platform::{Event, Key};
use crate::lexer::lex;
use crate::ast::{SpecNode, SpecHeader, SpecVersion, version_display, version_named, version_word};
use crate::text::{is_ascii, ascii_lowercase, unicode_uppercase};
use crate::font::{drawn_count, pen_at};
use crate::renderer::{WrapState, wrap_fold, wrap_spec, RendererSpec, nodes_text, node_text, render_spec, styled, dim, repeat, repeat_str, YELLOW, GREEN, BOLD, WHITE, RESET};
use crate::text::utf8_len;
use crate::image::block::{ZIGZAG, ac_spec, block_spec, zigzag_rank, lemma_zigzag_rank, lemma_zigzag_in_block, lemma_ac_keeps_earlier};
use crate::image::scan::{Step, ScanState, TableView, huff_spec, get_bits_spec, extend_spec};
use crate::image::inflate::{
    block_from, block_body, aligned, stored_bytes, lemma_byte_bits, huff_decode, read_spec, copy_back, lemma_block_from_extends, lemma_copy_back_repeats, LEN_BASE, LEN_EXTRA,
    DIST_BASE, DIST_EXTRA,
};
use crate::image::filter::{unfilter_spec, filter_row, lemma_unfilter_inverts_filter};
use crate::versions::validate_versioned;
use crate::versions::gn_z11::validator::{validate_spec, check_header};
use crate::versions::gn_z11::rules::{
    all_modules, children_ids, lemma_decls_clean, lemma_children_clean, keeps_gn_z11_rules, lemma_document_ok,
};
use crate::parser::{well_ended, parse_children, parse_open_tag, parse_self_closing, get_attr, text_parts, join_space};
use crate::parser::SpecParseError;
use crate::text::trim;
use crate::lexer::{SpecToken, SpecTokenKind, Attrs};

verus! {

// ─── Lexing and parsing ─────────────────────────────────────

/// Whatever the lexer produces the parser takes: a token stream that ends with end-of-file.
pub proof fn law_lexer_feeds_parser(s: Seq<char>)
    ensures
        lex(s) matches Ok(ts) ==> well_ended(ts),
{
}

/// The kind of node a tag gives follows its name: `[section]` gives a section and
/// `[container]` a container, each with the tag's `id` attribute and line; `[h1]`, `[h2]` and
/// `[h3]` give headings of levels 1, 2 and 3; `[p]` and `[paragraph]` give paragraphs; and a
/// self-closing `[image]` gives an image with the tag's `path` and `alt` (empty when missing).
pub proof fn law_tag_name_decides_the_node(ts: Seq<SpecToken>, p: int, parent: Option<Seq<char>>)
    requires
        0 <= p < ts.len(),
        parse_children(ts, p, parent) matches Ok((cs, _)) && cs.len() > 0,
    ensures
        ({
            let cs = parse_children(ts, p, parent)->Ok_0.0;
            let line = ts[p].line;
            &&& ts[p].kind matches SpecTokenKind::OpenTag(name, attrs) ==> {
                &&& name == "section"@ ==> (cs[0] matches SpecNode::Section { id, line: l, .. } && id
                    == get_attr(attrs, "id"@) && l == line)
                &&& name == "container"@ ==> (cs[0] matches SpecNode::Container { id, line: l, .. } && id
                    == get_attr(attrs, "id"@) && l == line)
                &&& name == "h1"@ ==> (cs[0] matches SpecNode::Heading { level, line: l, .. } && level == 1
                    && l == line)
                &&& name == "h2"@ ==> (cs[0] matches SpecNode::Heading { level, line: l, .. } && level == 2
                    && l == line)
                &&& name == "h3"@ ==> (cs[0] matches SpecNode::Heading { level, line: l, .. } && level == 3
                    && l == line)
                &&& (name == "p"@ || name == "paragraph"@) ==> (cs[0] matches SpecNode::Paragraph {
                    line: l,
                    ..
                } && l == line)
            }
            &&& ts[p].kind matches SpecTokenKind::SelfCloseTag(name, attrs) ==> (name == "image"@ ==> cs[0]
                == SpecNode::Image {
                path: match get_attr(attrs, "path"@) {
                    Some(v) => v,
                    None => seq![],
                },
                alt: match get_attr(attrs, "alt"@) {
                    Some(v) => v,
                    None => seq![],
                },
                line,
            })
        }),
{
    reveal_strlit("section");
    reveal_strlit("container");
    reveal_strlit("h1");
    reveal_strlit("h2");
    reveal_strlit("h3");
    reveal_strlit("heading");
    reveal_strlit("p");
    reveal_strlit("paragraph");
    reveal_strlit("image");
    assert("section"@.len() == 7 && "container"@.len() == 9 && "heading"@.len() == 7 && "p"@.len() == 1
        && "paragraph"@.len() == 9 && "image"@.len() == 5);
    assert("h1"@.len() == 2 && "h2"@.len() == 2 && "h3"@.len() == 2);
    assert("h1"@[1] == '1' && "h2"@[1] == '2' && "h3"@[1] == '3');
    assert("section"@[0] == 's' && "heading"@[0] == 'h' && "container"@[0] == 'c' && "paragraph"@[0] == 'p');
    let cs = parse_children(ts, p, parent)->Ok_0.0;
    match ts[p].kind {
        SpecTokenKind::OpenTag(name, attrs) => {
            let r = parse_open_tag(ts, p + 1, name, attrs, ts[p].line);
            assert(r is Ok);
            let (node, q) = r->Ok_0;
            assert(p < q <= ts.len());
            let rest = parse_children(ts, q, parent);
            assert(rest is Ok);
            assert(cs =~= seq![node] + rest->Ok_0.0);
        },
        SpecTokenKind::SelfCloseTag(name, attrs) => {
            let rest = parse_children(ts, p + 1, parent);
            assert(cs =~= seq![parse_self_closing(name, attrs, ts[p].line)->Ok_0] + rest->Ok_0.0);
        },
        _ => {},
    }
}

/// A text tag holding one piece of text keeps that text, trimmed: `[p]x[/p]` gives a
/// paragraph, and `[h1]x[/h1]` (or `h2`, `h3`) a heading, whose text is `x` without its
/// leading and trailing whitespace; the nodes after it start right after the close tag.
pub proof fn law_text_tags_keep_their_text(ts: Seq<SpecToken>, p: int, parent: Option<Seq<char>>, x: Seq<char>)
    requires
        0 <= p,
        p + 2 < ts.len(),
        ts[p].kind matches SpecTokenKind::OpenTag(name, _) && (name == "p"@ || name == "paragraph"@ || name
            == "h1"@ || name == "h2"@ || name == "h3"@),
        ts[p + 1].kind == SpecTokenKind::Text(x),
        ts[p + 2].kind == SpecTokenKind::CloseTag(ts[p].kind->OpenTag_0),
        parse_children(ts, p, parent) is Ok,
    ensures
        ({
            let cs = parse_children(ts, p, parent)->Ok_0.0;
            &&& cs.len() > 0
            &&& match cs[0] {
                SpecNode::Paragraph { text, .. } => text == trim(x),
                SpecNode::Heading { text, .. } => text == trim(x),
                _ => false,
            }
            &&& parse_children(ts, p + 3, parent) is Ok
            &&& cs.drop_first() == parse_children(ts, p + 3, parent)->Ok_0.0
        }),
{
    reveal_strlit("section");
    reveal_strlit("container");
    reveal_strlit("h1");
    reveal_strlit("h2");
    reveal_strlit("h3");
    reveal_strlit("heading");
    reveal_strlit("p");
    reveal_strlit("paragraph");
    assert("section"@.len() == 7 && "container"@.len() == 9 && "heading"@.len() == 7 && "p"@.len() == 1
        && "paragraph"@.len() == 9);
    assert("h1"@.len() == 2 && "h2"@.len() == 2 && "h3"@.len() == 2);
    assert("h1"@[1] == '1' && "h2"@[1] == '2' && "h3"@[1] == '3');
    assert("section"@[0] == 's' && "heading"@[0] == 'h' && "container"@[0] == 'c' && "paragraph"@[0] == 'p');
    let name = ts[p].kind->OpenTag_0;
    let attrs = ts[p].kind->OpenTag_1;
    assert(text_parts(ts, p + 2, name) == Ok::<(Seq<Seq<char>>, int), SpecParseError>((seq![], p + 3)));
    assert(text_parts(ts, p + 1, name) == Ok::<(Seq<Seq<char>>, int), SpecParseError>((seq![x], p + 3)));
    assert(join_space(seq![x]) =~= x) by {
        reveal_with_fuel(join_space, 2);
    }
    assert(crate::parser::parse_text(ts, p + 1, name) == Ok::<(Seq<char>, int), SpecParseError>((trim(x), p + 3)));
    assert(!(name == "container"@ || name == "section"@));
    let r = parse_open_tag(ts, p + 1, name, attrs, ts[p].line);
    if name == "p"@ || name == "paragraph"@ {
        assert(!(name == "h1"@ || name == "h2"@ || name == "h3"@ || name == "heading"@));
        assert(r == Ok::<(SpecNode, int), SpecParseError>((SpecNode::Paragraph { text: trim(x), line: ts[p].line }, p + 3)));
    } else {
        assert(name == "h1"@ || name == "h2"@ || name == "h3"@);
        assert(r is Ok && r->Ok_0.1 == p + 3);
        assert(r->Ok_0.0 matches SpecNode::Heading { text, .. } && text == trim(x));
    }
    let rest = parse_children(ts, p + 3, parent);
    assert(rest is Ok);
    let cs = parse_children(ts, p, parent)->Ok_0.0;
    assert(cs =~= seq![r->Ok_0.0] + rest->Ok_0.0);
    assert(cs.drop_first() =~= rest->Ok_0.0);
}

// ─── Versions ───────────────────────────────────────────────

/// A named version's display name gives the version back: its first word (before the
/// space) names it, whatever its case, and so, for the five numbered versions, does the
/// number in brackets after it.
pub proof fn law_version_names_round_trip(v: SpecVersion)
    requires
        v matches (SpecVersion::GnZ11 | SpecVersion::MilkyWay | SpecVersion::Sol | SpecVersion::Luna
            | SpecVersion::Andromeda | SpecVersion::Pallas | SpecVersion::Halley | SpecVersion::Ceres
            | SpecVersion::Chiron),
    ensures
        is_ascii(version_word(v)),
        !version_word(v).contains(' '),
        exists|rest: Seq<char>| version_display(v) == version_word(v) + " ("@ + rest + ")"@ && (v matches (
            SpecVersion::GnZ11 | SpecVersion::MilkyWay | SpecVersion::Sol | SpecVersion::Luna
            | SpecVersion::Andromeda) ==> version_named(rest) == v),
        version_named(ascii_lowercase(version_word(v))) == v,
{
    reveal_strlit(" (");
    reveal_strlit(")");
    reveal_strlit("gn-z11");
    reveal_strlit("gnz11");
    reveal_strlit("v0.0.0");
    reveal_strlit("milky-way");
    reveal_strlit("milkyway");
    reveal_strlit("v1.0.0");
    reveal_strlit("sol");
    reveal_strlit("v1.1.0");
    reveal_strlit("luna");
    reveal_strlit("v1.1.1");
    reveal_strlit("andromeda");
    reveal_strlit("v2.0.0");
    reveal_strlit("pallas");
    reveal_strlit("halley");
    reveal_strlit("ceres");
    reveal_strlit("chiron");
    assert("v0.0.0"@[0] != "gn-z11"@[0]);
    assert("v0.0.0"@[1] != "v1.0.0"@[1]);
    assert("v0.0.0"@[1] != "v1.1.0"@[1]);
    assert("v0.0.0"@[1] != "v1.1.1"@[1]);
    assert("v0.0.0"@[1] != "v2.0.0"@[1]);
    assert("v0.0.0"@[0] != "pallas"@[0]);
    assert("v0.0.0"@[0] != "halley"@[0]);
    assert("v0.0.0"@[0] != "chiron"@[0]);
    assert("v1.0.0"@[0] != "gn-z11"@[0]);
    assert("v1.0.0"@[1] != "v0.0.0"@[1]);
    assert("v1.0.0"@[3] != "v1.1.0"@[3]);
    assert("v1.0.0"@[3] != "v1.1.1"@[3]);
    assert("v1.0.0"@[1] != "v2.0.0"@[1]);
    assert("v1.0.0"@[0] != "pallas"@[0]);
    assert("v1.0.0"@[0] != "halley"@[0]);
    assert("v1.0.0"@[0] != "chiron"@[0]);
    assert("v1.1.0"@[0] != "gn-z11"@[0]);
    assert("v1.1.0"@[1] != "v0.0.0"@[1]);
    assert("v1.1.0"@[3] != "v1.0.0"@[3]);
    assert("v1.1.0"@[5] != "v1.1.1"@[5]);
    assert("v1.1.0"@[1] != "v2.0.0"@[1]);
    assert("v1.1.0"@[0] != "pallas"@[0]);
    assert("v1.1.0"@[0] != "halley"@[0]);
    assert("v1.1.0"@[0] != "chiron"@[0]);
    assert("v1.1.1"@[0] != "gn-z11"@[0]);
    assert("v1.1.1"@[1] != "v0.0.0"@[1]);
    assert("v1.1.1"@[3] != "v1.0.0"@[3]);
    assert("v1.1.1"@[5] != "v1.1.0"@[5]);
    assert("v1.1.1"@[1] != "v2.0.0"@[1]);
    assert("v1.1.1"@[0] != "pallas"@[0]);
    assert("v1.1.1"@[0] != "halley"@[0]);
    assert("v1.1.1"@[0] != "chiron"@[0]);
    assert("v2.0.0"@[0] != "gn-z11"@[0]);
    assert("v2.0.0"@[1] != "v0.0.0"@[1]);
    assert("v2.0.0"@[1] != "v1.0.0"@[1]);
    assert("v2.0.0"@[1] != "v1.1.0"@[1]);
    assert("v2.0.0"@[1] != "v1.1.1"@[1]);
    assert("v2.0.0"@[0] != "pallas"@[0]);
    assert("v2.0.0"@[0] != "halley"@[0]);
    assert("v2.0.0"@[0] != "chiron"@[0]);
    assert("gn-z11"@[0] != "v0.0.0"@[0]);
    assert("gn-z11"@[0] != "v1.0.0"@[0]);
    assert("gn-z11"@[0] != "v1.1.0"@[0]);
    assert("gn-z11"@[0] != "v1.1.1"@[0]);
    assert("gn-z11"@[0] != "v2.0.0"@[0]);
    assert("gn-z11"@[0] != "pallas"@[0]);
    assert("gn-z11"@[0] != "halley"@[0]);
    assert("gn-z11"@[0] != "chiron"@[0]);
    assert("gnz11"@[0] != "ceres"@[0]);
    assert("milky-way"@[0] != "andromeda"@[0]);
    assert("andromeda"@[0] != "milky-way"@[0]);
    assert("pallas"@[0] != "gn-z11"@[0]);
    assert("pallas"@[0] != "v0.0.0"@[0]);
    assert("pallas"@[0] != "v1.0.0"@[0]);
    assert("pallas"@[0] != "v1.1.0"@[0]);
    assert("pallas"@[0] != "v1.1.1"@[0]);
    assert("pallas"@[0] != "v2.0.0"@[0]);
    assert("pallas"@[0] != "halley"@[0]);
    assert("pallas"@[0] != "chiron"@[0]);
    assert("halley"@[0] != "gn-z11"@[0]);
    assert("halley"@[0] != "v0.0.0"@[0]);
    assert("halley"@[0] != "v1.0.0"@[0]);
    assert("halley"@[0] != "v1.1.0"@[0]);
    assert("halley"@[0] != "v1.1.1"@[0]);
    assert("halley"@[0] != "v2.0.0"@[0]);
    assert("halley"@[0] != "pallas"@[0]);
    assert("halley"@[0] != "chiron"@[0]);
    assert("ceres"@[0] != "gnz11"@[0]);
    assert("chiron"@[0] != "gn-z11"@[0]);
    assert("chiron"@[0] != "v0.0.0"@[0]);
    assert("chiron"@[0] != "v1.0.0"@[0]);
    assert("chiron"@[0] != "v1.1.0"@[0]);
    assert("chiron"@[0] != "v1.1.1"@[0]);
    assert("chiron"@[0] != "v2.0.0"@[0]);
    assert("chiron"@[0] != "pallas"@[0]);
    assert("chiron"@[0] != "halley"@[0]);
    match v {
        SpecVersion::GnZ11 => {
            reveal_strlit("GN-Z11");
            reveal_strlit("GN-Z11 (v0.0.0)");
            reveal_strlit("v0.0.0");
            reveal_strlit("gn-z11");
            assert(version_display(v) =~= version_word(v) + " ("@ + "v0.0.0"@ + ")"@);
            assert(version_named("v0.0.0"@) == v || !(v matches (SpecVersion::GnZ11 | SpecVersion::MilkyWay | SpecVersion::Sol | SpecVersion::Luna | SpecVersion::Andromeda)));
            assert(ascii_lowercase(version_word(v)) =~= "gn-z11"@);
        },
        SpecVersion::MilkyWay => {
            reveal_strlit("MILKY-WAY");
            reveal_strlit("MILKY-WAY (v1.0.0)");
            reveal_strlit("v1.0.0");
            reveal_strlit("milky-way");
            assert(version_display(v) =~= version_word(v) + " ("@ + "v1.0.0"@ + ")"@);
            assert(version_named("v1.0.0"@) == v || !(v matches (SpecVersion::GnZ11 | SpecVersion::MilkyWay | SpecVersion::Sol | SpecVersion::Luna | SpecVersion::Andromeda)));
            assert(ascii_lowercase(version_word(v)) =~= "milky-way"@);
        },
        SpecVersion::Sol => {
            reveal_strlit("SOL");
            reveal_strlit("SOL (v1.1.0)");
            reveal_strlit("v1.1.0");
            reveal_strlit("sol");
            assert(version_display(v) =~= version_word(v) + " ("@ + "v1.1.0"@ + ")"@);
            assert(version_named("v1.1.0"@) == v || !(v matches (SpecVersion::GnZ11 | SpecVersion::MilkyWay | SpecVersion::Sol | SpecVersion::Luna | SpecVersion::Andromeda)));
            assert(ascii_lowercase(version_word(v)) =~= "sol"@);
        },
        SpecVersion::Luna => {
            reveal_strlit("LUNA");
            reveal_strlit("LUNA (v1.1.1)");
            reveal_strlit("v1.1.1");
            reveal_strlit("luna");
            assert(version_display(v) =~= version_word(v) + " ("@ + "v1.1.1"@ + ")"@);
            assert(version_named("v1.1.1"@) == v || !(v matches (SpecVersion::GnZ11 | SpecVersion::MilkyWay | SpecVersion::Sol | SpecVersion::Luna | SpecVersion::Andromeda)));
            assert(ascii_lowercase(version_word(v)) =~= "luna"@);
        },
        SpecVersion::Andromeda => {
            reveal_strlit("ANDROMEDA");
            reveal_strlit("ANDROMEDA (v2.0.0)");
            reveal_strlit("v2.0.0");
            reveal_strlit("andromeda");
            assert(version_display(v) =~= version_word(v) + " ("@ + "v2.0.0"@ + ")"@);
            assert(version_named("v2.0.0"@) == v || !(v matches (SpecVersion::GnZ11 | SpecVersion::MilkyWay | SpecVersion::Sol | SpecVersion::Luna | SpecVersion::Andromeda)));
            assert(ascii_lowercase(version_word(v)) =~= "andromeda"@);
        },
        SpecVersion::Pallas => {
            reveal_strlit("PALLAS");
            reveal_strlit("PALLAS (bugfixset)");
            reveal_strlit("bugfixset");
            reveal_strlit("pallas");
            assert(version_display(v) =~= version_word(v) + " ("@ + "bugfixset"@ + ")"@);
            assert(version_named("bugfixset"@) == v || !(v matches (SpecVersion::GnZ11 | SpecVersion::MilkyWay | SpecVersion::Sol | SpecVersion::Luna | SpecVersion::Andromeda)));
            assert(ascii_lowercase(version_word(v)) =~= "pallas"@);
        },
        SpecVersion::Halley => {
            reveal_strlit("HALLEY");
            reveal_strlit("HALLEY (bugfixset)");
            reveal_strlit("bugfixset");
            reveal_strlit("halley");
            assert(version_display(v) =~= version_word(v) + " ("@ + "bugfixset"@ + ")"@);
            assert(version_named("bugfixset"@) == v || !(v matches (SpecVersion::GnZ11 | SpecVersion::MilkyWay | SpecVersion::Sol | SpecVersion::Luna | SpecVersion::Andromeda)));
            assert(ascii_lowercase(version_word(v)) =~= "halley"@);
        },
        SpecVersion::Ceres => {
            reveal_strlit("CERES");
            reveal_strlit("CERES (bugfixset)");
            reveal_strlit("bugfixset");
            reveal_strlit("ceres");
            assert(version_display(v) =~= version_word(v) + " ("@ + "bugfixset"@ + ")"@);
            assert(version_named("bugfixset"@) == v || !(v matches (SpecVersion::GnZ11 | SpecVersion::MilkyWay | SpecVersion::Sol | SpecVersion::Luna | SpecVersion::Andromeda)));
            assert(ascii_lowercase(version_word(v)) =~= "ceres"@);
        },
        SpecVersion::Chiron => {
            reveal_strlit("CHIRON");
            reveal_strlit("CHIRON (bugfixset)");
            reveal_strlit("bugfixset");
            reveal_strlit("chiron");
            assert(version_display(v) =~= version_word(v) + " ("@ + "bugfixset"@ + ")"@);
            assert(version_named("bugfixset"@) == v || !(v matches (SpecVersion::GnZ11 | SpecVersion::MilkyWay | SpecVersion::Sol | SpecVersion::Luna | SpecVersion::Andromeda)));
            assert(ascii_lowercase(version_word(v)) =~= "chiron"@);
        },
        _ => {},
    }
}

// ─── Validation ─────────────────────────────────────────────

/// The validator accepts exactly the documents that keep every GN-Z11 rule. A document is
/// without fault if and only if it declares at least one module, from a known and
/// implemented version, each module exists in GN-Z11 and is declared once; every tag belongs
/// to a declared module; headings are of level 1 to 3; headings and paragraphs have text;
/// images have a path in a supported format and an alt text of at least five characters that
/// says something; IDs start with a letter, hold only letters, digits and hyphens, are at
/// most 64 bytes long in UTF-8, and are unique.
pub proof fn law_validator_accepts_exactly_the_rules(doc: SpecNode)
    ensures
        validate_versioned(doc).len() == 0 <==> keeps_gn_z11_rules(doc),
{
    if validate_versioned(doc).len() == 0 {
        if let SpecNode::Document { header, children } = doc {
            assert(validate_versioned(doc) == validate_spec(doc));
            let (e1, declared) = check_header(header);
            assert(header.declarations.len() > 0);
            assert(Seq::<Seq<char>>::empty().no_duplicates());
            lemma_decls_clean(header.declarations, Seq::empty());
            assert(Seq::<Seq<char>>::empty() + all_modules(header.declarations) =~= all_modules(header.declarations));
            lemma_children_clean(children, Seq::empty(), declared);
            assert(Seq::<Seq<char>>::empty() + children_ids(children) =~= children_ids(children));
        }
    }
    if keeps_gn_z11_rules(doc) {
        lemma_document_ok(doc);
    }
}

// ─── Rendering ──────────────────────────────────────────────

proof fn lemma_nodes_text_concat(r: RendererSpec, a: Seq<SpecNode>, b: Seq<SpecNode>, d: nat)
    ensures
        nodes_text(r, a + b, d) == nodes_text(r, a, d) + nodes_text(r, b, d),
    decreases a.len(),
{
    if a.len() == 0 {
        assert(a + b =~= b);
        assert(nodes_text(r, a, d) =~= seq![]);
    } else {
        assert((a + b).drop_first() =~= a.drop_first() + b);
        assert((a + b)[0] == a[0]);
        lemma_nodes_text_concat(r, a.drop_first(), b, d);
    }
}

/// A node put in a list of nodes at position `k` adds its own text there and changes
/// nothing else: the list renders as the nodes before it, the node, then the nodes after.
pub proof fn law_inserted_node_renders_in_place(r: RendererSpec, cs: Seq<SpecNode>, k: int, n: SpecNode, d: nat)
    requires
        0 <= k <= cs.len(),
    ensures
        nodes_text(r, cs.insert(k, n), d) == nodes_text(r, cs.take(k), d) + node_text(r, n, d) + nodes_text(
            r,
            cs.skip(k),
            d,
        ),
        nodes_text(r, cs, d) == nodes_text(r, cs.take(k), d) + nodes_text(r, cs.skip(k), d),
{
    assert(cs.insert(k, n) =~= cs.take(k) + (seq![n] + cs.skip(k)));
    assert(cs =~= cs.take(k) + cs.skip(k));
    lemma_nodes_text_concat(r, cs.take(k), seq![n] + cs.skip(k), d);
    lemma_nodes_text_concat(r, seq![n], cs.skip(k), d);
    lemma_nodes_text_concat(r, cs.take(k), cs.skip(k), d);
    assert(seq![n].drop_first() =~= Seq::<SpecNode>::empty());
    assert(seq![n][0] == n);
    assert(nodes_text(r, Seq::<SpecNode>::empty(), d) =~= Seq::<char>::empty());
    assert(nodes_text(r, seq![n], d) == node_text(r, n, d) + nodes_text(r, seq![n].drop_first(), d));
    assert(nodes_text(r, seq![n], d) =~= node_text(r, n, d));
}

/// Comments change the rendered text only when comments are shown: with them hidden, a
/// comment put anywhere in a list of nodes leaves that list's text as it was, and one put
/// among a document's children leaves the document's rendering as it was; with them shown
/// it adds exactly its own line, `<!-- content -->` in dim grey at the list's indentation,
/// at its place.
pub proof fn law_comments_render_only_when_shown(
    r: RendererSpec,
    header: SpecHeader,
    cs: Seq<SpecNode>,
    k: int,
    content: Seq<char>,
    line: nat,
    d: nat,
)
    requires
        0 <= k <= cs.len(),
    ensures
        !r.show_comments ==> nodes_text(r, cs.insert(k, SpecNode::Comment { content, line }), d) == nodes_text(
            r,
            cs,
            d,
        ),
        !r.show_comments ==> render_spec(
            r,
            SpecNode::Document { header, children: cs.insert(k, SpecNode::Comment { content, line }) },
        ) == render_spec(r, SpecNode::Document { header, children: cs }),
        r.show_comments ==> nodes_text(r, cs.insert(k, SpecNode::Comment { content, line }), d) == nodes_text(
            r,
            cs.take(k),
            d,
        ) + styled(repeat(' ', d * r.indent_size), dim(), "<!-- "@ + content + " -->"@) + nodes_text(
            r,
            cs.skip(k),
            d,
        ),
{
    let c = SpecNode::Comment { content, line };
    law_inserted_node_renders_in_place(r, cs, k, c, d);
    law_inserted_node_renders_in_place(r, cs, k, c, 0);
    if !r.show_comments {
        assert(nodes_text(r, cs.take(k), d) + node_text(r, c, d) =~= nodes_text(r, cs.take(k), d));
        assert(nodes_text(r, cs.take(k), 0) + node_text(r, c, 0) =~= nodes_text(r, cs.take(k), 0));
    }
}

/// `n` with a comment put at position `k` of the children list that `path` leads to: each
/// step of the path picks a child of a document, container or section. A path or
/// position that leads nowhere leaves `n` as it is.
pub open spec fn with_comment(n: SpecNode, path: Seq<int>, k: int, c: SpecNode) -> SpecNode
    decreases path.len(), 1int,
{
    match n {
        SpecNode::Document { header, children } => SpecNode::Document {
            header,
            children: comment_among(children, path, k, c),
        },
        SpecNode::Container { id, children, line } => SpecNode::Container {
            id,
            children: comment_among(children, path, k, c),
            line,
        },
        SpecNode::Section { id, children, line } => SpecNode::Section {
            id,
            children: comment_among(children, path, k, c),
            line,
        },
        _ => n,
    }
}

/// The list `cs` with a comment put at position `k` of the list that `path` leads to.
pub open spec fn comment_among(cs: Seq<SpecNode>, path: Seq<int>, k: int, c: SpecNode) -> Seq<SpecNode>
    decreases path.len(), 0int,
{
    if path.len() == 0 {
        if 0 <= k <= cs.len() {
            cs.insert(k, c)
        } else {
            cs
        }
    } else if 0 <= path[0] < cs.len() {
        cs.update(path[0], with_comment(cs[path[0]], path.drop_first(), k, c))
    } else {
        cs
    }
}

proof fn lemma_nodes_text_update(r: RendererSpec, cs: Seq<SpecNode>, i: int, x: SpecNode, d: nat)
    requires
        0 <= i < cs.len(),
        node_text(r, x, d) == node_text(r, cs[i], d),
    ensures
        nodes_text(r, cs.update(i, x), d) == nodes_text(r, cs, d),
{
    let u = cs.update(i, x);
    assert(u =~= cs.take(i) + (seq![x] + cs.skip(i + 1)));
    assert(cs =~= cs.take(i) + (seq![cs[i]] + cs.skip(i + 1)));
    lemma_nodes_text_concat(r, cs.take(i), seq![x] + cs.skip(i + 1), d);
    lemma_nodes_text_concat(r, cs.take(i), seq![cs[i]] + cs.skip(i + 1), d);
    assert((seq![x] + cs.skip(i + 1)).drop_first() =~= cs.skip(i + 1));
    assert((seq![cs[i]] + cs.skip(i + 1)).drop_first() =~= cs.skip(i + 1));
}

proof fn lemma_hidden_comment_node(r: RendererSpec, n: SpecNode, path: Seq<int>, k: int, content: Seq<char>, line: nat, d: nat)
    requires
        !r.show_comments,
    ensures
        node_text(r, with_comment(n, path, k, SpecNode::Comment { content, line }), d) == node_text(r, n, d),
    decreases path.len(), 1int,
{
    match n {
        SpecNode::Container { children, .. } => {
            lemma_hidden_comment_list(r, children, path, k, content, line, d + 1);
        },
        SpecNode::Section { children, .. } => {
            lemma_hidden_comment_list(r, children, path, k, content, line, d + 1);
        },
        _ => {},
    }
}

proof fn lemma_hidden_comment_list(r: RendererSpec, cs: Seq<SpecNode>, path: Seq<int>, k: int, content: Seq<char>, line: nat, d: nat)
    requires
        !r.show_comments,
    ensures
        nodes_text(r, comment_among(cs, path, k, SpecNode::Comment { content, line }), d) == nodes_text(r, cs, d),
    decreases path.len(), 0int,
{
    let c = SpecNode::Comment { content, line };
    if path.len() == 0 {
        if 0 <= k <= cs.len() {
            law_inserted_node_renders_in_place(r, cs, k, c, d);
            assert(nodes_text(r, cs.take(k), d) + node_text(r, c, d) =~= nodes_text(r, cs.take(k), d));
        }
    } else if 0 <= path[0] < cs.len() {
        lemma_hidden_comment_node(r, cs[path[0]], path.drop_first(), k, content, line, d);
        lemma_nodes_text_update(r, cs, path[0], with_comment(cs[path[0]], path.drop_first(), k, c), d);
    }
}

/// With comments hidden, a comment put into any children list of a document, at any depth
/// (among the document's own children, or those of a container or section inside it),
/// leaves the whole rendering as it was.
pub proof fn law_hidden_comments_leave_the_rendering(
    r: RendererSpec,
    doc: SpecNode,
    path: Seq<int>,
    k: int,
    content: Seq<char>,
    line: nat,
)
    requires
        !r.show_comments,
    ensures
        render_spec(r, with_comment(doc, path, k, SpecNode::Comment { content, line })) == render_spec(r, doc),
{
    match doc {
        SpecNode::Document { children, .. } => {
            lemma_hidden_comment_list(r, children, path, k, content, line, 0);
        },
        _ => {
            lemma_hidden_comment_node(r, doc, path, k, content, line, 0);
        },
    }
}

/// Whether `part` appears in `out` as a run of consecutive characters.
#[verifier::opaque]
pub open spec fn shows(out: Seq<char>, part: Seq<char>) -> bool {
    exists|i: int| 0 <= i && i + part.len() <= out.len() && #[trigger] out.subrange(i, i + part.len()) == part
}

proof fn lemma_shows_at(out: Seq<char>, part: Seq<char>, i: int)
    requires
        0 <= i,
        i + part.len() <= out.len(),
        out.subrange(i, i + part.len()) =~= part,
    ensures
        shows(out, part),
{
    reveal(shows);
}

proof fn lemma_shows_in_longer(a: Seq<char>, b: Seq<char>, w: Seq<char>)
    requires
        shows(a, w),
    ensures
        shows(a + b, w),
{
    reveal(shows);
    let i = choose|i: int| 0 <= i && i + w.len() <= a.len() && #[trigger] a.subrange(i, i + w.len()) == w;
    assert((a + b).subrange(i, i + w.len()) =~= a.subrange(i, i + w.len()));
    lemma_shows_at(a + b, w, i);
}

/// All the text that wrapping has laid down so far, the line being filled included.
spec fn wrapped_so_far(st: WrapState, ind: Seq<char>) -> Seq<char> {
    st.result + ind + st.current
}

proof fn lemma_shows_in_extension(a: Seq<char>, b: Seq<char>, w: Seq<char>)
    requires
        shows(a, w),
        a.len() <= b.len(),
        b.subrange(0, a.len() as int) == a,
    ensures
        shows(b, w),
{
    reveal(shows);
    let i = choose|i: int| 0 <= i && i + w.len() <= a.len() && #[trigger] a.subrange(i, i + w.len()) == w;
    assert(b.subrange(i, i + w.len()) =~= a.subrange(i, i + w.len()));
    lemma_shows_at(b, w, i);
}

proof fn lemma_wrap_step_extends(st: WrapState, w: Seq<char>, max_w: int, ind: Seq<char>)
    ensures
        ({
            let a = wrapped_so_far(st, ind);
            let b = wrapped_so_far(crate::renderer::wrap_step(st, w, max_w, ind), ind);
            &&& a.len() + w.len() <= b.len()
            &&& b.subrange(0, a.len() as int) == a
            &&& b.subrange(b.len() - w.len(), b.len() as int) == w
            &&& crate::renderer::wrap_step(st, w, max_w, ind).current.len() >= w.len()
        }),
{
    let a = wrapped_so_far(st, ind);
    let b = wrapped_so_far(crate::renderer::wrap_step(st, w, max_w, ind), ind);
    let wl = utf8_len(w) as int;
    if st.line_len + wl + 1 > max_w && st.line_len > 0 {
        assert(b =~= a + ("\n"@ + ind + w));
    } else if st.line_len > 0 {
        assert(b =~= a + (" "@ + w));
    } else {
        assert(b =~= a + w);
    }
    assert(b.subrange(0, a.len() as int) =~= a);
    assert(b.subrange(b.len() - w.len(), b.len() as int) =~= w);
}

#[verifier::spinoff_prover]
#[verifier::rlimit(60)]
proof fn lemma_wrap_shows_words(ws: Seq<Seq<char>>, max_w: int, ind: Seq<char>)
    ensures
        forall|k: int| 0 <= k < ws.len() ==> shows(wrapped_so_far(wrap_fold(ws, max_w, ind), ind), #[trigger] ws[k]),
        ws.len() > 0 ==> wrap_fold(ws, max_w, ind).current.len() >= ws.last().len(),
    decreases ws.len(),
{
    if ws.len() > 0 {
        let prev = wrap_fold(ws.drop_last(), max_w, ind);
        let w = ws.last();
        let a = wrapped_so_far(prev, ind);
        let b = wrapped_so_far(wrap_fold(ws, max_w, ind), ind);
        lemma_wrap_shows_words(ws.drop_last(), max_w, ind);
        lemma_wrap_step_extends(prev, w, max_w, ind);
        assert(b == wrapped_so_far(crate::renderer::wrap_step(prev, w, max_w, ind), ind));
        lemma_shows_at(b, w, b.len() - w.len());
        assert forall|k: int| 0 <= k < ws.len() implies shows(b, #[trigger] ws[k]) by {
            if k < ws.len() - 1 {
                assert(ws[k] == ws.drop_last()[k]);
                lemma_shows_in_extension(a, b, ws[k]);
            }
        }
    }
}

/// A paragraph's rendering shows every one of its words, whatever the width it is wrapped
/// to and the indentation.
pub proof fn law_paragraphs_show_their_words(r: RendererSpec, text: Seq<char>, line: nat, d: nat)
    ensures
        forall|k: int|
            0 <= k < words(text).len() ==> shows(
                node_text(r, SpecNode::Paragraph { text, line }, d),
                #[trigger] words(text)[k],
            ),
{
    let ws = words(text);
    let indent = d * r.indent_size;
    let max_w = if r.width >= indent {
        r.width - indent
    } else {
        0
    };
    let ind = repeat(' ', indent);
    lemma_wrap_shows_words(ws, max_w, ind);
    crate::text::lemma_words_nonempty(text, 0);
    if ws.len() > 0 {
        let st = wrap_fold(ws, max_w, ind);
        assert(ws.last().len() > 0);
        assert(wrap_spec(text, r.width, indent) == wrapped_so_far(st, ind));
        assert forall|k: int| 0 <= k < ws.len() implies shows(
            node_text(r, SpecNode::Paragraph { text, line }, d),
            #[trigger] ws[k],
        ) by {
            lemma_shows_in_longer(wrapped_so_far(st, ind), "\n\n"@, ws[k]);
        }
    }
}

proof fn lemma_styled_shows(ind: Seq<char>, st: Seq<char>, front: Seq<char>, body: Seq<char>, back: Seq<char>, before: Seq<char>, after: Seq<char>)
    ensures
        shows(before + styled(ind, st, front + body + back) + after, body),
{
    let pre = before + ind + st + front;
    let out = before + styled(ind, st, front + body + back) + after;
    assert(out =~= pre + body + (back + RESET@ + "\n"@ + after));
    lemma_shows_at(out, body, pre.len() as int);
}

/// A heading's rendering shows its text: a level-1 heading shows it in capitals, every
/// other heading as written, whatever the indentation, width and styling.
pub proof fn law_headings_show_their_text(r: RendererSpec, level: u8, text: Seq<char>, line: nat, d: nat)
    ensures
        shows(
            node_text(r, SpecNode::Heading { level, text, line }, d),
            if level == 1 {
                unicode_uppercase(text)
            } else {
                text
            },
        ),
{
    let ind = repeat(' ', d * r.indent_size);
    let e = Seq::<char>::empty();
    if level == 1 {
        let st = YELLOW@ + BOLD@;
        let u = unicode_uppercase(text);
        let before = "\n"@ + styled(ind, st, repeat('═', r.width));
        let after = styled(ind, st, repeat('═', r.width)) + "\n"@;
        assert(e + u + e =~= u);
        lemma_styled_shows(ind, st, e, u, e, before, after);
        assert(node_text(r, SpecNode::Heading { level, text, line }, d) =~= before + styled(ind, st, e + u + e) + after);
    } else if level == 2 {
        let st = GREEN@ + BOLD@;
        let bar = repeat_str("─"@, utf8_len(text) + 4);
        let before = "\n"@ + styled(ind, st, bar);
        let after = styled(ind, st, bar) + "\n"@;
        lemma_styled_shows(ind, st, "  "@, text, " "@, before, after);
        assert(node_text(r, SpecNode::Heading { level, text, line }, d) =~= before + styled(ind, st, "  "@ + text + " "@) + after);
    } else if level == 3 {
        assert("▸ "@ + text + e =~= "▸ "@ + text);
        lemma_styled_shows(ind, WHITE@ + BOLD@, "▸ "@, text, e, "\n"@, "\n"@);
        assert(node_text(r, SpecNode::Heading { level, text, line }, d) =~= "\n"@ + styled(ind, WHITE@ + BOLD@, "▸ "@ + text + e) + "\n"@);
    } else {
        assert(e + text + e =~= text);
        lemma_styled_shows(ind, BOLD@ + WHITE@, e, text, e, "\n"@, "\n"@);
        assert(node_text(r, SpecNode::Heading { level, text, line }, d) =~= "\n"@ + styled(ind, BOLD@ + WHITE@, e + text + e) + "\n"@);
    }
}

/// An image's box shows its path and its alt text in full when each fits in 25 bytes.
pub proof fn law_images_show_short_paths_and_alt_texts(r: RendererSpec, path: Seq<char>, alt: Seq<char>, line: nat, d: nat)
    ensures
        utf8_len(path) <= 25 ==> shows(node_text(r, SpecNode::Image { path, alt, line }, d), path),
        utf8_len(alt) <= 25 ==> shows(node_text(r, SpecNode::Image { path, alt, line }, d), alt),
{
    let ind = repeat(' ', d * r.indent_size);
    let st = crate::renderer::MAGENTA@ + BOLD@;
    let top = styled(ind, st, "┌─────────────────────────────────┐"@) + styled(
        ind,
        st,
        "│  🖼  IMAGE                        │"@,
    );
    let pl = crate::renderer::pad_spec(crate::renderer::truncate_spec(path, 25), 25);
    let al = crate::renderer::pad_spec(crate::renderer::truncate_spec(alt, 25), 25);
    let bottom = styled(ind, st, "└─────────────────────────────────┘"@) + "\n"@;
    let out = node_text(r, SpecNode::Image { path, alt, line }, d);
    if utf8_len(path) <= 25 {
        let rest = pl.subrange(path.len() as int, pl.len() as int);
        assert(pl =~= path + rest);
        lemma_styled_shows(ind, st, "│  Path: "@, path, rest + " │"@, top, styled(ind, st, "│  Alt:  "@ + al + " │"@) + bottom);
        assert(out =~= top + styled(ind, st, "│  Path: "@ + path + (rest + " │"@)) + (styled(ind, st, "│  Alt:  "@ + al + " │"@) + bottom));
    }
    if utf8_len(alt) <= 25 {
        let rest = al.subrange(alt.len() as int, al.len() as int);
        assert(al =~= alt + rest);
        lemma_styled_shows(ind, st, "│  Alt:  "@, alt, rest + " │"@, top + styled(ind, st, "│  Path: "@ + pl + " │"@), bottom);
        assert(out =~= top + styled(ind, st, "│  Path: "@ + pl + " │"@) + styled(ind, st, "│  Alt:  "@ + alt + (rest + " │"@)) + bottom);
    }
}

/// With meta shown, a container's rendering shows `[container: id]` and a section's shows
/// `── section: id ──`, where `id` is the node's ID (or `anonymous` without one); the
/// children's text follows in both cases.
pub proof fn law_containers_and_sections_show_their_ids(
    r: RendererSpec,
    id: Option<Seq<char>>,
    children: Seq<SpecNode>,
    line: nat,
    d: nat,
)
    requires
        r.show_meta,
    ensures
        ({
            let name = match id {
                Some(s) => s,
                None => "anonymous"@,
            };
            &&& shows(node_text(r, SpecNode::Container { id, children, line }, d), "[container: "@ + name + "]"@)
            &&& shows(node_text(r, SpecNode::Section { id, children, line }, d), "── section: "@ + name + " ──"@)
        }),
{
    let ind = repeat(' ', d * r.indent_size);
    let name = crate::renderer::id_or_anonymous(id);
    let e = Seq::<char>::empty();
    let ct = nodes_text(r, children, d + 1);
    let cb = "[container: "@ + name + "]"@;
    assert(e + cb + e =~= cb);
    lemma_styled_shows(ind, dim(), e, cb, e, e, ct + "\n"@);
    assert(node_text(r, SpecNode::Container { id, children, line }, d) =~= e + styled(ind, dim(), e + cb + e) + (ct
        + "\n"@));
    let sb = "── section: "@ + name + " ──"@;
    assert(e + sb + e =~= sb);
    lemma_styled_shows(ind, dim(), e, sb, e, "\n"@, ct);
    assert(node_text(r, SpecNode::Section { id, children, line }, d) =~= "\n"@ + styled(ind, dim(), e + sb + e)
        + ct);
}

proof fn lemma_decl_lines_show_versions(ds: Seq<crate::ast::SpecModuleDecl>)
    ensures
        forall|k: int| 0 <= k < ds.len() ==> shows(crate::renderer::decl_lines(ds), #[trigger] ds[k].version),
    decreases ds.len(),
{
    if ds.len() > 0 {
        let a = crate::renderer::decl_lines(ds.drop_last());
        let last = ds.last();
        let e = Seq::<char>::empty();
        let body = "    from "@ + last.version + (" declare "@ + crate::renderer::join_comma(last.modules));
        lemma_decl_lines_show_versions(ds.drop_last());
        lemma_styled_shows(e, dim(), "    from "@, last.version, " declare "@ + crate::renderer::join_comma(last.modules), a, e);
        assert(crate::renderer::decl_lines(ds) =~= a + styled(e, dim(), body) + e);
        assert forall|k: int| 0 <= k < ds.len() implies shows(crate::renderer::decl_lines(ds), #[trigger] ds[k].version) by {
            if k < ds.len() - 1 {
                assert(ds[k] == ds.drop_last()[k]);
                let b = crate::renderer::decl_lines(ds);
                assert(b.subrange(0, a.len() as int) =~= a);
                lemma_shows_in_extension(a, b, ds[k].version);
            }
        }
    }
}

/// A document renders as its children's texts: with meta hidden, as exactly those texts
/// one after another; with meta shown, framed by a header that shows the version of each
/// module declaration.
pub proof fn law_documents_render_their_children(r: RendererSpec, header: SpecHeader, children: Seq<SpecNode>)
    ensures
        !r.show_meta ==> render_spec(r, SpecNode::Document { header, children }) == nodes_text(r, children, 0),
        r.show_meta ==> shows(render_spec(r, SpecNode::Document { header, children }), nodes_text(r, children, 0)),
        r.show_meta ==> forall|k: int|
            0 <= k < header.declarations.len() ==> shows(
                render_spec(r, SpecNode::Document { header, children }),
                #[trigger] header.declarations[k].version,
            ),
{
    let out = render_spec(r, SpecNode::Document { header, children });
    let ct = nodes_text(r, children, 0);
    if !r.show_meta {
        assert(out =~= ct);
    } else {
        let h = crate::renderer::header_spec(header, r.width);
        let f = crate::renderer::footer_spec(r.width);
        assert(out =~= h + ct + f);
        assert(out.subrange(h.len() as int, h.len() + ct.len() as int) =~= ct);
        lemma_shows_at(out, ct, h.len() as int);
        let top = crate::renderer::CYAN@ + BOLD@;
        let e = Seq::<char>::empty();
        let pre = styled(e, top, repeat('═', r.width)) + styled(e, top, "  ◈ RetroX RNMDL Document  ◈  GN-Z11 (v0.0.0)"@)
            + styled(e, top, repeat('═', r.width)) + styled(e, dim(), "  Modules:"@);
        let dl = crate::renderer::decl_lines(header.declarations);
        let post = (if header.implement_bugfixsets {
            styled(e, dim(), "    implement_bugfixsets = True"@)
        } else {
            e
        }) + styled(e, dim(), repeat('─', r.width)) + "\n"@ + ct + f;
        assert(out =~= pre + dl + post);
        lemma_decl_lines_show_versions(header.declarations);
        assert forall|k: int| 0 <= k < header.declarations.len() implies shows(out, #[trigger] header.declarations[k].version) by {
            let v = header.declarations[k].version;
            reveal(shows);
            let i = choose|i: int| 0 <= i && i + v.len() <= dl.len() && #[trigger] dl.subrange(i, i + v.len()) == v;
            assert(out.subrange(pre.len() + i, pre.len() + i + v.len()) =~= dl.subrange(i, i + v.len()));
            lemma_shows_at(out, v, pre.len() + i);
        }
    }
}

// ─── Pixels ─────────────────────────────────────────────────

/// Reading a pixel of a buffer gives back what `set_pixel` last wrote there, and writing a
/// pixel leaves every other pixel as it was.
pub proof fn law_buffer_read_after_write(
    buf: PixelBuffer,
    x: u32,
    y: u32,
    r: u8,
    g: u8,
    b: u8,
    a: u8,
    px: u32,
    py: u32,
)
    requires
        buf.wf(),
        x < buf.width,
        y < buf.height,
        px < buf.width,
        py < buf.height,
    ensures
        forall|c: int|
            0 <= c < 4 ==> #[trigger] channel(
                with_pixel(buf.data@, buf.width as int, x as int, y as int, r, g, b, a),
                buf.width as int,
                px as int,
                py as int,
                c,
            ) == if px == x && py == y {
                rgba_channel(r, g, b, a, c)
            } else {
                buf.at(px as int, py as int, c)
            },
{
    lemma_with_pixel(buf.data@, buf.width as int, buf.height as int, x as int, y as int, r, g, b, a);
}

/// The same for a decoded image.
pub proof fn law_image_read_after_write(
    img: Image,
    x: u32,
    y: u32,
    r: u8,
    g: u8,
    b: u8,
    a: u8,
    px: u32,
    py: u32,
)
    requires
        img.wf(),
        x < img.width,
        y < img.height,
        px < img.width,
        py < img.height,
    ensures
        forall|c: int|
            0 <= c < 4 ==> #[trigger] channel(
                with_pixel(img.pixels@, img.width as int, x as int, y as int, r, g, b, a),
                img.width as int,
                px as int,
                py as int,
                c,
            ) == if px == x && py == y {
                rgba_channel(r, g, b, a, c)
            } else {
                img.at(px as int, py as int, c)
            },
{
    lemma_with_pixel(img.pixels@, img.width as int, img.height as int, x as int, y as int, r, g, b, a);
}

/// After `clear(r, g, b)` every pixel of the buffer reads (r, g, b, 255).
pub proof fn law_clear_then_read(buf: PixelBuffer, r: u8, g: u8, b: u8, px: u32, py: u32)
    requires
        buf.wf(),
        forall|i: int| 0 <= i < buf.data@.len() ==> #[trigger] buf.data@[i] == rgba_channel(r, g, b, 255, i % 4),
        px < buf.width,
        py < buf.height,
    ensures
        forall|c: int| 0 <= c < 4 ==> #[trigger] buf.at(px as int, py as int, c) == rgba_channel(r, g, b, 255, c),
{
    assert forall|c: int| 0 <= c < 4 implies #[trigger] buf.at(px as int, py as int, c) == rgba_channel(
        r,
        g,
        b,
        255,
        c,
    ) by {
        crate::platform::lemma_index_in_bounds(buf.width as int, buf.height as int, px as int, py as int, c);
        let i = (py * buf.width + px) * 4 + c;
        assert(i % 4 == c) by (nonlinear_arith)
            requires
                i == (py * buf.width + px) * 4 + c,
                0 <= c < 4,
                0 <= py * buf.width + px,
        ;
    }
}

// ─── Scrolling ──────────────────────────────────────────────

/// Scrolling keeps the page within its limits: from any position of at least 0, every event
/// leaves the position at least 0; after the wheel, Down or Page Down it is at most the
/// largest scroll; and from a position within the limits, every event but a resize keeps it
/// within them (the frame's height read as a non-negative `i32`).
pub proof fn law_scroll_stays_in_range(st: BrowserState, ev: Event)
    requires
        0 <= st.scroll_y,
        st.buf.height <= i32::MAX,
        scrolled(st, ev) is Some,
    ensures
        0 <= scrolled(st, ev)->Some_0,
        ev matches (Event::Scroll(_) | Event::KeyPress(Key::Down) | Event::KeyPress(Key::PageDown)) ==> scrolled(
            st,
            ev,
        )->Some_0 <= max_scroll_of(content_height(st.layout), st.buf.height),
        st.scroll_y <= max_scroll_of(content_height(st.layout), st.buf.height) && !(ev is Resize) ==> scrolled(
            st,
            ev,
        )->Some_0 <= max_scroll_of(content_height(st.layout), st.buf.height),
{
}

/// RetroBrowser keeps the page within its limits too: from any position of at least 0,
/// every event leaves it at least 0, and Down or Page Down at most the largest scroll; every
/// frame of momentum, whatever its step, leaves it between 0 and the largest scroll; and
/// from a position within the limits every event keeps it there (the frame's height read as
/// a non-negative `i32`).
pub proof fn law_paged_scroll_stays_in_range(st: BrowserState, ev: Event, step: int)
    requires
        0 <= st.scroll_y,
        st.buf.height <= i32::MAX,
        paged_scrolled(st, ev) is Some,
    ensures
        0 <= paged_scrolled(st, ev)->Some_0,
        ev matches (Event::KeyPress(Key::Down) | Event::KeyPress(Key::PageDown)) ==> paged_scrolled(st, ev)->Some_0
            <= max_scroll_of(content_height(st.layout), st.buf.height),
        st.scroll_y <= max_scroll_of(content_height(st.layout), st.buf.height) ==> paged_scrolled(st, ev)->Some_0
            <= max_scroll_of(content_height(st.layout), st.buf.height),
        0 <= clamp(st.scroll_y + step, 0, max_scroll_of(content_height(st.layout), st.buf.height))
            <= max_scroll_of(content_height(st.layout), st.buf.height),
{
}

/// Each key moves the view by its own step and stops at the ends: Page Up and Page Down by
/// the frame's height, Up and Down by 20 pixels, a turn of the wheel by 12 pixels a notch;
/// moving up stops at 0 and moving down at the largest scroll. Other events leave the view
/// where it is.
pub proof fn law_keys_move_the_view_by_their_step(st: BrowserState, ev: Event)
    requires
        st.buf.height <= i32::MAX,
        scrolled(st, ev) is Some,
    ensures
        ({
            let s = st.scroll_y as int;
            let h = st.buf.height as int;
            let m = max_scroll_of(content_height(st.layout), st.buf.height);
            let r = scrolled(st, ev)->Some_0;
            match ev {
                Event::KeyPress(Key::PageUp) => r == (if s >= h { s - h } else { 0 }),
                Event::KeyPress(Key::PageDown) => r == (if s + h <= m { s + h } else { m }),
                Event::KeyPress(Key::Up) => r == (if s >= 20 { s - 20 } else { 0 }),
                Event::KeyPress(Key::Down) => r == (if s + 20 <= m { s + 20 } else { m }),
                Event::Scroll(d) => r == (if s + 12 * d < 0 { 0 } else if s + 12 * d > m { m } else { s + 12 * d }),
                _ => r == s,
            }
        }),
{
}

/// Page Up undoes Page Down: from a position at least 0 where a frame's height further down
/// is still within the page, Page Down then Page Up comes back to where it started; and
/// Down then Up likewise.
pub proof fn law_page_down_then_up_comes_back(st: BrowserState, st2: BrowserState, key: Key)
    requires
        st.buf.height <= i32::MAX,
        0 <= st.scroll_y,
        key is PageDown || key is Down,
        scrolled(st, Event::KeyPress(key)) is Some,
        st.scroll_y + (if key is PageDown { st.buf.height as int } else { 20 }) <= max_scroll_of(
            content_height(st.layout),
            st.buf.height,
        ),
        st2.buf.height == st.buf.height,
        st2.layout == st.layout,
        st2.scroll_y == scrolled(st, Event::KeyPress(key))->Some_0,
        scrolled(st2, Event::KeyPress(if key is PageDown { Key::PageUp } else { Key::Up })) is Some,
    ensures
        scrolled(st2, Event::KeyPress(if key is PageDown { Key::PageUp } else { Key::Up }))->Some_0
            == st.scroll_y,
{
}

/// In RetroBrowser too each key moves the page by its own step and stops at the ends: Page
/// Up and Page Down by the frame's height, Up and Down by 40 pixels; moving up stops at 0 and
/// moving down at the largest scroll. The wheel and other events leave it where it is (the
/// wheel acts through momentum).
pub proof fn law_paged_keys_move_the_page_by_their_step(st: BrowserState, ev: Event)
    requires
        st.buf.height <= i32::MAX,
        paged_scrolled(st, ev) is Some,
    ensures
        ({
            let s = st.scroll_y as int;
            let h = st.buf.height as int;
            let m = max_scroll_of(content_height(st.layout), st.buf.height);
            let r = paged_scrolled(st, ev)->Some_0;
            match ev {
                Event::KeyPress(Key::PageUp) => r == (if s >= h { s - h } else { 0 }),
                Event::KeyPress(Key::PageDown) => r == (if s + h <= m { s + h } else { m }),
                Event::KeyPress(Key::Up) => r == (if s >= 40 { s - 40 } else { 0 }),
                Event::KeyPress(Key::Down) => r == (if s + 40 <= m { s + 40 } else { m }),
                _ => r == s,
            }
        }),
{
}

// ─── Text ───────────────────────────────────────────────────

proof fn lemma_all_drawn(cs: Seq<char>, x: int, scale: int, w: int, i: int)
    requires
        0 <= i <= cs.len(),
        0 <= x,
        0 <= scale,
        forall|k: int| 0 <= k < cs.len() ==> cs[k] != '\n',
        cs.len() == 0 || x + 8 * scale * (cs.len() - 1) < w,
        x + cs.len() * 8 * scale <= u32::MAX,
    ensures
        drawn_count(cs, x, scale, w, i) == cs.len(),
    decreases cs.len() - i,
{
    if i < cs.len() {
        assert(i * 8 * scale <= (cs.len() - 1) * 8 * scale) by (nonlinear_arith)
            requires
                0 <= i <= cs.len() - 1,
                0 <= scale,
        ;
        assert(8 * scale * (cs.len() - 1) == (cs.len() - 1) * 8 * scale) by (nonlinear_arith);
        assert(i * 8 * scale <= cs.len() * 8 * scale) by (nonlinear_arith)
            requires
                0 <= i <= cs.len(),
                0 <= scale,
        ;
        assert(pen_at(x, i, scale) < w);
        lemma_all_drawn(cs, x, scale, w, i + 1);
    }
}

/// Drawing a line of text that starts inside the buffer ends where measuring it says: when
/// no character is a newline and each starts inside the buffer, every character is drawn
/// and the pen ends at `x` plus the text's measured width.
pub proof fn law_draw_str_ends_after_measure(cs: Seq<char>, x: int, scale: int, w: int)
    requires
        0 <= x,
        0 <= scale,
        cs.len() <= u32::MAX,
        forall|k: int| 0 <= k < cs.len() ==> cs[k] != '\n',
        cs.len() == 0 || x + 8 * scale * (cs.len() - 1) < w,
        x + cs.len() * 8 * scale <= u32::MAX,
    ensures
        drawn_count(cs, x, scale, w, 0) == cs.len(),
        pen_at(x, drawn_count(cs, x, scale, w, 0), scale) == x + (cs.len() as u32) * 8 * scale,
{
    lemma_all_drawn(cs, x, scale, w, 0);
}

// ─── Images ─────────────────────────────────────────────────

/// Undoing a PNG filter inverts it: a row filtered with any of the five filters (0 none,
/// 1 sub, 2 up, 3 average, 4 Paeth), against any previous row and at any number of bytes
/// per pixel, comes back as it was (and `unfilter` returns exactly `unfilter_spec` for
/// these filters).
pub proof fn law_unfilter_inverts_filtering(filter: u8, row: Seq<u8>, prev: Seq<u8>, bpp: int)
    requires
        filter <= 4,
        bpp >= 1,
    ensures
        unfilter_spec(filter, filter_row(filter, row, prev, bpp), prev, bpp) == row,
{
    lemma_unfilter_inverts_filter(filter, row, prev, bpp);
}

/// A block's DC term adds its decoded difference to the predictor: the new predictor is
/// `pred + diff`, the block's top-left coefficient (row-major position 0) is that value
/// times the first quantiser, and every coefficient of the block is the decoded one times
/// its own quantiser.
pub proof fn law_dc_adds_to_the_predictor(
    d: Seq<u8>,
    st: ScanState,
    pred: i32,
    dc: TableView,
    ac: TableView,
    qt: Seq<i32>,
    t: u8,
    s1: ScanState,
    v: int,
    s2: ScanState,
    diff: int,
)
    requires
        qt.len() == 64,
        huff_spec(d, st, dc) == Step::Done((t, s1)),
        get_bits_spec(d, s1, t as int) == Step::Done((v, s2)),
        extend_spec(v, t as int) == Some(diff),
        block_spec(d, st, pred, dc, ac, qt) is Done,
    ensures
        ({
            let (c, np, _) = block_spec(d, st, pred, dc, ac, qt)->Done_0;
            let fresh = Seq::new(64, |i: int| 0i32).update(0, (pred + diff) as i32);
            let a = ac_spec(d, s2, ac, 1, fresh)->Done_0.0;
            &&& np == pred + diff
            &&& c[0] == (pred + diff) * qt[0]
            &&& forall|i: int| 0 <= i < 64 ==> #[trigger] c[i] == a[i] * qt[i]
        }),
{
    let fresh = Seq::new(64, |i: int| 0i32).update(0, (pred + diff) as i32);
    lemma_zigzag_rank();
    lemma_zigzag_in_block();
    assert(ZIGZAG@[0] == 0) by {
        assert(ZIGZAG@ =~= seq![
            0u8, 1, 8, 16, 9, 2, 3, 10, 17, 24, 32, 25, 18, 11, 4, 5, 12, 19, 26, 33, 40, 48, 41, 34, 27,
            20, 13, 6, 7, 14, 21, 28, 35, 42, 49, 56, 57, 50, 43, 36, 29, 22, 15, 23, 30, 37, 44, 51, 58,
            59, 52, 45, 38, 31, 39, 46, 53, 60, 61, 54, 47, 55, 62, 63,
        ]);
    }
    assert(zigzag_rank(0) == 0);
    lemma_ac_keeps_earlier(d, s2, ac, 1, fresh, 0);
}

/// A JPEG magnitude category holds exactly the values of that many bits (F.2.2.1): for
/// category `t` from 1 to 16 and its `t` bits read as `v`, the value is `v` itself when the
/// top bit is set and `v - (2^t - 1)` otherwise, so it is never 0, its size lies between
/// `2^(t-1)` and `2^t - 1`, and it is negative exactly when the top bit is clear.
pub proof fn law_magnitude_categories_hold_t_bit_values(v: int, t: int)
    requires
        1 <= t <= 16,
        0 <= v < vstd::arithmetic::power2::pow2(t as nat),
    ensures
        ({
            let half = vstd::arithmetic::power2::pow2((t - 1) as nat) as int;
            let full = vstd::arithmetic::power2::pow2(t as nat) as int;
            &&& extend_spec(v, t) == Some(if v >= half { v } else { v - full + 1 })
            &&& (extend_spec(v, t)->Some_0 < 0 <==> v < half)
            &&& half <= (if extend_spec(v, t)->Some_0 < 0 { -extend_spec(v, t)->Some_0 } else { extend_spec(v, t)->Some_0 }) < full
        }),
{
    vstd::arithmetic::power2::lemma2_to64();
    vstd::arithmetic::power2::lemma_pow2_unfold(t as nat);
    vstd::arithmetic::power2::lemma_pow2_pos((t - 1) as nat);
    assert(vstd::arithmetic::power2::pow2(t as nat) <= 0x10000) by {
        vstd::arithmetic::power2::lemma_pow2_strictly_increases(t as nat, 17);
    }
}

/// An AC coefficient lands at its zigzag place: when the symbol read at coded place `k` of
/// a block says "`run` zeros, then a value of `size` bits" and that value is `val`, the
/// decoded block holds `val` at row-major position `ZIGZAG[k + run]`, and the `run`
/// coefficients skipped before it keep what they held (zero in a fresh block).
pub proof fn law_ac_coefficients_land_in_zigzag_order(
    d: Seq<u8>,
    st: ScanState,
    ac: TableView,
    k: int,
    coeffs: Seq<i32>,
    rs: u8,
    s1: ScanState,
    v: int,
    s2: ScanState,
    val: int,
)
    requires
        1 <= k < 64,
        coeffs.len() == 64,
        huff_spec(d, st, ac) == Step::Done((rs, s1)),
        (rs & 15u8) > 0,
        k + (rs >> 4u8) < 64,
        get_bits_spec(d, s1, (rs & 15u8) as int) == Step::Done((v, s2)),
        extend_spec(v, (rs & 15u8) as int) == Some(val),
        ac_spec(d, st, ac, k, coeffs) is Done,
    ensures
        ({
            let c = ac_spec(d, st, ac, k, coeffs)->Done_0.0;
            let run = (rs >> 4u8) as int;
            &&& c[ZIGZAG@[k + run] as int] == val as i32
            &&& forall|j: int| k <= j < k + run ==> c[#[trigger] ZIGZAG@[j] as int] == coeffs[ZIGZAG@[j] as int]
        }),
{
    let run = (rs >> 4u8) as int;
    lemma_zigzag_rank();
    lemma_zigzag_in_block();
    let p = ZIGZAG@[k + run] as int;
    let c2 = coeffs.update(p, val as i32);
    assert(ac_spec(d, st, ac, k, coeffs) == ac_spec(d, s2, ac, k + run + 1, c2));
    assert(zigzag_rank(p) == k + run);
    lemma_ac_keeps_earlier(d, s2, ac, k + run + 1, c2, p);
    assert forall|j: int| k <= j < k + run implies ac_spec(d, st, ac, k, coeffs)->Done_0.0[#[trigger] ZIGZAG@[j] as int]
        == coeffs[ZIGZAG@[j] as int] by {
        let q = ZIGZAG@[j] as int;
        assert(zigzag_rank(q) == j);
        assert(q != p);
        lemma_ac_keeps_earlier(d, s2, ac, k + run + 1, c2, q);
    }
}

/// `ZIGZAG` is the zigzag walk of an 8x8 block: it starts at the top-left corner, goes
/// through every position once, moves from one anti-diagonal (row plus column) only to the
/// next, and along each anti-diagonal goes down-left on the odd ones and up-right on the
/// even ones.
pub proof fn law_zigzag_walks_the_anti_diagonals()
    ensures
        ZIGZAG@.len() == 64,
        ZIGZAG@[0] == 0,
        forall|k: int| 0 <= k < 64 ==> #[trigger] ZIGZAG@[k] < 64 && zigzag_rank(ZIGZAG@[k] as int) == k,
        forall|k: int|
            0 <= k < 63 ==> {
                let r = #[trigger] ZIGZAG@[k] / 8;
                let c = ZIGZAG@[k] % 8;
                let r2 = ZIGZAG@[k + 1] / 8;
                let c2 = ZIGZAG@[k + 1] % 8;
                &&& (r2 + c2 == r + c || r2 + c2 == r + c + 1)
                &&& r2 + c2 == r + c && (r + c) % 2 == 1 ==> r2 == r + 1
                &&& r2 + c2 == r + c && (r + c) % 2 == 0 ==> r2 + 1 == r
            },
{
    lemma_zigzag_rank();
    lemma_zigzag_in_block();
    assert(ZIGZAG@ =~= seq![
        0u8, 1, 8, 16, 9, 2, 3, 10, 17, 24, 32, 25, 18, 11, 4, 5, 12, 19, 26, 33, 40, 48, 41, 34, 27, 20,
        13, 6, 7, 14, 21, 28, 35, 42, 49, 56, 57, 50, 43, 36, 29, 22, 15, 23, 30, 37, 44, 51, 58, 59, 52,
        45, 38, 31, 39, 46, 53, 60, 61, 54, 47, 55, 62, 63,
    ]);
}

/// A DEFLATE back-reference copies exactly its length: when a block reads the length
/// symbol `257 + li` with extra bits worth `e`, then a distance symbol `di` with extra bits
/// worth `e2`, the output given so far is kept, and the next `LEN_BASE[li] + e` bytes each
/// repeat the byte `DIST_BASE[di] + e2` places before them.
pub proof fn law_back_reference_copies_its_length(
    lit: Seq<(u32, u8, u16)>,
    dist: Seq<(u32, u8, u16)>,
    d: Seq<u8>,
    p: int,
    out: Seq<u8>,
    li: int,
    p1: int,
    e: int,
    p2: int,
    di: u16,
    p3: int,
    e2: int,
    p4: int,
)
    requires
        0 <= p,
        0 <= li < 29,
        huff_decode(lit, d, p) == Ok::<(u16, int), Seq<char>>(((257 + li) as u16, p1)),
        read_spec(d, p1, LEN_EXTRA[li] as int) == Ok::<(int, int), Seq<char>>((e, p2)),
        huff_decode(dist, d, p2) == Ok::<(u16, int), Seq<char>>((di, p3)),
        di < 30,
        read_spec(d, p3, DIST_EXTRA[di as int] as int) == Ok::<(int, int), Seq<char>>((e2, p4)),
        DIST_BASE[di as int] + e2 <= out.len(),
        block_from(lit, dist, d, p, out) is Ok,
    ensures
        ({
            let res = block_from(lit, dist, d, p, out)->Ok_0.1;
            let len = LEN_BASE[li] + e;
            let dst = DIST_BASE[di as int] + e2;
            &&& out.len() + len <= res.len()
            &&& res.subrange(0, out.len() as int) == out
            &&& forall|j: int| out.len() <= j < out.len() + len ==> #[trigger] res[j] == res[j - dst]
        }),
{
    let len = LEN_BASE[li] + e;
    let dst = DIST_BASE[di as int] + e2;
    assert(DIST_BASE[di as int] >= 1);
    crate::image::inflate::lemma_decode_advances(lit, d, p);
    crate::image::inflate::lemma_decode_advances(dist, d, p2);
    assert(e >= 0) by {
        if LEN_EXTRA[li] > 0 {
            crate::image::inflate::lemma_bits_val_bound(d, p1, LEN_EXTRA[li] as int);
        }
    }
    assert(e2 >= 0) by {
        if DIST_EXTRA[di as int] > 0 {
            crate::image::inflate::lemma_bits_val_bound(d, p3, DIST_EXTRA[di as int] as int);
        }
    }
    let o2 = copy_back(out, dst, len);
    assert(block_from(lit, dist, d, p, out) == block_from(lit, dist, d, p4, o2));
    lemma_copy_back_repeats(out, dst, len);
    lemma_block_from_extends(lit, dist, d, p4, o2);
    let res = block_from(lit, dist, d, p, out)->Ok_0.1;
    assert forall|j: int| out.len() <= j < out.len() + len implies #[trigger] res[j] == res[j - dst] by {
        assert(res[j] == res.subrange(0, o2.len() as int)[j]);
        assert(res[j - dst] == res.subrange(0, o2.len() as int)[j - dst]);
    }
    assert(res.subrange(0, out.len() as int) =~= res.subrange(0, o2.len() as int).subrange(0, out.len() as int));
}

/// A stored DEFLATE block is copied as it stands: from the next byte boundary, its length
/// is two bytes read little-endian, the next two are that length's ones' complement, and
/// exactly that many following bytes are appended to the output; decoding goes on after
/// them.
pub proof fn law_stored_block_is_copied(d: Seq<u8>, q: int, out: Seq<u8>)
    requires
        0 <= q,
        block_body(d, q, 0, out) is Ok,
    ensures
        ({
            let i = aligned(q) / 8;
            let len = d[i] as int + 256 * d[i + 1] as int;
            &&& q <= 8 * i < q + 8
            &&& i + 4 + len <= d.len()
            &&& d[i + 2] as int + 256 * d[i + 3] as int == 65535 - len
            &&& block_body(d, q, 0, out) == Ok::<(int, Seq<u8>), Seq<char>>(
                (8 * (i + 4 + len), out + d.subrange(i + 4, i + 4 + len)),
            )
        }),
{
    let a = aligned(q);
    let i = a / 8;
    assert(a == 8 * i && q <= a < q + 8);
    lemma_byte_bits(d, i);
    lemma_byte_bits(d, i + 1);
    lemma_byte_bits(d, i + 2);
    lemma_byte_bits(d, i + 3);
    assert(a + 8 == 8 * (i + 1) && a + 16 == 8 * (i + 2) && a + 24 == 8 * (i + 3));
    let len = d[i] as int + 256 * d[i + 1] as int;
    let nlen = d[i + 2] as int + 256 * d[i + 3] as int;
    let x = len as u16;
    let y = nlen as u16;
    assert(x == len && y == nlen);
    assert((x ^ y) == 0xFFFFu16 ==> y == 0xFFFFu16 - x) by (bit_vector);
    let s = stored_bytes(d, a + 32, len);
    assert forall|k: int| 0 <= k < len implies #[trigger] s[k] == d[i + 4 + k] by {
        assert(a + 32 + 8 * k == 8 * (i + 4 + k));
        lemma_byte_bits(d, i + 4 + k);
    }
    assert(s =~= d.subrange(i + 4, i + 4 + len));
}

/// In a Huffman block a literal symbol appends exactly its own byte after the output so far,
/// and the end-of-block symbol 256 ends the block there, adding nothing.
pub proof fn law_literals_append_their_byte(
    lit: Seq<(u32, u8, u16)>,
    dist: Seq<(u32, u8, u16)>,
    d: Seq<u8>,
    p: int,
    out: Seq<u8>,
    sym: u16,
    p1: int,
)
    requires
        huff_decode(lit, d, p) == Ok::<(u16, int), Seq<char>>((sym, p1)),
        sym <= 256,
        block_from(lit, dist, d, p, out) is Ok,
    ensures
        sym == 256 ==> block_from(lit, dist, d, p, out) == Ok::<(int, Seq<u8>), Seq<char>>((p1, out)),
        sym < 256 ==> ({
            let res = block_from(lit, dist, d, p, out)->Ok_0.1;
            &&& out.len() < res.len()
            &&& res.subrange(0, out.len() as int) == out
            &&& res[out.len() as int] == sym as u8
        }),
{
    if sym < 256 {
        let o2 = out.push(sym as u8);
        assert(block_from(lit, dist, d, p, out) == block_from(lit, dist, d, p1, o2));
        lemma_block_from_extends(lit, dist, d, p1, o2);
        let res = block_from(lit, dist, d, p, out)->Ok_0.1;
        assert(res[out.len() as int] == res.subrange(0, o2.len() as int)[out.len() as int]);
        assert(res.subrange(0, out.len() as int) =~= res.subrange(0, o2.len() as int).subrange(0, out.len() as int));
    }
}

/// A PNG pixel takes its samples from its own bytes: at 8 and 16 bits a sample, `n`
/// samples a pixel, pixel `x`'s sample `c` is the (first, most significant) byte of sample
/// `x * n + c` of the row; RGBA takes red, green, blue and alpha in that order, RGB the
/// three colours with full alpha, grey copies its sample to the three colours, grey with
/// alpha adds its second sample as alpha; an 8-bit palette index is looked up, black past
/// the palette's end.
pub proof fn law_png_pixels_read_their_own_bytes(info: crate::image::png::PngInfo, row: Seq<u8>, x: int)
    requires
        0 <= x,
        info.bit_depth == 8 || info.bit_depth == 16,
    ensures
        ({
            let bd = info.bit_depth;
            let w = if bd == 8 { 1int } else { 2int };
            let px = crate::image::png::pixel_spec(info, row, x);
            let ct = info.color_type;
            &&& ct == 6 && (4 * x + 4) * w <= row.len() ==> px == (
                row[(4 * x) * w],
                row[(4 * x + 1) * w],
                row[(4 * x + 2) * w],
                row[(4 * x + 3) * w],
            )
            &&& ct == 2 && (3 * x + 3) * w <= row.len() ==> px == (
                row[(3 * x) * w],
                row[(3 * x + 1) * w],
                row[(3 * x + 2) * w],
                255u8,
            )
            &&& ct == 0 && (x + 1) * w <= row.len() ==> px == (row[x * w], row[x * w], row[x * w], 255u8)
            &&& ct == 4 && (2 * x + 2) * w <= row.len() ==> px == (
                row[(2 * x) * w],
                row[(2 * x) * w],
                row[(2 * x) * w],
                row[(2 * x + 1) * w],
            )
            &&& ct == 3 && bd == 8 && x < row.len() ==> px == (if (row[x] as int) < info.palette.len() {
                (info.palette[row[x] as int].0, info.palette[row[x] as int].1, info.palette[row[x] as int].2, 255u8)
            } else {
                (0u8, 0u8, 0u8, 255u8)
            })
        }),
{
    let w = if info.bit_depth == 8 { 1int } else { 2int };
    assert((4 * x + 3) * w < (4 * x + 4) * w) by (nonlinear_arith)
        requires w >= 1;
    assert((3 * x + 2) * w < (3 * x + 3) * w) by (nonlinear_arith)
        requires w >= 1;
    assert(x * w < (x + 1) * w) by (nonlinear_arith)
        requires w >= 1;
    assert((2 * x + 1) * w < (2 * x + 2) * w) by (nonlinear_arith)
        requires w >= 1;
    assert(0 <= x * w) by (nonlinear_arith)
        requires w >= 1, x >= 0;
}

/// `2` to the power `n`.
pub open spec fn two_to(n: nat) -> nat
    decreases n,
{
    if n == 0 {
        1
    } else {
        2 * two_to((n - 1) as nat)
    }
}

/// The length and distance codes of DEFLATE cover their ranges without gap or overlap:
/// lengths start at 3 and each code's range (its base plus what its extra bits can add)
/// ends where the next begins, up to code 284 (227 and 5 extra bits), and code 285 is 258
/// with none; distances start at 1 and tile the same way up to 32768.
#[verifier::spinoff_prover]
#[verifier::rlimit(60)]
pub proof fn law_length_and_distance_codes_tile()
    ensures
        LEN_BASE[0] == 3,
        forall|i: int| 0 <= i < 27 ==> #[trigger] LEN_BASE[i + 1] == LEN_BASE[i] + two_to(LEN_EXTRA[i] as nat),
        LEN_BASE[27] == 227 && LEN_EXTRA[27] == 5,
        LEN_BASE[28] == 258 && LEN_EXTRA[28] == 0,
        DIST_BASE[0] == 1,
        forall|i: int| 0 <= i < 29 ==> #[trigger] DIST_BASE[i + 1] == DIST_BASE[i] + two_to(DIST_EXTRA[i] as nat),
        DIST_BASE[29] + two_to(DIST_EXTRA[29] as nat) == 32769,
{
    reveal_with_fuel(two_to, 14);
    assert(LEN_BASE@ =~= seq![
        3u16, 4, 5, 6, 7, 8, 9, 10, 11, 13, 15, 17, 19, 23, 27, 31, 35, 43, 51, 59, 67, 83, 99, 115, 131,
        163, 195, 227, 258,
    ]);
    assert(LEN_EXTRA@ =~= seq![
        0u8, 0, 0, 0, 0, 0, 0, 0, 1, 1, 1, 1, 2, 2, 2, 2, 3, 3, 3, 3, 4, 4, 4, 4, 5, 5, 5, 5, 0,
    ]);
    assert(DIST_BASE@ =~= seq![
        1u32, 2, 3, 4, 5, 7, 9, 13, 17, 25, 33, 49, 65, 97, 129, 193, 257, 385, 513, 769, 1025, 1537,
        2049, 3073, 4097, 6145, 8193, 12289, 16385, 24577,
    ]);
    assert(DIST_EXTRA@ =~= seq![
        0u8, 0, 0, 0, 1, 1, 2, 2, 3, 3, 4, 4, 5, 5, 6, 6, 7, 7, 8, 8, 9, 9, 10, 10, 11, 11, 12, 12, 13,
        13,
    ]);
}

// ─── History ────────────────────────────────────────────────

/// Going back after following a link returns to the page the link was followed from: the
/// history that `push_history` leaves ends with that page, and taking it off gives back the
/// history from before.
pub proof fn law_back_after_follow(before: Seq<String>, current: String, after: Seq<String>)
    requires
        after.len() == before.len() + 1,
        forall|k: int| 0 <= k < before.len() ==> #[trigger] after[k] == before[k],
        after.last()@ == current@,
    ensures
        after.drop_last() == before,
        after.len() > 0 && after.last()@ == current@,
{
    assert(after.drop_last() =~= before);
}

// ─── Layout and painting ────────────────────────────────────

/// The layout reserves for a paragraph exactly the lines the browser paints it on: ten
/// pixels (one 8-pixel glyph row and 2 of spacing) for each wrapped line, at least one line,
/// and the paragraph gap, the lines wrapped at the width of the frame it is painted in.
pub proof fn law_paragraph_height_matches_painting(text: Seq<char>, w: int)
    ensures
        paragraph_lines(text, w) == if wrapped_lines(text, chars_per_line(w - MARGIN_X * 2 - 16, 8)).len() == 0 {
            1
        } else {
            wrapped_lines(text, chars_per_line(w - MARGIN_X * 2 - 16, 8)).len() as int
        },
        paragraph_height(text, w) == paragraph_lines(text, w) * (8 * 1 + 2) + PARA_GAP,
{
    lemma_words_nonempty(text, 0);
    lemma_folds_agree(words(text), chars_per_line(w - MARGIN_X * 2 - 16, 8));
}

} // verus!
