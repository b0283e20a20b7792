//! The RNMDL terminal renderer (GN-Z11): writes a document as ANSI-styled text.
//!
//! `render_spec` and the functions below it say, piece by piece, which text a
//! document becomes.
use vstd::prelude::*;
use crate::ast::{Node, SpecNode, SpecHeader, SpecModuleDecl, DocumentHeader, node_view, nodes_view, lemma_nodes_view, strings_view};
use crate::text::{unicode_uppercase, utf8_len, words, string_of, append_str, push_char, split_whitespace, to_uppercase, chars_of, lemma_utf8_len_bounds, lemma_utf8_len_concat, byte_prefix, byte_prefix_of, str_utf8_len, utf8_len_capped, is_cuttable};

verus! {

pub const RESET: &'static str = "\x1b[0m";

pub const BOLD: &'static str = "\x1b[1m";

pub const DIM: &'static str = "\x1b[2m";

pub const CYAN: &'static str = "\x1b[36m";

pub const YELLOW: &'static str = "\x1b[33m";

pub const GREEN: &'static str = "\x1b[32m";

pub const MAGENTA: &'static str = "\x1b[35m";

pub const WHITE: &'static str = "\x1b[97m";

pub const DARK_GRAY: &'static str = "\x1b[90m";

pub struct Renderer {
    indent_size: usize,
    show_comments: bool,
    show_meta: bool,
    width: usize,
}

impl Renderer {
    /// Indents are two spaces and lines are 80 columns.
    #[verifier::type_invariant]
    spec fn fixed_layout(&self) -> bool {
        self.indent_size == 2 && self.width == 80
    }
}

// ─── Spec ───────────────────────────────────────────────────

/// `n` copies of `c`.
pub open spec fn repeat(c: char, n: nat) -> Seq<char> {
    Seq::new(n, |i: int| c)
}

/// `n` copies of the string `s`.
pub open spec fn repeat_str(s: Seq<char>, n: nat) -> Seq<char>
    decreases n,
{
    if n == 0 {
        seq![]
    } else {
        repeat_str(s, (n - 1) as nat) + s
    }
}

pub struct WrapState {
    pub result: Seq<char>,
    pub current: Seq<char>,
    pub line_len: int,
}

/// One word of greedy wrapping: start a new line when the word would pass `max_w` bytes.
pub open spec fn wrap_step(st: WrapState, word: Seq<char>, max_w: int, indent: Seq<char>) -> WrapState {
    let wl = utf8_len(word) as int;
    if st.line_len + wl + 1 > max_w && st.line_len > 0 {
        WrapState { result: st.result + indent + st.current + "\n"@, current: word, line_len: wl }
    } else if st.line_len > 0 {
        WrapState { result: st.result, current: st.current + " "@ + word, line_len: st.line_len + 1 + wl }
    } else {
        WrapState { result: st.result, current: st.current + word, line_len: st.line_len + wl }
    }
}

pub open spec fn wrap_fold(ws: Seq<Seq<char>>, max_w: int, indent: Seq<char>) -> WrapState
    decreases ws.len(),
{
    if ws.len() == 0 {
        WrapState { result: seq![], current: seq![], line_len: 0 }
    } else {
        wrap_step(wrap_fold(ws.drop_last(), max_w, indent), ws.last(), max_w, indent)
    }
}

/// `text` wrapped to `width - indent` bytes a line, each line indented by `indent` spaces.
pub open spec fn wrap_spec(text: Seq<char>, width: nat, indent: nat) -> Seq<char> {
    let max_w = if width >= indent {
        width - indent
    } else {
        0
    };
    let ind = repeat(' ', indent);
    let st = wrap_fold(words(text), max_w, ind);
    if st.current.len() > 0 {
        st.result + ind + st.current
    } else {
        st.result
    }
}

/// A string cut to at most `max` bytes: unchanged when it fits, else its first `max - 1`
/// bytes followed by '…'.
pub open spec fn truncate_spec(s: Seq<char>, max: nat) -> Seq<char> {
    if utf8_len(s) <= max {
        s
    } else {
        byte_prefix(s, (max - 1) as nat) + "…"@
    }
}

/// Whether a string can be cut at byte `max - 1` when it is longer than `max` bytes
/// (cutting inside a character panics).
pub open spec fn truncatable(s: Seq<char>, max: nat) -> bool {
    utf8_len(s) <= max || exists|k: int| 0 <= k <= s.len() && utf8_len(s.take(k)) == max - 1
}

/// `s` padded with spaces to at least `w` characters (`{:<w}`).
pub open spec fn pad_spec(s: Seq<char>, w: nat) -> Seq<char> {
    if s.len() >= w {
        s
    } else {
        s + repeat(' ', (w - s.len()) as nat)
    }
}

pub open spec fn styled(indent: Seq<char>, style: Seq<char>, body: Seq<char>) -> Seq<char> {
    indent + style + body + RESET@ + "\n"@
}

pub open spec fn join_comma(ms: Seq<Seq<char>>) -> Seq<char>
    decreases ms.len(),
{
    if ms.len() == 0 {
        seq![]
    } else if ms.len() == 1 {
        ms[0]
    } else {
        join_comma(ms.drop_last()) + ", "@ + ms.last()
    }
}

pub open spec fn dim() -> Seq<char> {
    DARK_GRAY@ + DIM@
}

pub open spec fn decl_lines(ds: Seq<SpecModuleDecl>) -> Seq<char>
    decreases ds.len(),
{
    if ds.len() == 0 {
        seq![]
    } else {
        decl_lines(ds.drop_last()) + styled(
            seq![],
            dim(),
            "    from "@ + ds.last().version + " declare "@ + join_comma(ds.last().modules),
        )
    }
}

pub open spec fn header_spec(h: SpecHeader, width: nat) -> Seq<char> {
    let top = CYAN@ + BOLD@;
    styled(seq![], top, repeat('═', width)) + styled(
        seq![],
        top,
        "  ◈ RetroX RNMDL Document  ◈  GN-Z11 (v0.0.0)"@,
    ) + styled(seq![], top, repeat('═', width)) + styled(seq![], dim(), "  Modules:"@) + decl_lines(
        h.declarations,
    ) + (if h.implement_bugfixsets {
        styled(seq![], dim(), "    implement_bugfixsets = True"@)
    } else {
        seq![]
    }) + styled(seq![], dim(), repeat('─', width)) + "\n"@
}

pub open spec fn footer_spec(width: nat) -> Seq<char> {
    "\n"@ + styled(seq![], dim(), repeat('─', width)) + styled(
        seq![],
        dim(),
        "  RetroX RNMDL GN-Z11 | Rendered by RetroX v0.0.0"@,
    )
}

pub open spec fn id_or_anonymous(id: Option<Seq<char>>) -> Seq<char> {
    match id {
        Some(s) => s,
        None => "anonymous"@,
    }
}

pub open spec fn heading_spec(level: u8, text: Seq<char>, ind: Seq<char>, width: nat) -> Seq<
    char,
> {
    if level == 1 {
        let st = YELLOW@ + BOLD@;
        "\n"@ + styled(ind, st, repeat('═', width)) + styled(ind, st, unicode_uppercase(text))
            + styled(ind, st, repeat('═', width)) + "\n"@
    } else if level == 2 {
        let st = GREEN@ + BOLD@;
        let bar = repeat_str("─"@, utf8_len(text) + 4);
        "\n"@ + styled(ind, st, bar) + styled(ind, st, "  "@ + text + " "@) + styled(ind, st, bar)
            + "\n"@
    } else if level == 3 {
        "\n"@ + styled(ind, WHITE@ + BOLD@, "▸ "@ + text) + "\n"@
    } else {
        "\n"@ + styled(ind, BOLD@ + WHITE@, text) + "\n"@
    }
}

pub open spec fn image_spec(path: Seq<char>, alt: Seq<char>, ind: Seq<char>) -> Seq<char> {
    let st = MAGENTA@ + BOLD@;
    styled(ind, st, "┌─────────────────────────────────┐"@) + styled(
        ind,
        st,
        "│  🖼  IMAGE                        │"@,
    ) + styled(ind, st, "│  Path: "@ + pad_spec(truncate_spec(path, 25), 25) + " │"@) + styled(
        ind,
        st,
        "│  Alt:  "@ + pad_spec(truncate_spec(alt, 25), 25) + " │"@,
    ) + styled(ind, st, "└─────────────────────────────────┘"@) + "\n"@
}

/// The text of a node at nesting `depth`.
pub open spec fn node_text(r: RendererSpec, n: SpecNode, depth: nat) -> Seq<char>
    decreases n,
{
    let ind = repeat(' ', depth * r.indent_size);
    match n {
        SpecNode::Container { id, children, .. } => (if r.show_meta {
            styled(ind, dim(), "[container: "@ + id_or_anonymous(id) + "]"@)
        } else {
            seq![]
        }) + nodes_text(r, children, depth + 1) + (if r.show_meta {
            "\n"@
        } else {
            seq![]
        }),
        SpecNode::Section { id, children, .. } => (if r.show_meta {
            "\n"@ + styled(ind, dim(), "── section: "@ + id_or_anonymous(id) + " ──"@)
        } else {
            "\n"@
        }) + nodes_text(r, children, depth + 1),
        SpecNode::Heading { level, text, .. } => heading_spec(level, text, ind, r.width),
        SpecNode::Paragraph { text, .. } => wrap_spec(text, r.width, depth * r.indent_size)
            + "\n\n"@,
        SpecNode::Image { path, alt, .. } => image_spec(path, alt, ind),
        SpecNode::Comment { content, .. } => if r.show_comments {
            styled(ind, dim(), "<!-- "@ + content + " -->"@)
        } else {
            seq![]
        },
        SpecNode::Document { .. } => seq![],
    }
}

/// The texts of a list of nodes, one after another.
pub open spec fn nodes_text(r: RendererSpec, cs: Seq<SpecNode>, depth: nat) -> Seq<char>
    decreases cs,
{
    if cs.len() == 0 {
        seq![]
    } else {
        node_text(r, cs[0], depth) + nodes_text(r, cs.drop_first(), depth)
    }
}

/// The whole rendering of a node.
pub open spec fn render_spec(r: RendererSpec, n: SpecNode) -> Seq<char> {
    match n {
        SpecNode::Document { header, children } => (if r.show_meta {
            header_spec(header, r.width)
        } else {
            seq![]
        }) + nodes_text(r, children, 0) + (if r.show_meta {
            footer_spec(r.width)
        } else {
            seq![]
        }),
        _ => node_text(r, n, 0),
    }
}

/// What a renderer can draw without overflow or a panic: nesting within `max_depth`, text
/// lengths that fit in a machine word, and image paths and alt texts that can be cut.
pub open spec fn renderable(n: SpecNode, max_depth: nat) -> bool
    decreases n,
{
    match n {
        SpecNode::Document { children, .. } => max_depth > 0 && all_renderable(children, (max_depth - 1) as nat),
        SpecNode::Container { children, .. } => max_depth > 0 && all_renderable(children, (max_depth - 1) as nat),
        SpecNode::Section { children, .. } => max_depth > 0 && all_renderable(children, (max_depth - 1) as nat),
        SpecNode::Heading { text, .. } => 6 * text.len() + 8 < usize::MAX,
        SpecNode::Paragraph { text, .. } => 6 * text.len() + 8 < usize::MAX,
        SpecNode::Image { path, alt, .. } => truncatable(path, 25) && truncatable(alt, 25) && 4
            * path.len() < usize::MAX && 4 * alt.len() < usize::MAX,
        _ => true,
    }
}

pub open spec fn all_renderable(cs: Seq<SpecNode>, max_depth: nat) -> bool
    decreases cs,
{
    if cs.len() == 0 {
        true
    } else {
        renderable(cs[0], max_depth) && all_renderable(cs.drop_first(), max_depth)
    }
}

/// The settings of a renderer.
pub struct RendererSpec {
    pub indent_size: nat,
    pub show_comments: bool,
    pub show_meta: bool,
    pub width: nat,
}

// ─── Executable ─────────────────────────────────────────────

fn repeat_char(c: char, n: usize) -> (r: String)
    ensures
        r@ == repeat(c, n as nat),
{
    let mut r = String::new();
    let mut i: usize = 0;
    while i < n
        invariant
            i <= n,
            r@ == repeat(c, i as nat),
        decreases n - i,
    {
        push_char(&mut r, c);
        i = i + 1;
        assert(r@ =~= repeat(c, i as nat));
    }
    r
}

fn repeat_string(s: &str, n: usize) -> (r: String)
    ensures
        r@ == repeat_str(s@, n as nat),
{
    let mut r = String::new();
    let mut i: usize = 0;
    while i < n
        invariant
            i <= n,
            r@ == repeat_str(s@, i as nat),
        decreases n - i,
    {
        append_str(&mut r, s);
        i = i + 1;
    }
    r
}

/// Appends `indent style body RESET "\n"`.
fn push_styled(out: &mut String, indent: &str, style1: &str, style2: &str, body: &str)
    ensures
        final(out)@ == old(out)@ + styled(indent@, style1@ + style2@, body@),
{
    append_str(out, indent);
    append_str(out, style1);
    append_str(out, style2);
    append_str(out, body);
    append_str(out, RESET);
    append_str(out, "\n");
    assert(final(out)@ =~= old(out)@ + styled(indent@, style1@ + style2@, body@));
}

fn concat3(a: &str, b: &str, c: &str) -> (r: String)
    ensures
        r@ == a@ + b@ + c@,
{
    let mut r = string_of(a);
    append_str(&mut r, b);
    append_str(&mut r, c);
    r
}

impl Renderer {
    /// The settings of this renderer.
    pub closed spec fn settings(&self) -> RendererSpec {
        RendererSpec {
            indent_size: self.indent_size as nat,
            show_comments: self.show_comments,
            show_meta: self.show_meta,
            width: self.width as nat,
        }
    }

    /// A renderer with two-space indents, an 80-column width, metadata shown and comments
    /// hidden.
    pub fn new() -> (r: Self)
        ensures
            r.settings() == (RendererSpec {
                indent_size: 2,
                show_comments: false,
                show_meta: true,
                width: 80,
            }),
    {
        Renderer { indent_size: 2, show_comments: false, show_meta: true, width: 80 }
    }

    pub fn with_comments(self, show: bool) -> (r: Self)
        ensures
            r.settings() == (RendererSpec { show_comments: show, ..self.settings() }),
    {
        proof {
            use_type_invariant(&self);
        }
        Renderer {
            indent_size: self.indent_size,
            show_comments: show,
            show_meta: self.show_meta,
            width: self.width,
        }
    }

    pub fn with_meta(self, show: bool) -> (r: Self)
        ensures
            r.settings() == (RendererSpec { show_meta: show, ..self.settings() }),
    {
        proof {
            use_type_invariant(&self);
        }
        Renderer {
            indent_size: self.indent_size,
            show_comments: self.show_comments,
            show_meta: show,
            width: self.width,
        }
    }

    fn horizontal_rule(&self, ch: char) -> (r: String)
        ensures
            r@ == repeat(ch, self.width as nat),
    {
        repeat_char(ch, self.width)
    }

    fn wrap_text(&self, text: &str, indent: usize) -> (r: String)
        requires
            6 * text@.len() + 8 < usize::MAX,
        ensures
            r@ == wrap_spec(text@, self.width as nat, indent as nat),
    {
        let max_width = self.width.saturating_sub(indent);
        let indent_str = repeat_char(' ', indent);
        let mut result = String::new();
        let mut line_len: usize = 0;
        let mut current_line = String::new();
        let ws = split_whitespace(text);
        let ghost wsv = words(text@);
        let ghost ind = repeat(' ', indent as nat);
        proof {
            lemma_words_total(text@);
        }
        let mut i: usize = 0;
        while i < ws.len()
            invariant
                i <= ws.len(),
                ws@.len() == wsv.len(),
                wsv == words(text@),
                forall|k: int| 0 <= k < ws@.len() ==> #[trigger] ws@[k]@ == wsv[k],
                max_width as int == (if self.width >= indent {
                    self.width - indent
                } else {
                    0
                }),
                indent_str@ == ind,
                6 * text@.len() + 8 < usize::MAX,
                words_bytes(wsv) <= 4 * text@.len(),
                ({
                    let st = wrap_fold(wsv.take(i as int), max_width as int, ind);
                    &&& result@ == st.result
                    &&& current_line@ == st.current
                    &&& line_len == st.line_len
                }),
                line_len <= words_bytes(wsv.take(i as int)) + i,
                i <= text@.len(),
            decreases ws.len() - i,
        {
            let word = ws[i].as_str();
            let ghost prev = wsv.take(i as int);
            proof {
                assert(wsv.take(i + 1).drop_last() =~= prev);
                assert(wsv.take(i + 1).last() == word@);
                lemma_words_bytes_take(wsv, i as int);
                lemma_words_len(text@);
            }
            let wl = crate::text::str_utf8_len(word);
            if line_len + wl + 1 > max_width && line_len > 0 {
                append_str(&mut result, indent_str.as_str());
                append_str(&mut result, current_line.as_str());
                append_str(&mut result, "\n");
                current_line = string_of(word);
                line_len = wl;
            } else {
                if line_len > 0 {
                    append_str(&mut current_line, " ");
                    line_len = line_len + 1;
                }
                append_str(&mut current_line, word);
                line_len = line_len + wl;
            }
            i = i + 1;
        }
        proof {
            assert(wsv.take(ws.len() as int) =~= wsv);
        }
        if !current_line.as_str().is_empty() {
            append_str(&mut result, indent_str.as_str());
            append_str(&mut result, current_line.as_str());
        }
        result
    }
}

/// Total bytes of a list of words.
pub open spec fn words_bytes(ws: Seq<Seq<char>>) -> nat
    decreases ws.len(),
{
    if ws.len() == 0 {
        0
    } else {
        words_bytes(ws.drop_last()) + utf8_len(ws.last())
    }
}

proof fn lemma_words_bytes_take(ws: Seq<Seq<char>>, i: int)
    requires
        0 <= i < ws.len(),
    ensures
        words_bytes(ws.take(i + 1)) == words_bytes(ws.take(i)) + utf8_len(ws[i]),
        words_bytes(ws.take(i + 1)) <= words_bytes(ws),
    decreases ws.len() - i,
{
    assert(ws.take(i + 1).drop_last() =~= ws.take(i));
    if i + 1 < ws.len() {
        lemma_words_bytes_take(ws, i + 1);
    } else {
        assert(ws.take(i + 1) =~= ws);
    }
}

proof fn lemma_words_from_total(s: Seq<char>, i: int)
    requires
        0 <= i <= s.len(),
    ensures
        words_bytes(crate::text::words_from(s, i)) <= utf8_len(s.subrange(i, s.len() as int)),
        crate::text::words_from(s, i).len() <= s.len() - i,
    decreases s.len() - i,
{
    crate::text::lemma_space_stop(s, i);
    let a = crate::text::space_stop(s, i);
    if a < s.len() {
        crate::text::lemma_word_stop(s, a);
        let b = crate::text::word_stop(s, a);
        lemma_words_from_total(s, b);
        let rest = crate::text::words_from(s, b);
        let w = s.subrange(a, b);
        lemma_words_bytes_prepend(w, rest);
        assert(s.subrange(i, s.len() as int) =~= s.subrange(i, a) + (w + s.subrange(
            b,
            s.len() as int,
        )));
        lemma_utf8_len_concat(s.subrange(i, a), w + s.subrange(b, s.len() as int));
        lemma_utf8_len_concat(w, s.subrange(b, s.len() as int));
    }
}

proof fn lemma_words_bytes_prepend(w: Seq<char>, rest: Seq<Seq<char>>)
    ensures
        words_bytes(seq![w] + rest) == utf8_len(w) + words_bytes(rest),
    decreases rest.len(),
{
    if rest.len() == 0 {
        assert(seq![w] + rest =~= seq![w]);
        assert(seq![w].drop_last() =~= Seq::<Seq<char>>::empty());
        assert(seq![w].last() == w);
        assert(words_bytes(seq![w]) == words_bytes(seq![w].drop_last()) + utf8_len(w));
        assert(words_bytes(Seq::<Seq<char>>::empty()) == 0);
        assert(words_bytes(rest) == 0);
    } else {
        lemma_words_bytes_prepend(w, rest.drop_last());
        assert((seq![w] + rest).drop_last() =~= seq![w] + rest.drop_last());
        assert((seq![w] + rest).last() == rest.last());
        assert(words_bytes(seq![w] + rest) == words_bytes(seq![w] + rest.drop_last()) + utf8_len(rest.last()));
    }
}

proof fn lemma_words_total(s: Seq<char>)
    ensures
        words_bytes(words(s)) <= 4 * s.len(),
        words(s).len() <= s.len(),
{
    lemma_words_from_total(s, 0);
    assert(s.subrange(0, s.len() as int) =~= s);
    lemma_utf8_len_bounds(s);
}

proof fn lemma_words_len(s: Seq<char>)
    ensures
        words(s).len() <= s.len(),
{
    lemma_words_from_total(s, 0);
}

pub proof fn lemma_renderable_mono(n: SpecNode, a: nat, b: nat)
    requires
        renderable(n, a),
        a <= b,
    ensures
        renderable(n, b),
    decreases n,
{
    match n {
        SpecNode::Document { children, .. } => lemma_all_renderable_mono(children, (a - 1) as nat, (b - 1) as nat),
        SpecNode::Container { children, .. } => lemma_all_renderable_mono(children, (a - 1) as nat, (b - 1) as nat),
        SpecNode::Section { children, .. } => lemma_all_renderable_mono(children, (a - 1) as nat, (b - 1) as nat),
        _ => {},
    }
}

pub proof fn lemma_all_renderable_mono(cs: Seq<SpecNode>, a: nat, b: nat)
    requires
        all_renderable(cs, a),
        a <= b,
    ensures
        all_renderable(cs, b),
    decreases cs,
{
    if cs.len() > 0 {
        lemma_renderable_mono(cs[0], a, b);
        lemma_all_renderable_mono(cs.drop_first(), a, b);
    }
}

fn truncate(s: &str, max: usize) -> (r: String)
    requires
        1 <= max <= 1024,
        truncatable(s@, max as nat),
        4 * s@.len() < usize::MAX,
    ensures
        r@ == truncate_spec(s@, max as nat),
{
    proof {
        lemma_utf8_len_bounds(s@);
    }
    let n = str_utf8_len(s);
    if n <= max {
        return string_of(s);
    }
    let mut r = byte_prefix_of(s, max - 1);
    append_str(&mut r, "…");
    r
}

fn pad(s: &str, w: usize) -> (r: String)
    ensures
        r@ == pad_spec(s@, w as nat),
{
    let cs = chars_of(s);
    let mut r = string_of(s);
    if cs.len() < w {
        let fill = repeat_char(' ', w - cs.len());
        append_str(&mut r, fill.as_str());
    }
    r
}

fn join_modules(ms: &Vec<String>) -> (r: String)
    ensures
        r@ == join_comma(strings_view(ms@)),
{
    let ghost v = strings_view(ms@);
    let mut r = String::new();
    let mut i: usize = 0;
    while i < ms.len()
        invariant
            i <= ms.len(),
            v == strings_view(ms@),
            r@ == join_comma(v.take(i as int)),
        decreases ms.len() - i,
    {
        proof {
            assert(v.take(i + 1).drop_last() =~= v.take(i as int));
            assert(v.take(i + 1).last() == ms@[i as int]@);
        }
        if i > 0 {
            append_str(&mut r, ", ");
        } else {
            assert(v.take(1) =~= seq![ms@[0]@]);
        }
        append_str(&mut r, ms[i].as_str());
        i = i + 1;
    }
    assert(v.take(ms.len() as int) =~= v);
    r
}

impl Renderer {
    fn render_header(&self, header: &DocumentHeader) -> (r: String)
        ensures
            r@ == header_spec(header@, self.width as nat),
    {
        proof {
            reveal_strlit("");
        }
        let mut out = String::new();
        let bar = self.horizontal_rule('═');
        push_styled(&mut out, "", CYAN, BOLD, bar.as_str());
        push_styled(&mut out, "", CYAN, BOLD, "  ◈ RetroX RNMDL Document  ◈  GN-Z11 (v0.0.0)");
        push_styled(&mut out, "", CYAN, BOLD, bar.as_str());
        push_styled(&mut out, "", DARK_GRAY, DIM, "  Modules:");
        let ghost start = out@;
        let ghost ds = header@.declarations;
        let mut i: usize = 0;
        while i < header.declarations.len()
            invariant
                i <= header.declarations.len(),
                ds == header@.declarations,
                ds.len() == header.declarations.len(),
                out@ == start + decl_lines(ds.take(i as int)),
            decreases header.declarations.len() - i,
        {
            let decl = &header.declarations[i];
            let joined = join_modules(&decl.modules);
            let body = concat3("    from ", decl.version.as_str(), " declare ");
            let mut line = body;
            append_str(&mut line, joined.as_str());
            let ghost prev = out@;
            push_styled(&mut out, "", DARK_GRAY, DIM, line.as_str());
            proof {
                reveal_strlit("");
                assert(ds.take(i + 1).drop_last() =~= ds.take(i as int));
                assert(ds[i as int] == decl@);
                assert(ds.take(i + 1).last() == decl@);
                assert(line@ =~= "    from "@ + decl@.version + " declare "@ + join_comma(decl@.modules));
                assert(decl_lines(ds.take(i + 1)) == decl_lines(ds.take(i as int)) + styled(
                    seq![],
                    dim(),
                    "    from "@ + decl@.version + " declare "@ + join_comma(decl@.modules),
                ));
                assert(out@ =~= prev + styled(seq![], dim(), line@));
                assert(out@ =~= start + decl_lines(ds.take(i + 1)));
            }
            i = i + 1;
        }
        assert(ds.take(header.declarations.len() as int) =~= ds);
        if header.implement_bugfixsets {
            push_styled(&mut out, "", DARK_GRAY, DIM, "    implement_bugfixsets = True");
        }
        let rule = self.horizontal_rule('─');
        push_styled(&mut out, "", DARK_GRAY, DIM, rule.as_str());
        append_str(&mut out, "\n");
        assert(out@ =~= header_spec(header@, self.width as nat));
        out
    }

    fn render_heading(&self, level: u8, text: &str, depth: usize) -> (r: String)
        requires
            depth * 2 <= usize::MAX,
            6 * text@.len() + 8 < usize::MAX,
        ensures
            r@ == heading_spec(level, text@, repeat(' ', (depth * self.indent_size) as nat), self.width as nat),
    {
        proof {
            use_type_invariant(self);
            reveal_strlit("");
        }
        let indent = repeat_char(' ', depth * self.indent_size);
        let ind = indent.as_str();
        let mut out = string_of("\n");
        if level == 1 {
            let bar = self.horizontal_rule('═');
            let up = to_uppercase(text);
            push_styled(&mut out, ind, YELLOW, BOLD, bar.as_str());
            push_styled(&mut out, ind, YELLOW, BOLD, up.as_str());
            push_styled(&mut out, ind, YELLOW, BOLD, bar.as_str());
        } else if level == 2 {
            proof {
                lemma_utf8_len_bounds(text@);
            }
            let bar = repeat_string("─", crate::text::str_utf8_len(text) + 4);
            let mid = concat3("  ", text, " ");
            push_styled(&mut out, ind, GREEN, BOLD, bar.as_str());
            push_styled(&mut out, ind, GREEN, BOLD, mid.as_str());
            push_styled(&mut out, ind, GREEN, BOLD, bar.as_str());
        } else if level == 3 {
            let mid = concat3("▸ ", text, "");
            assert(mid@ =~= "▸ "@ + text@);
            push_styled(&mut out, ind, WHITE, BOLD, mid.as_str());
        } else {
            push_styled(&mut out, ind, BOLD, WHITE, text);
        }
        append_str(&mut out, "\n");
        assert(out@ =~= heading_spec(level, text@, indent@, self.width as nat));
        out
    }

    fn render_image(&self, path: &str, alt: &str, depth: usize) -> (r: String)
        requires
            depth * 2 <= usize::MAX,
            truncatable(path@, 25),
            truncatable(alt@, 25),
            4 * path@.len() < usize::MAX,
            4 * alt@.len() < usize::MAX,
        ensures
            r@ == image_spec(path@, alt@, repeat(' ', (depth * self.indent_size) as nat)),
    {
        proof {
            use_type_invariant(self);
        }
        let indent = repeat_char(' ', depth * self.indent_size);
        let ind = indent.as_str();
        let mut out = String::new();
        push_styled(&mut out, ind, MAGENTA, BOLD, "┌─────────────────────────────────┐");
        push_styled(&mut out, ind, MAGENTA, BOLD, "│  🖼  IMAGE                        │");
        let p = pad(truncate(path, 25).as_str(), 25);
        let l3 = concat3("│  Path: ", p.as_str(), " │");
        push_styled(&mut out, ind, MAGENTA, BOLD, l3.as_str());
        let a = pad(truncate(alt, 25).as_str(), 25);
        let l4 = concat3("│  Alt:  ", a.as_str(), " │");
        push_styled(&mut out, ind, MAGENTA, BOLD, l4.as_str());
        push_styled(&mut out, ind, MAGENTA, BOLD, "└─────────────────────────────────┘");
        append_str(&mut out, "\n");
        assert(out@ =~= image_spec(path@, alt@, indent@));
        out
    }

    fn render_node(&self, node: &Node, depth: usize) -> (r: String)
        requires
            renderable(node@, (usize::MAX / 4 - depth) as nat),
            depth <= usize::MAX / 4,
        ensures
            r@ == node_text(self.settings(), node@, depth as nat),
        decreases node,
    {
        proof {
            use_type_invariant(self);
        }
        let ghost st = self.settings();
        match node {
            Node::Container { id, children, .. } => {
                let indent = repeat_char(' ', depth * self.indent_size);
                let mut out = String::new();
                if self.show_meta {
                    let name = match id {
                        Some(x) => x.as_str(),
                        None => "anonymous",
                    };
                    let body = concat3("[container: ", name, "]");
                    push_styled(&mut out, indent.as_str(), DARK_GRAY, DIM, body.as_str());
                }
                let inner = self.render_children(children, depth + 1);
                append_str(&mut out, inner.as_str());
                if self.show_meta {
                    append_str(&mut out, "\n");
                }
                assert(out@ =~= node_text(st, node@, depth as nat));
                out
            },
            Node::Section { id, children, .. } => {
                let indent = repeat_char(' ', depth * self.indent_size);
                let mut out = string_of("\n");
                if self.show_meta {
                    let name = match id {
                        Some(x) => x.as_str(),
                        None => "anonymous",
                    };
                    let body = concat3("── section: ", name, " ──");
                    push_styled(&mut out, indent.as_str(), DARK_GRAY, DIM, body.as_str());
                }
                let inner = self.render_children(children, depth + 1);
                append_str(&mut out, inner.as_str());
                assert(out@ =~= node_text(st, node@, depth as nat));
                out
            },
            Node::Heading { level, text, .. } => self.render_heading(*level, text.as_str(), depth),
            Node::Paragraph { text, .. } => {
                let mut out = self.wrap_text(text.as_str(), depth * self.indent_size);
                append_str(&mut out, "\n\n");
                out
            },
            Node::Image { path, alt, .. } => self.render_image(path.as_str(), alt.as_str(), depth),
            Node::Comment { content, .. } => {
                if self.show_comments {
                    let indent = repeat_char(' ', depth * self.indent_size);
                    let body = concat3("<!-- ", content.as_str(), " -->");
                    let mut out = String::new();
                    push_styled(&mut out, indent.as_str(), DARK_GRAY, DIM, body.as_str());
                    assert(out@ =~= node_text(st, node@, depth as nat));
                    out
                } else {
                    String::new()
                }
            },
            Node::Document { .. } => String::new(),
        }
    }

    fn render_children(&self, children: &Vec<Node>, depth: usize) -> (r: String)
        requires
            all_renderable(nodes_view(children@), (usize::MAX / 4 - depth) as nat),
            depth <= usize::MAX / 4,
        ensures
            r@ == nodes_text(self.settings(), nodes_view(children@), depth as nat),
        decreases children,
    {
        let ghost cs = nodes_view(children@);
        let ghost st = self.settings();
        proof {
            lemma_nodes_view(children@);
        }
        let mut out = String::new();
        let mut i: usize = 0;
        assert(cs.skip(0) =~= cs);
        while i < children.len()
            invariant
                i <= children.len(),
                cs == nodes_view(children@),
                cs.len() == children.len(),
                forall|k: int| 0 <= k < children.len() ==> #[trigger] cs[k] == node_view(children@[k]),
                depth <= usize::MAX / 4,
                st == self.settings(),
                all_renderable(cs.skip(i as int), (usize::MAX / 4 - depth) as nat),
                nodes_text(st, cs, depth as nat) == out@ + nodes_text(st, cs.skip(i as int), depth as nat),
            decreases children.len() - i,
        {
            let ghost rest = cs.skip(i as int);
            proof {
                assert(rest[0] == cs[i as int]);
                assert(rest.drop_first() =~= cs.skip(i + 1));
                assert(nodes_text(st, rest, depth as nat) == node_text(st, cs[i as int], depth as nat)
                    + nodes_text(st, cs.skip(i + 1), depth as nat));
                assert(renderable(cs[i as int], (usize::MAX / 4 - depth) as nat));
                assert(all_renderable(cs.skip(i + 1), (usize::MAX / 4 - depth) as nat));
            }
            let part = self.render_node(&children[i], depth);
            assert(cs[i as int] == node_view(children@[i as int]));
            assert(part@ == node_text(st, cs[i as int], depth as nat));
            let ghost prev = out@;
            append_str(&mut out, part.as_str());
            i = i + 1;
            assert(prev + nodes_text(st, rest, depth as nat) =~= out@ + nodes_text(
                st,
                cs.skip(i as int),
                depth as nat,
            ));
        }
        assert(nodes_text(st, cs.skip(i as int), depth as nat) =~= seq![]) by {
            assert(cs.skip(i as int) =~= seq![]);
        }
        assert(out@ =~= nodes_text(st, cs, depth as nat));
        out
    }

    /// The text of a document: the header and footer when metadata is shown, and each
    /// node in turn; `render_spec` states it.
    pub fn render(&self, node: &Node) -> (r: String)
        requires
            renderable(node@, (usize::MAX / 4) as nat),
        ensures
            r@ == render_spec(self.settings(), node@),
    {
        let ghost st = self.settings();
        proof {
            reveal_strlit("");
            if let SpecNode::Document { children, .. } = node@ {
                lemma_all_renderable_mono(children, (usize::MAX / 4 - 1) as nat, (usize::MAX / 4) as nat);
            }
        }
        match node {
            Node::Document { header, children } => {
                let mut out = String::new();
                if self.show_meta {
                    let h = self.render_header(header);
                    append_str(&mut out, h.as_str());
                }
                let body = self.render_children(children, 0);
                append_str(&mut out, body.as_str());
                if self.show_meta {
                    append_str(&mut out, "\n");
                    let rule = self.horizontal_rule('─');
                    push_styled(&mut out, "", DARK_GRAY, DIM, rule.as_str());
                    push_styled(
                        &mut out,
                        "",
                        DARK_GRAY,
                        DIM,
                        "  RetroX RNMDL GN-Z11 | Rendered by RetroX v0.0.0",
                    );
                }
                assert(out@ =~= render_spec(st, node@));
                out
            },
            _ => self.render_node(node, 0),
        }
    }
}


// ─── Checking before rendering ─────────────────────────────

/// Whether `s` can be shortened to 25 bytes, as `truncate` does (`truncatable`).
fn truncatable_check(s: &str) -> (b: bool)
    ensures
        b == truncatable(s@, 25),
{
    utf8_len_capped(s) <= 25 || is_cuttable(s, 24)
}

/// Whether node `n` can be rendered within `max_depth` levels of nesting (`renderable`).
fn renderable_check(n: &Node, max_depth: usize) -> (b: bool)
    ensures
        b == renderable(n@, max_depth as nat),
    decreases n,
{
    match n {
        Node::Document { children, .. } => max_depth > 0 && all_renderable_check(children, max_depth - 1),
        Node::Container { children, .. } => max_depth > 0 && all_renderable_check(children, max_depth - 1),
        Node::Section { children, .. } => max_depth > 0 && all_renderable_check(children, max_depth - 1),
        Node::Heading { text, .. } => (chars_of(text.as_str()).len() as u128) * 6 + 8 < usize::MAX as u128,
        Node::Paragraph { text, .. } => (chars_of(text.as_str()).len() as u128) * 6 + 8 < usize::MAX as u128,
        Node::Image { path, alt, .. } => {
            truncatable_check(path.as_str()) && truncatable_check(alt.as_str()) && (chars_of(path.as_str()).len()
                as u128) * 4 < usize::MAX as u128 && (chars_of(alt.as_str()).len() as u128) * 4 < usize::MAX as u128
        },
        Node::Comment { .. } => true,
    }
}

fn all_renderable_check(children: &Vec<Node>, max_depth: usize) -> (b: bool)
    ensures
        b == all_renderable(nodes_view(children@), max_depth as nat),
    decreases children,
{
    let ghost cs = nodes_view(children@);
    proof {
        lemma_nodes_view(children@);
    }
    let mut i: usize = 0;
    assert(cs.skip(0) =~= cs);
    while i < children.len()
        invariant
            i <= children.len(),
            cs == nodes_view(children@),
            cs.len() == children.len(),
            forall|k: int| 0 <= k < children.len() ==> #[trigger] cs[k] == node_view(children@[k]),
            all_renderable(cs, max_depth as nat) == all_renderable(cs.skip(i as int), max_depth as nat),
        decreases children.len() - i,
    {
        let ghost rest = cs.skip(i as int);
        proof {
            assert(rest[0] == cs[i as int]);
            assert(rest.drop_first() =~= cs.skip(i + 1));
        }
        let ok = renderable_check(&children[i], max_depth);
        assert(cs[i as int] == node_view(children@[i as int]));
        if !ok {
            return false;
        }
        i = i + 1;
    }
    assert(cs.skip(i as int) =~= seq![]);
    true
}

impl Renderer {
    /// `render`, or `None` where rendering would cut an image's path or alt text inside a
    /// character, nest too deep, or overflow a length.
    pub fn try_render(&self, node: &Node) -> (r: Option<String>)
        ensures
            r is Some <==> renderable(node@, (usize::MAX / 4) as nat),
            r matches Some(t) ==> t@ == render_spec(self.settings(), node@),
    {
        if renderable_check(node, usize::MAX / 4) {
            Some(self.render(node))
        } else {
            None
        }
    }
}
} // verus!
