//! The RNMDL parser (GN-Z11): turns the token stream into a document tree.
//!
//! The meaning of parsing is given by the spec functions below over the view of
//! the tokens. A token stream as the lexer makes it ends with its only
//! end-of-file token; the parser is defined on streams that end with one.
use vstd::prelude::*;
use crate::ast::{
    Node, DocumentHeader, ModuleDeclaration, SpecNode, SpecHeader, SpecModuleDecl, nodes_view,
    lemma_nodes_view_push, strings_view,
};
use crate::lexer::{Token, TokenKind, SpecToken, SpecTokenKind, Attrs, attrs_view, tokens_view};
use crate::text::{
    trim, string_of, append_str, str_eq, copy_string, trim_string, chars_of, ascii_digit,
    is_ascii_digit,
};

verus! {

#[derive(Debug)]
pub struct ParseError {
    pub message: String,
    pub line: usize,
    pub col: usize,
}

pub struct SpecParseError {
    pub message: Seq<char>,
    pub line: nat,
    pub col: nat,
}

impl View for ParseError {
    type V = SpecParseError;

    open spec fn view(&self) -> SpecParseError {
        SpecParseError { message: self.message@, line: self.line as nat, col: self.col as nat }
    }
}

impl ParseError {
    pub fn new(message: String, line: usize, col: usize) -> (e: Self)
        ensures
            e.message@ == message@,
            e.line == line,
            e.col == col,
    {
        ParseError { message, line, col }
    }

    /// The message shown to users: "[Parse Error] Line L, Col C: message".
    pub fn to_string(&self) -> (r: String)
        ensures
            r@ == "[Parse Error] Line "@ + crate::text::decimal(self.line as nat) + ", Col "@
                + crate::text::decimal(self.col as nat) + ": "@ + self.message@,
    {
        let mut r = string_of("[Parse Error] Line ");
        crate::text::append_decimal(&mut r, self.line);
        append_str(&mut r, ", Col ");
        crate::text::append_decimal(&mut r, self.col);
        append_str(&mut r, ": ");
        append_str(&mut r, self.message.as_str());
        r
    }
}

pub struct Parser {
    tokens: Vec<Token>,
    pos: usize,
}

// ─── Spec ───────────────────────────────────────────────────

/// A token stream the parser is defined on: it ends with end-of-file.
pub open spec fn well_ended(ts: Seq<SpecToken>) -> bool {
    ts.len() > 0 && ts.last().kind is Eof
}

pub open spec fn perr(message: Seq<char>, line: nat, col: nat) -> SpecParseError {
    SpecParseError { message, line, col }
}

/// The value of the first attribute named `key`.
pub open spec fn get_attr(attrs: Attrs, key: Seq<char>) -> Option<Seq<char>>
    decreases attrs.len(),
{
    if attrs.len() == 0 {
        None
    } else if attrs[0].0 == key {
        Some(attrs[0].1)
    } else {
        get_attr(attrs.drop_first(), key)
    }
}

/// The number written by a string of ASCII digits.
pub open spec fn digits_value(d: Seq<char>) -> int
    decreases d.len(),
{
    if d.len() == 0 {
        0
    } else {
        digits_value(d.drop_last()) * 10 + (d.last() as int - 48)
    }
}

/// The digits of a `u8` literal: the string without one leading '+'.
pub open spec fn u8_digits(s: Seq<char>) -> Seq<char> {
    if s.len() > 0 && s[0] == '+' {
        s.drop_first()
    } else {
        s
    }
}

pub open spec fn all_ascii_digits(d: Seq<char>) -> bool {
    forall|i: int| 0 <= i < d.len() ==> ascii_digit(#[trigger] d[i])
}

/// `str::parse::<u8>`: an optional '+', then one or more ASCII digits, of value at most 255.
pub open spec fn parse_u8(s: Seq<char>) -> Option<u8> {
    let d = u8_digits(s);
    if d.len() > 0 && all_ascii_digits(d) && digits_value(d) <= 255 {
        Some(digits_value(d) as u8)
    } else {
        None
    }
}

/// The words of a text joined by single spaces.
pub open spec fn join_space(parts: Seq<Seq<char>>) -> Seq<char>
    decreases parts.len(),
{
    if parts.len() == 0 {
        seq![]
    } else if parts.len() == 1 {
        parts[0]
    } else {
        join_space(parts.drop_last()) + " "@ + parts.last()
    }
}

pub open spec fn msg_unexpected_eof(tag: Seq<char>) -> Seq<char> {
    "Unexpected end of file: expected '[/"@ + tag + "]'"@
}

pub open spec fn msg_mismatched(parent: Seq<char>, name: Seq<char>) -> Seq<char> {
    "Mismatched tags: expected '[/"@ + parent + "]' but found '[/"@ + name + "]'"@
}

pub open spec fn msg_unopened(name: Seq<char>) -> Seq<char> {
    "Unexpected closing tag '[/"@ + name + "]' with no matching opening tag"@
}

pub open spec fn msg_unknown_tag(name: Seq<char>) -> Seq<char> {
    "Unknown tag '["@ + name
        + "]'. Valid GN-Z11 tags: container, section, h1, h2, h3, heading, paragraph, p, image"@
}

pub open spec fn msg_unknown_self_closing(name: Seq<char>) -> Seq<char> {
    "Unknown self-closing tag '["@ + name + "]'"@
}

pub open spec fn msg_expected_close(close: Seq<char>, name: Seq<char>) -> Seq<char> {
    "Expected '[/"@ + close + "]' but found '[/"@ + name + "]'"@
}

pub open spec fn msg_eof_inside(close: Seq<char>) -> Seq<char> {
    "Unexpected end of file inside '["@ + close + "]'"@
}

pub open spec fn msg_only_text(close: Seq<char>) -> Seq<char> {
    "Tags like '["@ + close + "]' can only contain text, not nested tags"@
}

/// The declarations and the last `implement_bugfixsets` value at the top of the stream,
/// and the position of the first token after them.
pub open spec fn parse_header_from(ts: Seq<SpecToken>, p: int) -> (Seq<SpecModuleDecl>, Option<bool>, int)
    decreases ts.len() - p,
{
    if 0 <= p < ts.len() {
        match ts[p].kind {
            SpecTokenKind::Declaration(v, ms) => {
                let (d, b, q) = parse_header_from(ts, p + 1);
                (seq![SpecModuleDecl { version: v, modules: ms, line: ts[p].line }] + d, b, q)
            },
            SpecTokenKind::BugfixSets(e) => {
                let (d, b, q) = parse_header_from(ts, p + 1);
                (d, if b is Some { b } else { Some(e) }, q)
            },
            _ => (seq![], None, p),
        }
    } else {
        (seq![], None, p)
    }
}

pub open spec fn header_of(h: (Seq<SpecModuleDecl>, Option<bool>, int)) -> SpecHeader {
    SpecHeader {
        declarations: h.0,
        implement_bugfixsets: match h.1 {
            Some(b) => b,
            None => false,
        },
    }
}

/// The text inside a text-only tag from `p` up to its close tag: the pieces of text and
/// the position after the close tag.
pub open spec fn text_parts(ts: Seq<SpecToken>, p: int, close: Seq<char>) -> Result<
    (Seq<Seq<char>>, int),
    SpecParseError,
>
    decreases ts.len() - p,
{
    if 0 <= p < ts.len() {
        let t = ts[p];
        match t.kind {
            SpecTokenKind::Text(x) => match text_parts(ts, p + 1, close) {
                Ok((rest, q)) => Ok((seq![x] + rest, q)),
                Err(e) => Err(e),
            },
            SpecTokenKind::CloseTag(n) => if n == close {
                Ok((seq![], p + 1))
            } else {
                Err(perr(msg_expected_close(close, n), t.line, t.col))
            },
            SpecTokenKind::Eof => Err(perr(msg_eof_inside(close), t.line, t.col)),
            _ => Err(perr(msg_only_text(close), t.line, t.col)),
        }
    } else {
        Ok((seq![], p))
    }
}

/// The content of a text-only tag: its pieces joined by spaces and trimmed.
pub open spec fn parse_text(ts: Seq<SpecToken>, p: int, close: Seq<char>) -> Result<
    (Seq<char>, int),
    SpecParseError,
> {
    match text_parts(ts, p, close) {
        Ok((parts, q)) => Ok((trim(join_space(parts)), q)),
        Err(e) => Err(e),
    }
}

pub open spec fn cons(
    n: SpecNode,
    rest: Result<(Seq<SpecNode>, int), SpecParseError>,
) -> Result<(Seq<SpecNode>, int), SpecParseError> {
    match rest {
        Ok((cs, q)) => Ok((seq![n] + cs, q)),
        Err(e) => Err(e),
    }
}

/// The nodes from `p` up to the close tag of `parent` (or the end of the document when there
/// is no parent), and the position after them.
pub open spec fn parse_children(ts: Seq<SpecToken>, p: int, parent: Option<Seq<char>>) -> Result<
    (Seq<SpecNode>, int),
    SpecParseError,
>
    decreases ts.len() - p, 0int,
{
    if 0 <= p < ts.len() {
        let t = ts[p];
        match t.kind {
            SpecTokenKind::Eof => match parent {
                Some(tag) => Err(perr(msg_unexpected_eof(tag), t.line, t.col)),
                None => Ok((seq![], p)),
            },
            SpecTokenKind::CloseTag(name) => match parent {
                Some(par) => if name == par {
                    Ok((seq![], p + 1))
                } else {
                    Err(perr(msg_mismatched(par, name), t.line, t.col))
                },
                None => Err(perr(msg_unopened(name), t.line, t.col)),
            },
            SpecTokenKind::OpenTag(name, attrs) => match parse_open_tag(
                ts,
                p + 1,
                name,
                attrs,
                t.line,
            ) {
                Err(e) => Err(e),
                Ok((node, q)) => if p < q <= ts.len() {
                    cons(node, parse_children(ts, q, parent))
                } else {
                    Ok((seq![], q))
                },
            },
            SpecTokenKind::SelfCloseTag(name, attrs) => match parse_self_closing(
                name,
                attrs,
                t.line,
            ) {
                Err(e) => Err(e),
                Ok(node) => cons(node, parse_children(ts, p + 1, parent)),
            },
            SpecTokenKind::Text(x) => cons(
                SpecNode::Paragraph { text: x, line: t.line },
                parse_children(ts, p + 1, parent),
            ),
            SpecTokenKind::Comment(c) => cons(
                SpecNode::Comment { content: c, line: t.line },
                parse_children(ts, p + 1, parent),
            ),
            _ => Err(
                perr(
                    "Declaration statements must appear at the top of the document, before content"@,
                    t.line,
                    t.col,
                ),
            ),
        }
    } else {
        Ok((seq![], p))
    }
}

/// The node opened by tag `name` (whose token is just before `p`).
pub open spec fn parse_open_tag(
    ts: Seq<SpecToken>,
    p: int,
    name: Seq<char>,
    attrs: Attrs,
    line: nat,
) -> Result<(SpecNode, int), SpecParseError>
    decreases ts.len() - p, 1int,
{
    if name == "container"@ || name == "section"@ {
        match parse_children(ts, p, Some(name)) {
            Err(e) => Err(e),
            Ok((cs, q)) => if name == "container"@ {
                Ok((SpecNode::Container { id: get_attr(attrs, "id"@), children: cs, line }, q))
            } else {
                Ok((SpecNode::Section { id: get_attr(attrs, "id"@), children: cs, line }, q))
            },
        }
    } else if name == "h1"@ || name == "h2"@ || name == "h3"@ || name == "heading"@ {
        let level: u8 = if name == "h1"@ {
            1
        } else if name == "h2"@ {
            2
        } else if name == "h3"@ {
            3
        } else {
            match get_attr(attrs, "level"@) {
                Some(v) => match parse_u8(v) {
                    Some(n) => n,
                    None => 1,
                },
                None => 1,
            }
        };
        match parse_text(ts, p, name) {
            Err(e) => Err(e),
            Ok((text, q)) => Ok((SpecNode::Heading { level, text, line }, q)),
        }
    } else if name == "paragraph"@ || name == "p"@ {
        match parse_text(ts, p, name) {
            Err(e) => Err(e),
            Ok((text, q)) => Ok((SpecNode::Paragraph { text, line }, q)),
        }
    } else {
        Err(perr(msg_unknown_tag(name), line, 0))
    }
}

/// The node of a self-closing tag.
pub open spec fn parse_self_closing(name: Seq<char>, attrs: Attrs, line: nat) -> Result<
    SpecNode,
    SpecParseError,
> {
    if name == "image"@ {
        Ok(
            SpecNode::Image {
                path: match get_attr(attrs, "path"@) {
                    Some(v) => v,
                    None => seq![],
                },
                alt: match get_attr(attrs, "alt"@) {
                    Some(v) => v,
                    None => seq![],
                },
                line,
            },
        )
    } else {
        Err(perr(msg_unknown_self_closing(name), line, 0))
    }
}

/// The document of a whole token stream.
pub open spec fn parse_tokens(ts: Seq<SpecToken>) -> Result<SpecNode, SpecParseError> {
    let first = ts[0];
    if first.kind is RnmdlDecl {
        let h = parse_header_from(ts, 1);
        match parse_children(ts, h.2, None) {
            Err(e) => Err(e),
            Ok((cs, _)) => Ok(SpecNode::Document { header: header_of(h), children: cs }),
        }
    } else {
        Err(perr("Document must start with '<RNMDL>' on the first line"@, first.line, first.col))
    }
}

// ─── Executable ─────────────────────────────────────────────

fn get_attr_exec(attrs: &Vec<(String, String)>, key: &str) -> (r: Option<String>)
    ensures
        match get_attr(attrs_view(attrs@), key@) {
            Some(v) => r matches Some(s) && s@ == v,
            None => r is None,
        },
{
    let mut i: usize = 0;
    assert(attrs_view(attrs@).skip(0) =~= attrs_view(attrs@));
    while i < attrs.len()
        invariant
            i <= attrs.len(),
            get_attr(attrs_view(attrs@), key@) == get_attr(attrs_view(attrs@).skip(i as int), key@),
        decreases attrs.len() - i,
    {
        proof {
            let a = attrs_view(attrs@).skip(i as int);
            assert(a.drop_first() =~= attrs_view(attrs@).skip(i + 1));
        }
        if str_eq(attrs[i].0.as_str(), key) {
            return Some(copy_string(&attrs[i].1));
        }
        i = i + 1;
    }
    None
}

proof fn lemma_digits_value_push(d: Seq<char>, c: char)
    ensures
        digits_value(d.push(c)) == digits_value(d) * 10 + (c as int - 48),
{
    assert(d.push(c).drop_last() =~= d);
}

proof fn lemma_digits_value_nonneg(d: Seq<char>)
    requires
        all_ascii_digits(d),
    ensures
        digits_value(d) >= 0,
    decreases d.len(),
{
    if d.len() > 0 {
        lemma_digits_value_nonneg(d.drop_last());
    }
}

/// `str::parse::<u8>`, as `parse_u8` states it.
pub fn parse_u8_exec(s: &str) -> (r: Option<u8>)
    ensures
        r == parse_u8(s@),
{
    let cs = chars_of(s);
    let start: usize = if cs.len() > 0 && cs[0] == '+' {
        1
    } else {
        0
    };
    let ghost d = cs@.skip(start as int);
    proof {
        if start == 1 {
            assert(d =~= s@.drop_first());
        } else {
            assert(d =~= s@);
        }
    }
    if start == cs.len() {
        return None;
    }
    let mut v: u32 = 0;
    let mut i = start;
    while i < cs.len()
        invariant
            start <= i <= cs.len(),
            cs@ == s@,
            d == cs@.skip(start as int),
            d == u8_digits(s@),
            forall|k: int| start <= k < i ==> ascii_digit(cs@[k]),
            v as int == if digits_value(cs@.subrange(start as int, i as int)) <= 256 {
                digits_value(cs@.subrange(start as int, i as int))
            } else {
                256
            },
        decreases cs.len() - i,
    {
        let c = cs[i];
        if !is_ascii_digit(c) {
            assert(!ascii_digit(d[i - start]));
            assert(!all_ascii_digits(d));
            return None;
        }
        let ghost pre = cs@.subrange(start as int, i as int);
        proof {
            assert(cs@.subrange(start as int, i + 1) =~= pre.push(c));
            lemma_digits_value_push(pre, c);
            assert forall|k: int| 0 <= k < pre.len() implies ascii_digit(#[trigger] pre[k]) by {
                assert(pre[k] == cs@[start + k]);
            }
            lemma_digits_value_nonneg(pre);
        }
        let dv = (c as u32) - 48;
        v = v * 10 + dv;
        if v > 256 {
            v = 256;
        }
        i = i + 1;
    }
    proof {
        assert(cs@.subrange(start as int, cs.len() as int) =~= d);
        assert forall|k: int| 0 <= k < d.len() implies ascii_digit(#[trigger] d[k]) by {
            assert(d[k] == cs@[start + k]);
        }
    }
    if v <= 255 {
        Some(v as u8)
    } else {
        None
    }
}

fn msg2(a: &str, x: &str, b: &str) -> (r: String)
    ensures
        r@ == a@ + x@ + b@,
{
    let mut m = string_of(a);
    append_str(&mut m, x);
    append_str(&mut m, b);
    m
}

fn msg3(a: &str, x: &str, b: &str, y: &str, c: &str) -> (r: String)
    ensures
        r@ == a@ + x@ + b@ + y@ + c@,
{
    let mut m = string_of(a);
    append_str(&mut m, x);
    append_str(&mut m, b);
    append_str(&mut m, y);
    append_str(&mut m, c);
    m
}

fn header_at(tokens: &Vec<Token>, pos: usize) -> (r: (DocumentHeader, usize))
    requires
        well_ended(tokens_view(tokens@)),
        pos < tokens.len(),
    ensures
        ({
            let h = parse_header_from(tokens_view(tokens@), pos as int);
            &&& r.0@ == header_of(h)
            &&& r.1 == h.2
            &&& pos <= r.1 < tokens.len()
        }),
{
    let ghost ts = tokens_view(tokens@);
    let mut declarations: Vec<ModuleDeclaration> = Vec::new();
    let mut bug: Option<bool> = None;
    let mut p = pos;
    loop
        invariant
            ts == tokens_view(tokens@),
            well_ended(ts),
            pos <= p < tokens.len(),
            ({
                let h0 = parse_header_from(ts, pos as int);
                let h = parse_header_from(ts, p as int);
                &&& h0.0 == declarations@.map_values(|d: ModuleDeclaration| d@) + h.0
                &&& h0.2 == h.2
                &&& h0.1 == (if h.1 is Some { h.1 } else { bug })
            }),
        decreases tokens.len() - p,
    {
        let ghost before = declarations@.map_values(|d: ModuleDeclaration| d@);
        match &tokens[p].kind {
            TokenKind::Declaration(version, modules) => {
                let mut ms: Vec<String> = Vec::new();
                let mut k: usize = 0;
                while k < modules.len()
                    invariant
                        k <= modules.len(),
                        strings_view(ms@) == strings_view(modules@).take(k as int),
                    decreases modules.len() - k,
                {
                    let ghost b = strings_view(ms@);
                    let c = copy_string(&modules[k]);
                    let ghost cv = c@;
                    ms.push(c);
                    assert(strings_view(ms@) =~= b.push(cv));
                    k = k + 1;
                    assert(strings_view(ms@) =~= strings_view(modules@).take(k as int));
                }
                assert(strings_view(modules@).take(modules.len() as int) =~= strings_view(
                    modules@,
                ));
                let d = ModuleDeclaration {
                    version: copy_string(version),
                    modules: ms,
                    line: tokens[p].line,
                };
                proof {
                    assert(ts[p as int] == tokens@[p as int]@);
                    assert(p + 1 < tokens.len());
                }
                declarations.push(d);
                proof {
                    assert(declarations@.map_values(|d: ModuleDeclaration| d@) =~= before.push(d@));
                    let h = parse_header_from(ts, p + 1);
                    assert(before + (seq![d@] + h.0) =~= before.push(d@) + h.0);
                }
                p = p + 1;
            },
            TokenKind::BugfixSets(enabled) => {
                proof {
                    assert(ts[p as int] == tokens@[p as int]@);
                    assert(p + 1 < tokens.len());
                }
                bug = Some(*enabled);
                p = p + 1;
            },
            _ => {
                proof {
                    assert(ts[p as int] == tokens@[p as int]@);
                    assert(declarations@.map_values(|d: ModuleDeclaration| d@) + seq![]
                        =~= declarations@.map_values(|d: ModuleDeclaration| d@));
                }
                let flag = match bug {
                    Some(b) => b,
                    None => false,
                };
                return (DocumentHeader { declarations, implement_bugfixsets: flag }, p);
            },
        }
    }
}

fn text_at(tokens: &Vec<Token>, pos: usize, close: &str) -> (r: Result<
    (String, usize),
    ParseError,
>)
    requires
        well_ended(tokens_view(tokens@)),
        pos < tokens.len(),
    ensures
        match parse_text(tokens_view(tokens@), pos as int, close@) {
            Ok((t, q)) => r matches Ok((s, q2)) && s@ == t && q2 == q && pos < q < tokens.len(),
            Err(e) => r matches Err(x) && x@ == e,
        },
{
    let ghost ts = tokens_view(tokens@);
    let mut joined = String::new();
    let ghost mut parts: Seq<Seq<char>> = seq![];
    let mut any = false;
    let mut p = pos;
    loop
        invariant
            ts == tokens_view(tokens@),
            well_ended(ts),
            pos <= p < tokens.len(),
            joined@ == join_space(parts),
            any == (parts.len() > 0),
            match text_parts(ts, pos as int, close@) {
                Ok((all, q)) => text_parts(ts, p as int, close@) matches Ok((rest, q2)) && q == q2
                    && all == parts + rest,
                Err(e) => text_parts(ts, p as int, close@) == Err::<(Seq<Seq<char>>, int), _>(e),
            },
        decreases tokens.len() - p,
    {
        let tok = &tokens[p];
        proof {
            assert(ts[p as int] == tok@);
        }
        match &tok.kind {
            TokenKind::Text(t) => {
                proof {
                    assert(p + 1 < tokens.len());
                }
                let ghost np = parts.push(t@);
                if any {
                    append_str(&mut joined, " ");
                }
                any = true;
                append_str(&mut joined, t.as_str());
                proof {
                    if parts.len() == 0 {
                        assert(joined@ =~= join_space(np));
                    } else {
                        assert(np.drop_last() =~= parts);
                    }
                    match text_parts(ts, p + 1, close@) {
                        Ok((rest, q2)) => {
                            assert(parts + (seq![t@] + rest) =~= np + rest);
                        },
                        Err(_) => {},
                    }
                    parts = np;
                }
                p = p + 1;
            },
            TokenKind::CloseTag(name) => {
                if str_eq(name.as_str(), close) {
                    proof {
                        assert(parts + seq![] =~= parts);
                        assert(p + 1 < tokens.len());
                    }
                    let t = trim_string(joined.as_str());
                    return Ok((t, p + 1));
                } else {
                    return Err(
                        ParseError::new(
                            msg3("Expected '[/", close, "]' but found '[/", name.as_str(), "]'"),
                            tok.line,
                            tok.col,
                        ),
                    );
                }
            },
            TokenKind::Eof => {
                return Err(
                    ParseError::new(
                        msg2("Unexpected end of file inside '[", close, "]'"),
                        tok.line,
                        tok.col,
                    ),
                );
            },
            _ => {
                return Err(
                    ParseError::new(
                        msg2("Tags like '[", close, "]' can only contain text, not nested tags"),
                        tok.line,
                        tok.col,
                    ),
                );
            },
        }
    }
}

fn self_closing_tag(name: &String, attrs: &Vec<(String, String)>, line: usize) -> (r: Result<
    Node,
    ParseError,
>)
    ensures
        match parse_self_closing(name@, attrs_view(attrs@), line as nat) {
            Ok(n) => r matches Ok(x) && x@ == n,
            Err(e) => r matches Err(x) && x@ == e,
        },
{
    if str_eq(name.as_str(), "image") {
        let path = match get_attr_exec(attrs, "path") {
            Some(v) => v,
            None => String::new(),
        };
        let alt = match get_attr_exec(attrs, "alt") {
            Some(v) => v,
            None => String::new(),
        };
        Ok(Node::Image { path, alt, line })
    } else {
        Err(ParseError::new(msg2("Unknown self-closing tag '[", name.as_str(), "]'"), line, 0))
    }
}

fn open_tag_at(
    tokens: &Vec<Token>,
    pos: usize,
    name: &String,
    attrs: &Vec<(String, String)>,
    line: usize,
) -> (r: Result<(Node, usize), ParseError>)
    requires
        well_ended(tokens_view(tokens@)),
        pos < tokens.len(),
    ensures
        match parse_open_tag(tokens_view(tokens@), pos as int, name@, attrs_view(attrs@), line as nat) {
            Ok((n, q)) => r matches Ok((x, q2)) && x@ == n && q2 == q && pos <= q < tokens.len(),
            Err(e) => r matches Err(x) && x@ == e,
        },
    decreases tokens.len() - pos, 1int,
{
    let n = name.as_str();
    if str_eq(n, "container") || str_eq(n, "section") {
        let (children, q) = match children_at(tokens, pos, Some(n)) {
            Ok(x) => x,
            Err(e) => {
                return Err(e);
            },
        };
        let id = get_attr_exec(attrs, "id");
        if str_eq(n, "container") {
            Ok((Node::Container { id, children, line }, q))
        } else {
            Ok((Node::Section { id, children, line }, q))
        }
    } else if str_eq(n, "h1") || str_eq(n, "h2") || str_eq(n, "h3") || str_eq(n, "heading") {
        let level: u8 = if str_eq(n, "h1") {
            1
        } else if str_eq(n, "h2") {
            2
        } else if str_eq(n, "h3") {
            3
        } else {
            match get_attr_exec(attrs, "level") {
                Some(v) => match parse_u8_exec(v.as_str()) {
                    Some(x) => x,
                    None => 1,
                },
                None => 1,
            }
        };
        let (text, q) = match text_at(tokens, pos, n) {
            Ok(x) => x,
            Err(e) => {
                return Err(e);
            },
        };
        Ok((Node::Heading { level, text, line }, q))
    } else if str_eq(n, "paragraph") || str_eq(n, "p") {
        let (text, q) = match text_at(tokens, pos, n) {
            Ok(x) => x,
            Err(e) => {
                return Err(e);
            },
        };
        Ok((Node::Paragraph { text, line }, q))
    } else {
        Err(
            ParseError::new(
                msg2(
                    "Unknown tag '[",
                    n,
                    "]'. Valid GN-Z11 tags: container, section, h1, h2, h3, heading, paragraph, p, image",
                ),
                line,
                0,
            ),
        )
    }
}

pub open spec fn opt_str_view(o: Option<&str>) -> Option<Seq<char>> {
    match o {
        Some(s) => Some(s@),
        None => None,
    }
}

fn children_at(tokens: &Vec<Token>, pos: usize, parent: Option<&str>) -> (r: Result<
    (Vec<Node>, usize),
    ParseError,
>)
    requires
        well_ended(tokens_view(tokens@)),
        pos < tokens.len(),
    ensures
        match parse_children(tokens_view(tokens@), pos as int, opt_str_view(parent)) {
            Ok((cs, q)) => r matches Ok((v, q2)) && nodes_view(v@) == cs && q2 == q && pos <= q
                < tokens.len(),
            Err(e) => r matches Err(x) && x@ == e,
        },
    decreases tokens.len() - pos, 0int,
{
    let ghost ts = tokens_view(tokens@);
    let ghost par = opt_str_view(parent);
    let mut children: Vec<Node> = Vec::new();
    let mut p = pos;
    loop
        invariant
            ts == tokens_view(tokens@),
            well_ended(ts),
            pos <= p < tokens.len(),
            par == opt_str_view(parent),
            match parse_children(ts, pos as int, par) {
                Ok((all, q)) => parse_children(ts, p as int, par) matches Ok((rest, q2)) && q == q2
                    && all == nodes_view(children@) + rest,
                Err(e) => parse_children(ts, p as int, par) == Err::<(Seq<SpecNode>, int), _>(e),
            },
        decreases tokens.len() - p,
    {
        let tok = &tokens[p];
        let ghost before = nodes_view(children@);
        proof {
            assert(ts[p as int] == tok@);
        }
        let node: Node;
        match &tok.kind {
            TokenKind::Eof => {
                match parent {
                    Some(tag) => {
                        return Err(
                            ParseError::new(
                                msg2("Unexpected end of file: expected '[/", tag, "]'"),
                                tok.line,
                                tok.col,
                            ),
                        );
                    },
                    None => {
                        proof {
                            assert(before + seq![] =~= before);
                        }
                        return Ok((children, p));
                    },
                }
            },
            TokenKind::CloseTag(name) => {
                match parent {
                    Some(pt) => {
                        if str_eq(name.as_str(), pt) {
                            proof {
                                assert(before + seq![] =~= before);
                                assert(p + 1 < tokens.len());
                            }
                            return Ok((children, p + 1));
                        } else {
                            return Err(
                                ParseError::new(
                                    msg3(
                                        "Mismatched tags: expected '[/",
                                        pt,
                                        "]' but found '[/",
                                        name.as_str(),
                                        "]'",
                                    ),
                                    tok.line,
                                    tok.col,
                                ),
                            );
                        }
                    },
                    None => {
                        return Err(
                            ParseError::new(
                                msg2(
                                    "Unexpected closing tag '[/",
                                    name.as_str(),
                                    "]' with no matching opening tag",
                                ),
                                tok.line,
                                tok.col,
                            ),
                        );
                    },
                }
            },
            TokenKind::OpenTag(name, attrs) => {
                proof {
                    assert(p + 1 < tokens.len());
                }
                let (n, q) = match open_tag_at(tokens, p + 1, name, attrs, tok.line) {
                    Ok(x) => x,
                    Err(e) => {
                        return Err(e);
                    },
                };
                node = n;
                proof {
                    assert(parse_children(ts, p as int, par) == cons(
                        node@,
                        parse_children(ts, q as int, par),
                    ));
                }
                p = q;
            },
            TokenKind::SelfCloseTag(name, attrs) => {
                proof {
                    assert(p + 1 < tokens.len());
                }
                node = match self_closing_tag(name, attrs, tok.line) {
                    Ok(x) => x,
                    Err(e) => {
                        return Err(e);
                    },
                };
                p = p + 1;
            },
            TokenKind::Text(t) => {
                proof {
                    assert(p + 1 < tokens.len());
                }
                node = Node::Paragraph { text: copy_string(t), line: tok.line };
                p = p + 1;
            },
            TokenKind::Comment(c) => {
                proof {
                    assert(p + 1 < tokens.len());
                }
                node = Node::Comment { content: copy_string(c), line: tok.line };
                p = p + 1;
            },
            _ => {
                return Err(
                    ParseError::new(
                        string_of(
                            "Declaration statements must appear at the top of the document, before content",
                        ),
                        tok.line,
                        tok.col,
                    ),
                );
            },
        }
        let ghost nv = node@;
        let ghost oldc = children@;
        proof {
            lemma_nodes_view_push(oldc, node);
        }
        children.push(node);
        proof {
            assert(children@ == oldc.push(node));
            match parse_children(ts, p as int, par) {
                Ok((rest, q2)) => {
                    assert(before + (seq![nv] + rest) =~= nodes_view(children@) + rest);
                },
                Err(_) => {},
            }
        }
    }
}

impl Parser {
    pub fn new(tokens: Vec<Token>) -> (p: Self)
        ensures
            p.tokens() == tokens_view(tokens@),
            p.position() == 0,
    {
        Parser { tokens, pos: 0 }
    }

    /// The tokens being parsed.
    pub closed spec fn tokens(&self) -> Seq<SpecToken> {
        tokens_view(self.tokens@)
    }

    /// How far parsing has gone.
    pub closed spec fn position(&self) -> int {
        self.pos as int
    }

    /// Parses the whole token stream into a document: the result of `parse_tokens`.
    pub fn parse(&mut self) -> (r: Result<Node, ParseError>)
        requires
            well_ended(old(self).tokens()),
            old(self).position() == 0,
        ensures
            match parse_tokens(old(self).tokens()) {
                Ok(n) => r matches Ok(x) && x@ == n,
                Err(e) => r matches Err(x) && x@ == e,
            },
    {
        let ghost ts = tokens_view(self.tokens@);
        let first = &self.tokens[0];
        proof {
            assert(ts[0] == first@);
        }
        match &first.kind {
            TokenKind::RnmdlDecl => {},
            _ => {
                return Err(
                    ParseError::new(
                        string_of("Document must start with '<RNMDL>' on the first line"),
                        first.line,
                        first.col,
                    ),
                );
            },
        }
        let (header, q) = header_at(&self.tokens, 1);
        let (children, q2) = match children_at(&self.tokens, q, None) {
            Ok(x) => x,
            Err(e) => {
                return Err(e);
            },
        };
        self.pos = q2;
        Ok(Node::Document { header, children })
    }
}

} // verus!
