//! The RNMDL lexer (GN-Z11): turns source text into a stream of tokens.
//!
//! The meaning of lexing is given by the spec functions below, which read the
//! source as a sequence of characters and a position in it; the line and
//! column of a position are functions of the characters before it.
use vstd::prelude::*;
use crate::text::{
    unicode_alphanumeric, unicode_lowercase, ascii_lower, trim, is_alphanumeric, to_lowercase,
    to_ascii_lowercase, chars_of, push_char, string_of, append_str, str_eq, trim_bounds,
    string_from,
};

verus! {

#[derive(Debug, Clone, PartialEq)]
pub enum TokenKind {
    RnmdlDecl,
    Declaration(String, Vec<String>),
    BugfixSets(bool),
    OpenTag(String, Vec<(String, String)>),
    CloseTag(String),
    SelfCloseTag(String, Vec<(String, String)>),
    Text(String),
    Comment(String),
    Eof,
}

#[derive(Debug, Clone)]
pub struct Token {
    pub kind: TokenKind,
    pub line: usize,
    pub col: usize,
}

#[derive(Debug)]
pub struct LexError {
    pub message: String,
    pub line: usize,
    pub col: usize,
}

pub struct Lexer {
    input: Vec<char>,
    pos: usize,
    line: usize,
    col: usize,
}

// ─── Views ──────────────────────────────────────────────────

pub type Attrs = Seq<(Seq<char>, Seq<char>)>;

pub enum SpecTokenKind {
    RnmdlDecl,
    Declaration(Seq<char>, Seq<Seq<char>>),
    BugfixSets(bool),
    OpenTag(Seq<char>, Attrs),
    CloseTag(Seq<char>),
    SelfCloseTag(Seq<char>, Attrs),
    Text(Seq<char>),
    Comment(Seq<char>),
    Eof,
}

pub struct SpecToken {
    pub kind: SpecTokenKind,
    pub line: nat,
    pub col: nat,
}

pub struct SpecLexError {
    pub message: Seq<char>,
    pub line: nat,
    pub col: nat,
}

pub open spec fn attrs_view(v: Seq<(String, String)>) -> Attrs {
    v.map_values(|a: (String, String)| (a.0@, a.1@))
}

impl View for TokenKind {
    type V = SpecTokenKind;

    open spec fn view(&self) -> SpecTokenKind {
        match self {
            TokenKind::RnmdlDecl => SpecTokenKind::RnmdlDecl,
            TokenKind::Declaration(v, ms) => SpecTokenKind::Declaration(
                v@,
                ms@.map_values(|m: String| m@),
            ),
            TokenKind::BugfixSets(b) => SpecTokenKind::BugfixSets(*b),
            TokenKind::OpenTag(n, a) => SpecTokenKind::OpenTag(n@, attrs_view(a@)),
            TokenKind::CloseTag(n) => SpecTokenKind::CloseTag(n@),
            TokenKind::SelfCloseTag(n, a) => SpecTokenKind::SelfCloseTag(n@, attrs_view(a@)),
            TokenKind::Text(t) => SpecTokenKind::Text(t@),
            TokenKind::Comment(c) => SpecTokenKind::Comment(c@),
            TokenKind::Eof => SpecTokenKind::Eof,
        }
    }
}

impl View for Token {
    type V = SpecToken;

    open spec fn view(&self) -> SpecToken {
        SpecToken { kind: self.kind@, line: self.line as nat, col: self.col as nat }
    }
}

impl View for LexError {
    type V = SpecLexError;

    open spec fn view(&self) -> SpecLexError {
        SpecLexError { message: self.message@, line: self.line as nat, col: self.col as nat }
    }
}

pub open spec fn tokens_view(v: Seq<Token>) -> Seq<SpecToken> {
    v.map_values(|t: Token| t@)
}

// ─── Positions ──────────────────────────────────────────────

/// Line (from 1) of position `p` of `s`: one more than the newlines before it.
pub open spec fn line_at(s: Seq<char>, p: int) -> nat
    decreases p,
{
    if p <= 0 {
        1
    } else {
        line_at(s, p - 1) + if s[p - 1] == '\n' {
            1nat
        } else {
            0nat
        }
    }
}

/// Column (from 1) of position `p` of `s`: one more than the characters since the last newline.
pub open spec fn col_at(s: Seq<char>, p: int) -> nat
    decreases p,
{
    if p <= 0 {
        1
    } else if s[p - 1] == '\n' {
        1
    } else {
        col_at(s, p - 1) + 1
    }
}

pub proof fn lemma_line_col_bound(s: Seq<char>, p: int)
    requires
        0 <= p,
    ensures
        line_at(s, p) <= p + 1,
        col_at(s, p) <= p + 1,
        line_at(s, p) >= 1,
        col_at(s, p) >= 1,
    decreases p,
{
    if p > 0 {
        lemma_line_col_bound(s, p - 1);
    }
}

pub open spec fn token_at(s: Seq<char>, kind: SpecTokenKind, p: int) -> SpecToken {
    SpecToken { kind, line: line_at(s, p), col: col_at(s, p) }
}

pub open spec fn error_at(s: Seq<char>, message: Seq<char>, p: int) -> SpecLexError {
    SpecLexError { message, line: line_at(s, p), col: col_at(s, p) }
}

// ─── Character classes and scanning ─────────────────────────

pub open spec fn inline_ws(c: char) -> bool {
    c == ' ' || c == '\t' || c == '\r'
}

pub open spec fn word_char(c: char) -> bool {
    unicode_alphanumeric(c) || c == '-' || c == '.' || c == '_'
}

/// First position at or after `p` that is not a space, tab or carriage return.
pub open spec fn skip_ws(s: Seq<char>, p: int) -> int
    decreases s.len() - p,
{
    if 0 <= p < s.len() && inline_ws(s[p]) {
        skip_ws(s, p + 1)
    } else {
        p
    }
}

/// End of the word (letters, digits, '-', '.', '_') that starts at `p`.
pub open spec fn word_end(s: Seq<char>, p: int) -> int
    decreases s.len() - p,
{
    if 0 <= p < s.len() && word_char(s[p]) {
        word_end(s, p + 1)
    } else {
        p
    }
}

/// Whether `lit` occurs at `p`, ignoring ASCII case.
pub open spec fn starts_with_ci(s: Seq<char>, p: int, lit: Seq<char>) -> bool {
    0 <= p && p + lit.len() <= s.len() && forall|i: int|
        0 <= i < lit.len() ==> ascii_lower(#[trigger] s[p + i]) == ascii_lower(lit[i])
}

/// First position at or after `q` that holds '"', or the length.
pub open spec fn quote_close(s: Seq<char>, q: int) -> int
    decreases s.len() - q,
{
    if 0 <= q < s.len() && s[q] != '"' {
        quote_close(s, q + 1)
    } else {
        q
    }
}

/// First position at or after `k` where "-->" starts.
pub open spec fn comment_close(s: Seq<char>, k: int) -> Option<int>
    decreases s.len() - k,
{
    if starts_with_ci(s, k, "-->"@) {
        Some(k)
    } else if 0 <= k < s.len() {
        comment_close(s, k + 1)
    } else {
        None
    }
}

/// End of a text run: the next '[', newline, comment start or the end.
pub open spec fn text_end(s: Seq<char>, p: int) -> int
    decreases s.len() - p,
{
    if 0 <= p < s.len() && s[p] != '[' && s[p] != '\n' && !starts_with_ci(s, p, "<!--"@) {
        text_end(s, p + 1)
    } else {
        p
    }
}

/// Position just after the next newline, or the end.
pub open spec fn line_end(s: Seq<char>, p: int) -> int
    decreases s.len() - p,
{
    if 0 <= p < s.len() {
        if s[p] == '\n' {
            p + 1
        } else {
            line_end(s, p + 1)
        }
    } else {
        p
    }
}

pub proof fn lemma_skip_ws(s: Seq<char>, p: int)
    requires
        0 <= p <= s.len(),
    ensures
        p <= skip_ws(s, p) <= s.len(),
        skip_ws(s, p) < s.len() ==> !inline_ws(s[skip_ws(s, p)]),
    decreases s.len() - p,
{
    if p < s.len() && inline_ws(s[p]) {
        lemma_skip_ws(s, p + 1);
    }
}

pub proof fn lemma_word_end(s: Seq<char>, p: int)
    requires
        0 <= p <= s.len(),
    ensures
        p <= word_end(s, p) <= s.len(),
        word_end(s, p) < s.len() ==> !word_char(s[word_end(s, p)]),
    decreases s.len() - p,
{
    if p < s.len() && word_char(s[p]) {
        lemma_word_end(s, p + 1);
    }
}

pub proof fn lemma_quote_close(s: Seq<char>, q: int)
    requires
        0 <= q <= s.len(),
    ensures
        q <= quote_close(s, q) <= s.len(),
        quote_close(s, q) < s.len() ==> s[quote_close(s, q)] == '"',
    decreases s.len() - q,
{
    if q < s.len() && s[q] != '"' {
        lemma_quote_close(s, q + 1);
    }
}

pub proof fn lemma_comment_close(s: Seq<char>, k: int)
    requires
        0 <= k <= s.len(),
    ensures
        comment_close(s, k) matches Some(e) ==> k <= e && e + 3 <= s.len(),
    decreases s.len() - k,
{
    reveal_strlit("-->");
    if !starts_with_ci(s, k, "-->"@) && k < s.len() {
        lemma_comment_close(s, k + 1);
    }
}

pub proof fn lemma_text_end(s: Seq<char>, p: int)
    requires
        0 <= p <= s.len(),
    ensures
        p <= text_end(s, p) <= s.len(),
    decreases s.len() - p,
{
    if p < s.len() && s[p] != '[' && s[p] != '\n' && !starts_with_ci(s, p, "<!--"@) {
        lemma_text_end(s, p + 1);
    }
}

pub proof fn lemma_line_end(s: Seq<char>, p: int)
    requires
        0 <= p <= s.len(),
    ensures
        p <= line_end(s, p) <= s.len(),
        p < s.len() ==> p < line_end(s, p),
    decreases s.len() - p,
{
    if p < s.len() && s[p] != '\n' {
        lemma_line_end(s, p + 1);
    }
}

// ─── Messages ───────────────────────────────────────────────

pub open spec fn msg_expected_eq(key: Seq<char>) -> Seq<char> {
    "Expected '=' after attribute '"@ + key + "'"@
}

pub open spec fn msg_close_close(name: Seq<char>) -> Seq<char> {
    "Expected ']' to close '[/"@ + name + "]'"@
}

pub open spec fn msg_close_open(name: Seq<char>) -> Seq<char> {
    "Expected ']' to close '["@ + name + "]'"@
}

pub open spec fn msg_declare(version: Seq<char>) -> Seq<char> {
    "Expected 'declare' after version '"@ + version + "'"@
}

// ─── The lexing functions ───────────────────────────────────

/// A quoted attribute value at `p`: its contents and the position after the closing quote.
pub open spec fn read_quoted(s: Seq<char>, p: int) -> Result<(Seq<char>, int), SpecLexError> {
    if 0 <= p < s.len() && s[p] == '"' {
        let k = quote_close(s, p + 1);
        if k < s.len() {
            Ok((s.subrange(p + 1, k), k + 1))
        } else {
            Err(error_at(s, "Unterminated string literal"@, p))
        }
    } else {
        Err(error_at(s, "Expected opening '\"' for attribute value"@, p))
    }
}

/// The `key="value"` attributes from `p` up to a ']' or the end, and the position after them.
pub open spec fn read_attributes(s: Seq<char>, p: int) -> Result<(Attrs, int), SpecLexError>
    decreases s.len() - p,
{
    let p1 = skip_ws(s, p);
    if p1 < 0 || p1 >= s.len() || s[p1] == ']' {
        Ok((seq![], p1))
    } else {
        let q = word_end(s, p1);
        if q == p1 {
            Err(error_at(s, "Expected attribute name"@, p1))
        } else {
            let key = s.subrange(p1, q);
            let p2 = skip_ws(s, q);
            if p2 < s.len() && s[p2] == '=' {
                let p3 = skip_ws(s, p2 + 1);
                match read_quoted(s, p3) {
                    Err(e) => Err(e),
                    Ok((val, p4)) => {
                        proof {
                            if 0 <= p {
                                lemma_skip_ws(s, p);
                                lemma_word_end(s, p1);
                                lemma_skip_ws(s, q);
                                lemma_skip_ws(s, p2 + 1);
                                lemma_quote_close(s, p3 + 1);
                            }
                        }
                        if 0 <= p < p4 {
                            match read_attributes(s, p4) {
                                Err(e) => Err(e),
                                Ok((rest, end)) => Ok((seq![(key, val)] + rest, end)),
                            }
                        } else {
                            Ok((seq![], p4))
                        }
                    },
                }
            } else {
                Err(error_at(s, msg_expected_eq(key), p2))
            }
        }
    }
}

/// The tag that starts with the '[' at `p`, and the position after its ']'.
pub open spec fn read_tag(s: Seq<char>, p: int) -> Result<(SpecTokenKind, int), SpecLexError> {
    let q = p + 1;
    if 0 <= q < s.len() && s[q] == '/' {
        let b = word_end(s, q + 1);
        let name = unicode_lowercase(s.subrange(q + 1, b));
        if name.len() == 0 {
            Err(error_at(s, "Expected tag name after '[/'"@, p))
        } else {
            let c = skip_ws(s, b);
            if c < s.len() && s[c] == ']' {
                Ok((SpecTokenKind::CloseTag(name), c + 1))
            } else {
                Err(error_at(s, msg_close_close(name), p))
            }
        }
    } else {
        let b = word_end(s, q);
        let name = unicode_lowercase(s.subrange(q, b));
        if name.len() == 0 {
            Err(error_at(s, "Expected tag name after '['"@, p))
        } else {
            match read_attributes(s, b) {
                Err(e) => Err(e),
                Ok((attrs, c)) => {
                    let d = skip_ws(s, c);
                    if 0 <= d < s.len() && s[d] == ']' {
                        if name == "image"@ {
                            Ok((SpecTokenKind::SelfCloseTag(name, attrs), d + 1))
                        } else {
                            Ok((SpecTokenKind::OpenTag(name, attrs), d + 1))
                        }
                    } else {
                        Err(error_at(s, msg_close_open(name), p))
                    }
                },
            }
        }
    }
}

/// The comment that starts with "<!--" at `p`: its trimmed text and the position after "-->".
pub open spec fn read_comment(s: Seq<char>, p: int) -> Result<(Seq<char>, int), SpecLexError> {
    match comment_close(s, p + 4) {
        Some(k) => Ok((trim(s.subrange(p + 4, k)), k + 3)),
        None => Err(error_at(s, "Unterminated comment"@, p)),
    }
}

/// The comma-separated module names of a declaration from `p` on; errors report the
/// line of `start`.
pub open spec fn read_modules(s: Seq<char>, p: int, start: int) -> Result<
    (Seq<Seq<char>>, int),
    SpecLexError,
>
    decreases s.len() - p,
{
    let p1 = skip_ws(s, p);
    let q = word_end(s, p1);
    let m = unicode_lowercase(s.subrange(p1, q));
    if m.len() == 0 {
        Err(SpecLexError { message: "Expected module name in declaration"@, line: line_at(s, start), col: col_at(s, q) })
    } else {
        let p2 = skip_ws(s, q);
        proof {
            if 0 <= p <= s.len() {
                lemma_skip_ws(s, p);
                lemma_word_end(s, p1);
                lemma_skip_ws(s, q);
            }
        }
        if 0 <= p && p2 < s.len() && s[p2] == ',' {
            match read_modules(s, p2 + 1, start) {
                Err(e) => Err(e),
                Ok((rest, end)) => Ok((seq![m] + rest, end)),
            }
        } else {
            Ok((seq![m], p2))
        }
    }
}

/// A header line that starts at `p`: a token, or none, and the position after what was read.
pub open spec fn read_declaration(s: Seq<char>, p: int) -> Result<
    (Option<SpecTokenKind>, int),
    SpecLexError,
> {
    let p1 = skip_ws(s, p);
    if starts_with_ci(s, p1, "<rnmdl>"@) {
        Ok((Some(SpecTokenKind::RnmdlDecl), p1 + 7))
    } else if starts_with_ci(s, p1, "from "@) {
        let a = skip_ws(s, p1 + 5);
        let b = word_end(s, a);
        let version = unicode_lowercase(s.subrange(a, b));
        if version.len() == 0 {
            Err(error_at(s, "Expected version name after 'from'"@, p))
        } else {
            let c = skip_ws(s, b);
            if !starts_with_ci(s, c, "declare"@) {
                Err(SpecLexError { message: msg_declare(version), line: line_at(s, p), col: col_at(s, c) })
            } else {
                match read_modules(s, skip_ws(s, c + 7), p) {
                    Err(e) => Err(e),
                    Ok((ms, e)) => Ok((Some(SpecTokenKind::Declaration(version, ms)), e)),
                }
            }
        }
    } else if starts_with_ci(s, p1, "implement_bugfixsets"@) {
        let b = word_end(s, p1);
        let c = skip_ws(s, b);
        let d = if 0 <= c < s.len() && s[c] == '=' {
            c + 1
        } else {
            c
        };
        let e = skip_ws(s, d);
        let f = word_end(s, e);
        Ok((Some(SpecTokenKind::BugfixSets(unicode_lowercase(s.subrange(e, f)) == "true"@)), f))
    } else {
        Ok((None, p1))
    }
}

pub open spec fn prepend(t: SpecToken, rest: Result<Seq<SpecToken>, SpecLexError>) -> Result<
    Seq<SpecToken>,
    SpecLexError,
> {
    match rest {
        Ok(ts) => Ok(seq![t] + ts),
        Err(e) => Err(e),
    }
}

pub open spec fn hdr_measure(b: bool) -> int {
    if b {
        1
    } else {
        0
    }
}

/// The tokens from position `p` on, before the final end-of-file token; `header` holds
/// while the declarations at the top are being read.
pub open spec fn lex_from(s: Seq<char>, p: int, header: bool) -> Result<Seq<SpecToken>, SpecLexError>
    decreases (s.len() - p) * 2 + hdr_measure(header),
{
    if p < 0 || p >= s.len() {
        Ok(seq![])
    } else if s[p] == '\n' || s[p] == '\r' {
        lex_from(s, p + 1, header)
    } else if starts_with_ci(s, p, "<!--"@) {
        match read_comment(s, p) {
            Err(e) => Err(e),
            Ok((c, q)) => if p < q <= s.len() {
                prepend(token_at(s, SpecTokenKind::Comment(c), p), lex_from(s, q, header))
            } else {
                Ok(seq![])
            },
        }
    } else if header {
        let p1 = skip_ws(s, p);
        proof {
            lemma_skip_ws(s, p);
        }
        if p1 < s.len() && s[p1] == '[' {
            lex_from(s, p1, false)
        } else {
            match read_declaration(s, p1) {
                Err(e) => Err(e),
                Ok((tok, q)) => {
                    let r = line_end(s, q);
                    if p < r <= s.len() {
                        match tok {
                            Some(k) => prepend(token_at(s, k, p1), lex_from(s, r, true)),
                            None => lex_from(s, r, true),
                        }
                    } else {
                        Ok(seq![])
                    }
                },
            }
        }
    } else if s[p] == '[' {
        match read_tag(s, p) {
            Err(e) => Err(e),
            Ok((k, q)) => if p < q <= s.len() {
                prepend(token_at(s, k, p), lex_from(s, q, false))
            } else {
                Ok(seq![])
            },
        }
    } else {
        let q = text_end(s, p);
        let q2 = if 0 <= q < s.len() && s[q] == '\n' {
            q + 1
        } else {
            q
        };
        let t = trim(s.subrange(p, q));
        if p < q2 <= s.len() {
            if t.len() > 0 {
                prepend(token_at(s, SpecTokenKind::Text(t), p), lex_from(s, q2, false))
            } else {
                lex_from(s, q2, false)
            }
        } else {
            Ok(seq![])
        }
    }
}

/// The token stream of a whole source: the tokens, then end-of-file.
pub open spec fn lex(s: Seq<char>) -> Result<Seq<SpecToken>, SpecLexError> {
    match lex_from(s, 0, true) {
        Ok(ts) => Ok(ts.push(token_at(s, SpecTokenKind::Eof, s.len() as int))),
        Err(e) => Err(e),
    }
}

// ─── Executable ─────────────────────────────────────────────

impl Token {
    pub fn new(kind: TokenKind, line: usize, col: usize) -> (t: Self)
        ensures
            t.kind == kind,
            t.line == line,
            t.col == col,
    {
        Token { kind, line, col }
    }
}

impl LexError {
    pub fn new(message: String, line: usize, col: usize) -> (e: Self)
        ensures
            e.message@ == message@,
            e.line == line,
            e.col == col,
    {
        LexError { message, line, col }
    }

    /// The message shown to users: "[Lex Error] Line L, Col C: message".
    pub fn to_string(&self) -> (r: String)
        ensures
            r@ == "[Lex Error] Line "@ + crate::text::decimal(self.line as nat) + ", Col "@
                + crate::text::decimal(self.col as nat) + ": "@ + self.message@,
    {
        let mut r = string_of("[Lex Error] Line ");
        crate::text::append_decimal(&mut r, self.line);
        append_str(&mut r, ", Col ");
        crate::text::append_decimal(&mut r, self.col);
        append_str(&mut r, ": ");
        append_str(&mut r, self.message.as_str());
        r
    }
}

impl Lexer {
    /// The lexer's invariant: the position is in the input, and line and column are
    /// those of the position.
    pub closed spec fn wf(&self) -> bool {
        &&& self.input.len() < usize::MAX
        &&& self.pos <= self.input.len()
        &&& self.line == line_at(self.input@, self.pos as int)
        &&& self.col == col_at(self.input@, self.pos as int)
    }

    /// The characters being lexed.
    pub closed spec fn source(&self) -> Seq<char> {
        self.input@
    }

    /// How far lexing has gone.
    pub closed spec fn position(&self) -> int {
        self.pos as int
    }

    pub fn new(source: &str) -> (l: Self)
        requires
            source@.len() < usize::MAX,
        ensures
            l.wf(),
            l.source() == source@,
            l.position() == 0,
    {
        Lexer { input: chars_of(source), pos: 0, line: 1, col: 1 }
    }

    fn peek(&self) -> (r: Option<char>)
        requires
            self.wf(),
        ensures
            self.pos < self.input.len() ==> r == Some(self.input@[self.pos as int]),
            self.pos >= self.input.len() ==> r is None,
    {
        if self.pos < self.input.len() {
            Some(self.input[self.pos])
        } else {
            None
        }
    }

    fn advance(&mut self) -> (r: Option<char>)
        requires
            old(self).wf(),
        ensures
            final(self).wf(),
            final(self).input@ == old(self).input@,
            old(self).pos <= final(self).pos,
            old(self).pos < old(self).input.len() ==> r == Some(old(self).input@[old(self).pos as int])
                && final(self).pos == old(self).pos + 1,
            old(self).pos >= old(self).input.len() ==> r is None && final(self).pos == old(self).pos,
    {
        if self.pos < self.input.len() {
            let c = self.input[self.pos];
            proof {
                lemma_line_col_bound(self.input@, self.pos as int);
            }
            self.pos = self.pos + 1;
            if c == '\n' {
                self.line = self.line + 1;
                self.col = 1;
            } else {
                self.col = self.col + 1;
            }
            Some(c)
        } else {
            None
        }
    }

    fn skip_whitespace_inline(&mut self)
        requires
            old(self).wf(),
        ensures
            final(self).wf(),
            final(self).input@ == old(self).input@,
            old(self).pos <= final(self).pos,
            final(self).pos == skip_ws(old(self).input@, old(self).pos as int),
    {
        let ghost s = self.input@;
        let ghost start = self.pos as int;
        loop
            invariant
                self.wf(),
                self.input@ == s,
                old(self).input@ == s,
                old(self).pos <= self.pos,
                start == old(self).pos as int,
                skip_ws(s, start) == skip_ws(s, self.pos as int),
            decreases s.len() - self.pos,
        {
            match self.peek() {
                Some(c) => {
                    if c == ' ' || c == '\t' || c == '\r' {
                        self.advance();
                    } else {
                        return;
                    }
                },
                None => {
                    return;
                },
            }
        }
    }

    fn pos_info(&self) -> (r: (usize, usize))
        ensures
            r == (self.line, self.col),
    {
        (self.line, self.col)
    }

    fn starts_with(&self, s: &str) -> (r: bool)
        requires
            self.wf(),
        ensures
            r == starts_with_ci(self.input@, self.pos as int, s@),
    {
        let chars = chars_of(s);
        if chars.len() > self.input.len() - self.pos {
            return false;
        }
        let mut i: usize = 0;
        while i < chars.len()
            invariant
                self.wf(),
                chars@ == s@,
                self.pos + chars.len() <= self.input.len(),
                i <= chars.len(),
                forall|k: int|
                    0 <= k < i ==> ascii_lower(#[trigger] self.input@[self.pos + k]) == ascii_lower(
                        chars@[k],
                    ),
            decreases chars.len() - i,
        {
            if to_ascii_lowercase(self.input[self.pos + i]) != to_ascii_lowercase(chars[i]) {
                return false;
            }
            i = i + 1;
        }
        true
    }

    fn read_word(&mut self) -> (w: String)
        requires
            old(self).wf(),
        ensures
            final(self).wf(),
            final(self).input@ == old(self).input@,
            old(self).pos <= final(self).pos,
            final(self).pos == word_end(old(self).input@, old(self).pos as int),
            w@ == final(self).input@.subrange(old(self).pos as int, final(self).pos as int),
    {
        let ghost s = self.input@;
        let ghost start = self.pos as int;
        let mut w = String::new();
        loop
            invariant
                self.wf(),
                self.input@ == s,
                old(self).input@ == s,
                old(self).pos <= self.pos,
                start == old(self).pos as int,
                start <= self.pos,
                word_end(s, start) == word_end(s, self.pos as int),
                w@ == s.subrange(start, self.pos as int),
            decreases s.len() - self.pos,
        {
            match self.peek() {
                Some(c) => {
                    if is_alphanumeric(c) || c == '-' || c == '.' || c == '_' {
                        push_char(&mut w, c);
                        self.advance();
                        assert(w@ =~= s.subrange(start, self.pos as int));
                    } else {
                        return w;
                    }
                },
                None => {
                    return w;
                },
            }
        }
    }

    fn read_quoted_string(&mut self) -> (r: Result<String, LexError>)
        requires
            old(self).wf(),
        ensures
            final(self).wf(),
            final(self).input@ == old(self).input@,
            old(self).pos <= final(self).pos,
            match read_quoted(old(self).input@, old(self).pos as int) {
                Ok((v, q)) => r matches Ok(w) && w@ == v && final(self).pos == q,
                Err(e) => r matches Err(x) && x@ == e,
            },
    {
        let ghost s = self.input@;
        let ghost start = self.pos as int;
        let (line, col) = self.pos_info();
        match self.advance() {
            Some('"') => {},
            _ => {
                return Err(
                    LexError::new(
                        string_of("Expected opening '\"' for attribute value"),
                        line,
                        col,
                    ),
                );
            },
        }
        let mut v = String::new();
        loop
            invariant
                self.wf(),
                self.input@ == s,
                old(self).input@ == s,
                old(self).pos <= self.pos,
                start == old(self).pos as int,
                0 <= start < self.pos,
                s[start] == '"',
                quote_close(s, start + 1) == quote_close(s, self.pos as int),
                v@ == s.subrange(start + 1, self.pos as int),
                line == line_at(s, start),
                col == col_at(s, start),
            decreases s.len() - self.pos,
        {
            let ghost p = self.pos;
            match self.advance() {
                Some('"') => {
                    return Ok(v);
                },
                Some(c) => {
                    push_char(&mut v, c);
                    assert(v@ =~= s.subrange(start + 1, self.pos as int));
                },
                None => {
                    return Err(LexError::new(string_of("Unterminated string literal"), line, col));
                },
            }
        }
    }

    fn read_attributes(&mut self) -> (r: Result<Vec<(String, String)>, LexError>)
        requires
            old(self).wf(),
        ensures
            final(self).wf(),
            final(self).input@ == old(self).input@,
            old(self).pos <= final(self).pos,
            match read_attributes(old(self).input@, old(self).pos as int) {
                Ok((a, q)) => r matches Ok(v) && attrs_view(v@) == a && final(self).pos == q,
                Err(e) => r matches Err(x) && x@ == e,
            },
    {
        let ghost s = self.input@;
        let ghost start = self.pos as int;
        let mut attrs: Vec<(String, String)> = Vec::new();
        loop
            invariant
                self.wf(),
                self.input@ == s,
                old(self).input@ == s,
                old(self).pos <= self.pos,
                start == old(self).pos as int,
                0 <= start <= self.pos,
                match read_attributes(s, start) {
                    Ok((a, q)) => read_attributes(s, self.pos as int) matches Ok((b, q2)) && q
                        == q2 && a == attrs_view(attrs@) + b,
                    Err(e) => read_attributes(s, self.pos as int) == Err::<(Attrs, int), _>(e),
                },
            decreases s.len() - self.pos,
        {
            let ghost p = self.pos as int;
            self.skip_whitespace_inline();
            proof {
                lemma_skip_ws(s, p);
            }
            match self.peek() {
                Some(']') => {
                    return Ok(attrs);
                },
                None => {
                    return Ok(attrs);
                },
                _ => {},
            }
            let (line, col) = self.pos_info();
            let ghost p1 = self.pos as int;
            let key = self.read_word();
            proof {
                lemma_word_end(s, p1);
            }
            if key.as_str().is_empty() {
                return Err(LexError::new(string_of("Expected attribute name"), line, col));
            }
            let ghost q = self.pos as int;
            self.skip_whitespace_inline();
            proof {
                lemma_skip_ws(s, q);
            }
            let (l2, c2) = self.pos_info();
            let ghost p2 = self.pos as int;
            if self.advance() != Some('=') {
                let mut m = string_of("Expected '=' after attribute '");
                append_str(&mut m, key.as_str());
                append_str(&mut m, "'");
                return Err(LexError::new(m, l2, c2));
            }
            self.skip_whitespace_inline();
            let ghost p3 = self.pos as int;
            proof {
                lemma_skip_ws(s, p2 + 1);
            }
            let val = self.read_quoted_string()?;
            proof {
                lemma_quote_close(s, p3 + 1);
                assert(attrs_view(attrs@.push((key, val))) =~= attrs_view(attrs@).push(
                    (key@, val@),
                ));
                match read_attributes(s, self.pos as int) {
                    Ok((b, q2)) => {
                        assert(attrs_view(attrs@) + (seq![(key@, val@)] + b) =~= attrs_view(
                            attrs@.push((key, val)),
                        ) + b);
                    },
                    Err(_) => {},
                }
            }
            attrs.push((key, val));
        }
    }

    fn read_tag(&mut self) -> (r: Result<Token, LexError>)
        requires
            old(self).wf(),
            old(self).pos < old(self).input.len(),
            old(self).input@[old(self).pos as int] == '[',
        ensures
            old(self).pos < final(self).pos,
            final(self).wf(),
            final(self).input@ == old(self).input@,
            old(self).pos <= final(self).pos,
            match read_tag(old(self).input@, old(self).pos as int) {
                Ok((k, q)) => r matches Ok(t) && t@ == token_at(
                    old(self).input@,
                    k,
                    old(self).pos as int,
                ) && final(self).pos == q,
                Err(e) => r matches Err(x) && x@ == e,
            },
    {
        let ghost s = self.input@;
        let ghost p = self.pos as int;
        let (line, col) = self.pos_info();
        self.advance();
        if self.peek() == Some('/') {
            self.advance();
            let word = self.read_word();
            let name = to_lowercase(word.as_str());
            if name.as_str().is_empty() {
                return Err(LexError::new(string_of("Expected tag name after '[/'"), line, col));
            }
            self.skip_whitespace_inline();
            if self.advance() != Some(']') {
                let mut m = string_of("Expected ']' to close '[/");
                append_str(&mut m, name.as_str());
                append_str(&mut m, "]'");
                return Err(LexError::new(m, line, col));
            }
            return Ok(Token::new(TokenKind::CloseTag(name), line, col));
        }
        let word = self.read_word();
        let name = to_lowercase(word.as_str());
        if name.as_str().is_empty() {
            return Err(LexError::new(string_of("Expected tag name after '['"), line, col));
        }
        let attrs = self.read_attributes()?;
        self.skip_whitespace_inline();
        if self.advance() != Some(']') {
            let mut m = string_of("Expected ']' to close '[");
            append_str(&mut m, name.as_str());
            append_str(&mut m, "]'");
            return Err(LexError::new(m, line, col));
        }
        let self_closing = str_eq(name.as_str(), "image");
        if self_closing {
            Ok(Token::new(TokenKind::SelfCloseTag(name, attrs), line, col))
        } else {
            Ok(Token::new(TokenKind::OpenTag(name, attrs), line, col))
        }
    }

    fn advance_n(&mut self, n: usize)
        requires
            old(self).wf(),
            old(self).pos + n <= old(self).input.len(),
        ensures
            final(self).wf(),
            final(self).input@ == old(self).input@,
            old(self).pos <= final(self).pos,
            final(self).pos == old(self).pos + n,
    {
        let ghost p = self.pos;
        for i in 0..n
            invariant
                self.wf(),
                self.input@ == old(self).input@,
                p == old(self).pos,
                p + n <= self.input.len(),
                self.pos == p + i,
        {
            self.advance();
        }
    }

    fn read_comment(&mut self) -> (r: Result<Token, LexError>)
        requires
            old(self).wf(),
            starts_with_ci(old(self).input@, old(self).pos as int, "<!--"@),
        ensures
            old(self).pos < final(self).pos,
            final(self).wf(),
            final(self).input@ == old(self).input@,
            old(self).pos <= final(self).pos,
            match read_comment(old(self).input@, old(self).pos as int) {
                Ok((c, q)) => r matches Ok(t) && t@ == token_at(
                    old(self).input@,
                    SpecTokenKind::Comment(c),
                    old(self).pos as int,
                ) && final(self).pos == q,
                Err(e) => r matches Err(x) && x@ == e,
            },
    {
        let ghost s = self.input@;
        let ghost p = self.pos as int;
        proof {
            reveal_strlit("<!--");
        }
        let (line, col) = self.pos_info();
        self.advance_n(4);
        let mut content = String::new();
        loop
            invariant
                self.wf(),
                self.input@ == s,
                old(self).input@ == s,
                old(self).pos <= self.pos,
                0 <= p,
                p == old(self).pos as int,
                p + 4 <= self.pos,
                comment_close(s, p + 4) == comment_close(s, self.pos as int),
                content@ == s.subrange(p + 4, self.pos as int),
                line == line_at(s, p),
                col == col_at(s, p),
            decreases s.len() - self.pos,
        {
            if self.starts_with("-->") {
                proof {
                    reveal_strlit("-->");
                }
                self.advance_n(3);
                let t = crate::text::trim_string(content.as_str());
                return Ok(Token::new(TokenKind::Comment(t), line, col));
            }
            match self.advance() {
                Some(c) => {
                    push_char(&mut content, c);
                    assert(content@ =~= s.subrange(p + 4, self.pos as int));
                },
                None => {
                    return Err(LexError::new(string_of("Unterminated comment"), line, col));
                },
            }
        }
    }

    fn read_modules(&mut self, line: usize, Ghost(start): Ghost<int>) -> (r: Result<
        Vec<String>,
        LexError,
    >)
        requires
            old(self).wf(),
            0 <= start,
            line == line_at(old(self).input@, start),
        ensures
            final(self).wf(),
            final(self).input@ == old(self).input@,
            old(self).pos <= final(self).pos,
            match read_modules(old(self).input@, old(self).pos as int, start) {
                Ok((ms, q)) => r matches Ok(v) && v@.map_values(|m: String| m@) == ms && final(self).pos
                    == q,
                Err(e) => r matches Err(x) && x@ == e,
            },
    {
        let ghost s = self.input@;
        let ghost p0 = self.pos as int;
        let mut modules: Vec<String> = Vec::new();
        loop
            invariant
                self.wf(),
                self.input@ == s,
                old(self).input@ == s,
                old(self).pos <= self.pos,
                p0 == old(self).pos as int,
                0 <= start,
                line == line_at(s, start),
                match read_modules(s, p0, start) {
                    Ok((ms, q)) => read_modules(s, self.pos as int, start) matches Ok((b, q2)) && q
                        == q2 && ms == modules@.map_values(|m: String| m@) + b,
                    Err(e) => read_modules(s, self.pos as int, start) == Err::<
                        (Seq<Seq<char>>, int),
                        _,
                    >(e),
                },
            decreases s.len() - self.pos,
        {
            let ghost p = self.pos as int;
            self.skip_whitespace_inline();
            let word = self.read_word();
            let m = to_lowercase(word.as_str());
            if m.as_str().is_empty() {
                return Err(
                    LexError::new(string_of("Expected module name in declaration"), line, self.col),
                );
            }
            let ghost before = modules@.map_values(|m: String| m@);
            let ghost mv = m@;
            modules.push(m);
            assert(modules@.map_values(|m: String| m@) =~= before.push(mv));
            self.skip_whitespace_inline();
            proof {
                lemma_skip_ws(s, p);
                lemma_word_end(s, skip_ws(s, p));
                lemma_skip_ws(s, word_end(s, skip_ws(s, p)));
            }
            if self.peek() == Some(',') {
                self.advance();
                proof {
                    match read_modules(s, self.pos as int, start) {
                        Ok((b, q2)) => {
                            assert(before + (seq![mv] + b) =~= before.push(mv) + b);
                        },
                        Err(_) => {},
                    }
                }
            } else {
                assert(before + seq![mv] =~= before.push(mv));
                return Ok(modules);
            }
        }
    }

    fn read_declaration_line(&mut self) -> (r: Result<Option<Token>, LexError>)
        requires
            old(self).wf(),
        ensures
            final(self).wf(),
            final(self).input@ == old(self).input@,
            old(self).pos <= final(self).pos,
            match read_declaration(old(self).input@, old(self).pos as int) {
                Ok((k, q)) => final(self).pos == q && match k {
                    Some(kind) => r matches Ok(Some(t)) && t@ == token_at(
                        old(self).input@,
                        kind,
                        old(self).pos as int,
                    ),
                    None => r matches Ok(None),
                },
                Err(e) => r matches Err(x) && x@ == e,
            },
    {
        let ghost s = self.input@;
        let ghost p = self.pos as int;
        let (line, col) = self.pos_info();
        self.skip_whitespace_inline();
        proof {
            lemma_skip_ws(s, p);
        }
        if self.starts_with("<rnmdl>") {
            proof {
                reveal_strlit("<rnmdl>");
            }
            self.advance_n(7);
            return Ok(Some(Token::new(TokenKind::RnmdlDecl, line, col)));
        }
        if self.starts_with("from ") {
            proof {
                reveal_strlit("from ");
            }
            self.advance_n(5);
            self.skip_whitespace_inline();
            let word = self.read_word();
            let version = to_lowercase(word.as_str());
            if version.as_str().is_empty() {
                return Err(
                    LexError::new(string_of("Expected version name after 'from'"), line, col),
                );
            }
            self.skip_whitespace_inline();
            if !self.starts_with("declare") {
                let mut m = string_of("Expected 'declare' after version '");
                append_str(&mut m, version.as_str());
                append_str(&mut m, "'");
                return Err(LexError::new(m, line, self.col));
            }
            proof {
                reveal_strlit("declare");
            }
            self.advance_n(7);
            self.skip_whitespace_inline();
            let modules = self.read_modules(line, Ghost(p))?;
            return Ok(Some(Token::new(TokenKind::Declaration(version, modules), line, col)));
        }
        if self.starts_with("implement_bugfixsets") {
            self.read_word();
            self.skip_whitespace_inline();
            if self.peek() == Some('=') {
                self.advance();
            }
            self.skip_whitespace_inline();
            let word = self.read_word();
            let val = to_lowercase(word.as_str());
            let enabled = str_eq(val.as_str(), "true");
            return Ok(Some(Token::new(TokenKind::BugfixSets(enabled), line, col)));
        }
        Ok(None)
    }

    fn consume_line(&mut self)
        requires
            old(self).wf(),
        ensures
            final(self).wf(),
            final(self).input@ == old(self).input@,
            old(self).pos <= final(self).pos,
            final(self).pos == line_end(old(self).input@, old(self).pos as int),
    {
        let ghost s = self.input@;
        loop
            invariant
                self.wf(),
                self.input@ == s,
                old(self).input@ == s,
                old(self).pos <= self.pos,
                line_end(s, old(self).pos as int) == line_end(s, self.pos as int),
            decreases s.len() - self.pos,
        {
            match self.peek() {
                Some(c) => {
                    if c == '\n' {
                        self.advance();
                        return;
                    }
                    self.advance();
                },
                None => {
                    return;
                },
            }
        }
    }

    /// A run of text from the current position: its trimmed token when not blank.
    fn read_text(&mut self) -> (r: Option<Token>)
        requires
            old(self).wf(),
            old(self).pos < old(self).input.len(),
        ensures
            final(self).wf(),
            final(self).input@ == old(self).input@,
            ({
                let s = old(self).input@;
                let p = old(self).pos as int;
                let q = text_end(s, p);
                let q2 = if 0 <= q < s.len() && s[q] == '\n' {
                    q + 1
                } else {
                    q
                };
                let t = trim(s.subrange(p, q));
                &&& final(self).pos == q2
                &&& p <= q <= q2 <= s.len()
                &&& t.len() > 0 ==> (r matches Some(tok) && tok@ == token_at(
                    s,
                    SpecTokenKind::Text(t),
                    p,
                ))
                &&& t.len() == 0 ==> r is None
            }),
    {
        let ghost s = self.input@;
        proof {
            lemma_text_end(s, self.pos as int);
        }
        let (line, col) = self.pos_info();
        let start = self.pos;
        loop
            invariant
                self.wf(),
                self.input@ == s,
                old(self).input@ == s,
                start == old(self).pos,
                start <= self.pos,
                text_end(s, start as int) == text_end(s, self.pos as int),
                line == line_at(s, start as int),
                col == col_at(s, start as int),
            ensures
                self.wf(),
                self.input@ == s,
                start <= self.pos,
                text_end(s, start as int) == self.pos,
                line == line_at(s, start as int),
                col == col_at(s, start as int),
            decreases s.len() - self.pos,
        {
            match self.peek() {
                Some(c) => {
                    if c == '[' || c == '\n' {
                        break;
                    }
                    if self.starts_with("<!--") {
                        break;
                    }
                    self.advance();
                },
                None => {
                    break;
                },
            }
        }
        let end = self.pos;
        if self.peek() == Some('\n') {
            self.advance();
        }
        let (a, b) = trim_bounds(&self.input, start, end);
        if a < b {
            let trimmed = string_from(&self.input, a, b);
            Some(Token::new(TokenKind::Text(trimmed), line, col))
        } else {
            None
        }
    }

    /// Lexes the whole input: the tokens of `lex`, or the first error met.
    pub fn tokenize(&mut self) -> (r: Result<Vec<Token>, LexError>)
        requires
            old(self).wf(),
            old(self).position() == 0,
        ensures
            match lex(old(self).source()) {
                Ok(ts) => r matches Ok(v) && tokens_view(v@) == ts,
                Err(e) => r matches Err(x) && x@ == e,
            },
    {
        let ghost s = self.input@;
        let mut tokens: Vec<Token> = Vec::new();
        let mut in_header = true;
        while self.pos < self.input.len()
            invariant
                self.wf(),
                self.input@ == s,
                old(self).input@ == s,
                old(self).pos == 0,
                match lex_from(s, 0, true) {
                    Ok(ts) => lex_from(s, self.pos as int, in_header) matches Ok(b) && ts
                        == tokens_view(tokens@) + b,
                    Err(e) => lex_from(s, self.pos as int, in_header) == Err::<Seq<SpecToken>, _>(
                        e,
                    ),
                },
            decreases (s.len() - self.pos) * 2 + hdr_measure(in_header),
        {
            let ghost p = self.pos as int;
            let ghost h = in_header;
            let ghost before = tokens_view(tokens@);
            match self.peek() {
                Some('\n') => {
                    self.advance();
                    continue;
                },
                Some('\r') => {
                    self.advance();
                    continue;
                },
                _ => {},
            }
            let step: Option<Token>;
            if self.starts_with("<!--") {
                let tok = match self.read_comment() {
                    Ok(t) => t,
                    Err(e) => {
                        assert(lex_from(s, p, h) == Err::<Seq<SpecToken>, SpecLexError>(e@));
                        return Err(e);
                    },
                };
                step = Some(tok);
                proof {
                    assert(lex_from(s, p, h) == prepend(tok@, lex_from(s, self.pos as int, h)));
                }
            } else if in_header {
                self.skip_whitespace_inline();
                proof {
                    lemma_skip_ws(s, p);
                }
                if self.peek() == Some('[') {
                    in_header = false;
                    continue;
                }
                let ghost p1 = self.pos as int;
                let decl = self.read_declaration_line()?;
                let ghost q = self.pos as int;
                self.consume_line();
                proof {
                    lemma_line_end(s, q);
                }
                proof {
                    match &decl {
                        Some(tok) => {
                            assert(lex_from(s, p, h) == prepend(
                                tok@,
                                lex_from(s, self.pos as int, h),
                            ));
                        },
                        None => {
                            assert(lex_from(s, p, h) == lex_from(s, self.pos as int, h));
                        },
                    }
                }
                step = decl;
            } else if self.peek() == Some('[') {
                let tok = match self.read_tag() {
                    Ok(t) => t,
                    Err(e) => {
                        assert(lex_from(s, p, h) == Err::<Seq<SpecToken>, SpecLexError>(e@));
                        return Err(e);
                    },
                };
                step = Some(tok);
                proof {
                    assert(lex_from(s, p, h) == prepend(tok@, lex_from(s, self.pos as int, false)));
                }
            } else {
                proof {
                    assert(text_end(s, p) == text_end(s, p + 1));
                    lemma_text_end(s, p + 1);
                }
                step = self.read_text();
                proof {
                    match &step {
                        Some(tok) => {
                            assert(lex_from(s, p, h) == prepend(
                                tok@,
                                lex_from(s, self.pos as int, false),
                            ));
                        },
                        None => {
                            assert(lex_from(s, p, h) == lex_from(s, self.pos as int, false));
                        },
                    }
                }
            }
            match step {
                Some(tok) => {
                    tokens.push(tok);
                    proof {
                        assert(tokens_view(tokens@) =~= before.push(tok@));
                        match lex_from(s, self.pos as int, in_header) {
                            Ok(b) => {
                                assert(before + (seq![tok@] + b) =~= before.push(tok@) + b);
                            },
                            Err(_) => {},
                        }
                    }
                },
                None => {},
            }
        }
        let eof = Token::new(TokenKind::Eof, self.line, self.col);
        proof {
            assert(lex_from(s, self.pos as int, in_header) =~= Ok(seq![]));
            match lex_from(s, 0, true) {
                Ok(ts) => {
                    assert(ts =~= tokens_view(tokens@));
                },
                Err(_) => {},
            }
        }
        let ghost before = tokens_view(tokens@);
        tokens.push(eof);
        assert(tokens_view(tokens@) =~= before.push(eof@));
        Ok(tokens)
    }
}

} // verus!
