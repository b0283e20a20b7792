//! From source text to a checked document: lexing, parsing and validation in turn, and the
//! message of the first stage that fails.
use vstd::prelude::*;
use crate::ast::{Node, SpecNode};
use crate::lexer::{Lexer, SpecLexError, lex};
use crate::parser::{Parser, SpecParseError, parse_tokens};
use crate::validator::Validator;
use crate::versions::{SpecValidationError, validate_versioned, errors_view};
use crate::text::{decimal, append_str};

verus! {

pub open spec fn lex_message(e: SpecLexError) -> Seq<char> {
    "[Lex Error] Line "@ + decimal(e.line) + ", Col "@ + decimal(e.col) + ": "@ + e.message
}

pub open spec fn parse_message(e: SpecParseError) -> Seq<char> {
    "[Parse Error] Line "@ + decimal(e.line) + ", Col "@ + decimal(e.col) + ": "@ + e.message
}

pub open spec fn validation_message(e: SpecValidationError) -> Seq<char> {
    "[Validation Error] Line "@ + decimal(e.line) + ": "@ + e.message
}

/// The messages of `es`, one per line (joined by newlines, none after the last).
pub open spec fn joined(es: Seq<SpecValidationError>) -> Seq<char>
    decreases es.len(),
{
    if es.len() == 0 {
        seq![]
    } else if es.len() == 1 {
        validation_message(es[0])
    } else {
        joined(es.drop_last()) + "\n"@ + validation_message(es.last())
    }
}

/// The document that source text `s` holds, or the message of the first stage that fails:
/// the lexer's or the parser's error, or every validation error, one per line.
pub open spec fn document_of(s: Seq<char>) -> Result<SpecNode, Seq<char>> {
    match lex(s) {
        Err(e) => Err(lex_message(e)),
        Ok(ts) => match parse_tokens(ts) {
            Err(e) => Err(parse_message(e)),
            Ok(n) => {
                let errs = validate_versioned(n);
                if errs.len() == 0 {
                    Ok(n)
                } else {
                    Err(joined(errs))
                }
            },
        },
    }
}

/// Lexes, parses and validates `source` (see `document_of`).
pub fn check_document(source: &str) -> (r: Result<Node, String>)
    requires
        source@.len() < usize::MAX,
    ensures
        match document_of(source@) {
            Ok(n) => r matches Ok(x) && x@ == n,
            Err(m) => r matches Err(x) && x@ == m,
        },
{
    let mut lexer = Lexer::new(source);
    let tokens = match lexer.tokenize() {
        Ok(t) => t,
        Err(e) => return Err(e.to_string()),
    };
    proof {
        crate::laws::law_lexer_feeds_parser(source@);
    }
    let mut parser = Parser::new(tokens);
    let ast = match parser.parse() {
        Ok(a) => a,
        Err(e) => return Err(e.to_string()),
    };
    let errors = Validator::new().validate(&ast);
    let ghost ev = errors_view(errors@);
    if errors.len() == 0 {
        return Ok(ast);
    }
    let mut msg = errors[0].to_string();
    proof {
        assert(ev[0] == errors@[0]@);
        assert(ev.take(1).drop_last() =~= Seq::<SpecValidationError>::empty());
        assert(joined(ev.take(1)) == validation_message(ev.take(1)[0]));
    }
    let mut i: usize = 1;
    while i < errors.len()
        invariant
            1 <= i <= errors.len(),
            ev == errors_view(errors@),
            ev.len() == errors.len(),
            msg@ == joined(ev.take(i as int)),
        decreases errors.len() - i,
    {
        append_str(&mut msg, "\n");
        let line = errors[i].to_string();
        append_str(&mut msg, line.as_str());
        proof {
            assert(ev[i as int] == errors@[i as int]@);
            assert(ev.take(i + 1).drop_last() =~= ev.take(i as int));
            assert(ev.take(i + 1).last() == ev[i as int]);
        }
        i = i + 1;
    }
    assert(ev.take(i as int) =~= ev);
    Err(msg)
}

} // verus!
