//! From source text to a program.
use crate::ast::{Expr, Program};
use crate::grammar;
use crate::grammar::Out;
use crate::parser::{ParseError, Parser};
use crate::text::{cat7, dec, dec_usize};
use crate::token::{LexError, Lexer, SErr, Span, lex, lex_gives_stream};
use crate::tree::{SExpr, SProgram};
use vstd::prelude::*;
use vstd::string::*;

verus! {

/// A fault in a source text: where reading it stopped, and in which stage.
pub ghost enum Fault {
    Lex(SErr),
    Parse(SErr),
}

/// An error with its place.
pub open spec fn placed(stage: Seq<char>, e: SErr) -> Seq<char> {
    stage + " error at "@ + dec(e.span.line as int) + ":"@ + dec(e.span.col as int) + ": "@
        + e.message
}

/// The fault as it is shown to the user.
pub open spec fn fault_text(f: Fault) -> Seq<char> {
    match f {
        Fault::Lex(e) => placed("lex"@, e),
        Fault::Parse(e) => placed("parse"@, e),
    }
}

/// The program that a source text spells, or its first fault.
pub open spec fn read_program(src: Seq<u8>) -> Result<SProgram, Fault> {
    match lex(src, 0) {
        Err(e) => Err(Fault::Lex(e)),
        Ok(ts) => match grammar::program(ts) {
            Out::Bad(e, _) => Err(Fault::Parse(e)),
            Out::Got(p, _) => Ok(p),
        },
    }
}

/// The expression that a source text spells, or its first fault.
pub open spec fn read_expr(src: Seq<u8>) -> Result<SExpr, Fault> {
    match lex(src, 0) {
        Err(e) => Err(Fault::Lex(e)),
        Ok(ts) => match grammar::standalone(ts) {
            Out::Bad(e, _) => Err(Fault::Parse(e)),
            Out::Got(p, _) => Ok(p),
        },
    }
}

/// Why a source text has no program.
pub enum SourceError {
    Lex(LexError),
    Parse(ParseError),
}

impl View for SourceError {
    type V = Fault;

    open spec fn view(&self) -> Fault {
        match *self {
            SourceError::Lex(e) => Fault::Lex(e@),
            SourceError::Parse(e) => Fault::Parse(e@),
        }
    }
}

/// An error with its place.
fn place(stage: &str, span: Span, message: &str) -> (r: String)
    ensures
        r@ == placed(stage@, SErr { message: message@, span }),
{
    let l = dec_usize(span.line);
    let c = dec_usize(span.col);
    cat7(stage, " error at ", l.as_str(), ":", c.as_str(), ": ", message)
}

impl SourceError {
    /// The error as it is shown to the user.
    pub fn to_text(&self) -> (r: String)
        ensures
            r@ == fault_text(self@),
    {
        match self {
            SourceError::Lex(e) => place("lex", e.span, e.message.as_str()),
            SourceError::Parse(e) => place("parse", e.span, e.message.as_str()),
        }
    }
}

/// Reads a program.
pub fn parse_source(src: &str) -> (r: Result<Program, SourceError>)
    ensures
        match r {
            Ok(p) => read_program(src.spec_bytes()) == Ok::<SProgram, Fault>(p@),
            Err(e) => read_program(src.spec_bytes()) == Err::<SProgram, Fault>(e@),
        },
{
    match Lexer::new(src).tokenize() {
        Err(e) => Err(SourceError::Lex(e)),
        Ok(toks) => {
            proof {
                lex_gives_stream(src.spec_bytes(), 0);
            }
            let mut parser = Parser::new(toks);
            match parser.parse_program() {
                Ok(p) => Ok(p),
                Err(e) => Err(SourceError::Parse(e)),
            }
        }
    }
}

/// Reads one expression.
pub fn parse_standalone_expr(src: &str) -> (r: Result<Expr, SourceError>)
    ensures
        match r {
            Ok(e) => read_expr(src.spec_bytes()) == Ok::<SExpr, Fault>(e@),
            Err(e) => read_expr(src.spec_bytes()) == Err::<SExpr, Fault>(e@),
        },
{
    match Lexer::new(src).tokenize() {
        Err(e) => Err(SourceError::Lex(e)),
        Ok(toks) => {
            proof {
                lex_gives_stream(src.spec_bytes(), 0);
            }
            let mut parser = Parser::new(toks);
            match parser.parse_standalone() {
                Ok(p) => Ok(p),
                Err(e) => Err(SourceError::Parse(e)),
            }
        }
    }
}

} // verus!
