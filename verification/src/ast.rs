use vstd::prelude::*;
use crate::ast_nodes::{AstNode, node_view};
use crate::lexer::{LexError, Lexer, lex};
use crate::parser::{ParseError, Parser, p_module};

verus! {

/// Why a source text could not be turned into a syntax tree.
#[derive(Clone, Copy, PartialEq, Eq, Structural, Debug)]
pub enum SourceError {
    /// The scanner stopped.
    Lex(LexError),
    /// The parser stopped.
    Parse(ParseError),
}

impl SourceError {
    /// The text of the error, as the scanner or the parser reports it.
    pub fn message(&self) -> (r: String)
        ensures
            match *self {
                SourceError::Lex(e) => r@ == (match e {
                    LexError::UnterminatedString => "unterminated string"@,
                    LexError::UnexpectedCharacter(c) => "unexpected character: "@.push(c),
                }),
                SourceError::Parse(e) => r@ == (match e {
                    ParseError::ExpectedToken => "expected token"@,
                    ParseError::InvalidAssignmentTarget => "invalid assignment target"@,
                    ParseError::ExpectedExpression => "expected expression"@,
                }),
            },
    {
        match self {
            SourceError::Lex(e) => e.message(),
            SourceError::Parse(e) => e.message(),
        }
    }
}

/// Scans and parses a whole source text into a module.
pub fn parse_source(source: &str, _filename: &str) -> (r: Result<AstNode, SourceError>)
    requires
        source@.len() < usize::MAX,
    ensures
        match lex(source@) {
            Err(e) => r == Err::<AstNode, SourceError>(SourceError::Lex(e)),
            Ok(toks) => match p_module(toks, 0) {
                Ok((n, _)) => match r {
                    Ok(a) => node_view(a) == n,
                    Err(_) => false,
                },
                Err(e) => r == Err::<AstNode, SourceError>(SourceError::Parse(e)),
            },
        },
{
    let mut lexer = Lexer::new(source);
    match lexer.scan_tokens() {
        Ok(()) => {},
        Err(e) => return Err(SourceError::Lex(e)),
    }
    let tokens = lexer.get_tokens();
    let mut parser = Parser::new(tokens);
    match parser.parse() {
        Ok(m) => Ok(m),
        Err(e) => Err(SourceError::Parse(e)),
    }
}

} // verus!
