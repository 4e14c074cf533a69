//! Tokens, the units that the lexer hands to the parser.

use crate::lexer::span::Span;
use vstd::prelude::*;

verus! {

/// The kinds of token.
#[derive(Debug, PartialEq, Eq, Clone, Copy, Structural)]
pub enum TokenKind {
    LParen,
    RParen,
    Semicolon,
    Number,
    Plus,
    Minus,
    Star,
    Slash,
    Percent,
    /// Never produced by the lexer: a placeholder for the time before the
    /// first token has been read.
    Dummy,
    /// The end of the text. Always the last token that the lexer produces.
    Eof,
}

impl TokenKind {
    /// How the kind is written in messages: the token itself in single
    /// quotes where all tokens of the kind look the same, a description in
    /// angle brackets otherwise.
    pub open spec fn text(self) -> Seq<char> {
        match self {
            TokenKind::LParen => "'('"@,
            TokenKind::RParen => "')'"@,
            TokenKind::Semicolon => "';'"@,
            TokenKind::Number => "<number>"@,
            TokenKind::Plus => "'+'"@,
            TokenKind::Minus => "'-'"@,
            TokenKind::Star => "'*'"@,
            TokenKind::Slash => "'/'"@,
            TokenKind::Percent => "'%'"@,
            TokenKind::Dummy => "'<dummy>'"@,
            TokenKind::Eof => "<eof>"@,
        }
    }

    /// Whether all tokens of this kind have the same lexeme.
    pub fn is_uniform(self) -> (uniform: bool)
        ensures
            uniform == (self != TokenKind::Number),
    {
        !matches!(self, TokenKind::Number)
    }

    /// The kind as it is written in messages.
    pub fn to_string(&self) -> (text: String)
        ensures
            text@ == self.text(),
    {
        let text = match self {
            TokenKind::LParen => "'('",
            TokenKind::RParen => "')'",
            TokenKind::Semicolon => "';'",
            TokenKind::Number => "<number>",
            TokenKind::Plus => "'+'",
            TokenKind::Minus => "'-'",
            TokenKind::Star => "'*'",
            TokenKind::Slash => "'/'",
            TokenKind::Percent => "'%'",
            TokenKind::Dummy => "'<dummy>'",
            TokenKind::Eof => "<eof>",
        };
        text.to_owned()
    }
}

/// A token: its kind, the text it was read from and where that text stands.
#[derive(Debug, PartialEq, Eq, Clone)]
pub struct Token<'a> {
    pub lexeme: &'a str,
    pub span: Span,
    pub kind: TokenKind,
}

impl Token<'_> {
    /// The placeholder token: empty, at the start of the text.
    pub fn dummy() -> (token: Token<'static>)
        ensures
            token.kind == TokenKind::Dummy,
            token.span == (Span { start: 0, end: 0 }),
            token.lexeme@ == Seq::<char>::empty(),
    {
        proof {
            reveal_strlit("");
        }
        Token { lexeme: "", span: Span::new(0, 0), kind: TokenKind::Dummy }
    }
}

} // verus!
