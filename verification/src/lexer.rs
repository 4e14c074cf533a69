//! Lexical analysis: source positions, tokens, and the scanner itself.
//!
//! The lexer is a function of the text and a position: [`scan`] says which
//! token, or which error, is found at a byte offset and where it ends. The
//! [`Lexer`] walks the text by that function, one token per request.

pub mod cursor;
pub mod literal;
pub mod span;
pub mod token;

use crate::lexer::cursor::{
    char_at, decides, lemma_next_boundary, lemma_run_end, next_at, peek_at, run_end, Cursor,
};
use crate::lexer::span::Span;
use crate::lexer::token::{Token, TokenKind};
use vstd::prelude::*;
use vstd::string::StringSliceAdditionalSpecFns;
use vstd::utf8::{is_char_boundary, valid_utf8};

verus! {

/// The ASCII whitespace characters: space, tab, line feed, form feed and
/// carriage return.
pub open spec fn is_space(c: char) -> bool {
    c == ' ' || c == '\t' || c == '\n' || c == '\x0C' || c == '\r'
}

/// The ASCII digits.
pub open spec fn is_digit(c: char) -> bool {
    '0' <= c <= '9'
}

/// [`is_space`] as a function value.
pub open spec fn space() -> spec_fn(char) -> bool {
    |c: char| is_space(c)
}

/// [`is_digit`] as a function value.
pub open spec fn digit() -> spec_fn(char) -> bool {
    |c: char| is_digit(c)
}

/// The kind of the token that consists of the single character `c`, if there
/// is one.
pub open spec fn single(c: char) -> Option<TokenKind> {
    if c == '(' {
        Some(TokenKind::LParen)
    } else if c == ')' {
        Some(TokenKind::RParen)
    } else if c == ';' {
        Some(TokenKind::Semicolon)
    } else if c == '*' {
        Some(TokenKind::Star)
    } else if c == '/' {
        Some(TokenKind::Slash)
    } else if c == '%' {
        Some(TokenKind::Percent)
    } else if c == '+' {
        Some(TokenKind::Plus)
    } else if c == '-' {
        Some(TokenKind::Minus)
    } else {
        None
    }
}

/// Where a number literal ends whose first digit ends at `after`: behind the
/// digits that follow and, if a point and at least one digit come next,
/// behind the point and the digits after it.
pub open spec fn number_end(bytes: Seq<u8>, after: int) -> int {
    let whole = run_end(bytes, after, digit());
    if peek_at(bytes, whole) == '.' && is_digit(peek_at(bytes, next_at(bytes, whole))) {
        run_end(bytes, next_at(bytes, whole), digit())
    } else {
        whole
    }
}

/// The kinds of lexical error.
#[derive(Debug, Clone, Copy, PartialEq, Eq, Structural)]
pub enum LexicalErrorKind {
    /// A string that does not end. The language has no strings, so the lexer
    /// never reports this.
    UnterminatedString,
    /// A character that begins no token.
    Unexpected,
}

/// A lexical error and the span of the text that caused it.
#[derive(Debug, Clone, Copy, PartialEq, Eq, Structural)]
pub struct LexicalError {
    pub span: Span,
    pub kind: LexicalErrorKind,
}

/// What the lexer finds at a position: a token of some kind or an error, and
/// the span of text that it covers.
pub struct Lexed {
    pub kind: Result<TokenKind, LexicalErrorKind>,
    pub span: Span,
}

/// What the lexer finds when it is asked for a token at byte offset `pos`.
/// Whitespace is skipped first. The end of the text gives `Eof` with an empty
/// span, a digit begins a number, eight characters are tokens by themselves,
/// and any other character is an error that covers that character.
#[verifier::opaque]
pub open spec fn scan(bytes: Seq<u8>, pos: int) -> Lexed {
    let start = run_end(bytes, pos, space());
    if 0 <= start < bytes.len() {
        let c = char_at(bytes, start);
        let after = next_at(bytes, start);
        if is_digit(c) {
            Lexed {
                kind: Ok(TokenKind::Number),
                span: Span { start: start as usize, end: number_end(bytes, after) as usize },
            }
        } else {
            Lexed {
                kind: match single(c) {
                    Some(kind) => Ok(kind),
                    None => Err(LexicalErrorKind::Unexpected),
                },
                span: Span { start: start as usize, end: after as usize },
            }
        }
    } else {
        Lexed {
            kind: Ok(TokenKind::Eof),
            span: Span { start: start as usize, end: start as usize },
        }
    }
}

/// What [`scan`] finds lies at or behind the position asked about and within
/// the text, and cuts no character in two. `Eof` is found only at the end of
/// the text, with an empty span; everything else covers at least one byte.
pub proof fn lemma_scan_bounds(bytes: Seq<u8>, pos: int)
    requires
        valid_utf8(bytes),
        is_char_boundary(bytes, pos),
        0 <= pos <= bytes.len() <= usize::MAX,
    ensures
        pos <= scan(bytes, pos).span.start <= scan(bytes, pos).span.end <= bytes.len(),
        scan(bytes, pos).span.start == run_end(bytes, pos, space()),
        scan(bytes, pos).span.fits(bytes),
        scan(bytes, pos).kind == Ok::<TokenKind, LexicalErrorKind>(TokenKind::Eof) <==> scan(
            bytes,
            pos,
        ).span.start == bytes.len(),
        scan(bytes, pos).kind == Ok::<TokenKind, LexicalErrorKind>(TokenKind::Eof) <==> scan(
            bytes,
            pos,
        ).span.start == scan(bytes, pos).span.end,
        !(scan(bytes, pos).kind is Ok && scan(bytes, pos).kind->Ok_0 == TokenKind::Dummy),
{
    reveal(scan);
    lemma_run_end(bytes, pos, space());
    let start = run_end(bytes, pos, space());
    if start < bytes.len() {
        lemma_next_boundary(bytes, start);
        let after = next_at(bytes, start);
        lemma_run_end(bytes, after, digit());
        let whole = run_end(bytes, after, digit());
        if whole < bytes.len() {
            lemma_next_boundary(bytes, whole);
            lemma_run_end(bytes, next_at(bytes, whole), digit());
        }
    }
}

/// At the end of the text the lexer finds `Eof` and stays where it is, as
/// often as it is asked.
pub proof fn lemma_eof_repeats(bytes: Seq<u8>)
    requires
        bytes.len() <= usize::MAX,
    ensures
        scan(bytes, bytes.len() as int) == (Lexed {
            kind: Ok(TokenKind::Eof),
            span: Span { start: bytes.len() as usize, end: bytes.len() as usize },
        }),
{
    reveal(scan);
}

/// Tells whether `c` is ASCII whitespace.
pub fn is_ascii_whitespace(c: char) -> (b: bool)
    ensures
        b == is_space(c),
{
    c == ' ' || c == '\t' || c == '\n' || c == '\x0C' || c == '\r'
}

/// Tells whether `c` is an ASCII digit.
pub fn is_ascii_digit(c: char) -> (b: bool)
    ensures
        b == is_digit(c),
{
    '0' <= c && c <= '9'
}

/// Produces the tokens of a text one at a time.
#[derive(Debug)]
pub struct Lexer<'a> {
    pub cursor: Cursor<'a>,
}

impl<'a> Lexer<'a> {
    /// The bytes of the text.
    pub open spec fn bytes(&self) -> Seq<u8> {
        self.cursor.bytes()
    }

    /// The byte offset up to which the text has been read.
    pub open spec fn position(&self) -> int {
        self.cursor.index as int
    }

    /// The lexer stands on a character boundary of its text.
    pub open spec fn wf(&self) -> bool {
        self.cursor.wf()
    }

    /// A lexer at the beginning of `source`.
    pub fn new(source: &'a str) -> (lexer: Lexer<'a>)
        ensures
            lexer.wf(),
            lexer.cursor.source == source,
            lexer.position() == 0,
    {
        Lexer { cursor: Cursor::new(source) }
    }

    /// Reads the next token. After an error the lexer stands behind the
    /// offending character, so reading can go on; at the end of the text
    /// every request gives `Eof`.
    pub fn next_token(&mut self) -> (result: Result<Token<'a>, LexicalError>)
        requires
            old(self).wf(),
        ensures
            final(self).wf(),
            final(self).cursor.source == old(self).cursor.source,
            final(self).cursor.start == final(self).cursor.index,
            final(self).position() == scan(old(self).bytes(), old(self).position()).span.end,
            scan(old(self).bytes(), old(self).position()).span.fits(old(self).bytes()),
            match result {
                Ok(token) => {
                    &&& scan(old(self).bytes(), old(self).position()).kind == Ok::<
                        TokenKind,
                        LexicalErrorKind,
                    >(token.kind)
                    &&& token.span == scan(old(self).bytes(), old(self).position()).span
                    &&& token.lexeme.spec_bytes() == old(self).bytes().subrange(
                        token.span.start as int,
                        token.span.end as int,
                    )
                },
                Err(error) => {
                    &&& scan(old(self).bytes(), old(self).position()).kind == Err::<
                        TokenKind,
                        LexicalErrorKind,
                    >(error.kind)
                    &&& error.span == scan(old(self).bytes(), old(self).position()).span
                },
            },
    {
        proof {
            reveal(scan);
        }
        self.cursor.advance_while(is_ascii_whitespace);
        assert(decides(is_ascii_whitespace, space()));
        self.cursor.reset_start_index();

        let c = self.cursor.advance();
        let kind = if c == '(' {
            TokenKind::LParen
        } else if c == ')' {
            TokenKind::RParen
        } else if c == ';' {
            TokenKind::Semicolon
        } else if c == '*' {
            TokenKind::Star
        } else if c == '/' {
            TokenKind::Slash
        } else if c == '%' {
            TokenKind::Percent
        } else if c == '+' {
            TokenKind::Plus
        } else if c == '-' {
            TokenKind::Minus
        } else if is_ascii_digit(c) {
            // Consume integral part.
            self.cursor.advance_while(is_ascii_digit);
            assert(decides(is_ascii_digit, digit()));

            // Consume fractional part.
            if self.cursor.peek_first() == '.' && is_ascii_digit(self.cursor.peek_second()) {
                self.cursor.advance();
                self.cursor.advance_while(is_ascii_digit);
            }
            TokenKind::Number
        } else if self.cursor.current_index() == self.cursor.start_index() {
            TokenKind::Eof
        } else {
            return Err(self.error(LexicalErrorKind::Unexpected));
        };

        Ok(self.token(kind))
    }

    /// The token of the given kind that covers the piece under the cursor.
    fn token(&mut self, kind: TokenKind) -> (token: Token<'a>)
        requires
            old(self).wf(),
        ensures
            final(self).wf(),
            final(self).cursor.source == old(self).cursor.source,
            final(self).cursor.index == old(self).cursor.index,
            final(self).cursor.start == old(self).cursor.index,
            token.kind == kind,
            token.span == (Span { start: old(self).cursor.start, end: old(self).cursor.index }),
            token.lexeme.spec_bytes() == old(self).bytes().subrange(
                old(self).cursor.start as int,
                old(self).cursor.index as int,
            ),
    {
        Token { lexeme: self.cursor.slice(), span: self.cursor.reset_span(), kind }
    }

    /// The error of the given kind that covers the piece under the cursor.
    fn error(&mut self, kind: LexicalErrorKind) -> (error: LexicalError)
        requires
            old(self).wf(),
        ensures
            final(self).wf(),
            final(self).cursor.source == old(self).cursor.source,
            final(self).cursor.index == old(self).cursor.index,
            final(self).cursor.start == old(self).cursor.index,
            error.kind == kind,
            error.span == (Span { start: old(self).cursor.start, end: old(self).cursor.index }),
    {
        LexicalError { span: self.cursor.reset_span(), kind }
    }
}

} // verus!
