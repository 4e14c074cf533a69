//! The parser: precedence climbing over the token stream, with recovery at
//! statement boundaries.
//!
//! What the parser does is defined in [`grammar`] as functions of the text;
//! the [`Parser`] computes those functions. What follows from the
//! definitions for every text is proved in [`laws`].
//!
//! The parser does not know how to read the value of a number literal: the
//! caller supplies that as a function from the literal's text to the bits of
//! its value.

pub mod grammar;
pub mod laws;

use crate::ast::{Ast, BinOp, BinOpKind, Decl, Expr, ExprKind, Stmt, UnOp, UnOpKind};
use crate::lexer::literal::{is_literal, lemma_number_is_literal};
use crate::lexer::token::{Token, TokenKind};
use crate::lexer::span::Span;
use crate::lexer::{lemma_scan_bounds, scan, Lexer, LexicalError, LexicalErrorKind};
use crate::parser::grammar::{
    advanced, beginning, declarations, erased, erased_decl, expecting, expression, filled,
    infix_operator, infix_power, operators, prefix_operator, prefix_power, recover, remaining,
    state_wf, statement, step, term, text_of, Parsed, Problem, State, Tok,
};
use vstd::prelude::*;
use vstd::string::{StringExecFns, StringSliceAdditionalSpecFns};

verus! {

/// `decode` accepts every number literal.
pub open spec fn accepts<F: Fn(&str) -> u64>(decode: F) -> bool {
    forall|text: &str| is_literal(text.spec_bytes()) ==> decode.requires((text,))
}

/// The bits are bits that `decode` may return for the text of the span.
pub open spec fn decodes_to<F: Fn(&str) -> u64>(
    decode: F,
    bytes: Seq<u8>,
    span: Span,
    bits: u64,
) -> bool {
    exists|text: &str|
        text.spec_bytes() == text_of(bytes, span) && #[trigger] decode.ensures((text,), bits)
}

/// The bits of every literal in the expression are bits that `decode` may
/// return for the text of the literal's span.
pub open spec fn decoded<F: Fn(&str) -> u64>(bytes: Seq<u8>, expr: Expr, decode: F) -> bool
    decreases expr,
{
    match expr.0.node {
        ExprKind::Number(bits) => decodes_to(decode, bytes, expr.0.span, bits),
        ExprKind::Unary(_, operand) => decoded(bytes, *operand, decode),
        ExprKind::Binary(_, left, right) => decoded(bytes, *left, decode) && decoded(
            bytes,
            *right,
            decode,
        ),
    }
}

/// The function `d` describes everything that `decode` may return: for a
/// literal with the text `t`, the bits `d(t)`.
pub open spec fn decodes<F: Fn(&str) -> u64>(decode: F, d: spec_fn(Seq<u8>) -> u64) -> bool {
    forall|text: &str, bits: u64| #[trigger]
        decode.ensures((text,), bits) ==> bits == d(text.spec_bytes())
}

/// Where a function describes the decoder, it fixes the tree: a tree whose
/// literals are decoded is the erased tree with the function's values filled
/// in.
pub proof fn lemma_decoded_by_function<F: Fn(&str) -> u64>(
    bytes: Seq<u8>,
    expr: Expr,
    decode: F,
    d: spec_fn(Seq<u8>) -> u64,
)
    requires
        decoded(bytes, expr, decode),
        decodes(decode, d),
    ensures
        expr == filled(bytes, erased(expr), d),
    decreases expr,
{
    match expr.0.node {
        ExprKind::Number(_) => {},
        ExprKind::Unary(_, operand) => {
            lemma_decoded_by_function(bytes, *operand, decode, d);
        },
        ExprKind::Binary(_, left, right) => {
            lemma_decoded_by_function(bytes, *left, decode, d);
            lemma_decoded_by_function(bytes, *right, decode, d);
        },
    }
}

/// A syntax error: where it was found and what was expected there.
#[derive(Debug, Clone)]
pub struct SyntacticError {
    pub span: Span,
    pub message: String,
}

/// An error found while parsing.
#[derive(Debug, Clone)]
pub enum ParseError {
    LexicalError(LexicalError),
    SyntacticError(SyntacticError),
}

impl View for ParseError {
    type V = Problem;

    open spec fn view(&self) -> Problem {
        match self {
            ParseError::LexicalError(error) => Problem::Lexical(*error),
            ParseError::SyntacticError(error) => Problem::Syntactic(error.span, error.message@),
        }
    }
}

impl From<LexicalError> for ParseError {
    fn from(value: LexicalError) -> (error: ParseError) {
        ParseError::LexicalError(value)
    }
}

impl vstd::std_specs::convert::FromSpecImpl<LexicalError> for ParseError {
    open spec fn obeys_from_spec() -> bool {
        true
    }

    open spec fn from_spec(value: LexicalError) -> ParseError {
        ParseError::LexicalError(value)
    }
}

impl From<SyntacticError> for ParseError {
    fn from(value: SyntacticError) -> (error: ParseError) {
        ParseError::SyntacticError(value)
    }
}

impl vstd::std_specs::convert::FromSpecImpl<SyntacticError> for ParseError {
    open spec fn obeys_from_spec() -> bool {
        true
    }

    open spec fn from_spec(value: SyntacticError) -> ParseError {
        ParseError::SyntacticError(value)
    }
}

/// What a parsing function returns, as the grammar speaks of it: the erased
/// expression, or the view of the error.
pub open spec fn erased_result(result: Result<Expr, ParseError>) -> Result<Expr, Problem> {
    match result {
        Ok(expr) => Ok(erased(expr)),
        Err(error) => Err(error@),
    }
}

/// The declarations with the bits of every literal set to zero.
pub open spec fn erased_all(decls: Seq<Decl>) -> Seq<Decl> {
    decls.map_values(|decl: Decl| erased_decl(decl))
}

/// The views of a sequence of errors.
pub open spec fn views(errors: Seq<ParseError>) -> Seq<Problem> {
    errors.map_values(|error: ParseError| error@)
}

/// The prefix operator that `token` stands for, if any.
pub fn prefix_op(token: &Token) -> (op: Option<UnOp>)
    ensures
        op == prefix_operator(Tok { kind: token.kind, span: token.span }),
{
    let unop = match token.kind {
        TokenKind::Minus => UnOp::new(token.span, UnOpKind::Neg),
        _ => return None,
    };
    Some(unop)
}

/// The infix operator that `token` stands for, if any.
pub fn infix_op(token: &Token) -> (op: Option<BinOp>)
    ensures
        op == infix_operator(Tok { kind: token.kind, span: token.span }),
{
    let kind = match token.kind {
        TokenKind::Plus => BinOpKind::Add,
        TokenKind::Minus => BinOpKind::Sub,
        TokenKind::Star => BinOpKind::Mul,
        TokenKind::Slash => BinOpKind::Div,
        TokenKind::Percent => BinOpKind::Rem,
        _ => return None,
    };
    Some(BinOp::new(token.span, kind))
}

/// How tightly a prefix operator binds its operand.
pub fn prefix_binding_power(unop: &UnOp) -> (power: ((), u8))
    ensures
        power.1 == prefix_power(unop.0.node),
{
    match unop.kind() {
        UnOpKind::Neg => ((), 5),
    }
}

/// How tightly an infix operator binds its left and its right operand.
pub fn infix_binding_power(binop: &BinOp) -> (power: (u8, u8))
    ensures
        power == infix_power(binop.0.node),
{
    match binop.kind() {
        BinOpKind::Add | BinOpKind::Sub => (1, 2),
        BinOpKind::Mul | BinOpKind::Div | BinOpKind::Rem => (3, 4),
    }
}

/// A parser over a source text.
#[derive(Debug)]
pub struct Parser<'a> {
    pub source: &'a str,
    pub lexer: Lexer<'a>,
    /// The lookahead token.
    pub current: Token<'a>,
    /// The token consumed last.
    pub previous: Token<'a>,
    pub had_error: bool,
    /// The errors found so far, in order.
    pub errors: Vec<ParseError>,
}

impl<'a> Parser<'a> {
    /// The bytes of the source text.
    pub open spec fn bytes(&self) -> Seq<u8> {
        self.source.spec_bytes()
    }

    /// The state of the parser.
    pub open spec fn state(&self) -> State {
        State {
            pos: self.lexer.position(),
            current: Tok { kind: self.current.kind, span: self.current.span },
            previous: Tok { kind: self.previous.kind, span: self.previous.span },
        }
    }

    /// The errors found so far.
    pub open spec fn problems(&self) -> Seq<Problem> {
        views(self.errors@)
    }

    /// The parser is in a state that it can be in on its text, each token it
    /// holds carries the text of its span, and it knows whether it has found
    /// an error.
    pub open spec fn wf(&self) -> bool {
        &&& self.lexer.wf()
        &&& self.lexer.cursor.source == self.source
        &&& state_wf(self.bytes(), self.state())
        &&& self.current.lexeme.spec_bytes() == text_of(self.bytes(), self.current.span)
        &&& self.previous.lexeme.spec_bytes() == text_of(self.bytes(), self.previous.span)
        &&& self.had_error == (self.errors@.len() > 0)
    }

    /// The same text and the same errors.
    pub open spec fn continues(&self, before: &Parser<'a>) -> bool {
        &&& self.source == before.source
        &&& self.errors == before.errors
        &&& self.had_error == before.had_error
    }

    /// A parser at the beginning of `source`, with the first token read. If
    /// the text does not begin with a token, the error is kept and recovery
    /// follows.
    pub fn new(source: &'a str) -> (parser: Parser<'a>)
        ensures
            parser.wf(),
            parser.source == source,
            parser.state() == beginning(source.spec_bytes()).0,
            parser.problems() == beginning(source.spec_bytes()).1,
    {
        let mut parser = Parser {
            source,
            lexer: Lexer::new(source),
            current: Token::dummy(),
            previous: Token::dummy(),
            had_error: false,
            errors: Vec::new(),
        };
        proof {
            vstd::utf8::encode_utf8_valid_utf8(source@);
            assert(parser.current.lexeme.spec_bytes() =~= text_of(
                parser.bytes(),
                parser.current.span,
            ));
        }

        // For the parser to be in a valid state we need to advance here.
        match parser.advance() {
            Ok(()) => {},
            Err(error) => {
                parser.record(ParseError::LexicalError(error));
                parser.synchronize();
            },
        }
        parser
    }

    /// Keeps an error.
    fn record(&mut self, error: ParseError)
        requires
            old(self).wf(),
        ensures
            final(self).wf(),
            final(self).had_error,
            final(self).source == old(self).source,
            final(self).state() == old(self).state(),
            final(self).problems() == old(self).problems().push(error@),
    {
        self.had_error = true;
        self.errors.push(error);
    }

    /// Discards tokens until a semicolon has been consumed or the end of the
    /// text is reached, and keeps the lexical errors met on the way.
    fn synchronize(&mut self)
        requires
            old(self).wf(),
            old(self).had_error,
        ensures
            final(self).wf(),
            final(self).had_error,
            final(self).source == old(self).source,
            final(self).state() == recover(old(self).bytes(), old(self).state()).0,
            final(self).problems() == old(self).problems() + recover(
                old(self).bytes(),
                old(self).state(),
            ).1,
            0 <= remaining(final(self).bytes(), final(self).state()) <= remaining(
                old(self).bytes(),
                old(self).state(),
            ),
            final(self).current.kind == TokenKind::Eof || advanced(
                old(self).bytes(),
                old(self).state(),
                final(self).state(),
            ),
    {
        let ghost bytes = self.bytes();
        let ghost start = self.state();
        while self.current.kind != TokenKind::Eof
            invariant_except_break
                recover(bytes, self.state()).0 == recover(bytes, start).0,
                self.problems() + recover(bytes, self.state()).1 == old(self).problems() + recover(
                    bytes,
                    start,
                ).1,
            invariant
                self.wf(),
                self.had_error,
                self.source == old(self).source,
                bytes == old(self).bytes(),
                start == old(self).state(),
                0 <= remaining(bytes, self.state()) <= remaining(bytes, start),
            ensures
                self.wf(),
                self.had_error,
                self.source == old(self).source,
                0 <= remaining(bytes, self.state()) <= remaining(bytes, start),
                self.current.kind == TokenKind::Eof || advanced(bytes, start, self.state()),
                self.state() == recover(bytes, start).0,
                self.problems() == old(self).problems() + recover(bytes, start).1,
            decreases remaining(bytes, self.state()),
        {
            match self.current.kind {
                TokenKind::Semicolon => {
                    // If advance fails here we need to continue discarding
                    // until we reach the next declaration.
                    match self.advance() {
                        Ok(()) => {
                            break ;
                        },
                        Err(error) => {
                            self.record(ParseError::LexicalError(error));
                            continue ;
                        },
                    }
                },
                _ => {
                    if let Err(error) = self.advance() {
                        self.record(ParseError::LexicalError(error));
                    }
                    continue ;
                },
            }
        }
    }

    /// Parses the declarations from here to the end of the text. A
    /// declaration that fails leaves its error, and parsing goes on behind
    /// the next semicolon. The tree is complete if no error has been found,
    /// now or earlier.
    ///
    /// The value of a number literal is what `decode` returns for its text.
    pub fn parse<F: Fn(&str) -> u64>(&mut self, decode: F) -> (ast: Ast)
        requires
            old(self).wf(),
            accepts(decode),
        ensures
            final(self).wf(),
            final(self).source == old(self).source,
            ast.complete == !final(self).had_error,
            ast.complete == (final(self).errors@.len() == 0),
            final(self).state() == declarations(old(self).bytes(), old(self).state()).state,
            final(self).state().current.kind == TokenKind::Eof,
            erased_all(ast.decls@) == declarations(old(self).bytes(), old(self).state()).decls,
            forall|i: int|
                0 <= i < ast.decls@.len() ==> decoded(
                    old(self).bytes(),
                    (#[trigger] ast.decls@[i]).expression(),
                    decode,
                ),
            final(self).problems() == old(self).problems() + declarations(
                old(self).bytes(),
                old(self).state(),
            ).problems,
    {
        let ghost bytes = self.bytes();
        let ghost start = self.state();
        let ghost whole = declarations(bytes, start);
        // Attempt to parse declarations, synchronize on failure.
        let mut decls: Vec<Decl> = Vec::new();
        while self.current.kind != TokenKind::Eof
            invariant
                self.wf(),
                self.source == old(self).source,
                accepts(decode),
                bytes == old(self).bytes(),
                start == old(self).state(),
                whole == declarations(bytes, start),
                declarations(bytes, self.state()).state == whole.state,
                erased_all(decls@) + declarations(bytes, self.state()).decls == whole.decls,
                self.problems() + declarations(bytes, self.state()).problems == old(
                    self,
                ).problems() + whole.problems,
                forall|i: int|
                    0 <= i < decls@.len() ==> decoded(
                        bytes,
                        (#[trigger] decls@[i]).expression(),
                        decode,
                    ),
            decreases remaining(bytes, self.state()),
        {
            match self.decl(&decode) {
                Ok(decl) => {
                    decls.push(decl);
                },
                Err(error) => {
                    self.record(error);
                    self.synchronize();
                },
            }
        }
        Ast::new(decls, !self.had_error)
    }

    /// Parses a declaration.
    fn decl<F: Fn(&str) -> u64>(&mut self, decode: &F) -> (result: Result<Decl, ParseError>)
        requires
            old(self).wf(),
            accepts(*decode),
        ensures
            final(self).wf(),
            final(self).continues(old(self)),
            0 <= remaining(final(self).bytes(), final(self).state()) <= remaining(
                old(self).bytes(),
                old(self).state(),
            ),
            result is Ok ==> advanced(old(self).bytes(), old(self).state(), final(self).state()),
            statement(old(self).bytes(), old(self).state()).state == final(self).state(),
            match result {
                Ok(decl) => {
                    let expr = decl.expression();
                    &&& decl == Decl::of(Stmt::of(expr))
                    &&& statement(old(self).bytes(), old(self).state()).result == Ok::<
                        Expr,
                        Problem,
                    >(erased(expr))
                    &&& decoded(old(self).bytes(), expr, *decode)
                },
                Err(error) => statement(old(self).bytes(), old(self).state()).result == Err::<
                    Expr,
                    Problem,
                >(error@),
            },
    {
        Ok(Decl::stmt(self.stmt(decode)?))
    }

    /// Parses a statement: an expression and the semicolon behind it.
    fn stmt<F: Fn(&str) -> u64>(&mut self, decode: &F) -> (result: Result<Stmt, ParseError>)
        requires
            old(self).wf(),
            accepts(*decode),
        ensures
            final(self).wf(),
            final(self).continues(old(self)),
            0 <= remaining(final(self).bytes(), final(self).state()) <= remaining(
                old(self).bytes(),
                old(self).state(),
            ),
            result is Ok ==> advanced(old(self).bytes(), old(self).state(), final(self).state()),
            statement(old(self).bytes(), old(self).state()).state == final(self).state(),
            match result {
                Ok(stmt) => {
                    let expr = stmt.expression();
                    &&& stmt == Stmt::of(expr)
                    &&& statement(old(self).bytes(), old(self).state()).result == Ok::<
                        Expr,
                        Problem,
                    >(erased(expr))
                    &&& decoded(old(self).bytes(), expr, *decode)
                },
                Err(error) => statement(old(self).bytes(), old(self).state()).result == Err::<
                    Expr,
                    Problem,
                >(error@),
            },
    {
        let expr = self.expr(0, decode)?;
        self.expect(TokenKind::Semicolon)?;
        Ok(Stmt::expr(expr))
    }

    /// Reads the next token into the lookahead.
    fn advance(&mut self) -> (result: Result<(), LexicalError>)
        requires
            old(self).wf(),
        ensures
            final(self).wf(),
            final(self).continues(old(self)),
            final(self).state() == step(old(self).bytes(), old(self).state()).0,
            match result {
                Ok(()) => step(old(self).bytes(), old(self).state()).1 is None,
                Err(error) => step(old(self).bytes(), old(self).state()).1 == Some(error),
            },
            0 <= remaining(final(self).bytes(), final(self).state()) <= remaining(
                old(self).bytes(),
                old(self).state(),
            ),
            old(self).current.kind != TokenKind::Eof ==> advanced(
                old(self).bytes(),
                old(self).state(),
                final(self).state(),
            ),
    {
        proof {
            let found = scan(self.bytes(), self.lexer.position());
            lemma_scan_bounds(self.bytes(), self.lexer.position());
            if found.kind == Ok::<TokenKind, LexicalErrorKind>(TokenKind::Number) {
                lemma_number_is_literal(self.bytes(), self.lexer.position());
            }
        }
        let mut token = self.lexer.next_token()?;
        std::mem::swap(&mut self.current, &mut token);
        self.previous = token;
        Ok(())
    }

    /// Consumes the lookahead if it is of the given kind, and fails on it
    /// otherwise.
    fn expect(&mut self, kind: TokenKind) -> (result: Result<(), ParseError>)
        requires
            old(self).wf(),
        ensures
            final(self).wf(),
            final(self).continues(old(self)),
            final(self).state() == expecting(old(self).bytes(), old(self).state(), kind).0,
            match result {
                Ok(()) => expecting(old(self).bytes(), old(self).state(), kind).1 is None,
                Err(error) => expecting(old(self).bytes(), old(self).state(), kind).1 == Some(
                    error@,
                ),
            },
            0 <= remaining(final(self).bytes(), final(self).state()) <= remaining(
                old(self).bytes(),
                old(self).state(),
            ),
    {
        if self.current.kind == kind {
            self.consume()
        } else {
            let mut message = "expected ".to_owned();
            message.append(kind.to_string().as_str());
            message.append(", got ");
            message.append(self.current.kind.to_string().as_str());
            Err(ParseError::SyntacticError(SyntacticError { span: self.current.span, message }))
        }
    }

    /// Parses a term: a number, a parenthesised expression or a negated
    /// operand. A lookahead that begins none of these is an error and is not
    /// consumed.
    fn term<F: Fn(&str) -> u64>(&mut self, decode: &F) -> (result: Result<Expr, ParseError>)
        requires
            old(self).wf(),
            accepts(*decode),
        ensures
            final(self).wf(),
            final(self).continues(old(self)),
            0 <= remaining(final(self).bytes(), final(self).state()) <= remaining(
                old(self).bytes(),
                old(self).state(),
            ),
            result is Ok ==> advanced(old(self).bytes(), old(self).state(), final(self).state()),
            term(old(self).bytes(), old(self).state()) == (Parsed {
                state: final(self).state(),
                result: erased_result(result),
            }),
            result is Ok ==> decoded(old(self).bytes(), result->Ok_0, *decode),
        decreases remaining(old(self).bytes(), old(self).state()), 0int,
    {
        match self.current.kind {
            TokenKind::Number => {
                self.consume()?;
                let text = self.previous.lexeme;
                let number = decode(text);
                let expr = Expr::new(self.previous.span, ExprKind::Number(number));
                assert(decodes_to(*decode, self.bytes(), expr.0.span, number)) by {
                    assert(text.spec_bytes() == text_of(self.bytes(), expr.0.span)
                        && call_ensures(*decode, (text,), number));
                }
                Ok(expr)
            },
            TokenKind::LParen => {
                self.consume()?;
                let expr = self.expr(0, decode)?;
                self.expect(TokenKind::RParen)?;
                Ok(expr)
            },
            _ => {
                if let Some(op) = prefix_op(&self.current) {
                    self.consume()?;
                    let (_, r_bp) = prefix_binding_power(&op);
                    let operand = self.expr(r_bp, decode)?;
                    Ok(Expr::unary(op, operand))
                } else {
                    let mut message = String::new();
                    message.append("expected expression");
                    Err(
                        ParseError::SyntacticError(
                            SyntacticError { span: self.current.span, message },
                        ),
                    )
                }
            },
        }
    }

    /// Consumes the lookahead, whatever it is.
    fn consume(&mut self) -> (result: Result<(), ParseError>)
        requires
            old(self).wf(),
        ensures
            final(self).wf(),
            final(self).continues(old(self)),
            final(self).state() == step(old(self).bytes(), old(self).state()).0,
            match result {
                Ok(()) => step(old(self).bytes(), old(self).state()).1 is None,
                Err(error) => step(old(self).bytes(), old(self).state()).1 is Some
                    && error@ == Problem::Lexical(step(old(self).bytes(), old(self).state()).1->0),
            },
            0 <= remaining(final(self).bytes(), final(self).state()) <= remaining(
                old(self).bytes(),
                old(self).state(),
            ),
            old(self).current.kind != TokenKind::Eof ==> advanced(
                old(self).bytes(),
                old(self).state(),
                final(self).state(),
            ),
    {
        match self.advance() {
            Ok(()) => Ok(()),
            Err(error) => Err(ParseError::LexicalError(error)),
        }
    }

    /// Parses an expression whose operators bind at least as tightly as
    /// `min_bp`.
    fn expr<F: Fn(&str) -> u64>(&mut self, min_bp: u8, decode: &F) -> (result: Result<
        Expr,
        ParseError,
    >)
        requires
            old(self).wf(),
            accepts(*decode),
        ensures
            final(self).wf(),
            final(self).continues(old(self)),
            0 <= remaining(final(self).bytes(), final(self).state()) <= remaining(
                old(self).bytes(),
                old(self).state(),
            ),
            result is Ok ==> advanced(old(self).bytes(), old(self).state(), final(self).state()),
            expression(old(self).bytes(), old(self).state(), min_bp) == (Parsed {
                state: final(self).state(),
                result: erased_result(result),
            }),
            result is Ok ==> decoded(old(self).bytes(), result->Ok_0, *decode),
        decreases remaining(old(self).bytes(), old(self).state()), 1int,
    {
        let ghost bytes = self.bytes();
        let ghost start = self.state();
        let mut expr = self.term(decode)?;

        loop
            invariant
                self.wf(),
                self.continues(old(self)),
                accepts(*decode),
                bytes == old(self).bytes(),
                start == old(self).state(),
                advanced(bytes, start, self.state()),
                decoded(bytes, expr, *decode),
                expression(bytes, start, min_bp) == operators(
                    bytes,
                    self.state(),
                    erased(expr),
                    min_bp,
                ),
            ensures
                expression(bytes, start, min_bp) == (Parsed {
                    state: self.state(),
                    result: Ok(erased(expr)),
                }),
            decreases remaining(bytes, self.state()),
        {
            if let Some(op) = infix_op(&self.current) {
                let (l_bp, r_bp) = infix_binding_power(&op);
                if l_bp < min_bp {
                    break ;
                }
                self.consume()?;
                let right = self.expr(r_bp, decode)?;
                expr = Expr::binary(op, expr, right);
                continue ;
            }
            break ;
        }

        Ok(expr)
    }
}

} // verus!
