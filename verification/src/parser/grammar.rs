//! What the parser does, as functions of the text.
//!
//! The functions [`step`], [`term`], [`expression`], [`operators`],
//! [`recover`] and [`declarations`] work on a [`State`]: the offset up to
//! which the text has been read and the two tokens that the parser holds.
//!
//! The grammar does not know the values of number literals. In the trees that
//! these functions define every literal has the bits zero: they are trees as
//! [`erased`] makes them. What the value of a literal in a parsed tree is,
//! [`decoded`](crate::parser::decoded) says.

use crate::ast::{
    BinOp, BinOpKind, Decl, DeclKind, Expr, ExprKind, Spanned, Stmt, StmtKind, UnOp, UnOpKind,
};
use crate::lexer::literal::is_literal;
use crate::lexer::span::Span;
use crate::lexer::token::TokenKind;
use crate::lexer::{scan, LexicalError};
use vstd::prelude::*;
use vstd::utf8::{is_char_boundary, valid_utf8};

verus! {

/// What the parser keeps of a token: its kind and its span.
pub struct Tok {
    pub kind: TokenKind,
    pub span: Span,
}

/// The state of the parser: the offset up to which the lexer has read, the
/// lookahead token and the token consumed last.
pub struct State {
    pub pos: int,
    pub current: Tok,
    pub previous: Tok,
}

/// An error found while parsing, with messages as sequences of characters.
pub enum Problem {
    Lexical(LexicalError),
    Syntactic(Span, Seq<char>),
}

/// The outcome of parsing an expression: the state behind it, and the
/// expression or the error that stopped it.
pub struct Parsed {
    pub state: State,
    pub result: Result<Expr, Problem>,
}

/// The outcome of parsing a program: the state at its end, the declarations
/// that were parsed and the errors that were found, each in order.
pub struct Program {
    pub state: State,
    pub decls: Seq<Decl>,
    pub problems: Seq<Problem>,
}

/// The placeholder token that the parser holds before it has read any.
pub open spec fn dummy() -> Tok {
    Tok { kind: TokenKind::Dummy, span: Span { start: 0, end: 0 } }
}

/// The state is one that the parser can be in on the text `bytes`: it has
/// read up to a character boundary, the end of the text is the lookahead only
/// when all has been read, the two tokens are pieces of the text in the order
/// in which they were read, and a number token is a number literal.
pub open spec fn state_wf(bytes: Seq<u8>, s: State) -> bool {
    &&& valid_utf8(bytes)
    &&& 0 <= s.pos <= bytes.len() <= usize::MAX
    &&& is_char_boundary(bytes, s.pos)
    &&& s.current.kind == TokenKind::Eof ==> s.pos == bytes.len()
    &&& s.current.span.fits(bytes)
    &&& s.previous.span.fits(bytes)
    &&& s.previous.span.end <= s.current.span.start
    &&& s.current.span.end <= s.pos
    &&& s.current.kind == TokenKind::Number ==> is_literal(text_of(bytes, s.current.span))
    &&& s.previous.kind == TokenKind::Number ==> is_literal(text_of(bytes, s.previous.span))
}

/// How much is left to parse: the bytes not yet read, and the lookahead
/// unless it is the end of the text.
pub open spec fn remaining(bytes: Seq<u8>, s: State) -> int {
    bytes.len() - s.pos + if s.current.kind == TokenKind::Eof {
        0int
    } else {
        1int
    }
}

/// Less is left to parse in the state `after` than in the state `before`.
pub open spec fn advanced(bytes: Seq<u8>, before: State, after: State) -> bool {
    0 <= remaining(bytes, after) < remaining(bytes, before)
}

/// Reading one token: on success the lookahead becomes the token consumed
/// last and the new token the lookahead; on a lexical error both stay, and
/// the offending character has been read.
pub open spec fn step(bytes: Seq<u8>, s: State) -> (State, Option<LexicalError>) {
    let found = scan(bytes, s.pos);
    match found.kind {
        Ok(kind) => (
            State {
                pos: found.span.end as int,
                current: Tok { kind, span: found.span },
                previous: s.current,
            },
            None,
        ),
        Err(kind) => (
            State { pos: found.span.end as int, current: s.current, previous: s.previous },
            Some(LexicalError { span: found.span, kind }),
        ),
    }
}

/// The message for a token of the wrong kind.
pub open spec fn expected_message(wanted: TokenKind, found: TokenKind) -> Seq<char> {
    "expected "@ + wanted.text() + ", got "@ + found.text()
}

/// Consuming a token of the kind `wanted`: an error at the lookahead, which
/// stays, if it is of another kind.
pub open spec fn expecting(bytes: Seq<u8>, s: State, wanted: TokenKind) -> (
    State,
    Option<Problem>,
) {
    if s.current.kind == wanted {
        let (next, error) = step(bytes, s);
        match error {
            Some(error) => (next, Some(Problem::Lexical(error))),
            None => (next, None),
        }
    } else {
        (s, Some(Problem::Syntactic(s.current.span, expected_message(wanted, s.current.kind))))
    }
}

/// The prefix operator that a token stands for.
pub open spec fn prefix_operator(token: Tok) -> Option<UnOp> {
    if token.kind == TokenKind::Minus {
        Some(UnOp(Spanned { node: UnOpKind::Neg, span: token.span }))
    } else {
        None
    }
}

/// The infix operator that a token stands for.
pub open spec fn infix_operator(token: Tok) -> Option<BinOp> {
    let kind = if token.kind == TokenKind::Plus {
        Some(BinOpKind::Add)
    } else if token.kind == TokenKind::Minus {
        Some(BinOpKind::Sub)
    } else if token.kind == TokenKind::Star {
        Some(BinOpKind::Mul)
    } else if token.kind == TokenKind::Slash {
        Some(BinOpKind::Div)
    } else if token.kind == TokenKind::Percent {
        Some(BinOpKind::Rem)
    } else {
        None
    };
    match kind {
        Some(kind) => Some(BinOp(Spanned { node: kind, span: token.span })),
        None => None,
    }
}

/// How tightly a prefix operator binds its operand.
pub open spec fn prefix_power(kind: UnOpKind) -> u8 {
    5
}

/// How tightly an infix operator binds its left and its right operand. The
/// right power is the larger, which makes the operators associate to the
/// left.
pub open spec fn infix_power(kind: BinOpKind) -> (u8, u8) {
    match kind {
        BinOpKind::Add | BinOpKind::Sub => (1, 2),
        BinOpKind::Mul | BinOpKind::Div | BinOpKind::Rem => (3, 4),
    }
}

/// The text of a span.
pub open spec fn text_of(bytes: Seq<u8>, span: Span) -> Seq<u8> {
    bytes.subrange(span.start as int, span.end as int)
}

/// The expression with the bits of every literal set to zero.
pub open spec fn erased(expr: Expr) -> Expr
    decreases expr,
{
    Expr(
        Spanned {
            node: match expr.0.node {
                ExprKind::Number(_) => ExprKind::Number(0),
                ExprKind::Unary(op, operand) => ExprKind::Unary(op, Box::new(erased(*operand))),
                ExprKind::Binary(op, left, right) => ExprKind::Binary(
                    op,
                    Box::new(erased(*left)),
                    Box::new(erased(*right)),
                ),
            },
            span: expr.0.span,
        },
    )
}

/// The declaration with the bits of every literal set to zero.
pub open spec fn erased_decl(decl: Decl) -> Decl {
    match decl.0.node {
        DeclKind::Stmt(stmt) => match stmt.0.node {
            StmtKind::Expr(expr) => Decl(
                Spanned {
                    node: DeclKind::Stmt(
                        Box::new(
                            Stmt(
                                Spanned {
                                    node: StmtKind::Expr(Box::new(erased(*expr))),
                                    span: stmt.0.span,
                                },
                            ),
                        ),
                    ),
                    span: decl.0.span,
                },
            ),
        },
    }
}

/// The expression with every literal given the value that `d` gives for the
/// text of its span.
pub open spec fn filled(bytes: Seq<u8>, expr: Expr, d: spec_fn(Seq<u8>) -> u64) -> Expr
    decreases expr,
{
    Expr(
        Spanned {
            node: match expr.0.node {
                ExprKind::Number(_) => ExprKind::Number(d(text_of(bytes, expr.0.span))),
                ExprKind::Unary(op, operand) => ExprKind::Unary(
                    op,
                    Box::new(filled(bytes, *operand, d)),
                ),
                ExprKind::Binary(op, left, right) => ExprKind::Binary(
                    op,
                    Box::new(filled(bytes, *left, d)),
                    Box::new(filled(bytes, *right, d)),
                ),
            },
            span: expr.0.span,
        },
    )
}

/// A term: a number, a parenthesised expression or a negated operand. A
/// lookahead that begins no term is an error and stays.
///
/// The tests of [`advanced`], here and in [`expression`] and [`operators`],
/// make the definitions well founded. In a state that satisfies
/// [`state_wf`] they always succeed: there, reading a token advances unless
/// the lookahead is the end of the text.
pub open spec fn term(bytes: Seq<u8>, s: State) -> Parsed
    decreases remaining(bytes, s), 0int,
{
    let missing = Parsed {
        state: s,
        result: Err(Problem::Syntactic(s.current.span, "expected expression"@)),
    };
    let (s1, error) = step(bytes, s);
    if s.current.kind != TokenKind::Number && s.current.kind != TokenKind::LParen
        && prefix_operator(s.current) is None {
        missing
    } else if error is Some {
        Parsed { state: s1, result: Err(Problem::Lexical(error->0)) }
    } else if !advanced(bytes, s, s1) {
        missing
    } else if s.current.kind == TokenKind::Number {
        Parsed {
            state: s1,
            result: Ok(Expr::number_of(s.current.span, 0)),
        }
    } else if s.current.kind == TokenKind::LParen {
        let inner = expression(bytes, s1, 0);
        match inner.result {
            Err(_) => inner,
            Ok(expr) => {
                let (s2, problem) = expecting(bytes, inner.state, TokenKind::RParen);
                match problem {
                    Some(problem) => Parsed { state: s2, result: Err(problem) },
                    None => Parsed { state: s2, result: Ok(expr) },
                }
            },
        }
    } else {
        let op = prefix_operator(s.current)->0;
        let operand = expression(bytes, s1, prefix_power(op.0.node));
        match operand.result {
            Err(_) => operand,
            Ok(expr) => Parsed { state: operand.state, result: Ok(Expr::unary_of(op, expr)) },
        }
    }
}

/// An expression whose operators bind at least as tightly as `min_bp`: a term
/// and the operators that [`operators`] accepts behind it.
pub open spec fn expression(bytes: Seq<u8>, s: State, min_bp: u8) -> Parsed
    decreases remaining(bytes, s), 1int,
{
    let left = term(bytes, s);
    match left.result {
        Err(_) => left,
        Ok(expr) => {
            if advanced(bytes, s, left.state) {
                operators(bytes, left.state, expr, min_bp)
            } else {
                left
            }
        },
    }
}

/// The operators that follow the operand `left`: as long as the lookahead is
/// an infix operator whose left binding power is at least `min_bp`, the
/// operator is consumed, its right operand is parsed at the operator's right
/// binding power, and the two operands become the left operand of what
/// follows.
pub open spec fn operators(bytes: Seq<u8>, s: State, left: Expr, min_bp: u8) -> Parsed
    decreases remaining(bytes, s), 2int,
{
    match infix_operator(s.current) {
        None => Parsed { state: s, result: Ok(left) },
        Some(op) => {
            let (l_bp, r_bp) = infix_power(op.0.node);
            if l_bp < min_bp {
                Parsed { state: s, result: Ok(left) }
            } else {
                let (s1, error) = step(bytes, s);
                if error is Some {
                    Parsed { state: s1, result: Err(Problem::Lexical(error->0)) }
                } else if !advanced(bytes, s, s1) {
                    Parsed { state: s1, result: Ok(left) }
                } else {
                    let right = expression(bytes, s1, r_bp);
                    match right.result {
                        Err(_) => right,
                        Ok(expr) => {
                            if advanced(bytes, s, right.state) {
                                operators(
                                    bytes,
                                    right.state,
                                    Expr::binary_of(op, left, expr),
                                    min_bp)
                            } else {
                                Parsed {
                                    state: right.state,
                                    result: Ok(Expr::binary_of(op, left, expr)),
                                }
                            }
                        },
                    }
                }
            }
        },
    }
}

/// A statement: an expression and the semicolon that ends it.
pub open spec fn statement(bytes: Seq<u8>, s: State) -> Parsed {
    let parsed = expression(bytes, s, 0);
    match parsed.result {
        Err(_) => parsed,
        Ok(expr) => {
            let (s1, problem) = expecting(bytes, parsed.state, TokenKind::Semicolon);
            match problem {
                Some(problem) => Parsed { state: s1, result: Err(problem) },
                None => Parsed { state: s1, result: Ok(expr) },
            }
        },
    }
}

/// Recovery after an error: tokens are discarded until a semicolon has been
/// consumed or the end of the text is the lookahead. Lexical errors met on
/// the way are collected.
pub open spec fn recover(bytes: Seq<u8>, s: State) -> (State, Seq<Problem>)
    decreases remaining(bytes, s),
{
    if s.current.kind == TokenKind::Eof {
        (s, Seq::empty())
    } else {
        let (s1, error) = step(bytes, s);
        if !advanced(bytes, s, s1) {
            (s1, Seq::empty())
        } else {
            match error {
                Some(error) => {
                    let (s2, more) = recover(bytes, s1);
                    (s2, seq![Problem::Lexical(error)] + more)
                },
                None => {
                    if s.current.kind == TokenKind::Semicolon {
                        (s1, Seq::empty())
                    } else {
                        recover(bytes, s1)
                    }
                },
            }
        }
    }
}

/// The declarations from the state `s` on: statements up to the end of the
/// text. A statement that fails leaves its error and is followed by
/// recovery.
pub open spec fn declarations(bytes: Seq<u8>, s: State) -> Program
    decreases remaining(bytes, s),
{
    if s.current.kind == TokenKind::Eof {
        Program { state: s, decls: Seq::empty(), problems: Seq::empty() }
    } else {
        let parsed = statement(bytes, s);
        match parsed.result {
            Ok(expr) => {
                if advanced(bytes, s, parsed.state) {
                    let rest = declarations(bytes, parsed.state);
                    Program {
                        state: rest.state,
                        decls: seq![Decl::of(Stmt::of(expr))] + rest.decls,
                        problems: rest.problems,
                    }
                } else {
                    Program {
                        state: parsed.state,
                        decls: seq![Decl::of(Stmt::of(expr))],
                        problems: Seq::empty(),
                    }
                }
            },
            Err(problem) => {
                let (s1, skipped) = recover(bytes, parsed.state);
                if advanced(bytes, s, s1) {
                    let rest = declarations(bytes, s1);
                    Program {
                        state: rest.state,
                        decls: rest.decls,
                        problems: seq![problem] + skipped + rest.problems,
                    }
                } else {
                    Program { state: s1, decls: Seq::empty(), problems: seq![problem] + skipped }
                }
            },
        }
    }
}

/// The state in which parsing begins, and the errors found on the way to it:
/// the first token is read; if that fails, the error is kept and recovery
/// follows.
pub open spec fn beginning(bytes: Seq<u8>) -> (State, Seq<Problem>) {
    let (s1, error) = step(bytes, State { pos: 0, current: dummy(), previous: dummy() });
    match error {
        None => (s1, Seq::empty()),
        Some(error) => {
            let (s2, skipped) = recover(bytes, s1);
            (s2, seq![Problem::Lexical(error)] + skipped)
        },
    }
}

/// The parse of a whole text: its declarations and all the errors, in the
/// order in which they were found.
pub open spec fn parse_text(bytes: Seq<u8>) -> Program {
    let (s, early) = beginning(bytes);
    let program = declarations(bytes, s);
    Program { state: program.state, decls: program.decls, problems: early + program.problems }
}

} // verus!
