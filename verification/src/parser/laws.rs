//! What holds of every parse: parsing advances through the text and reaches
//! its end, and every node of the tree traces back to the text.

use crate::ast::{Expr, ExprKind};
use crate::lexer::literal::{is_literal, lemma_number_is_literal};
use crate::lexer::token::TokenKind;
use crate::lexer::{lemma_scan_bounds, scan, LexicalErrorKind};
use crate::parser::grammar::{
    advanced, beginning, declarations, dummy, erased, expression, infix_operator, infix_power,
    operators, parse_text, prefix_operator, prefix_power, recover, remaining, state_wf, statement,
    step, term, text_of, State,
};
use vstd::prelude::*;
use vstd::utf8::valid_utf8;

verus! {

/// Reading a token in a well-formed state gives a well-formed state in which
/// no more is left to parse, and less unless the lookahead was the end of the
/// text.
pub proof fn lemma_step_advances(bytes: Seq<u8>, s: State)
    requires
        state_wf(bytes, s),
    ensures
        state_wf(bytes, step(bytes, s).0),
        0 <= remaining(bytes, step(bytes, s).0) <= remaining(bytes, s),
        s.current.kind != TokenKind::Eof ==> advanced(bytes, s, step(bytes, s).0),
{
    lemma_scan_bounds(bytes, s.pos);
    if scan(bytes, s.pos).kind == Ok::<TokenKind, LexicalErrorKind>(TokenKind::Number) {
        lemma_number_is_literal(bytes, s.pos);
    }
}

/// Parsing a term in a well-formed state gives a well-formed state in which
/// no more is left to parse, and less if a term was found. So the tests of
/// [`advanced`] in [`term`] succeed in such a state.
pub proof fn lemma_term_advances(bytes: Seq<u8>, s: State)
    requires
        state_wf(bytes, s),
    ensures
        state_wf(bytes, term(bytes, s).state),
        0 <= remaining(bytes, term(bytes, s).state) <= remaining(bytes, s),
        term(bytes, s).result is Ok ==> advanced(bytes, s, term(bytes, s).state),
    decreases remaining(bytes, s), 0int,
{
    lemma_step_advances(bytes, s);
    let (s1, error) = step(bytes, s);
    if s.current.kind != TokenKind::Number && s.current.kind != TokenKind::LParen
        && prefix_operator(s.current) is None {
    } else if error is Some {
    } else if s.current.kind == TokenKind::Number {
    } else if s.current.kind == TokenKind::LParen {
        lemma_expression_advances(bytes, s1, 0);
        let inner = expression(bytes, s1, 0);
        if inner.result is Ok && inner.state.current.kind == TokenKind::RParen {
            lemma_step_advances(bytes, inner.state);
        }
    } else {
        let op = prefix_operator(s.current)->0;
        lemma_expression_advances(bytes, s1, prefix_power(op.0.node));
    }
}

/// Parsing an expression in a well-formed state gives a well-formed state in
/// which no more is left to parse, and less if an expression was found. So
/// the test of [`advanced`] in [`expression`] succeeds in such a state.
pub proof fn lemma_expression_advances(
    bytes: Seq<u8>,
    s: State,
    min_bp: u8,
)
    requires
        state_wf(bytes, s),
    ensures
        state_wf(bytes, expression(bytes, s, min_bp).state),
        0 <= remaining(bytes, expression(bytes, s, min_bp).state) <= remaining(bytes, s),
        expression(bytes, s, min_bp).result is Ok ==> advanced(
            bytes,
            s,
            expression(bytes, s, min_bp).state,
        ),
    decreases remaining(bytes, s), 1int,
{
    lemma_term_advances(bytes, s);
    let left = term(bytes, s);
    if left.result is Ok {
        lemma_operators_advance(bytes, left.state, left.result->Ok_0, min_bp);
    }
}

/// Parsing operators in a well-formed state gives a well-formed state in
/// which no more is left to parse. So the tests of [`advanced`] in
/// [`operators`] succeed in such a state.
pub proof fn lemma_operators_advance(
    bytes: Seq<u8>,
    s: State,
    left: Expr,
    min_bp: u8,
)
    requires
        state_wf(bytes, s),
    ensures
        state_wf(bytes, operators(bytes, s, left, min_bp).state),
        0 <= remaining(bytes, operators(bytes, s, left, min_bp).state) <= remaining(bytes, s),
    decreases remaining(bytes, s), 2int,
{
    match infix_operator(s.current) {
        None => {},
        Some(op) => {
            let (l_bp, r_bp) = infix_power(op.0.node);
            if l_bp >= min_bp {
                lemma_step_advances(bytes, s);
                let (s1, error) = step(bytes, s);
                if error is None {
                    lemma_expression_advances(bytes, s1, r_bp);
                    let right = expression(bytes, s1, r_bp);
                    if right.result is Ok {
                        lemma_operators_advance(
                            bytes,
                            right.state,
                            Expr::binary_of(op, left, right.result->Ok_0),
                            min_bp);
                    }
                }
            }
        },
    }
}

/// Recovery in a well-formed state gives a well-formed state in which no more
/// is left to parse, and less unless the lookahead was the end of the text.
pub proof fn lemma_recover_advances(bytes: Seq<u8>, s: State)
    requires
        state_wf(bytes, s),
    ensures
        state_wf(bytes, recover(bytes, s).0),
        0 <= remaining(bytes, recover(bytes, s).0) <= remaining(bytes, s),
        s.current.kind != TokenKind::Eof ==> advanced(bytes, s, recover(bytes, s).0),
    decreases remaining(bytes, s),
{
    if s.current.kind != TokenKind::Eof {
        lemma_step_advances(bytes, s);
        let (s1, error) = step(bytes, s);
        if error is Some || s.current.kind != TokenKind::Semicolon {
            lemma_recover_advances(bytes, s1);
        }
    }
}

/// Parsing reads the whole text: from a well-formed state, the declarations
/// end in a well-formed state whose lookahead is the end of the text.
pub proof fn lemma_declarations_reach_the_end(
    bytes: Seq<u8>,
    s: State)
    requires
        state_wf(bytes, s),
    ensures
        state_wf(bytes, declarations(bytes, s).state),
        declarations(bytes, s).state.current.kind == TokenKind::Eof,
    decreases remaining(bytes, s),
{
    if s.current.kind != TokenKind::Eof {
        lemma_expression_advances(bytes, s, 0);
        let found = expression(bytes, s, 0);
        if found.result is Ok && found.state.current.kind == TokenKind::Semicolon {
            lemma_step_advances(bytes, found.state);
        }
        let parsed = statement(bytes, s);
        match parsed.result {
            Ok(_) => {
                lemma_declarations_reach_the_end(bytes, parsed.state);
            },
            Err(_) => {
                lemma_recover_advances(bytes, parsed.state);
                let (s1, _) = recover(bytes, parsed.state);
                lemma_declarations_reach_the_end(bytes, s1);
            },
        }
    }
}

/// Every node of the expression traces back to the text `bytes`: its span is
/// a piece of the text, a number is a number literal there, an operator
/// stands before its operand or between its operands, and the span of an
/// operation reaches from its first part to its last.
pub open spec fn traces(bytes: Seq<u8>, expr: Expr) -> bool
    decreases expr,
{
    &&& expr.0.span.fits(bytes)
    &&& match expr.0.node {
        ExprKind::Number(_) => is_literal(text_of(bytes, expr.0.span)),
        ExprKind::Unary(op, operand) => {
            &&& op.0.span.fits(bytes)
            &&& expr.0.span.start == op.0.span.start
            &&& op.0.span.end <= operand.0.span.start
            &&& expr.0.span.end == operand.0.span.end
            &&& traces(bytes, *operand)
        },
        ExprKind::Binary(op, left, right) => {
            &&& op.0.span.fits(bytes)
            &&& expr.0.span.start == left.0.span.start
            &&& left.0.span.end <= op.0.span.start
            &&& op.0.span.end <= right.0.span.start
            &&& expr.0.span.end == right.0.span.end
            &&& traces(bytes, *left)
            &&& traces(bytes, *right)
        },
    }
}

/// A parsed term traces back to the text. It begins at or behind the
/// lookahead and ends with or before the token consumed last.
pub proof fn lemma_term_traces(bytes: Seq<u8>, s: State)
    requires
        state_wf(bytes, s),
    ensures
        term(bytes, s).result is Ok ==> {
            let expr = term(bytes, s).result->Ok_0;
            &&& traces(bytes, expr)
            &&& s.current.span.start <= expr.0.span.start
            &&& expr.0.span.end <= term(bytes, s).state.previous.span.end
        },
    decreases remaining(bytes, s), 0int,
{
    lemma_step_advances(bytes, s);
    let (s1, error) = step(bytes, s);
    if s.current.kind != TokenKind::Number && s.current.kind != TokenKind::LParen
        && prefix_operator(s.current) is None {
    } else if error is Some {
    } else if s.current.kind == TokenKind::Number {
    } else if s.current.kind == TokenKind::LParen {
        lemma_expression_advances(bytes, s1, 0);
        lemma_expression_traces(bytes, s1, 0);
        let inner = expression(bytes, s1, 0);
        if inner.result is Ok && inner.state.current.kind == TokenKind::RParen {
            lemma_step_advances(bytes, inner.state);
        }
    } else {
        let op = prefix_operator(s.current)->0;
        lemma_expression_advances(bytes, s1, prefix_power(op.0.node));
        lemma_expression_traces(bytes, s1, prefix_power(op.0.node));
    }
}

/// A parsed expression traces back to the text. It begins at or behind the
/// lookahead and ends with or before the token consumed last.
pub proof fn lemma_expression_traces(
    bytes: Seq<u8>,
    s: State,
    min_bp: u8,
)
    requires
        state_wf(bytes, s),
    ensures
        expression(bytes, s, min_bp).result is Ok ==> {
            let expr = expression(bytes, s, min_bp).result->Ok_0;
            &&& traces(bytes, expr)
            &&& s.current.span.start <= expr.0.span.start
            &&& expr.0.span.end <= expression(bytes, s, min_bp).state.previous.span.end
        },
    decreases remaining(bytes, s), 1int,
{
    lemma_term_advances(bytes, s);
    lemma_term_traces(bytes, s);
    let left = term(bytes, s);
    if left.result is Ok {
        lemma_operators_trace(bytes, left.state, left.result->Ok_0, min_bp);
    }
}

/// Operators and operands parsed behind an operand that traces back to the
/// text give an expression that does, and that begins where the operand
/// begins.
pub proof fn lemma_operators_trace(
    bytes: Seq<u8>,
    s: State,
    left: Expr,
    min_bp: u8,
)
    requires
        state_wf(bytes, s),
        traces(bytes, left),
        left.0.span.end <= s.previous.span.end,
    ensures
        operators(bytes, s, left, min_bp).result is Ok ==> {
            let expr = operators(bytes, s, left, min_bp).result->Ok_0;
            &&& traces(bytes, expr)
            &&& expr.0.span.start == left.0.span.start
            &&& expr.0.span.end <= operators(bytes, s, left, min_bp).state.previous.span.end
        },
    decreases remaining(bytes, s), 2int,
{
    match infix_operator(s.current) {
        None => {},
        Some(op) => {
            let (l_bp, r_bp) = infix_power(op.0.node);
            if l_bp >= min_bp {
                lemma_step_advances(bytes, s);
                let (s1, error) = step(bytes, s);
                if error is None {
                    lemma_expression_advances(bytes, s1, r_bp);
                    lemma_expression_traces(bytes, s1, r_bp);
                    let right = expression(bytes, s1, r_bp);
                    if right.result is Ok {
                        lemma_operators_trace(
                            bytes,
                            right.state,
                            Expr::binary_of(op, left, right.result->Ok_0),
                            min_bp);
                    }
                }
            }
        },
    }
}

/// Every declaration of a parsed program traces back to the text.
pub proof fn lemma_declarations_trace(bytes: Seq<u8>, s: State)
    requires
        state_wf(bytes, s),
    ensures
        forall|i: int|
            0 <= i < declarations(bytes, s).decls.len() ==> traces(
                bytes,
                (#[trigger] declarations(bytes, s).decls[i]).expression(),
            ),
    decreases remaining(bytes, s),
{
    if s.current.kind != TokenKind::Eof {
        lemma_expression_advances(bytes, s, 0);
        lemma_expression_traces(bytes, s, 0);
        let found = expression(bytes, s, 0);
        if found.result is Ok && found.state.current.kind == TokenKind::Semicolon {
            lemma_step_advances(bytes, found.state);
        }
        let parsed = statement(bytes, s);
        match parsed.result {
            Ok(expr) => {
                lemma_declarations_trace(bytes, parsed.state);
            },
            Err(_) => {
                lemma_recover_advances(bytes, parsed.state);
                let (s1, _) = recover(bytes, parsed.state);
                lemma_declarations_trace(bytes, s1);
            },
        }
    }
}

/// Parsing begins in a well-formed state.
pub proof fn lemma_beginning_is_well_formed(bytes: Seq<u8>)
    requires
        valid_utf8(bytes),
        bytes.len() <= usize::MAX,
    ensures
        state_wf(bytes, beginning(bytes).0),
{
    let s0 = State { pos: 0, current: dummy(), previous: dummy() };
    vstd::utf8::is_char_boundary_start_end_of_seq(bytes);
    lemma_step_advances(bytes, s0);
    lemma_recover_advances(bytes, step(bytes, s0).0);
}

/// Whether a tree traces back to the text does not depend on the values of
/// its literals.
pub proof fn lemma_erasing_keeps_traces(bytes: Seq<u8>, expr: Expr)
    ensures
        traces(bytes, erased(expr)) == traces(bytes, expr),
    decreases expr,
{
    match expr.0.node {
        ExprKind::Number(_) => {},
        ExprKind::Unary(_, operand) => {
            lemma_erasing_keeps_traces(bytes, *operand);
        },
        ExprKind::Binary(_, left, right) => {
            lemma_erasing_keeps_traces(bytes, *left);
            lemma_erasing_keeps_traces(bytes, *right);
        },
    }
}

/// The parse of a text reads the whole text, and every declaration found
/// traces back to the text.
pub proof fn lemma_parse_reads_the_text(bytes: Seq<u8>)
    requires
        valid_utf8(bytes),
        bytes.len() <= usize::MAX,
    ensures
        state_wf(bytes, parse_text(bytes).state),
        parse_text(bytes).state.current.kind == TokenKind::Eof,
        forall|i: int|
            0 <= i < parse_text(bytes).decls.len() ==> traces(
                bytes,
                (#[trigger] parse_text(bytes).decls[i]).expression(),
            ),
{
    lemma_beginning_is_well_formed(bytes);
    let (s, _) = beginning(bytes);
    lemma_declarations_reach_the_end(bytes, s);
    lemma_declarations_trace(bytes, s);
}

} // verus!
