//! The generated program computes the value of the tree: running it returns
//! what evaluating the last statement gives, whatever the arithmetic.

use crate::ast::{Expr, ExprKind};
use crate::bytecode::Opcode;
use crate::codegen::{
    compile, lemma_constants_len, literals, opcode_of, program, statements, MAX_CONSTANTS,
};
use crate::vm::{
    computes, flow, lemma_function_fixes_run, may_end, negate, run_from, End, Halt, VmError,
};
use vstd::prelude::*;

verus! {

/// The value of an expression when `f` is the arithmetic: `f(op, a, b)` is
/// the result of the binary instruction `op` on `a` and `b`.
pub open spec fn value(expr: Expr, f: spec_fn(Opcode, u64, u64) -> u64) -> u64
    decreases expr,
{
    match expr.0.node {
        ExprKind::Number(bits) => bits,
        ExprKind::Unary(_, operand) => negate(value(*operand, f)),
        ExprKind::Binary(op, left, right) => f(
            opcode_of(op.0.node),
            value(*left, f),
            value(*right, f),
        ),
    }
}

/// A part of a piece of a sequence is found in the sequence where the offsets
/// add up.
proof fn lemma_part_of_piece<T>(whole: Seq<T>, at: int, piece: Seq<T>, off: int, part: Seq<T>)
    requires
        0 <= at,
        at + piece.len() <= whole.len(),
        whole.subrange(at, at + piece.len()) == piece,
        0 <= off,
        off + part.len() <= piece.len(),
        piece.subrange(off, off + part.len()) =~= part,
    ensures
        whole.subrange(at + off, at + off + part.len()) == part,
{
}

/// The instruction stream `code` holds `piece` at offset `ip`.
pub open spec fn holds_at(code: Seq<u8>, ip: int, piece: Seq<u8>) -> bool {
    &&& 0 <= ip
    &&& ip + piece.len() <= code.len()
    &&& code.subrange(ip, ip + piece.len()) == piece
}

/// The constant pool `pool` holds `constants` from index `base` on, within
/// reach of a one-byte operand.
pub open spec fn pool_holds(pool: Seq<u64>, base: nat, constants: Seq<u64>) -> bool {
    &&& base + constants.len() <= MAX_CONSTANTS
    &&& base + constants.len() <= pool.len()
    &&& pool.subrange(base as int, base as int + constants.len()) == constants
}

/// Executing the code of an expression pushes the value of the expression and
/// changes nothing else: a run that reaches the code of `expr` continues
/// behind it with that value on top of the stack.
pub proof fn lemma_expression_runs(
    code: Seq<u8>,
    pool: Seq<u64>,
    ip: int,
    stack: Seq<u64>,
    f: spec_fn(Opcode, u64, u64) -> u64,
    expr: Expr,
    base: nat,
)
    requires
        holds_at(code, ip, compile(expr, base)),
        pool_holds(pool, base, expr.constants()),
    ensures
        run_from(code, pool, ip, stack, f) == run_from(
            code,
            pool,
            ip + compile(expr, base).len(),
            stack.push(value(expr, f)),
            f,
        ),
        flow(code, pool.len(), ip, stack.len() as int) == flow(
            code,
            pool.len(),
            ip + compile(expr, base).len(),
            stack.len() as int + 1,
        ),
    decreases expr,
{
    let piece = compile(expr, base);
    lemma_constants_len(expr);
    match expr.0.node {
        ExprKind::Number(bits) => {
            assert(pool[base as int] == pool.subrange(base as int, base as int + 1)[0]);
        },
        ExprKind::Unary(_, operand) => {
            let inner = compile(*operand, base);
            assert(code.subrange(ip, ip + inner.len()) =~= inner);
            lemma_expression_runs(code, pool, ip, stack, f, *operand, base);
            let v = value(*operand, f);
            assert(code[ip + inner.len()] == piece[inner.len() as int]);
            assert(stack.push(v).drop_last() =~= stack);
        },
        ExprKind::Binary(op, left, right) => {
            let first = compile(*left, base);
            let second = compile(*right, base + left.numbers());
            lemma_constants_len(*left);
            lemma_constants_len(*right);
            assert(code.subrange(ip, ip + first.len()) =~= first);
            lemma_part_of_piece(code, ip, piece, first.len() as int, second);
            assert(pool.subrange(base as int, base as int + left.numbers()) =~= left.constants());
            lemma_part_of_piece(
                pool,
                base as int,
                expr.constants(),
                left.numbers() as int,
                right.constants(),
            );
            lemma_expression_runs(code, pool, ip, stack, f, *left, base);
            let a = value(*left, f);
            lemma_expression_runs(
                code,
                pool,
                ip + first.len(),
                stack.push(a),
                f,
                *right,
                base + left.numbers(),
            );
            let b = value(*right, f);
            let at = ip + first.len() + second.len();
            assert(code[at] == piece[first.len() as int + second.len()]);
            let full = stack.push(a).push(b);
            assert(full.drop_last().drop_last() =~= stack);
        },
    }
}

/// Executing the code of statements whose values are discarded leaves the
/// stack as it was: a run that reaches that code continues behind it.
pub proof fn lemma_statements_run(
    code: Seq<u8>,
    pool: Seq<u64>,
    ip: int,
    stack: Seq<u64>,
    f: spec_fn(Opcode, u64, u64) -> u64,
    exprs: Seq<Expr>,
    base: nat,
)
    requires
        holds_at(code, ip, statements(exprs, base)),
        pool_holds(pool, base, literals(exprs)),
    ensures
        run_from(code, pool, ip, stack, f) == run_from(
            code,
            pool,
            ip + statements(exprs, base).len(),
            stack,
            f,
        ),
        flow(code, pool.len(), ip, stack.len() as int) == flow(
            code,
            pool.len(),
            ip + statements(exprs, base).len(),
            stack.len() as int,
        ),
    decreases exprs.len(),
{
    if exprs.len() > 0 {
        let init = exprs.drop_last();
        let last = exprs.last();
        let head = statements(init, base);
        let middle = base + literals(init).len();
        let piece = compile(last, middle);
        lemma_constants_len(last);
        assert(code.subrange(ip, ip + head.len()) =~= head);
        assert(pool.subrange(base as int, base as int + literals(init).len()) =~= literals(init));
        lemma_statements_run(code, pool, ip, stack, f, init, base);
        let at = ip + head.len();
        lemma_part_of_piece(code, ip, statements(exprs, base), head.len() as int, piece);
        lemma_part_of_piece(
            pool,
            base as int,
            literals(exprs),
            literals(init).len() as int,
            last.constants(),
        );
        lemma_expression_runs(code, pool, at, stack, f, last, middle);
        assert(code[at + piece.len()] == code.subrange(
            ip,
            ip + statements(exprs, base).len(),
        )[head.len() as int + piece.len()]);
        assert(stack.push(value(last, f)).drop_last() =~= stack);
    }
}

/// A generated program returns the value of its last statement: for every
/// non-empty sequence of statements that fits the constant pool, and whatever
/// the arithmetic, running the generated code on an empty stack ends in
/// `Return` with the value of the last expression.
pub proof fn theorem_program_returns_last_value(
    exprs: Seq<Expr>,
    f: spec_fn(Opcode, u64, u64) -> u64,
)
    requires
        exprs.len() > 0,
        literals(exprs).len() <= MAX_CONSTANTS,
    ensures
        run_from(program(exprs, 0), literals(exprs), 0, Seq::empty(), f).result == Some(
            Ok::<u64, VmError>(value(exprs.last(), f)),
        ),
        run_from(program(exprs, 0), literals(exprs), 0, Seq::empty(), f).stack
            == Seq::<u64>::empty(),
        flow(program(exprs, 0), literals(exprs).len(), 0, 0).end == End::Returned,
{
    let code = program(exprs, 0);
    let pool = literals(exprs);
    let init = exprs.drop_last();
    let last = exprs.last();
    let head = statements(init, 0);
    let middle = literals(init).len();
    let piece = compile(last, middle);
    let stack = Seq::<u64>::empty();
    lemma_constants_len(last);
    assert(code.subrange(0, head.len() as int) =~= head);
    assert(pool.subrange(0, literals(init).len() as int) =~= literals(init));
    lemma_statements_run(code, pool, 0, stack, f, init, 0);
    let at = head.len() as int;
    assert(code.subrange(at, at + piece.len()) =~= piece);
    assert(pool.subrange(middle as int, middle as int + last.constants().len())
        =~= last.constants());
    lemma_expression_runs(code, pool, at, stack, f, last, middle);
}

/// Generating and then running a program gives the value of its last
/// statement: whatever state the machine may end in after running the
/// generated code of a non-empty program that fits the constant pool, with
/// arithmetic that the function `f` describes, it has returned the value of
/// the last expression under `f` and left the stack empty.
pub proof fn theorem_run_returns_last_value<F: Fn(Opcode, u64, u64) -> u64>(
    exprs: Seq<Expr>,
    arith: F,
    f: spec_fn(Opcode, u64, u64) -> u64,
    halt: Halt,
)
    requires
        exprs.len() > 0,
        literals(exprs).len() <= MAX_CONSTANTS,
        computes(arith, f),
        may_end(program(exprs, 0), literals(exprs), 0, Seq::empty(), arith, halt),
    ensures
        halt.result == Some(Ok::<u64, VmError>(value(exprs.last(), f))),
        halt.stack == Seq::<u64>::empty(),
{
    lemma_function_fixes_run(program(exprs, 0), literals(exprs), 0, Seq::empty(), arith, f, halt);
    theorem_program_returns_last_value(exprs, f);
}

} // verus!
