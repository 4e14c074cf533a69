//! Lowering of the syntax tree to bytecode. That the generated program
//! computes the value of the tree is proved in [`correctness`].
//!
//! Every statement but the last is evaluated and its value popped. The last
//! statement's value is what the program returns: its code ends in `Return`
//! in place of `Pop`. An empty program generates no code.

pub mod correctness;

use crate::ast::{Ast, BinOpKind, Decl, DeclKind, Expr, ExprKind, Stmt, StmtKind, UnOpKind};
use crate::bytecode::{Bytecode, Opcode};
use vstd::prelude::*;

verus! {

/// Largest number of constants that a program can address: an operand is one
/// byte.
pub const MAX_CONSTANTS: usize = 256;

/// The ways in which code generation fails.
#[derive(Debug, Clone, Copy, PartialEq, Eq, Structural)]
pub enum CodegenError {
    /// The program holds more literals than a one-byte operand can index.
    TooManyConstants,
}

/// The instruction that performs a binary operator.
pub open spec fn opcode_of(kind: BinOpKind) -> Opcode {
    match kind {
        BinOpKind::Add => Opcode::Add,
        BinOpKind::Sub => Opcode::Subtract,
        BinOpKind::Mul => Opcode::Multiply,
        BinOpKind::Div => Opcode::Divide,
        BinOpKind::Rem => Opcode::Remainder,
    }
}

/// The code of an expression whose first literal becomes constant number
/// `base`: operands first, left before right, then the operator.
pub open spec fn compile(expr: Expr, base: nat) -> Seq<u8>
    decreases expr,
{
    match expr.0.node {
        ExprKind::Number(_) => seq![Opcode::Constant.encoding(), base as u8],
        ExprKind::Unary(_, operand) => compile(*operand, base).push(Opcode::Negate.encoding()),
        ExprKind::Binary(op, left, right) => (compile(*left, base) + compile(
            *right,
            base + left.numbers(),
        )).push(opcode_of(op.0.node).encoding()),
    }
}

/// The literals of a sequence of expressions, in order.
pub open spec fn literals(exprs: Seq<Expr>) -> Seq<u64>
    decreases exprs.len(),
{
    if exprs.len() == 0 {
        Seq::empty()
    } else {
        literals(exprs.drop_last()) + exprs.last().constants()
    }
}

/// The code of a sequence of statements whose values are discarded: each
/// expression is followed by `Pop`.
pub open spec fn statements(exprs: Seq<Expr>, base: nat) -> Seq<u8>
    decreases exprs.len(),
{
    if exprs.len() == 0 {
        Seq::empty()
    } else {
        statements(exprs.drop_last(), base) + compile(
            exprs.last(),
            base + literals(exprs.drop_last()).len(),
        ).push(Opcode::Pop.encoding())
    }
}

/// The code of a program: its statements, the last of which returns its
/// value.
pub open spec fn program(exprs: Seq<Expr>, base: nat) -> Seq<u8> {
    if exprs.len() == 0 {
        Seq::empty()
    } else {
        statements(exprs.drop_last(), base) + compile(
            exprs.last(),
            base + literals(exprs.drop_last()).len(),
        ).push(Opcode::Return.encoding())
    }
}

/// An expression has as many constants as it has literals.
pub proof fn lemma_constants_len(expr: Expr)
    ensures
        expr.constants().len() == expr.numbers(),
        expr.numbers() >= 1,
    decreases expr,
{
    match expr.0.node {
        ExprKind::Number(_) => {},
        ExprKind::Unary(_, operand) => {
            lemma_constants_len(*operand);
        },
        ExprKind::Binary(_, left, right) => {
            lemma_constants_len(*left);
            lemma_constants_len(*right);
        },
    }
}

/// Generates bytecode from a syntax tree.
#[derive(Debug)]
pub struct CodeGenerator {
    /// The program generated so far.
    pub bytecode: Bytecode,
}

impl Default for CodeGenerator {
    fn default() -> (generator: CodeGenerator)
        ensures
            generator.bytecode.code@ == Seq::<u8>::empty(),
            generator.bytecode.constants@ == Seq::<u64>::empty(),
    {
        CodeGenerator { bytecode: Bytecode::default() }
    }
}

impl CodeGenerator {
    /// Generates the program of `ast` after whatever the generator already
    /// holds, hands the result out and leaves the generator empty. Fails, and
    /// hands out nothing, exactly when the constant pool would grow beyond
    /// [`MAX_CONSTANTS`].
    pub fn generate(&mut self, ast: &Ast) -> (result: Result<Bytecode, CodegenError>)
        ensures
            final(self).bytecode.code@ == Seq::<u8>::empty(),
            final(self).bytecode.constants@ == Seq::<u64>::empty(),
            match result {
                Ok(bytecode) => {
                    &&& old(self).bytecode.constants@.len() + literals(ast.expressions()).len()
                        <= MAX_CONSTANTS
                    &&& bytecode.code@ == old(self).bytecode.code@ + program(
                        ast.expressions(),
                        old(self).bytecode.constants@.len(),
                    )
                    &&& bytecode.constants@ == old(self).bytecode.constants@ + literals(
                        ast.expressions(),
                    )
                },
                Err(error) => {
                    &&& error == CodegenError::TooManyConstants
                    &&& old(self).bytecode.constants@.len() + literals(ast.expressions()).len()
                        > MAX_CONSTANTS
                },
            },
    {
        let decls = ast.decls();
        let ghost exprs = ast.expressions();
        let ghost base = self.bytecode.constants@.len();
        if self.bytecode.constants.len() > MAX_CONSTANTS {
            self.bytecode = Bytecode::default();
            return Err(CodegenError::TooManyConstants);
        }
        let mut i: usize = 0;
        while i < decls.len()
            invariant
                i <= decls.len(),
                *decls == ast.decls,
                exprs == ast.expressions(),
                exprs.len() == decls@.len(),
                base == old(self).bytecode.constants@.len(),
                base + literals(exprs.take(i as int)).len() <= MAX_CONSTANTS,
                self.bytecode.constants@ == old(self).bytecode.constants@ + literals(
                    exprs.take(i as int),
                ),
                i < decls.len() ==> self.bytecode.code@ == old(self).bytecode.code@ + statements(
                    exprs.take(i as int),
                    base,
                ),
                i == decls.len() ==> self.bytecode.code@ == old(self).bytecode.code@ + program(
                    exprs,
                    base,
                ),
            decreases decls.len() - i,
        {
            let last = i + 1 == decls.len();
            let ghost done = exprs.take(i as int);
            let ghost next = exprs.take(i + 1);
            proof {
                assert(next.drop_last() =~= done);
                lemma_constants_len(exprs[i as int]);
            }
            match self.decl(&decls[i], last) {
                Ok(()) => {},
                Err(error) => {
                    proof {
                        lemma_literals_grow(exprs, i + 1);
                    }
                    self.bytecode = Bytecode::default();
                    return Err(error);
                },
            }
            i += 1;
        }
        proof {
            assert(exprs.take(i as int) =~= exprs);
        }
        let mut bytecode = Bytecode::default();
        std::mem::swap(&mut self.bytecode, &mut bytecode);
        Ok(bytecode)
    }

    fn decl(&mut self, decl: &Decl, last: bool) -> (result: Result<(), CodegenError>)
        ensures
            appended(
                old(self).bytecode,
                final(self).bytecode,
                decl.expression(),
                if last {
                    Opcode::Return
                } else {
                    Opcode::Pop
                },
                result,
            ),
    {
        match decl.kind() {
            DeclKind::Stmt(stmt) => self.stmt(stmt, last),
        }
    }

    fn stmt(&mut self, stmt: &Stmt, last: bool) -> (result: Result<(), CodegenError>)
        ensures
            appended(
                old(self).bytecode,
                final(self).bytecode,
                stmt.expression(),
                if last {
                    Opcode::Return
                } else {
                    Opcode::Pop
                },
                result,
            ),
    {
        match stmt.kind() {
            StmtKind::Expr(expr) => {
                self.expr(expr)?;
                if last {
                    self.bytecode.write_opcode(Opcode::Return);
                } else {
                    self.bytecode.write_opcode(Opcode::Pop);
                }
                Ok(())
            },
        }
    }

    fn expr(&mut self, expr: &Expr) -> (result: Result<(), CodegenError>)
        ensures
            match result {
                Ok(()) => {
                    &&& old(self).bytecode.constants@.len() + expr.numbers() <= MAX_CONSTANTS
                    &&& final(self).bytecode.code@ == old(self).bytecode.code@ + compile(
                        *expr,
                        old(self).bytecode.constants@.len(),
                    )
                    &&& final(self).bytecode.constants@ == old(self).bytecode.constants@
                        + expr.constants()
                },
                Err(error) => {
                    &&& error == CodegenError::TooManyConstants
                    &&& old(self).bytecode.constants@.len() + expr.numbers() > MAX_CONSTANTS
                },
            },
        decreases *expr,
    {
        match expr.kind() {
            ExprKind::Number(value) => {
                if self.bytecode.constants.len() >= MAX_CONSTANTS {
                    return Err(CodegenError::TooManyConstants);
                }
                let idx = self.bytecode.add_constant(*value);
                self.bytecode.write_opcode(Opcode::Constant);
                self.bytecode.write_byte(idx as u8);
            },
            ExprKind::Unary(op, operand) => {
                self.expr(operand)?;
                self.bytecode.write_opcode(
                    match op.kind() {
                        UnOpKind::Neg => Opcode::Negate,
                    },
                );
            },
            ExprKind::Binary(op, expr_l, expr_r) => {
                proof {
                    lemma_constants_len(**expr_l);
                    lemma_constants_len(**expr_r);
                }
                self.expr(expr_l)?;
                self.expr(expr_r)?;
                self.bytecode.write_opcode(
                    match op.kind() {
                        BinOpKind::Add => Opcode::Add,
                        BinOpKind::Sub => Opcode::Subtract,
                        BinOpKind::Mul => Opcode::Multiply,
                        BinOpKind::Div => Opcode::Divide,
                        BinOpKind::Rem => Opcode::Remainder,
                    },
                );
            },
        }
        Ok(())
    }
}

/// What generating one statement does to a program: on success the code of
/// the expression and the closing instruction are appended, and the
/// expression's literals join the pool; it fails exactly when the pool would
/// outgrow [`MAX_CONSTANTS`].
pub open spec fn appended(
    before: Bytecode,
    after: Bytecode,
    expr: Expr,
    closing: Opcode,
    result: Result<(), CodegenError>,
) -> bool {
    match result {
        Ok(()) => {
            &&& before.constants@.len() + expr.numbers() <= MAX_CONSTANTS
            &&& after.code@ == before.code@ + compile(expr, before.constants@.len()).push(
                closing.encoding(),
            )
            &&& after.constants@ == before.constants@ + expr.constants()
        },
        Err(error) => {
            &&& error == CodegenError::TooManyConstants
            &&& before.constants@.len() + expr.numbers() > MAX_CONSTANTS
        },
    }
}

/// The literals of a prefix are a prefix of the literals.
proof fn lemma_literals_grow(exprs: Seq<Expr>, n: int)
    requires
        0 <= n <= exprs.len(),
    ensures
        literals(exprs.take(n)).len() <= literals(exprs).len(),
    decreases exprs.len(),
{
    if n == exprs.len() {
        assert(exprs.take(n) =~= exprs);
    } else {
        assert(exprs.drop_last().take(n) =~= exprs.take(n));
        lemma_literals_grow(exprs.drop_last(), n);
    }
}

} // verus!
