//! The syntax tree that the parser builds and the code generator consumes.
//!
//! Every node pairs what it is with the region of source text it came from.
//! A number is held as the bit pattern of an IEEE-754 binary64 value.

use crate::lexer::span::Span;
use vstd::prelude::*;

verus! {

/// A value together with the region of source text it was read from.
#[derive(Debug, Clone, Copy)]
pub struct Spanned<T> {
    pub node: T,
    pub span: Span,
}

impl<T> Spanned<T> {
    pub fn new(node: T, span: Span) -> (spanned: Spanned<T>)
        ensures
            spanned == (Spanned { node, span }),
    {
        Spanned { node, span }
    }
}

/// The unary operators.
#[derive(Debug, Clone, Copy, PartialEq, Eq, Structural)]
pub enum UnOpKind {
    Neg,
}

/// A unary operator and the span of its token.
#[derive(Debug, Clone, Copy)]
pub struct UnOp(pub Spanned<UnOpKind>);

impl UnOp {
    pub fn new(span: Span, kind: UnOpKind) -> (op: UnOp)
        ensures
            op == UnOp(Spanned { node: kind, span }),
    {
        UnOp(Spanned::new(kind, span))
    }

    pub fn span(&self) -> (span: Span)
        ensures
            span == self.0.span,
    {
        self.0.span
    }

    pub fn kind(&self) -> (kind: &UnOpKind)
        ensures
            *kind == self.0.node,
    {
        &self.0.node
    }
}

/// The binary operators.
#[derive(Debug, Clone, Copy, PartialEq, Eq, Structural)]
pub enum BinOpKind {
    Add,
    Sub,
    Mul,
    Div,
    Rem,
}

/// A binary operator and the span of its token.
#[derive(Debug, Clone, Copy)]
pub struct BinOp(pub Spanned<BinOpKind>);

impl BinOp {
    pub fn new(span: Span, kind: BinOpKind) -> (op: BinOp)
        ensures
            op == BinOp(Spanned { node: kind, span }),
    {
        BinOp(Spanned::new(kind, span))
    }

    pub fn span(&self) -> (span: Span)
        ensures
            span == self.0.span,
    {
        self.0.span
    }

    pub fn kind(&self) -> (kind: &BinOpKind)
        ensures
            *kind == self.0.node,
    {
        &self.0.node
    }
}

/// What an expression is.
#[derive(Debug)]
pub enum ExprKind {
    /// A literal, as the bit pattern of its value.
    Number(u64),
    Unary(UnOp, Box<Expr>),
    Binary(BinOp, Box<Expr>, Box<Expr>),
}

/// An expression. Each expression owns its operands.
#[derive(Debug)]
pub struct Expr(pub Spanned<ExprKind>);

impl Clone for ExprKind {
    fn clone(&self) -> (copy: ExprKind)
        ensures
            copy == *self,
    {
        match self {
            ExprKind::Number(bits) => ExprKind::Number(*bits),
            ExprKind::Unary(op, operand) => ExprKind::Unary(*op, Box::new(operand.duplicate())),
            ExprKind::Binary(op, left, right) => ExprKind::Binary(
                *op,
                Box::new(left.duplicate()),
                Box::new(right.duplicate()),
            ),
        }
    }
}

impl Clone for Expr {
    fn clone(&self) -> (copy: Expr)
        ensures
            copy == *self,
    {
        self.duplicate()
    }
}

impl Expr {
    /// Number of literals in the expression.
    pub open spec fn numbers(self) -> nat
        decreases self,
    {
        match self.0.node {
            ExprKind::Number(_) => 1,
            ExprKind::Unary(_, operand) => operand.numbers(),
            ExprKind::Binary(_, left, right) => left.numbers() + right.numbers(),
        }
    }

    /// The literals of the expression, from left to right.
    pub open spec fn constants(self) -> Seq<u64>
        decreases self,
    {
        match self.0.node {
            ExprKind::Number(bits) => seq![bits],
            ExprKind::Unary(_, operand) => operand.constants(),
            ExprKind::Binary(_, left, right) => left.constants() + right.constants(),
        }
    }

    /// The expression that is the literal with the given bits.
    pub open spec fn number_of(span: Span, bits: u64) -> Expr {
        Expr(Spanned { node: ExprKind::Number(bits), span })
    }

    /// The expression that [`Expr::unary`] builds.
    pub open spec fn unary_of(operator: UnOp, operand: Expr) -> Expr {
        Expr(
            Spanned {
                node: ExprKind::Unary(operator, Box::new(operand)),
                span: Span { start: operator.0.span.start, end: operand.0.span.end },
            },
        )
    }

    /// The expression that [`Expr::binary`] builds.
    pub open spec fn binary_of(operator: BinOp, operand_1: Expr, operand_2: Expr) -> Expr {
        Expr(
            Spanned {
                node: ExprKind::Binary(operator, Box::new(operand_1), Box::new(operand_2)),
                span: Span { start: operand_1.0.span.start, end: operand_2.0.span.end },
            },
        )
    }

    /// A deep copy of the expression.
    fn duplicate(&self) -> (copy: Expr)
        ensures
            copy == *self,
        decreases *self,
    {
        let kind = match &self.0.node {
            ExprKind::Number(bits) => ExprKind::Number(*bits),
            ExprKind::Unary(op, operand) => ExprKind::Unary(*op, Box::new(operand.duplicate())),
            ExprKind::Binary(op, left, right) => ExprKind::Binary(
                *op,
                Box::new(left.duplicate()),
                Box::new(right.duplicate()),
            ),
        };
        Expr(Spanned { node: kind, span: self.0.span })
    }

    pub fn new(span: Span, kind: ExprKind) -> (expr: Expr)
        ensures
            expr == Expr(Spanned { node: kind, span }),
    {
        Expr(Spanned::new(kind, span))
    }

    pub fn span(&self) -> (span: Span)
        ensures
            span == self.0.span,
    {
        self.0.span
    }

    pub fn kind(&self) -> (kind: &ExprKind)
        ensures
            *kind == self.0.node,
    {
        &self.0.node
    }

    /// The operator applied to the operand. The span reaches from the
    /// operator to the end of the operand.
    pub fn unary(operator: UnOp, operand: Expr) -> (expr: Expr)
        ensures
            expr == Expr::unary_of(operator, operand),
    {
        Expr::new(
            Span::between(operator.span(), operand.span()),
            ExprKind::Unary(operator, Box::new(operand)),
        )
    }

    /// The operator applied to the two operands. The span reaches from the
    /// start of the left operand to the end of the right one.
    pub fn binary(operator: BinOp, operand_1: Expr, operand_2: Expr) -> (expr: Expr)
        ensures
            expr == Expr::binary_of(operator, operand_1, operand_2),
    {
        Expr::new(
            Span::between(operand_1.span(), operand_2.span()),
            ExprKind::Binary(operator, Box::new(operand_1), Box::new(operand_2)),
        )
    }
}

/// What a statement is.
#[derive(Debug, Clone)]
pub enum StmtKind {
    /// An expression, evaluated for its value.
    Expr(Box<Expr>),
}

/// A statement.
#[derive(Debug, Clone)]
pub struct Stmt(pub Spanned<StmtKind>);

impl Stmt {
    /// The expression that the statement evaluates.
    pub open spec fn expression(self) -> Expr {
        match self.0.node {
            StmtKind::Expr(expr) => *expr,
        }
    }

    /// The statement that [`Stmt::expr`] builds.
    pub open spec fn of(expr: Expr) -> Stmt {
        Stmt(Spanned { node: StmtKind::Expr(Box::new(expr)), span: expr.0.span })
    }

    pub fn new(span: Span, kind: StmtKind) -> (stmt: Stmt)
        ensures
            stmt == Stmt(Spanned { node: kind, span }),
    {
        Stmt(Spanned::new(kind, span))
    }

    pub fn span(&self) -> (span: Span)
        ensures
            span == self.0.span,
    {
        self.0.span
    }

    pub fn kind(&self) -> (kind: &StmtKind)
        ensures
            *kind == self.0.node,
    {
        &self.0.node
    }

    /// The statement that evaluates `expr`, with the span of `expr`.
    pub fn expr(expr: Expr) -> (stmt: Stmt)
        ensures
            stmt == Stmt::of(expr),
    {
        let span = expr.span();
        Stmt(Spanned::new(StmtKind::Expr(Box::new(expr)), span))
    }
}

/// What a declaration is.
#[derive(Debug, Clone)]
pub enum DeclKind {
    Stmt(Box<Stmt>),
}

/// A declaration, the unit that a program is a sequence of.
#[derive(Debug, Clone)]
pub struct Decl(pub Spanned<DeclKind>);

impl Decl {
    /// The expression that the declaration evaluates.
    pub open spec fn expression(self) -> Expr {
        match self.0.node {
            DeclKind::Stmt(stmt) => stmt.expression(),
        }
    }

    /// The declaration that [`Decl::stmt`] builds.
    pub open spec fn of(stmt: Stmt) -> Decl {
        Decl(Spanned { node: DeclKind::Stmt(Box::new(stmt)), span: stmt.0.span })
    }

    pub fn new(span: Span, kind: DeclKind) -> (decl: Decl)
        ensures
            decl == Decl(Spanned { node: kind, span }),
    {
        Decl(Spanned::new(kind, span))
    }

    pub fn span(&self) -> (span: Span)
        ensures
            span == self.0.span,
    {
        self.0.span
    }

    pub fn kind(&self) -> (kind: &DeclKind)
        ensures
            *kind == self.0.node,
    {
        &self.0.node
    }

    /// The declaration that consists of `stmt`, with the span of `stmt`.
    pub fn stmt(stmt: Stmt) -> (decl: Decl)
        ensures
            decl == Decl::of(stmt),
    {
        let span = stmt.span();
        Decl(Spanned::new(DeclKind::Stmt(Box::new(stmt)), span))
    }
}

impl From<Spanned<DeclKind>> for Decl {
    fn from(value: Spanned<DeclKind>) -> (decl: Decl) {
        Decl(value)
    }
}

impl vstd::std_specs::convert::FromSpecImpl<Spanned<DeclKind>> for Decl {
    open spec fn obeys_from_spec() -> bool {
        true
    }

    open spec fn from_spec(value: Spanned<DeclKind>) -> Decl {
        Decl(value)
    }
}

impl From<Stmt> for Decl {
    fn from(value: Stmt) -> (decl: Decl) {
        let span = value.span();
        Decl(Spanned::new(DeclKind::Stmt(Box::new(value)), span))
    }
}

impl vstd::std_specs::convert::FromSpecImpl<Stmt> for Decl {
    open spec fn obeys_from_spec() -> bool {
        true
    }

    open spec fn from_spec(value: Stmt) -> Decl {
        Decl::of(value)
    }
}

/// A parsed program.
#[derive(Debug, Clone)]
pub struct Ast {
    pub decls: Vec<Decl>,
    /// Whether the tree holds every declaration of the source text, parsed
    /// without error.
    pub complete: bool,
}

impl Ast {
    /// The expressions of the program's declarations, in order.
    pub open spec fn expressions(self) -> Seq<Expr> {
        self.decls@.map_values(|decl: Decl| decl.expression())
    }

    pub fn new(decls: Vec<Decl>, complete: bool) -> (ast: Ast)
        ensures
            ast.decls == decls,
            ast.complete == complete,
    {
        Ast { decls, complete }
    }

    pub fn decls(&self) -> (decls: &Vec<Decl>)
        ensures
            *decls == self.decls,
    {
        &self.decls
    }

    pub fn complete(&self) -> (complete: bool)
        ensures
            complete == self.complete,
    {
        self.complete
    }
}

} // verus!
