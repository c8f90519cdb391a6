use vstd::prelude::*;
use crate::ast::PermissionOp;
use crate::diagnostic::Reported;
use crate::span::Span;
use crate::types::{SymGenericTerm, SymTy, SymVariable};

verus! {

/// A function, a handle into the function table of a [`crate::scope::Scope`].
#[derive(Clone, Copy, Debug, PartialEq, Eq, Structural, Hash)]
pub struct SymFunction {
    pub id: usize,
}

#[derive(Clone, Copy, Debug, PartialEq, Eq, Structural, Hash)]
pub enum SymLiteral {
    /// An integer or boolean, as its bits.
    Integral { bits: u64 },
}

#[derive(Clone, Copy, Debug, PartialEq, Eq, Structural, Hash)]
pub enum SymBinaryOp {
    Add,
    Sub,
    Mul,
    Div,
    GreaterThan,
    LessThan,
    GreaterEqual,
    LessEqual,
    EqualEqual,
}

/// A checked expression: its span, its type and what it is.
#[derive(Debug)]
pub struct SymExpr {
    pub span: Span,
    pub ty: SymTy,
    pub kind: Box<SymExprKind>,
}

/// An arm of a match: a boolean condition (none for the fallback arm) and a body.
#[derive(Debug)]
pub struct SymMatchArm {
    pub condition: Option<SymExpr>,
    pub body: SymExpr,
}

#[derive(Debug)]
pub enum SymExprKind {
    Primitive(SymLiteral),
    /// The bytes of a string literal.
    ByteLiteral(Vec<u8>),
    Tuple(Vec<SymExpr>),
    BinaryOp(SymBinaryOp, SymExpr, SymExpr),
    /// A call, whose arguments were bound to the temporaries `arg_temps` by
    /// enclosing `LetIn` expressions.
    Call { function: SymFunction, substitution: Vec<SymGenericTerm>, arg_temps: Vec<SymVariable> },
    /// `let lv: ty = initializer in body`
    LetIn { lv: SymVariable, ty: SymTy, initializer: Option<SymExpr>, body: SymExpr },
    Assign { place: SymPlaceExpr, value: SymExpr },
    Match { arms: Vec<SymMatchArm> },
    Return(SymExpr),
    Await { future: SymExpr, await_keyword: Span },
    Not { operand: SymExpr, op_span: Span },
    PermissionOp(PermissionOp, SymPlaceExpr),
    Error(Reported),
}

/// A checked expression that names a place.
#[derive(Debug)]
pub struct SymPlaceExpr {
    pub span: Span,
    pub ty: SymTy,
    pub kind: Box<SymPlaceExprKind>,
}

#[derive(Debug)]
pub enum SymPlaceExprKind {
    Var(SymVariable),
    Error(Reported),
}

/// A let-binding synthesized by the checker, to evaluate a value before its
/// first use.
#[derive(Debug)]
pub struct Temporary {
    pub lv: SymVariable,
    pub ty: SymTy,
    pub initializer: Option<SymExpr>,
}

impl SymExpr {
    pub fn new(span: Span, ty: SymTy, kind: SymExprKind) -> (r: SymExpr)
        ensures
            r.span == span,
            r.ty == ty,
            *r.kind == kind,
    {
        SymExpr { span, ty, kind: Box::new(kind) }
    }
}

impl SymPlaceExpr {
    pub fn new(span: Span, ty: SymTy, kind: SymPlaceExprKind) -> (r: SymPlaceExpr)
        ensures
            r.span == span,
            r.ty == ty,
            *r.kind == kind,
    {
        SymPlaceExpr { span, ty, kind: Box::new(kind) }
    }
}

} // verus!
