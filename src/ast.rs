use vstd::prelude::*;
use crate::span::Span;
use crate::db::{Db, VariableData};
use crate::types::{SymGenericKind, SymGenericTerm, SymVariable};
use crate::word::Word;

verus! {

/// A binary operator as written.
#[derive(Clone, Copy, Debug, PartialEq, Eq, Structural, Hash)]
pub enum AstBinaryOp {
    Add,
    Sub,
    Mul,
    Div,
    AndAnd,
    OrOr,
    GreaterThan,
    LessThan,
    GreaterEqual,
    LessEqual,
    EqualEqual,
    Assign,
}

/// How a place is turned into a value.
#[derive(Clone, Copy, Debug, PartialEq, Eq, Structural, Hash)]
pub enum PermissionOp {
    /// `x.mut`: leased from the place.
    Mutate,
    /// `x.ref`: shared from the place.
    Reference,
    /// `x.give`: the value itself.
    Give,
}

/// An explicit generic argument, already resolved to a term.
#[derive(Clone, Copy, Debug, PartialEq, Eq, Structural, Hash)]
pub struct AstGenericTerm {
    pub term: SymGenericTerm,
    pub span: Span,
}

/// An expression of the unchecked syntax tree.
#[derive(Debug)]
pub struct AstExpr {
    pub span: Span,
    pub kind: Box<AstExprKind>,
}

/// An arm of an `if`: a condition (none for `else`) and a result.
#[derive(Debug)]
pub struct AstIfArm {
    pub condition: Option<AstExpr>,
    pub result: AstExpr,
}

#[derive(Debug)]
pub enum AstExprKind {
    /// An integer literal, with its value.
    Integer(u64),
    /// `true` or `false`.
    Boolean(bool),
    /// A string literal, with the bytes of its text.
    String(Vec<u8>),
    /// `(a, b, ...)`
    Tuple(Vec<AstExpr>),
    /// `a op b`, with the span of the operator.
    BinaryOp(AstBinaryOp, Span, AstExpr, AstExpr),
    /// An identifier.
    Id(Word, Span),
    /// `owner.id`
    DotId(AstExpr, Word, Span),
    /// `owner[args]`
    SquareBracketOp(AstExpr, Vec<AstGenericTerm>),
    /// `owner(args)`
    ParenthesisOp(AstExpr, Vec<AstExpr>),
    /// `return` or `return e`
    Return(Option<AstExpr>),
    /// `future.await`, with the span of the keyword.
    Await(AstExpr, Span),
    /// `!e`, with the span of the operator.
    Not(AstExpr, Span),
    /// `-e`, with the span of the operator.
    Negate(AstExpr, Span),
    /// `if c1 { .. } else if c2 { .. } else { .. }`
    If(Vec<AstIfArm>),
    /// `place.give`, `place.ref` or `place.mut`.
    PermissionOp(PermissionOp, AstExpr),
}

/// The kind of a declared generic parameter.
#[derive(Clone, Copy, Debug, PartialEq, Eq, Structural, Hash)]
pub enum AstGenericKind {
    Type,
    Perm,
}

/// A declared generic parameter, such as `type T` or `perm P`.
#[derive(Clone, Copy, Debug, PartialEq, Eq, Structural, Hash)]
pub struct AstGenericDecl {
    pub kind: AstGenericKind,
    pub name: Option<Word>,
    pub span: Span,
}

/// A permission as written.
#[derive(Clone, Copy, Debug, PartialEq, Eq, Structural, Hash)]
pub enum AstPermKind {
    /// `shared`, without places.
    AnonymousShared,
    /// `leased`, without places.
    AnonymousLeased,
    /// `given`, without places.
    AnonymousGiven,
    /// `my`
    My,
    /// `our`
    Our,
    /// A permission with explicit places, or a named one.
    Other,
}

#[derive(Clone, Copy, Debug, PartialEq, Eq, Structural, Hash)]
pub struct AstPerm {
    pub kind: AstPermKind,
    pub span: Span,
}

impl AstGenericKind {
    /// The kind of symbol that a parameter of this kind declares.
    pub fn symbol(self) -> (r: SymGenericKind)
        ensures
            self == AstGenericKind::Type ==> r == SymGenericKind::Type,
            self == AstGenericKind::Perm ==> r == SymGenericKind::Perm,
    {
        match self {
            AstGenericKind::Type => SymGenericKind::Type,
            AstGenericKind::Perm => SymGenericKind::Perm,
        }
    }
}

impl AstGenericDecl {
    /// Declare the generic variable of an explicitly declared parameter.
    pub fn symbol(self, db: &mut Db) -> (r: SymVariable)
        requires
            old(db).wf(),
        ensures
            final(db).wf(),
            final(db).extends(*old(db)),
            r.id == old(db).variables@.len(),
            final(db).variables@[r.id as int] == (VariableData {
                kind: if self.kind == AstGenericKind::Type {
                    SymGenericKind::Type
                } else {
                    SymGenericKind::Perm
                },
                name: self.name,
                span: self.span,
            }),
    {
        let kind = self.kind.symbol();
        db.add_variable(kind, self.name, self.span)
    }
}

impl AstPerm {
    /// Declare the permission variable that an anonymous `shared`, `leased` or
    /// `given` stands for: `shared T` is `(perm P) P T` for a fresh `P`.
    pub fn anonymous_perm_symbol(self, db: &mut Db) -> (r: SymVariable)
        requires
            old(db).wf(),
            self.kind == AstPermKind::AnonymousShared || self.kind == AstPermKind::AnonymousLeased
                || self.kind == AstPermKind::AnonymousGiven,
        ensures
            final(db).wf(),
            final(db).extends(*old(db)),
            r.id == old(db).variables@.len(),
            final(db).variables@[r.id as int] == (VariableData {
                kind: SymGenericKind::Perm,
                name: None,
                span: self.span,
            }),
    {
        db.add_variable(SymGenericKind::Perm, None, self.span)
    }
}

} // verus!
