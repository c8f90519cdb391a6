use vstd::prelude::*;
use crate::span::Span;
use crate::types::{InferVarIndex, SymGenericKind, SymPrimitive, SymTy, SymTyName, SymVariable};

verus! {

/// Proof that an error was reported to the user: the index of the recorded
/// diagnostic. Error terms carry one, so that one root cause gives one diagnostic.
#[derive(Clone, Copy, Debug, PartialEq, Eq, Structural, Hash)]
pub struct Reported {
    pub index: usize,
}

/// The result of a checking step that may have reported an error.
pub type Errors<T> = Result<T, Reported>;

/// A property of a term that the predicate engine decides or requires.
#[derive(Clone, Copy, Debug, PartialEq, Eq, Structural, Hash)]
pub enum Predicate {
    /// The value may be duplicated without moving it.
    Copy,
    /// The value has ownership semantics.
    Move,
}

/// What went wrong: the kind of a checked error, or the obligation that failed.
#[derive(Clone, Copy, Debug, PartialEq, Eq, Structural, Hash)]
pub enum DiagnosticKind {
    /// A `where` clause or other predicate obligation does not hold.
    WhereClause,
    /// An awaited expression is not a future.
    AwaitNonFuture,
    /// A numeric type was expected.
    NumericTypeExpected,
    /// An operator was applied to a non-numeric operand.
    OperatorRequiresNumericType,
    /// The operands of an operator have different types.
    OperatorArgumentsMustHaveSameType,
    /// The assigned value does not fit the place.
    InvalidAssignmentType,
    /// The returned value does not fit the declared return type.
    InvalidReturnValue,
    /// A value is not of the type expected there.
    BadSubtype,
    /// A call has the wrong number of arguments.
    WrongArgumentCount { expected: usize, found: usize },
    /// A call has the wrong number of explicit generic arguments.
    WrongGenericCount { expected: usize, found: usize },
    /// A generic argument has the wrong kind.
    KindMismatch { expected_kind: SymGenericKind, found_kind: SymGenericKind },
    /// A class was called but has no `new` method; `member_found` tells whether
    /// it has a member named `new` that is not a method.
    NoNewMethod { member_found: bool },
    /// `return` outside of a function body.
    UnexpectedReturn,
    /// Something that cannot be called was called.
    NotCallable,
    /// A construct that is not implemented yet.
    NotImplemented,
    /// A name that is not an expression was used as one.
    NonExpr,
    /// A method was named but not called.
    MissingCallToMethod,
    /// A name, or an explicit generic argument, that does not resolve.
    UnresolvedName,
    /// A member that the type or class does not have.
    NoSuchMember,
}

/// Why an obligation failed.
#[derive(Clone, Copy, Debug, PartialEq, Eq, Structural, Hash)]
pub enum Because {
    JustSo,
    NeverIsNotCopy,
    ClassIsNotCopy(SymTyName),
    PrimitiveIsCopy(SymPrimitive),
    /// A universal variable is not declared to satisfy the predicate.
    VarNotDeclared(SymVariable, Predicate),
    /// An inference variable is already known not to satisfy the predicate.
    InferIsKnownNot(InferVarIndex, Predicate),
    /// An inference variable has no bound yet.
    UnconstrainedInfer(Span),
    /// The failure was found on this inferred lower bound.
    InferredLowerBound(SymTy),
}

/// A recorded error: its kind, where it points, a second place it refers to
/// (a declaration), and why.
#[derive(Clone, Copy, Debug, PartialEq, Eq, Structural, Hash)]
pub struct Diagnostic {
    pub kind: DiagnosticKind,
    pub span: Span,
    pub related: Option<Span>,
    pub because: Because,
}

/// How to report the failure of an obligation: its kind and the span it
/// is attributed to.
#[derive(Clone, Copy, Debug, PartialEq, Eq, Structural, Hash)]
pub struct OrElse {
    pub kind: DiagnosticKind,
    pub span: Span,
}

impl OrElse {
    pub open spec fn diagnostic(self, because: Because) -> Diagnostic {
        Diagnostic { kind: self.kind, span: self.span, related: None, because }
    }

    /// The diagnostic recorded when the obligation fails because of `because`.
    pub fn diagnostic_for(self, because: Because) -> (r: Diagnostic)
        ensures
            r == self.diagnostic(because),
    {
        Diagnostic { kind: self.kind, span: self.span, related: None, because }
    }
}

} // verus!
