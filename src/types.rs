use vstd::prelude::*;
use crate::class::SymAggregateStyle;
use crate::diagnostic::Reported;

verus! {

#[derive(Clone, Copy, Debug, PartialEq, Eq, Structural, Hash)]
pub enum Variance {
    Covariant,
    Contravariant,
    Invariant,
}

/// The kind of a generic term: a type, a permission or a place.
#[derive(Clone, Copy, Debug, PartialEq, Eq, Structural, Hash)]
pub enum SymGenericKind {
    Type,
    Perm,
    Place,
}

/// A primitive scalar type.
#[derive(Clone, Copy, Debug, PartialEq, Eq, Structural, Hash)]
pub enum SymPrimitive {
    Bool,
    Char,
    Int { bits: u32 },
    Uint { bits: u32 },
    Isize,
    Usize,
}

/// A class or struct, named by its index in the class table, with its style.
#[derive(Clone, Copy, Debug, PartialEq, Eq, Structural, Hash)]
pub struct SymAggregate {
    pub id: usize,
    pub style: SymAggregateStyle,
}

/// A generic variable (universal or existential), an index into the variable table.
#[derive(Clone, Copy, Debug, PartialEq, Eq, Structural, Hash)]
pub struct SymVariable {
    pub id: usize,
}

/// A field of an aggregate, an index into the field table.
#[derive(Clone, Copy, Debug, PartialEq, Eq, Structural, Hash)]
pub struct SymField {
    pub id: usize,
}

/// An inference variable, an index into the inference table of a check session.
#[derive(Clone, Copy, Debug, PartialEq, Eq, Structural, Hash)]
pub struct InferVarIndex {
    pub index: usize,
}

/// An interned type: an index into the term store of a [`crate::db::Db`].
#[derive(Clone, Copy, Debug, PartialEq, Eq, Structural, Hash)]
pub struct SymTy {
    pub id: usize,
}

/// An interned permission.
#[derive(Clone, Copy, Debug, PartialEq, Eq, Structural, Hash)]
pub struct SymPerm {
    pub id: usize,
}

/// An interned place.
#[derive(Clone, Copy, Debug, PartialEq, Eq, Structural, Hash)]
pub struct SymPlace {
    pub id: usize,
}

/// Value of a generic parameter.
#[derive(Clone, Copy, Debug, PartialEq, Eq, Structural, Hash)]
pub enum SymGenericTerm {
    Type(SymTy),
    Perm(SymPerm),
    Place(SymPlace),
    Error(Reported),
}

/// The head of a named type.
#[derive(Clone, Copy, Debug, PartialEq, Eq, Structural, Hash)]
pub enum SymTyName {
    Primitive(SymPrimitive),
    Aggregate(SymAggregate),
    /// Futures are a builtin type for now.
    Future,
    Tuple { arity: usize },
}

#[derive(Debug)]
pub enum SymTyKind {
    /// `$Perm $Ty`, e.g., `shared String`.
    Perm(SymPerm, SymTy),
    /// `path[arg1, arg2]`, e.g., `Vec[String]`.
    Named(SymTyName, Vec<SymGenericTerm>),
    /// An inference variable (e.g., `?X`).
    Infer(InferVarIndex),
    /// Reference to a generic variable, e.g., `T`.
    Var(SymVariable),
    /// A value that can never be created, denoted `!`.
    Never,
    /// Some error occurred and has been reported to the user.
    Error(Reported),
}

#[derive(Debug)]
pub enum SymPermKind {
    /// `my`
    My,
    /// `our`
    Our,
    /// `shared[x]`
    Shared(Vec<SymPlace>),
    /// `leased[x]`
    Leased(Vec<SymPlace>),
    /// `perm1 perm2` (e.g., `shared[x] leased[y]`)
    Apply(SymPerm, SymPerm),
    /// An inference variable (e.g., `?X`).
    Infer(InferVarIndex),
    /// A generic variable (e.g., `T`).
    Var(SymVariable),
    /// An error occurred and has been reported to the user.
    Error(Reported),
}

#[derive(Clone, Copy, Debug, PartialEq, Eq, Structural, Hash)]
pub enum SymPlaceKind {
    /// `x`
    Var(SymVariable),
    /// `x.f`
    Field(SymPlace, SymField),
    /// `x[_]`
    Index(SymPlace),
    /// An inference variable.
    Infer(InferVarIndex),
    /// An error occurred and has been reported to the user.
    Error(Reported),
}

} // verus!
