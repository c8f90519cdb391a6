use vstd::prelude::*;
use crate::span::Span;
use crate::word::Word;

verus! {

/// Whether an aggregate is a class (nominally owned, never copy) or a struct
/// (whose capabilities come from its generic arguments).
#[derive(Clone, Copy, Debug, PartialEq, Eq, Structural, Hash)]
pub enum SymAggregateStyle {
    Struct,
    Class,
}

/// A declared class or struct.
#[derive(Clone, Copy, Debug, PartialEq, Eq, Structural, Hash)]
pub struct Class {
    pub name: Word,
    pub style: SymAggregateStyle,
    /// Span of the class's name in its declaration.
    pub name_decl_span: Span,
    /// Overall span of the class (including any body).
    pub span: Span,
}

impl Class {
    /// The span of the name of the class.
    pub fn name_span(self) -> (r: Span)
        ensures
            r == self.name_decl_span,
    {
        self.name_decl_span
    }
}

} // verus!
