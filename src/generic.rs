use vstd::prelude::*;
use crate::db::{Db, Term};
use crate::diagnostic::Errors;
use crate::types::{
    InferVarIndex, SymGenericKind, SymGenericTerm, SymPerm, SymPermKind, SymPlace, SymPlaceKind,
    SymTy, SymTyKind,
};

verus! {

/// The kind of a generic term, or the error it carries.
pub open spec fn term_kind(t: SymGenericTerm) -> Errors<SymGenericKind> {
    match t {
        SymGenericTerm::Type(_) => Ok(SymGenericKind::Type),
        SymGenericTerm::Perm(_) => Ok(SymGenericKind::Perm),
        SymGenericTerm::Place(_) => Ok(SymGenericKind::Place),
        SymGenericTerm::Error(r) => Err(r),
    }
}

/// An error term has every kind; any other term has its own kind only.
pub open spec fn term_has_kind(t: SymGenericTerm, kind: SymGenericKind) -> bool {
    match term_kind(t) {
        Ok(k) => k == kind,
        Err(_) => true,
    }
}

/// The inference variable that `t` is, if it is one.
pub open spec fn term_as_infer(db: Db, t: SymGenericTerm) -> Option<InferVarIndex> {
    match t {
        SymGenericTerm::Type(ty) => match db.ty_kind(ty) {
            SymTyKind::Infer(i) => Some(i),
            _ => None,
        },
        SymGenericTerm::Perm(p) => match db.perm_kind(p) {
            SymPermKind::Infer(i) => Some(i),
            _ => None,
        },
        SymGenericTerm::Place(p) => match db.place_kind(p) {
            SymPlaceKind::Infer(i) => Some(i),
            _ => None,
        },
        SymGenericTerm::Error(_) => None,
    }
}

/// Test if `self` can be said to have the given kind (is it a type? a permission?).
/// An error has every kind.
pub trait HasKind {
    spec fn spec_has_kind(&self, kind: SymGenericKind) -> bool;

    fn has_kind(&self, kind: SymGenericKind) -> (r: bool)
        ensures
            r == self.spec_has_kind(kind),
    ;
}

impl HasKind for SymGenericTerm {
    open spec fn spec_has_kind(&self, kind: SymGenericKind) -> bool {
        term_has_kind(*self, kind)
    }

    fn has_kind(&self, kind: SymGenericKind) -> (r: bool) {
        self.is_of_kind(kind)
    }
}

impl HasKind for SymTy {
    open spec fn spec_has_kind(&self, kind: SymGenericKind) -> bool {
        kind == SymGenericKind::Type
    }

    fn has_kind(&self, kind: SymGenericKind) -> (r: bool) {
        kind == SymGenericKind::Type
    }
}

impl HasKind for SymPerm {
    open spec fn spec_has_kind(&self, kind: SymGenericKind) -> bool {
        kind == SymGenericKind::Perm
    }

    fn has_kind(&self, kind: SymGenericKind) -> (r: bool) {
        kind == SymGenericKind::Perm
    }
}

impl HasKind for SymPlace {
    open spec fn spec_has_kind(&self, kind: SymGenericKind) -> bool {
        kind == SymGenericKind::Place
    }

    fn has_kind(&self, kind: SymGenericKind) -> (r: bool) {
        kind == SymGenericKind::Place
    }
}

/// Downcast `self` to an `R`, which it must have the kind of; an error term
/// becomes the error `R`.
pub trait AssertKind<R>: Sized {
    spec fn assertable(&self, db: Db) -> bool;

    spec fn asserted(&self, db: Db, r: R) -> bool;

    fn assert_kind(self, db: &mut Db) -> (r: R)
        requires
            old(db).wf(),
            self.assertable(*old(db)),
        ensures
            final(db).wf(),
            final(db).extends(*old(db)),
            self.asserted(*final(db), r),
    ;
}

impl AssertKind<SymTy> for SymGenericTerm {
    open spec fn assertable(&self, db: Db) -> bool {
        db.is_generic(*self) && term_has_kind(*self, SymGenericKind::Type)
    }

    open spec fn asserted(&self, db: Db, r: SymTy) -> bool {
        db.is_ty(r) && match *self {
            SymGenericTerm::Type(t) => r == t,
            SymGenericTerm::Error(e) => db.ty_kind(r) == SymTyKind::Error(e),
            _ => false,
        }
    }

    fn assert_kind(self, db: &mut Db) -> (r: SymTy) {
        self.assert_type(db)
    }
}

impl AssertKind<SymPerm> for SymGenericTerm {
    open spec fn assertable(&self, db: Db) -> bool {
        db.is_generic(*self) && term_has_kind(*self, SymGenericKind::Perm)
    }

    open spec fn asserted(&self, db: Db, r: SymPerm) -> bool {
        db.is_perm(r) && match *self {
            SymGenericTerm::Perm(p) => r == p,
            SymGenericTerm::Error(e) => db.perm_kind(r) == SymPermKind::Error(e),
            _ => false,
        }
    }

    fn assert_kind(self, db: &mut Db) -> (r: SymPerm) {
        self.assert_perm(db)
    }
}

impl AssertKind<SymPlace> for SymGenericTerm {
    open spec fn assertable(&self, db: Db) -> bool {
        db.is_generic(*self) && term_has_kind(*self, SymGenericKind::Place)
    }

    open spec fn asserted(&self, db: Db, r: SymPlace) -> bool {
        db.is_place(r) && match *self {
            SymGenericTerm::Place(p) => r == p,
            SymGenericTerm::Error(e) => db.place_kind(r) == SymPlaceKind::Error(e),
            _ => false,
        }
    }

    fn assert_kind(self, db: &mut Db) -> (r: SymPlace) {
        self.assert_place(db)
    }
}

impl SymGenericTerm {
    /// Returns the kind of term (or `Err` if it is an error).
    pub fn kind(self) -> (r: Errors<SymGenericKind>)
        ensures
            r == term_kind(self),
    {
        match self {
            SymGenericTerm::Type(_) => Ok(SymGenericKind::Type),
            SymGenericTerm::Perm(_) => Ok(SymGenericKind::Perm),
            SymGenericTerm::Place(_) => Ok(SymGenericKind::Place),
            SymGenericTerm::Error(r) => Err(r),
        }
    }

    /// True if `self` is an error or has the given kind.
    pub fn is_of_kind(self, kind: SymGenericKind) -> (r: bool)
        ensures
            r == term_has_kind(self, kind),
    {
        match self {
            SymGenericTerm::Type(_) => kind == SymGenericKind::Type,
            SymGenericTerm::Perm(_) => kind == SymGenericKind::Perm,
            SymGenericTerm::Place(_) => kind == SymGenericKind::Place,
            SymGenericTerm::Error(_) => true,
        }
    }

    /// Returns the inference variable index if `self` is an inference variable.
    pub fn as_infer(self, db: &Db) -> (r: Option<InferVarIndex>)
        requires
            db.wf(),
            db.is_generic(self),
        ensures
            r == term_as_infer(*db, self),
    {
        match self {
            SymGenericTerm::Type(ty) => match &db.terms[ty.id] {
                Term::Ty(SymTyKind::Infer(i)) => Some(*i),
                _ => None,
            },
            SymGenericTerm::Perm(p) => match &db.terms[p.id] {
                Term::Perm(SymPermKind::Infer(i)) => Some(*i),
                _ => None,
            },
            SymGenericTerm::Place(p) => match &db.terms[p.id] {
                Term::Place(SymPlaceKind::Infer(i), _) => Some(*i),
                _ => None,
            },
            SymGenericTerm::Error(_) => None,
        }
    }

    /// The type that `self` is; an error becomes the error type.
    pub fn assert_type(self, db: &mut Db) -> (r: SymTy)
        requires
            old(db).wf(),
            old(db).is_generic(self),
            term_has_kind(self, SymGenericKind::Type),
        ensures
            final(db).wf(),
            final(db).extends(*old(db)),
            final(db).is_ty(r),
            self is Type ==> r == self->Type_0 && final(db).terms@ == old(db).terms@,
            self is Error ==> final(db).ty_kind(r) == SymTyKind::Error(self->Error_0),
    {
        match self {
            SymGenericTerm::Type(ty) => ty,
            SymGenericTerm::Error(reported) => SymTy::err(db, reported),
            _ => vstd::pervasive::unreached(),
        }
    }

    /// The permission that `self` is; an error becomes the error permission.
    pub fn assert_perm(self, db: &mut Db) -> (r: SymPerm)
        requires
            old(db).wf(),
            old(db).is_generic(self),
            term_has_kind(self, SymGenericKind::Perm),
        ensures
            final(db).wf(),
            final(db).extends(*old(db)),
            final(db).is_perm(r),
            self is Perm ==> r == self->Perm_0 && final(db).terms@ == old(db).terms@,
            self is Error ==> final(db).perm_kind(r) == SymPermKind::Error(self->Error_0),
    {
        match self {
            SymGenericTerm::Perm(p) => p,
            SymGenericTerm::Error(reported) => SymPerm::err(db, reported),
            _ => vstd::pervasive::unreached(),
        }
    }

    /// The place that `self` is; an error becomes an error place of error type.
    pub fn assert_place(self, db: &mut Db) -> (r: SymPlace)
        requires
            old(db).wf(),
            old(db).is_generic(self),
            term_has_kind(self, SymGenericKind::Place),
        ensures
            final(db).wf(),
            final(db).extends(*old(db)),
            final(db).is_place(r),
            self is Place ==> r == self->Place_0 && final(db).terms@ == old(db).terms@,
            self is Error ==> final(db).place_kind(r) == SymPlaceKind::Error(self->Error_0),
    {
        match self {
            SymGenericTerm::Place(p) => p,
            SymGenericTerm::Error(reported) => {
                let ty = SymTy::err(db, reported);
                SymPlace::new(db, SymPlaceKind::Error(reported), ty)
            },
            _ => vstd::pervasive::unreached(),
        }
    }
}

} // verus!
