use vstd::prelude::*;
use crate::db::{Db, Term, generics_in, places_in, same_term, term_ok, ty_in, perm_in, place_in};
use crate::diagnostic::Reported;
use crate::types::{
    InferVarIndex, SymField, SymGenericTerm, SymPerm, SymPermKind, SymPlace, SymPlaceKind,
    SymPrimitive, SymTy, SymTyKind, SymTyName, SymVariable,
};

verus! {

/// `t` names the type `name[args]`.
pub open spec fn is_named(db: Db, t: SymTy, name: SymTyName, args: Seq<SymGenericTerm>) -> bool {
    &&& db.is_ty(t)
    &&& db.ty_kind(t) is Named
    &&& db.ty_kind(t)->Named_0 == name
    &&& db.ty_kind(t)->Named_1@ == args
}

/// `t` names the type `()`.
pub open spec fn is_unit(db: Db, t: SymTy) -> bool {
    is_named(db, t, SymTyName::Tuple { arity: 0 }, Seq::empty())
}

/// `t` names the type `!`.
pub open spec fn is_never(db: Db, t: SymTy) -> bool {
    db.is_ty(t) && db.ty_kind(t) is Never
}

/// `t` names the type `boolean`.
pub open spec fn is_boolean(db: Db, t: SymTy) -> bool {
    is_named(db, t, SymTyName::Primitive(SymPrimitive::Bool), Seq::empty())
}

/// `t` names the type `perm ty`.
pub open spec fn is_perm_ty(db: Db, t: SymTy, perm: SymPerm, ty: SymTy) -> bool {
    db.is_ty(t) && db.ty_kind(t) == SymTyKind::Perm(perm, ty)
}

/// The leaves of a permission, left to right: the permission with every `Apply`
/// node flattened.
pub open spec fn perm_leaves(db: Db, p: SymPerm) -> Seq<SymPerm>
    decreases p.id,
{
    match db.perm_kind(p) {
        SymPermKind::Apply(a, b) => if a.id < p.id && b.id < p.id {
            perm_leaves(db, a) + perm_leaves(db, b)
        } else {
            seq![p]
        },
        _ => seq![p],
    }
}

/// True if the place mentions no inference variable.
pub open spec fn place_no_infer(db: Db, p: SymPlace) -> bool
    decreases p.id,
{
    match db.place_kind(p) {
        SymPlaceKind::Infer(_) => false,
        SymPlaceKind::Field(q, _) => q.id < p.id && place_no_infer(db, q),
        SymPlaceKind::Index(q) => q.id < p.id && place_no_infer(db, q),
        _ => true,
    }
}

/// `p` covers `q` when `p` includes all of `q`: they are equal, or `p` covers
/// the base of `q` (`a` covers `a.b` and `a[_]`).
pub open spec fn place_covers(db: Db, p: SymPlace, q: SymPlace) -> bool
    decreases q.id,
{
    p == q || match db.place_kind(q) {
        SymPlaceKind::Field(q2, _) => q2.id < q.id && place_covers(db, p, q2),
        SymPlaceKind::Index(q2) => q2.id < q.id && place_covers(db, p, q2),
        _ => false,
    }
}

/// The children of an interned term are interned before it.
pub proof fn lemma_children(db: Db, i: int)
    requires
        db.wf(),
        0 <= i < db.terms@.len(),
    ensures
        term_ok(db.terms@.take(i), db.terms@[i]),
        forall|t: SymTy| ty_in(db.terms@.take(i), t) ==> t.id < i && #[trigger] db.is_ty(t),
        forall|p: SymPerm| perm_in(db.terms@.take(i), p) ==> p.id < i && #[trigger] db.is_perm(p),
        forall|p: SymPlace|
            place_in(db.terms@.take(i), p) ==> p.id < i && #[trigger] db.is_place(p),
{
}

/// Two handles of a well-formed store are equal exactly when the terms they
/// name are structurally equal: interning makes structure and identity agree.
pub proof fn lemma_interned_identity(db: Db, i: int, j: int)
    requires
        db.wf(),
        0 <= i < db.terms@.len(),
        0 <= j < db.terms@.len(),
    ensures
        same_term(db.terms@[i], db.terms@[j]) <==> i == j,
{
    if i == j {
        assert(same_term(db.terms@[i], db.terms@[i]));
    }
}

/// A named type stays what it is in every store that extends its own.
pub broadcast proof fn lemma_extends_is_named(
    old_db: Db,
    new_db: Db,
    t: SymTy,
    name: SymTyName,
    args: Seq<SymGenericTerm>,
)
    requires
        new_db.extends(old_db),
        is_named(old_db, t, name, args),
    ensures
        #![trigger new_db.extends(old_db), is_named(new_db, t, name, args)]
        is_named(new_db, t, name, args),
{
    assert(new_db.terms@[t.id as int] == old_db.terms@[t.id as int]);
}

/// Building `()` twice gives the same type: the results of two successive
/// calls of `SymTy::unit` (the second on a store that extends the first) are
/// identical.
pub proof fn unit_is_canonical(db1: Db, a: SymTy, db2: Db, b: SymTy)
    requires
        db1.wf(),
        is_unit(db1, a),
        db2.wf(),
        db2.extends(db1),
        is_unit(db2, b),
    ensures
        a == b,
{
    assert(db2.terms@[a.id as int] == db1.terms@[a.id as int]);
    assert(same_term(db2.terms@[a.id as int], db2.terms@[b.id as int]));
    lemma_interned_identity(db2, a.id as int, b.id as int);
}

/// Building `!` twice gives the same type.
pub proof fn never_is_canonical(db1: Db, a: SymTy, db2: Db, b: SymTy)
    requires
        db1.wf(),
        is_never(db1, a),
        db2.wf(),
        db2.extends(db1),
        is_never(db2, b),
    ensures
        a == b,
{
    assert(db2.terms@[a.id as int] == db1.terms@[a.id as int]);
    assert(db2.terms@[a.id as int] == db2.terms@[b.id as int]);
    lemma_interned_identity(db2, a.id as int, b.id as int);
}

impl SymTy {
    /// Intern the type of the given kind.
    pub fn new(db: &mut Db, kind: SymTyKind) -> (r: SymTy)
        requires
            old(db).wf(),
            term_ok(old(db).terms@, Term::Ty(kind)),
        ensures
            final(db).wf(),
            final(db).extends(*old(db)),
            final(db).is_ty(r),
            same_term(final(db).terms@[r.id as int], Term::Ty(kind)),
    {
        let id = db.intern(Term::Ty(kind));
        SymTy { id }
    }

    /// Returns the named type `name[generics]`.
    pub fn named(db: &mut Db, name: SymTyName, generics: Vec<SymGenericTerm>) -> (r: SymTy)
        requires
            old(db).wf(),
            generics_in(old(db).terms@, generics@),
        ensures
            final(db).wf(),
            final(db).extends(*old(db)),
            is_named(*final(db), r, name, generics@),
    {
        let ghost g = generics@;
        SymTy::new(db, SymTyKind::Named(name, generics))
    }

    /// Returns the type of the given primitive.
    pub fn primitive(db: &mut Db, primitive: SymPrimitive) -> (r: SymTy)
        requires
            old(db).wf(),
        ensures
            final(db).wf(),
            final(db).extends(*old(db)),
            is_named(*final(db), r, SymTyName::Primitive(primitive), Seq::empty()),
    {
        SymTy::named(db, SymTyName::Primitive(primitive), Vec::new())
    }

    /// Returns the type `u8`.
    pub fn u8(db: &mut Db) -> (r: SymTy)
        requires
            old(db).wf(),
        ensures
            final(db).wf(),
            final(db).extends(*old(db)),
            is_named(*final(db), r, SymTyName::Primitive(SymPrimitive::Uint { bits: 8 }), Seq::empty()),
    {
        SymTy::primitive(db, SymPrimitive::Uint { bits: 8 })
    }

    /// Returns the type `u32`.
    pub fn u32(db: &mut Db) -> (r: SymTy)
        requires
            old(db).wf(),
        ensures
            final(db).wf(),
            final(db).extends(*old(db)),
            is_named(*final(db), r, SymTyName::Primitive(SymPrimitive::Uint { bits: 32 }), Seq::empty()),
    {
        SymTy::primitive(db, SymPrimitive::Uint { bits: 32 })
    }

    /// Returns the type `String`, of the given string class.
    pub fn string(db: &mut Db, string_class: crate::types::SymAggregate) -> (r: SymTy)
        requires
            old(db).wf(),
        ensures
            final(db).wf(),
            final(db).extends(*old(db)),
            is_named(*final(db), r, SymTyName::Aggregate(string_class), Seq::empty()),
    {
        SymTy::named(db, SymTyName::Aggregate(string_class), Vec::new())
    }

    /// Returns the type `boolean`.
    pub fn boolean(db: &mut Db) -> (r: SymTy)
        requires
            old(db).wf(),
        ensures
            final(db).wf(),
            final(db).extends(*old(db)),
            is_boolean(*final(db), r),
    {
        SymTy::primitive(db, SymPrimitive::Bool)
    }

    /// Returns the type `()`.
    pub fn unit(db: &mut Db) -> (r: SymTy)
        requires
            old(db).wf(),
        ensures
            final(db).wf(),
            final(db).extends(*old(db)),
            is_unit(*final(db), r),
    {
        SymTy::named(db, SymTyName::Tuple { arity: 0 }, Vec::new())
    }

    /// Returns the type `!`.
    pub fn never(db: &mut Db) -> (r: SymTy)
        requires
            old(db).wf(),
        ensures
            final(db).wf(),
            final(db).extends(*old(db)),
            is_never(*final(db), r),
    {
        SymTy::new(db, SymTyKind::Never)
    }

    /// Returns the type of the generic variable `var`.
    pub fn var(db: &mut Db, var: SymVariable) -> (r: SymTy)
        requires
            old(db).wf(),
        ensures
            final(db).wf(),
            final(db).extends(*old(db)),
            final(db).is_ty(r),
            final(db).ty_kind(r) == SymTyKind::Var(var),
    {
        SymTy::new(db, SymTyKind::Var(var))
    }

    /// Returns the type of the inference variable `var`.
    pub fn infer(db: &mut Db, var: InferVarIndex) -> (r: SymTy)
        requires
            old(db).wf(),
        ensures
            final(db).wf(),
            final(db).extends(*old(db)),
            final(db).is_ty(r),
            final(db).ty_kind(r) == SymTyKind::Infer(var),
    {
        SymTy::new(db, SymTyKind::Infer(var))
    }

    /// Returns the error type for an error that was reported.
    pub fn err(db: &mut Db, reported: Reported) -> (r: SymTy)
        requires
            old(db).wf(),
        ensures
            final(db).wf(),
            final(db).extends(*old(db)),
            final(db).is_ty(r),
            final(db).ty_kind(r) == SymTyKind::Error(reported),
    {
        SymTy::new(db, SymTyKind::Error(reported))
    }

    /// Returns the type `perm ty`.
    pub fn perm(db: &mut Db, perm: SymPerm, ty: SymTy) -> (r: SymTy)
        requires
            old(db).wf(),
            old(db).is_perm(perm),
            old(db).is_ty(ty),
        ensures
            final(db).wf(),
            final(db).extends(*old(db)),
            is_perm_ty(*final(db), r, perm, ty),
    {
        SymTy::new(db, SymTyKind::Perm(perm, ty))
    }

    /// Returns this type shared from `place`.
    pub fn shared(self, db: &mut Db, place: SymPlace) -> (r: SymTy)
        requires
            old(db).wf(),
            old(db).is_ty(self),
            old(db).is_place(place),
        ensures
            final(db).wf(),
            final(db).extends(*old(db)),
            final(db).is_ty(r),
            final(db).ty_kind(r) is Perm,
            final(db).ty_kind(r)->Perm_1 == self,
            final(db).perm_kind(final(db).ty_kind(r)->Perm_0) is Shared,
            final(db).perm_kind(final(db).ty_kind(r)->Perm_0)->Shared_0@ == seq![place],
    {
        let perm = SymPerm::shared(db, vec![place]);
        SymTy::perm(db, perm, self)
    }

    /// Returns this type leased from `place`.
    pub fn leased(self, db: &mut Db, place: SymPlace) -> (r: SymTy)
        requires
            old(db).wf(),
            old(db).is_ty(self),
            old(db).is_place(place),
        ensures
            final(db).wf(),
            final(db).extends(*old(db)),
            final(db).is_ty(r),
            final(db).ty_kind(r) is Perm,
            final(db).ty_kind(r)->Perm_1 == self,
            final(db).perm_kind(final(db).ty_kind(r)->Perm_0) is Leased,
            final(db).perm_kind(final(db).ty_kind(r)->Perm_0)->Leased_0@ == seq![place],
    {
        let perm = SymPerm::leased(db, vec![place]);
        SymTy::perm(db, perm, self)
    }
}

impl SymPerm {
    /// Intern the permission of the given kind.
    pub fn new(db: &mut Db, kind: SymPermKind) -> (r: SymPerm)
        requires
            old(db).wf(),
            term_ok(old(db).terms@, Term::Perm(kind)),
        ensures
            final(db).wf(),
            final(db).extends(*old(db)),
            final(db).is_perm(r),
            same_term(final(db).terms@[r.id as int], Term::Perm(kind)),
    {
        let id = db.intern(Term::Perm(kind));
        SymPerm { id }
    }

    /// Returns the permission `my`.
    pub fn my(db: &mut Db) -> (r: SymPerm)
        requires
            old(db).wf(),
        ensures
            final(db).wf(),
            final(db).extends(*old(db)),
            final(db).is_perm(r),
            final(db).perm_kind(r) == SymPermKind::My,
    {
        SymPerm::new(db, SymPermKind::My)
    }

    /// Returns the permission `our`.
    pub fn our(db: &mut Db) -> (r: SymPerm)
        requires
            old(db).wf(),
        ensures
            final(db).wf(),
            final(db).extends(*old(db)),
            final(db).is_perm(r),
            final(db).perm_kind(r) == SymPermKind::Our,
    {
        SymPerm::new(db, SymPermKind::Our)
    }

    /// Returns the permission `shared[places]`.
    pub fn shared(db: &mut Db, places: Vec<SymPlace>) -> (r: SymPerm)
        requires
            old(db).wf(),
            places_in(old(db).terms@, places@),
        ensures
            final(db).wf(),
            final(db).extends(*old(db)),
            final(db).is_perm(r),
            final(db).perm_kind(r) is Shared,
            final(db).perm_kind(r)->Shared_0@ == places@,
    {
        SymPerm::new(db, SymPermKind::Shared(places))
    }

    /// Returns the permission `leased[places]`.
    pub fn leased(db: &mut Db, places: Vec<SymPlace>) -> (r: SymPerm)
        requires
            old(db).wf(),
            places_in(old(db).terms@, places@),
        ensures
            final(db).wf(),
            final(db).extends(*old(db)),
            final(db).is_perm(r),
            final(db).perm_kind(r) is Leased,
            final(db).perm_kind(r)->Leased_0@ == places@,
    {
        SymPerm::new(db, SymPermKind::Leased(places))
    }

    /// Returns the generic permission `var`.
    pub fn var(db: &mut Db, var: SymVariable) -> (r: SymPerm)
        requires
            old(db).wf(),
        ensures
            final(db).wf(),
            final(db).extends(*old(db)),
            final(db).is_perm(r),
            final(db).perm_kind(r) == SymPermKind::Var(var),
    {
        SymPerm::new(db, SymPermKind::Var(var))
    }

    /// Returns the permission of the inference variable `var`.
    pub fn infer(db: &mut Db, var: InferVarIndex) -> (r: SymPerm)
        requires
            old(db).wf(),
        ensures
            final(db).wf(),
            final(db).extends(*old(db)),
            final(db).is_perm(r),
            final(db).perm_kind(r) == SymPermKind::Infer(var),
    {
        SymPerm::new(db, SymPermKind::Infer(var))
    }

    /// Returns the error permission for an error that was reported.
    pub fn err(db: &mut Db, reported: Reported) -> (r: SymPerm)
        requires
            old(db).wf(),
        ensures
            final(db).wf(),
            final(db).extends(*old(db)),
            final(db).is_perm(r),
            final(db).perm_kind(r) == SymPermKind::Error(reported),
    {
        SymPerm::new(db, SymPermKind::Error(reported))
    }

    /// Returns the permission `perm1 perm2` (e.g., `shared[x] leased[y]`).
    pub fn apply(db: &mut Db, perm1: SymPerm, perm2: SymPerm) -> (r: SymPerm)
        requires
            old(db).wf(),
            old(db).is_perm(perm1),
            old(db).is_perm(perm2),
        ensures
            final(db).wf(),
            final(db).extends(*old(db)),
            final(db).is_perm(r),
            final(db).perm_kind(r) == SymPermKind::Apply(perm1, perm2),
    {
        SymPerm::new(db, SymPermKind::Apply(perm1, perm2))
    }

    /// Apply this permission to `ty`; `my` leaves the type as it is.
    pub fn apply_to_ty(self, db: &mut Db, ty: SymTy) -> (r: SymTy)
        requires
            old(db).wf(),
            old(db).is_perm(self),
            old(db).is_ty(ty),
        ensures
            final(db).wf(),
            final(db).extends(*old(db)),
            old(db).perm_kind(self) is My ==> r == ty && final(db).terms@ == old(db).terms@,
            !(old(db).perm_kind(self) is My) ==> is_perm_ty(*final(db), r, self, ty),
    {
        if let Term::Perm(SymPermKind::My) = &db.terms[self.id] {
            ty
        } else {
            SymTy::perm(db, self, ty)
        }
    }

    /// The leaves of this permission (its non-application parts) in left-to-right
    /// order: for `shared[x] leased[y]` they are `shared[x]`, `leased[y]`.
    pub fn leaves(self, db: &Db) -> (r: Vec<SymPerm>)
        requires
            db.wf(),
            db.is_perm(self),
        ensures
            r@ == perm_leaves(*db, self),
        decreases self.id,
    {
        proof {
            lemma_children(*db, self.id as int);
        }
        match &db.terms[self.id] {
            Term::Perm(SymPermKind::Apply(a, b)) => {
                let mut left = a.leaves(db);
                let mut right = b.leaves(db);
                left.append(&mut right);
                left
            },
            _ => vec![self],
        }
    }
}

impl SymPlace {
    /// Intern the place of the given kind, whose type is `ty`.
    pub fn new(db: &mut Db, kind: SymPlaceKind, ty: SymTy) -> (r: SymPlace)
        requires
            old(db).wf(),
            term_ok(old(db).terms@, Term::Place(kind, ty)),
        ensures
            final(db).wf(),
            final(db).extends(*old(db)),
            final(db).is_place(r),
            final(db).place_kind(r) == kind,
            final(db).place_ty(r) == ty,
    {
        let id = db.intern(Term::Place(kind, ty));
        SymPlace { id }
    }

    /// The place of the variable `var`, of type `ty`.
    pub fn var(db: &mut Db, var: SymVariable, ty: SymTy) -> (r: SymPlace)
        requires
            old(db).wf(),
            old(db).is_ty(ty),
        ensures
            final(db).wf(),
            final(db).extends(*old(db)),
            final(db).is_place(r),
            final(db).place_kind(r) == SymPlaceKind::Var(var),
            final(db).place_ty(r) == ty,
    {
        SymPlace::new(db, SymPlaceKind::Var(var), ty)
    }

    /// The place `self[_]`, of the given element type.
    pub fn index(self, db: &mut Db, element_ty: SymTy) -> (r: SymPlace)
        requires
            old(db).wf(),
            old(db).is_place(self),
            old(db).is_ty(element_ty),
        ensures
            final(db).wf(),
            final(db).extends(*old(db)),
            final(db).is_place(r),
            final(db).place_kind(r) == SymPlaceKind::Index(self),
            final(db).place_ty(r) == element_ty,
    {
        SymPlace::new(db, SymPlaceKind::Index(self), element_ty)
    }

    /// The place `self.field`, whose type is the declared type of the field.
    pub fn field(self, db: &mut Db, field: SymField) -> (r: SymPlace)
        requires
            old(db).wf(),
            old(db).is_place(self),
            field.id < old(db).fields@.len(),
        ensures
            final(db).wf(),
            final(db).extends(*old(db)),
            final(db).is_place(r),
            final(db).place_kind(r) == SymPlaceKind::Field(self, field),
            final(db).place_ty(r) == old(db).fields@[field.id as int].ty,
    {
        let ty = db.fields[field.id].ty;
        SymPlace::new(db, SymPlaceKind::Field(self, field), ty)
    }

    /// True if `self` contains no inference variables.
    pub fn no_inference_vars(self, db: &Db) -> (r: bool)
        requires
            db.wf(),
            db.is_place(self),
        ensures
            r == place_no_infer(*db, self),
        decreases self.id,
    {
        proof {
            lemma_children(*db, self.id as int);
        }
        match &db.terms[self.id] {
            Term::Place(SymPlaceKind::Infer(_), _) => false,
            Term::Place(SymPlaceKind::Field(q, _), _) => q.no_inference_vars(db),
            Term::Place(SymPlaceKind::Index(q), _) => q.no_inference_vars(db),
            _ => true,
        }
    }

    /// True if `self` covers `other`: `a` covers `a`, `a.b` and `a[_]`.
    /// Neither place may contain inference variables.
    pub fn covers(self, db: &Db, other: SymPlace) -> (r: bool)
        requires
            db.wf(),
            db.is_place(self),
            db.is_place(other),
            place_no_infer(*db, self),
            place_no_infer(*db, other),
        ensures
            r == place_covers(*db, self, other),
        decreases other.id,
    {
        if self == other {
            return true;
        }
        proof {
            lemma_children(*db, other.id as int);
        }
        match &db.terms[other.id] {
            Term::Place(SymPlaceKind::Field(q, _), _) => self.covers(db, *q),
            Term::Place(SymPlaceKind::Index(q), _) => self.covers(db, *q),
            _ => false,
        }
    }

    /// True if `self` is covered by `other`.
    pub fn is_covered_by(self, db: &Db, other: SymPlace) -> (r: bool)
        requires
            db.wf(),
            db.is_place(self),
            db.is_place(other),
            place_no_infer(*db, self),
            place_no_infer(*db, other),
        ensures
            r == place_covers(*db, other, self),
    {
        other.covers(db, self)
    }
}

} // verus!
