use vstd::prelude::*;
use crate::class::Class;
use crate::span::Span;
use crate::types::{
    SymAggregate, SymField, SymVariable, SymGenericKind, SymGenericTerm, SymPerm, SymPermKind,
    SymPlace, SymPlaceKind, SymTy, SymTyKind,
};
use crate::word::Word;

verus! {

/// One entry of the term store.
#[derive(Debug)]
pub enum Term {
    Ty(SymTyKind),
    Perm(SymPermKind),
    /// A place, together with its type as given by the place-typing query.
    Place(SymPlaceKind, SymTy),
}

/// A declared generic variable.
#[derive(Clone, Copy, Debug, PartialEq, Eq, Structural)]
pub struct VariableData {
    pub kind: SymGenericKind,
    pub name: Option<Word>,
    pub span: Span,
}

/// A declared field and its type.
#[derive(Clone, Copy, Debug, PartialEq, Eq, Structural)]
pub struct FieldData {
    pub name: Word,
    pub ty: SymTy,
}

/// Structural equality of two term entries: lists are compared by their contents.
pub open spec fn same_term(a: Term, b: Term) -> bool {
    match (a, b) {
        (Term::Ty(SymTyKind::Named(n1, g1)), Term::Ty(SymTyKind::Named(n2, g2))) => n1 == n2
            && g1@ == g2@,
        (Term::Perm(SymPermKind::Shared(p1)), Term::Perm(SymPermKind::Shared(p2))) => p1@ == p2@,
        (Term::Perm(SymPermKind::Leased(p1)), Term::Perm(SymPermKind::Leased(p2))) => p1@ == p2@,
        _ => a == b,
    }
}

pub open spec fn ty_in(terms: Seq<Term>, t: SymTy) -> bool {
    t.id < terms.len() && terms[t.id as int] is Ty
}

pub open spec fn perm_in(terms: Seq<Term>, p: SymPerm) -> bool {
    p.id < terms.len() && terms[p.id as int] is Perm
}

pub open spec fn place_in(terms: Seq<Term>, p: SymPlace) -> bool {
    p.id < terms.len() && terms[p.id as int] is Place
}

pub open spec fn generic_in(terms: Seq<Term>, g: SymGenericTerm) -> bool {
    match g {
        SymGenericTerm::Type(t) => ty_in(terms, t),
        SymGenericTerm::Perm(p) => perm_in(terms, p),
        SymGenericTerm::Place(p) => place_in(terms, p),
        SymGenericTerm::Error(_) => true,
    }
}

pub open spec fn places_in(terms: Seq<Term>, ps: Seq<SymPlace>) -> bool {
    forall|k: int| 0 <= k < ps.len() ==> #[trigger] place_in(terms, ps[k])
}

pub open spec fn generics_in(terms: Seq<Term>, gs: Seq<SymGenericTerm>) -> bool {
    forall|k: int| 0 <= k < gs.len() ==> #[trigger] generic_in(terms, gs[k])
}

/// Every handle inside `t` names an entry of `terms` of the right sort.
pub open spec fn term_ok(terms: Seq<Term>, t: Term) -> bool {
    match t {
        Term::Ty(k) => match k {
            SymTyKind::Perm(p, x) => perm_in(terms, p) && ty_in(terms, x),
            SymTyKind::Named(_, g) => generics_in(terms, g@),
            _ => true,
        },
        Term::Perm(k) => match k {
            SymPermKind::Shared(ps) => places_in(terms, ps@),
            SymPermKind::Leased(ps) => places_in(terms, ps@),
            SymPermKind::Apply(a, b) => perm_in(terms, a) && perm_in(terms, b),
            _ => true,
        },
        Term::Place(k, ty) => ty_in(terms, ty) && match k {
            SymPlaceKind::Field(p, _) => place_in(terms, p),
            SymPlaceKind::Index(p) => place_in(terms, p),
            _ => true,
        },
    }
}

/// The interning store: words, classes, variables, fields and terms.
/// Terms are hash-consed: structurally equal terms share one entry, so two
/// handles are equal exactly when the terms they name are.
pub struct Db {
    pub words: Vec<String>,
    pub classes: Vec<Class>,
    pub variables: Vec<VariableData>,
    pub fields: Vec<FieldData>,
    pub terms: Vec<Term>,
}

impl Db {
    /// Each term only refers to terms interned before it, terms are unique up to
    /// structure, fields have valid types and words are unique.
    pub open spec fn wf(&self) -> bool {
        &&& forall|i: int|
            0 <= i < self.terms@.len() ==> term_ok(self.terms@.take(i), #[trigger] self.terms@[i])
        &&& forall|i: int, j: int|
            0 <= i < self.terms@.len() && 0 <= j < self.terms@.len() && i != j ==> !same_term(
                #[trigger] self.terms@[i],
                #[trigger] self.terms@[j],
            )
        &&& forall|f: int|
            0 <= f < self.fields@.len() ==> ty_in(self.terms@, #[trigger] self.fields@[f].ty)
        &&& forall|i: int, j: int|
            0 <= i < self.words@.len() && 0 <= j < self.words@.len() && i != j
                ==> #[trigger] self.words@[i]@ != #[trigger] self.words@[j]@
    }

    pub open spec fn is_ty(&self, t: SymTy) -> bool {
        ty_in(self.terms@, t)
    }

    pub open spec fn is_perm(&self, p: SymPerm) -> bool {
        perm_in(self.terms@, p)
    }

    pub open spec fn is_place(&self, p: SymPlace) -> bool {
        place_in(self.terms@, p)
    }

    pub open spec fn is_generic(&self, g: SymGenericTerm) -> bool {
        generic_in(self.terms@, g)
    }

    pub open spec fn ty_kind(&self, t: SymTy) -> SymTyKind {
        self.terms@[t.id as int]->Ty_0
    }

    pub open spec fn perm_kind(&self, p: SymPerm) -> SymPermKind {
        self.terms@[p.id as int]->Perm_0
    }

    pub open spec fn place_kind(&self, p: SymPlace) -> SymPlaceKind {
        self.terms@[p.id as int]->Place_0
    }

    /// The type of a place.
    pub open spec fn place_ty(&self, p: SymPlace) -> SymTy {
        self.terms@[p.id as int]->Place_1
    }

    /// `self` holds everything `old` held, at the same handles.
    pub open spec fn extends(&self, old: Db) -> bool {
        &&& old.terms@.len() <= self.terms@.len()
        &&& forall|i: int| 0 <= i < old.terms@.len() ==> #[trigger] self.terms@[i] == old.terms@[i]
        &&& old.words@.len() <= self.words@.len()
        &&& forall|i: int| 0 <= i < old.words@.len() ==> #[trigger] self.words@[i] == old.words@[i]
        &&& old.classes@.len() <= self.classes@.len()
        &&& forall|i: int|
            0 <= i < old.classes@.len() ==> #[trigger] self.classes@[i] == old.classes@[i]
        &&& old.variables@.len() <= self.variables@.len()
        &&& forall|i: int|
            0 <= i < old.variables@.len() ==> #[trigger] self.variables@[i] == old.variables@[i]
        &&& old.fields@.len() <= self.fields@.len()
        &&& forall|i: int| 0 <= i < old.fields@.len() ==> #[trigger] self.fields@[i] == old.fields@[i]
    }

    /// The empty store.
    pub fn new() -> (r: Db)
        ensures
            r.wf(),
            r.terms@.len() == 0,
            r.words@.len() == 0,
            r.classes@.len() == 0,
            r.variables@.len() == 0,
            r.fields@.len() == 0,
    {
        Db {
            words: Vec::new(),
            classes: Vec::new(),
            variables: Vec::new(),
            fields: Vec::new(),
            terms: Vec::new(),
        }
    }

    /// Look up an entry structurally equal to `t`.
    fn find_term(&self, t: &Term) -> (r: Option<usize>)
        ensures
            match r {
                Some(i) => i < self.terms@.len() && same_term(self.terms@[i as int], *t),
                None => forall|j: int|
                    0 <= j < self.terms@.len() ==> !same_term(#[trigger] self.terms@[j], *t),
            },
    {
        let mut i: usize = 0;
        while i < self.terms.len()
            invariant
                0 <= i <= self.terms@.len(),
                forall|j: int| 0 <= j < i ==> !same_term(#[trigger] self.terms@[j], *t),
            decreases self.terms@.len() - i,
        {
            if same_term_exec(&self.terms[i], t) {
                return Some(i);
            }
            i += 1;
        }
        None
    }

    /// Intern `t`: return the handle of the entry structurally equal to it,
    /// adding one if there is none.
    pub fn intern(&mut self, t: Term) -> (r: usize)
        requires
            old(self).wf(),
            term_ok(old(self).terms@, t),
        ensures
            final(self).wf(),
            final(self).extends(*old(self)),
            r < final(self).terms@.len(),
            same_term(final(self).terms@[r as int], t),
            final(self).words == old(self).words,
            final(self).classes == old(self).classes,
            final(self).variables == old(self).variables,
            final(self).fields == old(self).fields,
            (exists|j: int| 0 <= j < old(self).terms@.len() && same_term(old(self).terms@[j], t))
                ==> final(self).terms@ == old(self).terms@,
            !(exists|j: int| 0 <= j < old(self).terms@.len() && same_term(old(self).terms@[j], t))
                ==> final(self).terms@ == old(self).terms@.push(t) && r == old(self).terms@.len(),
    {
        match self.find_term(&t) {
            Some(i) => i,
            None => {
                let ghost old_db = *self;
                let n = self.terms.len();
                self.terms.push(t);
                proof {
                    lemma_push_keeps_wf(old_db, *self, t);
                }
                n
            },
        }
    }
}

pub proof fn lemma_same_term_symmetric(a: Term, b: Term)
    ensures
        same_term(a, b) == same_term(b, a),
{
}

proof fn lemma_push_keeps_wf(old_db: Db, new_db: Db, t: Term)
    requires
        old_db.wf(),
        term_ok(old_db.terms@, t),
        new_db.terms@ == old_db.terms@.push(t),
        new_db.words == old_db.words,
        new_db.classes == old_db.classes,
        new_db.variables == old_db.variables,
        new_db.fields == old_db.fields,
        forall|j: int| 0 <= j < old_db.terms@.len() ==> !same_term(#[trigger] old_db.terms@[j], t),
    ensures
        new_db.wf(),
        new_db.extends(old_db),
{
    let n = old_db.terms@.len() as int;
    assert forall|i: int| 0 <= i < new_db.terms@.len() implies term_ok(
        new_db.terms@.take(i),
        #[trigger] new_db.terms@[i],
    ) by {
        if i < n {
            assert(new_db.terms@.take(i) =~= old_db.terms@.take(i));
            assert(new_db.terms@[i] == old_db.terms@[i]);
        } else {
            assert(new_db.terms@.take(i) =~= old_db.terms@);
        }
    }
    assert forall|i: int, j: int|
        0 <= i < new_db.terms@.len() && 0 <= j < new_db.terms@.len() && i != j implies !same_term(
        #[trigger] new_db.terms@[i],
        #[trigger] new_db.terms@[j],
    ) by {
        if i < n && j < n {
            assert(new_db.terms@[i] == old_db.terms@[i]);
            assert(new_db.terms@[j] == old_db.terms@[j]);
        } else if i == n {
            lemma_same_term_symmetric(t, old_db.terms@[j]);
            assert(!same_term(old_db.terms@[j], t));
        } else {
            assert(!same_term(old_db.terms@[i], t));
        }
    }
    assert forall|f: int| 0 <= f < new_db.fields@.len() implies ty_in(
        new_db.terms@,
        #[trigger] new_db.fields@[f].ty,
    ) by {
        let x = new_db.fields@[f].ty;
        assert(ty_in(old_db.terms@, x));
        assert(new_db.terms@[x.id as int] == old_db.terms@[x.id as int]);
    }
    assert forall|i: int| 0 <= i < old_db.terms@.len() implies #[trigger] new_db.terms@[i]
        == old_db.terms@[i] by {}
}

fn same_generics(a: &Vec<SymGenericTerm>, b: &Vec<SymGenericTerm>) -> (r: bool)
    ensures
        r == (a@ == b@),
{
    if a.len() != b.len() {
        return false;
    }
    let mut i: usize = 0;
    while i < a.len()
        invariant
            a@.len() == b@.len(),
            0 <= i <= a@.len(),
            forall|k: int| 0 <= k < i ==> a@[k] == b@[k],
        decreases a@.len() - i,
    {
        if !(a[i] == b[i]) {
            return false;
        }
        i += 1;
    }
    assert(a@ =~= b@);
    true
}

fn same_places(a: &Vec<SymPlace>, b: &Vec<SymPlace>) -> (r: bool)
    ensures
        r == (a@ == b@),
{
    if a.len() != b.len() {
        return false;
    }
    let mut i: usize = 0;
    while i < a.len()
        invariant
            a@.len() == b@.len(),
            0 <= i <= a@.len(),
            forall|k: int| 0 <= k < i ==> a@[k] == b@[k],
        decreases a@.len() - i,
    {
        if !(a[i] == b[i]) {
            return false;
        }
        i += 1;
    }
    assert(a@ =~= b@);
    true
}

fn same_term_exec(a: &Term, b: &Term) -> (r: bool)
    ensures
        r == same_term(*a, *b),
{
    match (a, b) {
        (Term::Ty(x), Term::Ty(y)) => match (x, y) {
            (SymTyKind::Perm(p1, t1), SymTyKind::Perm(p2, t2)) => *p1 == *p2 && *t1 == *t2,
            (SymTyKind::Named(n1, g1), SymTyKind::Named(n2, g2)) => *n1 == *n2 && same_generics(
                g1,
                g2,
            ),
            (SymTyKind::Infer(i1), SymTyKind::Infer(i2)) => *i1 == *i2,
            (SymTyKind::Var(v1), SymTyKind::Var(v2)) => *v1 == *v2,
            (SymTyKind::Never, SymTyKind::Never) => true,
            (SymTyKind::Error(r1), SymTyKind::Error(r2)) => *r1 == *r2,
            _ => false,
        },
        (Term::Perm(x), Term::Perm(y)) => match (x, y) {
            (SymPermKind::My, SymPermKind::My) => true,
            (SymPermKind::Our, SymPermKind::Our) => true,
            (SymPermKind::Shared(p1), SymPermKind::Shared(p2)) => same_places(p1, p2),
            (SymPermKind::Leased(p1), SymPermKind::Leased(p2)) => same_places(p1, p2),
            (SymPermKind::Apply(a1, b1), SymPermKind::Apply(a2, b2)) => *a1 == *a2 && *b1 == *b2,
            (SymPermKind::Infer(i1), SymPermKind::Infer(i2)) => *i1 == *i2,
            (SymPermKind::Var(v1), SymPermKind::Var(v2)) => *v1 == *v2,
            (SymPermKind::Error(r1), SymPermKind::Error(r2)) => *r1 == *r2,
            _ => false,
        },
        (Term::Place(k1, t1), Term::Place(k2, t2)) => *k1 == *k2 && *t1 == *t2,
        _ => false,
    }
}

impl Db {
    /// Declare a class or struct.
    pub fn add_class(&mut self, class: Class) -> (r: SymAggregate)
        requires
            old(self).wf(),
        ensures
            final(self).wf(),
            final(self).extends(*old(self)),
            final(self).terms == old(self).terms,
            final(self).classes@ == old(self).classes@.push(class),
            r == (SymAggregate { id: old(self).classes@.len() as usize, style: class.style }),
    {
        let id = self.classes.len();
        let style = class.style;
        self.classes.push(class);
        proof {
            assert forall|i: int| 0 <= i < old(self).classes@.len() implies #[trigger] self.classes@[i]
                == old(self).classes@[i] by {}
        }
        SymAggregate { id, style }
    }

    /// The declaration of a class or struct.
    pub fn class(&self, a: SymAggregate) -> (r: Class)
        requires
            a.id < self.classes@.len(),
        ensures
            r == self.classes@[a.id as int],
    {
        self.classes[a.id]
    }

    /// Declare a generic variable.
    pub fn add_variable(&mut self, kind: SymGenericKind, name: Option<Word>, span: Span) -> (r: SymVariable)
        requires
            old(self).wf(),
        ensures
            final(self).wf(),
            final(self).extends(*old(self)),
            final(self).terms == old(self).terms,
            final(self).variables@ == old(self).variables@.push(VariableData { kind, name, span }),
            r.id == old(self).variables@.len(),
    {
        let id = self.variables.len();
        self.variables.push(VariableData { kind, name, span });
        proof {
            assert forall|i: int| 0 <= i < old(self).variables@.len() implies #[trigger] self.variables@[i]
                == old(self).variables@[i] by {}
        }
        SymVariable { id }
    }

    /// Declare a field of the given type.
    pub fn add_field(&mut self, name: Word, ty: SymTy) -> (r: SymField)
        requires
            old(self).wf(),
            old(self).is_ty(ty),
        ensures
            final(self).wf(),
            final(self).extends(*old(self)),
            final(self).terms == old(self).terms,
            final(self).fields@ == old(self).fields@.push(FieldData { name, ty }),
            r.id == old(self).fields@.len(),
    {
        let id = self.fields.len();
        self.fields.push(FieldData { name, ty });
        proof {
            assert forall|i: int| 0 <= i < old(self).fields@.len() implies #[trigger] self.fields@[i]
                == old(self).fields@[i] by {}
        }
        SymField { id }
    }
}

impl Db {
    /// Test whether `g` is a term of this store, of the sort it claims.
    pub fn valid_generic(&self, g: SymGenericTerm) -> (r: bool)
        ensures
            r == self.is_generic(g),
    {
        match g {
            SymGenericTerm::Type(t) => t.id < self.terms.len() && matches!(self.terms[t.id], Term::Ty(_)),
            SymGenericTerm::Perm(p) => p.id < self.terms.len() && matches!(self.terms[p.id], Term::Perm(_)),
            SymGenericTerm::Place(p) => p.id < self.terms.len() && matches!(
                self.terms[p.id],
                Term::Place(..)
            ),
            SymGenericTerm::Error(_) => true,
        }
    }
}

} // verus!
