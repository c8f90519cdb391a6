use vstd::prelude::*;
use crate::class::SymAggregateStyle;
use crate::db::{Db, Term, generics_in, places_in};
use crate::diagnostic::{Errors, Predicate};
use crate::env::{Env, EnvModel, infer_isnt, var_is};
use crate::predicates::{both, either, generic_id, lemma_generics_before, lemma_places_before};
use crate::terms::lemma_children;
use crate::types::{SymGenericTerm, SymPerm, SymPermKind, SymPlace, SymTy, SymTyKind, SymTyName};

verus! {

// ---------------------------------------------------------------------------
// Deciding that a term is provably *not* copy, from the facts known now. This
// is the dual of the copy decision: a struct or tuple is not copy when none of
// its arguments is, a lease when one of its places is not, an application when
// neither side is. With incomplete inference neither decision may hold.

pub open spec fn term_isnt_copy(db: Db, s: EnvModel, g: SymGenericTerm) -> Errors<bool>
    decreases generic_id(g) + 1, 1int,
{
    match g {
        SymGenericTerm::Type(t) => ty_isnt_copy(db, s, t),
        SymGenericTerm::Perm(p) => perm_isnt_copy(db, s, p),
        SymGenericTerm::Place(_) => Ok(false),
        SymGenericTerm::Error(r) => Err(r),
    }
}

pub open spec fn generics_all_isnt_copy(
    db: Db,
    s: EnvModel,
    owner: int,
    gs: Seq<SymGenericTerm>,
) -> Errors<bool>
    decreases owner, gs.len() + 1,
{
    if gs.len() == 0 {
        Ok(true)
    } else {
        let last = match gs.last() {
            SymGenericTerm::Error(r) => Err(r),
            g => if 0 <= generic_id(g) < owner {
                term_isnt_copy(db, s, g)
            } else {
                Ok(false)
            },
        };
        both(generics_all_isnt_copy(db, s, owner, gs.drop_last()), last)
    }
}

pub open spec fn ty_isnt_copy(db: Db, s: EnvModel, t: SymTy) -> Errors<bool>
    decreases t.id + 1, 0int,
{
    match db.ty_kind(t) {
        SymTyKind::Perm(p, x) => if p.id < t.id && x.id < t.id {
            both(perm_isnt_copy(db, s, p), ty_isnt_copy(db, s, x))
        } else {
            Ok(false)
        },
        SymTyKind::Infer(v) => Ok(infer_isnt(s, v, Predicate::Copy)),
        SymTyKind::Var(v) => Ok(!var_is(s, v, Predicate::Copy)),
        SymTyKind::Never => Ok(false),
        SymTyKind::Error(r) => Err(r),
        SymTyKind::Named(name, g) => match name {
            SymTyName::Primitive(_) => Ok(false),
            SymTyName::Aggregate(a) => match a.style {
                SymAggregateStyle::Struct => generics_all_isnt_copy(db, s, t.id as int, g@),
                SymAggregateStyle::Class => Ok(true),
            },
            SymTyName::Future => Ok(true),
            SymTyName::Tuple { .. } => generics_all_isnt_copy(db, s, t.id as int, g@),
        },
    }
}

pub open spec fn places_any_isnt_copy(db: Db, s: EnvModel, owner: int, ps: Seq<SymPlace>) -> Errors<
    bool,
>
    decreases owner, ps.len() + 1,
{
    if ps.len() == 0 {
        Ok(false)
    } else if ps.last().id < owner {
        either(places_any_isnt_copy(db, s, owner, ps.drop_last()), place_isnt_copy(db, s, ps.last()))
    } else {
        Ok(false)
    }
}

pub open spec fn perm_isnt_copy(db: Db, s: EnvModel, p: SymPerm) -> Errors<bool>
    decreases p.id + 1, 0int,
{
    match db.perm_kind(p) {
        SymPermKind::My => Ok(true),
        SymPermKind::Our => Ok(false),
        SymPermKind::Shared(_) => Ok(false),
        SymPermKind::Leased(ps) => places_any_isnt_copy(db, s, p.id as int, ps@),
        SymPermKind::Apply(a, b) => if a.id < p.id && b.id < p.id {
            both(perm_isnt_copy(db, s, a), perm_isnt_copy(db, s, b))
        } else {
            Ok(false)
        },
        SymPermKind::Infer(v) => Ok(infer_isnt(s, v, Predicate::Copy)),
        SymPermKind::Var(v) => Ok(!var_is(s, v, Predicate::Copy)),
        SymPermKind::Error(r) => Err(r),
    }
}

/// A place is not copy when its type is not.
pub open spec fn place_isnt_copy(db: Db, s: EnvModel, p: SymPlace) -> Errors<bool>
    decreases p.id + 1, 0int,
{
    if db.place_ty(p).id < p.id {
        ty_isnt_copy(db, s, db.place_ty(p))
    } else {
        Ok(false)
    }
}

/// Decide whether the term is provably not copy.
pub fn term_isnt_provably_copy(db: &Db, env: &Env, g: SymGenericTerm) -> (r: Errors<bool>)
    requires
        db.wf(),
        db.is_generic(g),
    ensures
        r == term_isnt_copy(*db, env@, g),
    decreases generic_id(g) + 1, 1int,
{
    match g {
        SymGenericTerm::Type(t) => ty_isnt_provably_copy(db, env, t),
        SymGenericTerm::Perm(p) => perm_isnt_provably_copy(db, env, p),
        SymGenericTerm::Place(_) => Ok(false),
        SymGenericTerm::Error(r) => Err(r),
    }
}

fn generics_all_isnt_provably_copy(
    db: &Db,
    env: &Env,
    owner: usize,
    gs: &Vec<SymGenericTerm>,
) -> (r: Errors<bool>)
    requires
        db.wf(),
        owner <= db.terms@.len(),
        generics_in(db.terms@.take(owner as int), gs@),
    ensures
        r == generics_all_isnt_copy(*db, env@, owner as int, gs@),
    decreases owner, gs@.len() + 1,
{
    let mut acc: Errors<bool> = Ok(true);
    let mut i: usize = 0;
    while i < gs.len()
        invariant
            0 <= i <= gs@.len(),
            db.wf(),
            owner <= db.terms@.len(),
            generics_in(db.terms@.take(owner as int), gs@),
            acc == generics_all_isnt_copy(*db, env@, owner as int, gs@.take(i as int)),
        decreases gs@.len() - i,
    {
        proof {
            lemma_generics_before(*db, owner as int, gs@, i as int);
            assert(gs@.take(i + 1).drop_last() =~= gs@.take(i as int));
            assert(gs@.take(i + 1).last() == gs@[i as int]);
        }
        if let Ok(true) = acc {
            if let SymGenericTerm::Error(r) = gs[i] {
                acc = Err(r);
            } else {
                acc = term_isnt_provably_copy(db, env, gs[i]);
            }
        }
        i += 1;
    }
    proof {
        assert(gs@.take(gs@.len() as int) =~= gs@);
    }
    acc
}

fn places_any_isnt_provably_copy(db: &Db, env: &Env, owner: usize, ps: &Vec<SymPlace>) -> (r: Errors<
    bool,
>)
    requires
        db.wf(),
        owner <= db.terms@.len(),
        places_in(db.terms@.take(owner as int), ps@),
    ensures
        r == places_any_isnt_copy(*db, env@, owner as int, ps@),
    decreases owner, ps@.len() + 1,
{
    let mut acc: Errors<bool> = Ok(false);
    let mut i: usize = 0;
    while i < ps.len()
        invariant
            0 <= i <= ps@.len(),
            db.wf(),
            owner <= db.terms@.len(),
            places_in(db.terms@.take(owner as int), ps@),
            acc == places_any_isnt_copy(*db, env@, owner as int, ps@.take(i as int)),
        decreases ps@.len() - i,
    {
        proof {
            lemma_places_before(*db, owner as int, ps@, i as int);
            assert(ps@.take(i + 1).drop_last() =~= ps@.take(i as int));
            assert(ps@.take(i + 1).last() == ps@[i as int]);
        }
        if let Ok(false) = acc {
            acc = place_isnt_provably_copy(db, env, ps[i]);
        }
        i += 1;
    }
    proof {
        assert(ps@.take(ps@.len() as int) =~= ps@);
    }
    acc
}

/// Decide whether the type is provably not copy.
pub fn ty_isnt_provably_copy(db: &Db, env: &Env, t: SymTy) -> (r: Errors<bool>)
    requires
        db.wf(),
        db.is_ty(t),
    ensures
        r == ty_isnt_copy(*db, env@, t),
    decreases t.id + 1, 0int,
{
    proof {
        lemma_children(*db, t.id as int);
    }
    match &db.terms[t.id] {
        Term::Ty(SymTyKind::Perm(p, x)) => match perm_isnt_provably_copy(db, env, *p) {
            Err(r) => Err(r),
            Ok(false) => Ok(false),
            Ok(true) => ty_isnt_provably_copy(db, env, *x),
        },
        Term::Ty(SymTyKind::Infer(v)) => Ok(env.test_infer_isnt(*v, Predicate::Copy)),
        Term::Ty(SymTyKind::Var(v)) => Ok(!env.test_var_is(*v, Predicate::Copy)),
        Term::Ty(SymTyKind::Never) => Ok(false),
        Term::Ty(SymTyKind::Error(r)) => Err(*r),
        Term::Ty(SymTyKind::Named(name, g)) => match name {
            SymTyName::Primitive(_) => Ok(false),
            SymTyName::Aggregate(a) => match a.style {
                SymAggregateStyle::Struct => generics_all_isnt_provably_copy(db, env, t.id, g),
                SymAggregateStyle::Class => Ok(true),
            },
            SymTyName::Future => Ok(true),
            SymTyName::Tuple { .. } => generics_all_isnt_provably_copy(db, env, t.id, g),
        },
        _ => vstd::pervasive::unreached(),
    }
}

/// Decide whether the permission is provably not copy.
pub fn perm_isnt_provably_copy(db: &Db, env: &Env, p: SymPerm) -> (r: Errors<bool>)
    requires
        db.wf(),
        db.is_perm(p),
    ensures
        r == perm_isnt_copy(*db, env@, p),
    decreases p.id + 1, 0int,
{
    proof {
        lemma_children(*db, p.id as int);
    }
    match &db.terms[p.id] {
        Term::Perm(SymPermKind::My) => Ok(true),
        Term::Perm(SymPermKind::Our) => Ok(false),
        Term::Perm(SymPermKind::Shared(_)) => Ok(false),
        Term::Perm(SymPermKind::Leased(ps)) => places_any_isnt_provably_copy(db, env, p.id, ps),
        Term::Perm(SymPermKind::Apply(a, b)) => match perm_isnt_provably_copy(db, env, *a) {
            Err(r) => Err(r),
            Ok(false) => Ok(false),
            Ok(true) => perm_isnt_provably_copy(db, env, *b),
        },
        Term::Perm(SymPermKind::Infer(v)) => Ok(env.test_infer_isnt(*v, Predicate::Copy)),
        Term::Perm(SymPermKind::Var(v)) => Ok(!env.test_var_is(*v, Predicate::Copy)),
        Term::Perm(SymPermKind::Error(r)) => Err(*r),
        _ => vstd::pervasive::unreached(),
    }
}

/// Decide whether the place is provably not copy, by its type.
pub fn place_isnt_provably_copy(db: &Db, env: &Env, p: SymPlace) -> (r: Errors<bool>)
    requires
        db.wf(),
        db.is_place(p),
    ensures
        r == place_isnt_copy(*db, env@, p),
    decreases p.id + 1, 0int,
{
    proof {
        lemma_children(*db, p.id as int);
    }
    match &db.terms[p.id] {
        Term::Place(_, ty) => ty_isnt_provably_copy(db, env, *ty),
        _ => vstd::pervasive::unreached(),
    }
}

} // verus!
