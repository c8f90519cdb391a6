use vstd::prelude::*;
use crate::class::SymAggregateStyle;
use crate::db::{Db, Term, generic_in, generics_in, place_in, places_in};
use crate::diagnostic::{Errors, Predicate};
use crate::env::{Env, EnvModel, infer_is, var_is};
use crate::terms::lemma_children;
use crate::types::{SymGenericTerm, SymPerm, SymPermKind, SymPlace, SymTy, SymTyKind, SymTyName};

verus! {

/// `a` or else `b`, deciding left to right: an error or a `true` on the left
/// settles the result.
pub open spec fn either(a: Errors<bool>, b: Errors<bool>) -> Errors<bool> {
    match a {
        Err(r) => Err(r),
        Ok(true) => Ok(true),
        Ok(false) => b,
    }
}

/// `a` and then `b`, deciding left to right: an error or a `false` on the left
/// settles the result.
pub open spec fn both(a: Errors<bool>, b: Errors<bool>) -> Errors<bool> {
    match a {
        Err(r) => Err(r),
        Ok(false) => Ok(false),
        Ok(true) => b,
    }
}

/// The handle inside a generic term, used to order recursion.
pub open spec fn generic_id(g: SymGenericTerm) -> int {
    match g {
        SymGenericTerm::Type(t) => t.id as int,
        SymGenericTerm::Perm(p) => p.id as int,
        SymGenericTerm::Place(p) => p.id as int,
        SymGenericTerm::Error(_) => 0,
    }
}

/// How the two sides of an application combine: copy when either side is,
/// move when both sides are.
pub open spec fn apply_combine(pred: Predicate, a: Errors<bool>, b: Errors<bool>) -> Errors<bool> {
    match pred {
        Predicate::Copy => either(a, b),
        Predicate::Move => both(a, b),
    }
}

// ---------------------------------------------------------------------------
// What is provable from the facts known now.
// Primitives are copy and not move, classes and futures move and not copy,
// `!` is copy. Named structs and tuples have a predicate when one of their
// arguments has it; a lease has it when every leased place has it; `my` is
// move, `our` and `shared` are copy; an application is copy when either side
// is, and move when both sides are.

pub open spec fn term_is(db: Db, s: EnvModel, g: SymGenericTerm, pred: Predicate) -> Errors<bool>
    decreases generic_id(g) + 1, 1int,
{
    match g {
        SymGenericTerm::Type(t) => ty_is(db, s, t, pred),
        SymGenericTerm::Perm(p) => perm_is(db, s, p, pred),
        SymGenericTerm::Place(_) => Ok(false),
        SymGenericTerm::Error(r) => Err(r),
    }
}

pub open spec fn generics_any(
    db: Db,
    s: EnvModel,
    owner: int,
    gs: Seq<SymGenericTerm>,
    pred: Predicate,
) -> Errors<bool>
    decreases owner, gs.len() + 1,
{
    if gs.len() == 0 {
        Ok(false)
    } else {
        let last = match gs.last() {
            SymGenericTerm::Error(r) => Err(r),
            g => if 0 <= generic_id(g) < owner {
                term_is(db, s, g, pred)
            } else {
                Ok(false)
            },
        };
        either(generics_any(db, s, owner, gs.drop_last(), pred), last)
    }
}

pub open spec fn ty_is(db: Db, s: EnvModel, t: SymTy, pred: Predicate) -> Errors<bool>
    decreases t.id + 1, 0int,
{
    match db.ty_kind(t) {
        SymTyKind::Perm(p, x) => if p.id < t.id && x.id < t.id {
            apply_combine(pred, perm_is(db, s, p, pred), ty_is(db, s, x, pred))
        } else {
            Ok(false)
        },
        SymTyKind::Infer(v) => Ok(infer_is(s, v, pred)),
        SymTyKind::Var(v) => Ok(var_is(s, v, pred)),
        SymTyKind::Never => Ok(pred == Predicate::Copy),
        SymTyKind::Error(r) => Err(r),
        SymTyKind::Named(name, g) => match name {
            SymTyName::Primitive(_) => Ok(pred == Predicate::Copy),
            SymTyName::Aggregate(a) => match a.style {
                SymAggregateStyle::Struct => generics_any(db, s, t.id as int, g@, pred),
                SymAggregateStyle::Class => Ok(pred == Predicate::Move),
            },
            SymTyName::Future => Ok(pred == Predicate::Move),
            SymTyName::Tuple { .. } => generics_any(db, s, t.id as int, g@, pred),
        },
    }
}

pub open spec fn places_all(db: Db, s: EnvModel, owner: int, ps: Seq<SymPlace>, pred: Predicate) -> Errors<bool>
    decreases owner, ps.len() + 1,
{
    if ps.len() == 0 {
        Ok(true)
    } else if ps.last().id < owner {
        both(places_all(db, s, owner, ps.drop_last(), pred), place_is(db, s, ps.last(), pred))
    } else {
        Ok(false)
    }
}

pub open spec fn perm_is(db: Db, s: EnvModel, p: SymPerm, pred: Predicate) -> Errors<bool>
    decreases p.id + 1, 0int,
{
    match db.perm_kind(p) {
        SymPermKind::My => Ok(pred == Predicate::Move),
        SymPermKind::Our => Ok(pred == Predicate::Copy),
        SymPermKind::Shared(_) => Ok(pred == Predicate::Copy),
        SymPermKind::Leased(ps) => places_all(db, s, p.id as int, ps@, pred),
        SymPermKind::Apply(a, b) => if a.id < p.id && b.id < p.id {
            apply_combine(pred, perm_is(db, s, a, pred), perm_is(db, s, b, pred))
        } else {
            Ok(false)
        },
        SymPermKind::Infer(v) => Ok(infer_is(s, v, pred)),
        SymPermKind::Var(v) => Ok(var_is(s, v, pred)),
        SymPermKind::Error(r) => Err(r),
    }
}

/// A place has a predicate when its type has it.
pub open spec fn place_is(db: Db, s: EnvModel, p: SymPlace, pred: Predicate) -> Errors<bool>
    decreases p.id + 1, 0int,
{
    if db.place_ty(p).id < p.id {
        ty_is(db, s, db.place_ty(p), pred)
    } else {
        Ok(false)
    }
}

/// The generic terms of a list stand before `owner` in the store.
pub proof fn lemma_generics_before(db: Db, owner: int, gs: Seq<SymGenericTerm>, k: int)
    requires
        db.wf(),
        0 <= owner <= db.terms@.len(),
        generics_in(db.terms@.take(owner), gs),
        0 <= k < gs.len(),
    ensures
        generic_id(gs[k]) < owner || gs[k] is Error,
        0 <= generic_id(gs[k]),
        db.is_generic(gs[k]),
{
    assert(generic_in(db.terms@.take(owner), gs[k]));
}

pub proof fn lemma_places_before(db: Db, owner: int, ps: Seq<SymPlace>, k: int)
    requires
        db.wf(),
        0 <= owner <= db.terms@.len(),
        places_in(db.terms@.take(owner), ps),
        0 <= k < ps.len(),
    ensures
        ps[k].id < owner,
        db.is_place(ps[k]),
{
    assert(place_in(db.terms@.take(owner), ps[k]));
}

/// Decide whether the term provably has the predicate. A place term carries
/// no predicate of its own.
pub fn term_is_provably(db: &Db, env: &Env, g: SymGenericTerm, pred: Predicate) -> (r: Errors<bool>)
    requires
        db.wf(),
        db.is_generic(g),
    ensures
        r == term_is(*db, env@, g, pred),
    decreases generic_id(g) + 1, 1int,
{
    match g {
        SymGenericTerm::Type(t) => ty_is_provably(db, env, t, pred),
        SymGenericTerm::Perm(p) => perm_is_provably(db, env, p, pred),
        SymGenericTerm::Place(_) => Ok(false),
        SymGenericTerm::Error(r) => Err(r),
    }
}

pub(crate) fn generics_any_provably(
    db: &Db,
    env: &Env,
    owner: usize,
    gs: &Vec<SymGenericTerm>,
    pred: Predicate,
) -> (r: Errors<bool>)
    requires
        db.wf(),
        owner <= db.terms@.len(),
        generics_in(db.terms@.take(owner as int), gs@),
    ensures
        r == generics_any(*db, env@, owner as int, gs@, pred),
    decreases owner, gs@.len() + 1,
{
    let mut acc: Errors<bool> = Ok(false);
    let mut i: usize = 0;
    while i < gs.len()
        invariant
            0 <= i <= gs@.len(),
            db.wf(),
            owner <= db.terms@.len(),
            generics_in(db.terms@.take(owner as int), gs@),
            acc == generics_any(*db, env@, owner as int, gs@.take(i as int), pred),
        decreases gs@.len() - i,
    {
        proof {
            lemma_generics_before(*db, owner as int, gs@, i as int);
            assert(gs@.take(i + 1).drop_last() =~= gs@.take(i as int));
            assert(gs@.take(i + 1).last() == gs@[i as int]);
        }
        if let Ok(false) = acc {
            if let SymGenericTerm::Error(r) = gs[i] {
                acc = Err(r);
            } else {
                acc = term_is_provably(db, env, gs[i], pred);
            }
        }
        i += 1;
    }
    proof {
        assert(gs@.take(gs@.len() as int) =~= gs@);
    }
    acc
}

fn places_all_provably(db: &Db, env: &Env, owner: usize, ps: &Vec<SymPlace>, pred: Predicate) -> (r:
    Errors<bool>)
    requires
        db.wf(),
        owner <= db.terms@.len(),
        places_in(db.terms@.take(owner as int), ps@),
    ensures
        r == places_all(*db, env@, owner as int, ps@, pred),
    decreases owner, ps@.len() + 1,
{
    let mut acc: Errors<bool> = Ok(true);
    let mut i: usize = 0;
    while i < ps.len()
        invariant
            0 <= i <= ps@.len(),
            db.wf(),
            owner <= db.terms@.len(),
            places_in(db.terms@.take(owner as int), ps@),
            acc == places_all(*db, env@, owner as int, ps@.take(i as int), pred),
        decreases ps@.len() - i,
    {
        proof {
            lemma_places_before(*db, owner as int, ps@, i as int);
            assert(ps@.take(i + 1).drop_last() =~= ps@.take(i as int));
            assert(ps@.take(i + 1).last() == ps@[i as int]);
        }
        if let Ok(true) = acc {
            acc = place_is_provably(db, env, ps[i], pred);
        }
        i += 1;
    }
    proof {
        assert(ps@.take(ps@.len() as int) =~= ps@);
    }
    acc
}

fn combine_application(pred: Predicate, a: Errors<bool>) -> (r: Option<Errors<bool>>)
    ensures
        match r {
            Some(x) => forall|b: Errors<bool>| apply_combine(pred, a, b) == x,
            None => forall|b: Errors<bool>| apply_combine(pred, a, b) == b,
        },
{
    match (pred, a) {
        (_, Err(r)) => Some(Err(r)),
        (Predicate::Copy, Ok(true)) => Some(Ok(true)),
        (Predicate::Move, Ok(false)) => Some(Ok(false)),
        _ => None,
    }
}

/// Decide whether the type provably has the predicate.
pub fn ty_is_provably(db: &Db, env: &Env, t: SymTy, pred: Predicate) -> (r: Errors<bool>)
    requires
        db.wf(),
        db.is_ty(t),
    ensures
        r == ty_is(*db, env@, t, pred),
    decreases t.id + 1, 0int,
{
    proof {
        lemma_children(*db, t.id as int);
    }
    match &db.terms[t.id] {
        Term::Ty(SymTyKind::Perm(p, x)) => match combine_application(
            pred,
            perm_is_provably(db, env, *p, pred),
        ) {
            Some(r) => r,
            None => ty_is_provably(db, env, *x, pred),
        },
        Term::Ty(SymTyKind::Infer(v)) => Ok(env.test_infer_is(*v, pred)),
        Term::Ty(SymTyKind::Var(v)) => Ok(env.test_var_is(*v, pred)),
        Term::Ty(SymTyKind::Never) => Ok(pred == Predicate::Copy),
        Term::Ty(SymTyKind::Error(r)) => Err(*r),
        Term::Ty(SymTyKind::Named(name, g)) => match name {
            SymTyName::Primitive(_) => Ok(pred == Predicate::Copy),
            SymTyName::Aggregate(a) => match a.style {
                SymAggregateStyle::Struct => generics_any_provably(db, env, t.id, g, pred),
                SymAggregateStyle::Class => Ok(pred == Predicate::Move),
            },
            SymTyName::Future => Ok(pred == Predicate::Move),
            SymTyName::Tuple { .. } => generics_any_provably(db, env, t.id, g, pred),
        },
        _ => vstd::pervasive::unreached(),
    }
}

/// Decide whether the permission provably has the predicate.
pub fn perm_is_provably(db: &Db, env: &Env, p: SymPerm, pred: Predicate) -> (r: Errors<bool>)
    requires
        db.wf(),
        db.is_perm(p),
    ensures
        r == perm_is(*db, env@, p, pred),
    decreases p.id + 1, 0int,
{
    proof {
        lemma_children(*db, p.id as int);
    }
    match &db.terms[p.id] {
        Term::Perm(SymPermKind::My) => Ok(pred == Predicate::Move),
        Term::Perm(SymPermKind::Our) => Ok(pred == Predicate::Copy),
        Term::Perm(SymPermKind::Shared(_)) => Ok(pred == Predicate::Copy),
        Term::Perm(SymPermKind::Leased(ps)) => places_all_provably(db, env, p.id, ps, pred),
        Term::Perm(SymPermKind::Apply(a, b)) => match combine_application(
            pred,
            perm_is_provably(db, env, *a, pred),
        ) {
            Some(r) => r,
            None => perm_is_provably(db, env, *b, pred),
        },
        Term::Perm(SymPermKind::Infer(v)) => Ok(env.test_infer_is(*v, pred)),
        Term::Perm(SymPermKind::Var(v)) => Ok(env.test_var_is(*v, pred)),
        Term::Perm(SymPermKind::Error(r)) => Err(*r),
        _ => vstd::pervasive::unreached(),
    }
}

/// Decide whether the place provably has the predicate, by its type.
pub fn place_is_provably(db: &Db, env: &Env, p: SymPlace, pred: Predicate) -> (r: Errors<bool>)
    requires
        db.wf(),
        db.is_place(p),
    ensures
        r == place_is(*db, env@, p, pred),
    decreases p.id + 1, 0int,
{
    proof {
        lemma_children(*db, p.id as int);
    }
    match &db.terms[p.id] {
        Term::Place(_, ty) => ty_is_provably(db, env, *ty, pred),
        _ => vstd::pervasive::unreached(),
    }
}

/// Decide whether the term is provably copy.
pub fn is_provably_copy(db: &Db, env: &Env, g: SymGenericTerm) -> (r: Errors<bool>)
    requires
        db.wf(),
        db.is_generic(g),
        !(g is Place),
    ensures
        r == term_is(*db, env@, g, Predicate::Copy),
{
    term_is_provably(db, env, g, Predicate::Copy)
}

/// Decide whether the term is provably move.
pub fn is_provably_move(db: &Db, env: &Env, g: SymGenericTerm) -> (r: Errors<bool>)
    requires
        db.wf(),
        db.is_generic(g),
        !(g is Place),
    ensures
        r == term_is(*db, env@, g, Predicate::Move),
{
    term_is_provably(db, env, g, Predicate::Move)
}

} // verus!
