use vstd::prelude::*;
use crate::class::SymAggregateStyle;
use crate::db::{Db, Term, places_in};
use crate::diagnostic::{Because, Errors, OrElse, Predicate};
use crate::env::{Env, EnvModel, report, require_infer, require_var};
use crate::predicates::{
    generic_id, generics_any, lemma_places_before, perm_is, perm_is_provably, ty_is, ty_is_provably,
    generics_any_provably,
};
use crate::terms::lemma_children;
use crate::types::{SymGenericTerm, SymPerm, SymPermKind, SymPlace, SymTy, SymTyKind, SymTyName};

verus! {

/// Both requirements were made; the first failure is the result.
pub open spec fn first_failure(a: Errors<()>, b: Errors<()>) -> Errors<()> {
    match a {
        Err(r) => Err(r),
        Ok(()) => b,
    }
}

// ---------------------------------------------------------------------------
// Requiring a predicate: a failure that is certain now is reported at once;
// a requirement on an inference variable is recorded on it, and one on a
// universal variable must be declared. Each function gives the session state
// after the requirement and its outcome.

pub open spec fn require_term(db: Db, s: EnvModel, g: SymGenericTerm, pred: Predicate, or_else: OrElse) -> (
    EnvModel,
    Errors<()>,
)
    decreases generic_id(g) + 1, 1int,
{
    match g {
        SymGenericTerm::Type(t) => require_ty(db, s, t, pred, or_else),
        SymGenericTerm::Perm(p) => require_perm(db, s, p, pred, or_else),
        SymGenericTerm::Place(_) => (s, Ok(())),
        SymGenericTerm::Error(r) => (s, Err(r)),
    }
}

/// Require `pred` of a struct or tuple: one argument must provably have it.
pub open spec fn require_some_argument(
    db: Db,
    s: EnvModel,
    t: SymTy,
    pred: Predicate,
    or_else: OrElse,
) -> (EnvModel, Errors<()>) {
    match generics_any(db, s, t.id as int, db.ty_kind(t)->Named_1@, pred) {
        Err(r) => (s, Err(r)),
        Ok(true) => (s, Ok(())),
        Ok(false) => report(s, or_else.diagnostic(Because::JustSo)),
    }
}

pub open spec fn require_ty(db: Db, s: EnvModel, t: SymTy, pred: Predicate, or_else: OrElse) -> (
    EnvModel,
    Errors<()>,
)
    decreases t.id + 1, 0int,
{
    match db.ty_kind(t) {
        SymTyKind::Error(r) => (s, Err(r)),
        SymTyKind::Perm(p, x) => if p.id < t.id && x.id < t.id {
            match pred {
                // `p x` is copy if either side is: each side that is not
                // provably copy requires the other one to be.
                Predicate::Copy => {
                    let (s1, r1) = match ty_is(db, s, x, pred) {
                        Err(r) => (s, Err(r)),
                        Ok(true) => (s, Ok(())),
                        Ok(false) => require_perm(db, s, p, pred, or_else),
                    };
                    let (s2, r2) = match perm_is(db, s1, p, pred) {
                        Err(r) => (s1, Err(r)),
                        Ok(true) => (s1, Ok(())),
                        Ok(false) => require_ty(db, s1, x, pred, or_else),
                    };
                    (s2, first_failure(r1, r2))
                },
                // `p x` is move if both sides are.
                Predicate::Move => {
                    let (s1, r1) = require_perm(db, s, p, pred, or_else);
                    let (s2, r2) = require_ty(db, s1, x, pred, or_else);
                    (s2, first_failure(r1, r2))
                },
            }
        } else {
            (s, Ok(()))
        },
        SymTyKind::Never => match pred {
            Predicate::Copy => report(s, or_else.diagnostic(Because::NeverIsNotCopy)),
            Predicate::Move => (s, Ok(())),
        },
        SymTyKind::Infer(v) => require_infer(s, v, pred, or_else),
        SymTyKind::Var(v) => require_var(s, v, pred, or_else),
        SymTyKind::Named(name, _) => match name {
            SymTyName::Primitive(prim) => match pred {
                Predicate::Copy => (s, Ok(())),
                Predicate::Move => report(s, or_else.diagnostic(Because::PrimitiveIsCopy(prim))),
            },
            SymTyName::Aggregate(a) => match a.style {
                SymAggregateStyle::Struct => require_some_argument(db, s, t, pred, or_else),
                SymAggregateStyle::Class => match pred {
                    Predicate::Copy => report(s, or_else.diagnostic(Because::ClassIsNotCopy(name))),
                    Predicate::Move => (s, Ok(())),
                },
            },
            SymTyName::Future => match pred {
                Predicate::Copy => report(s, or_else.diagnostic(Because::ClassIsNotCopy(name))),
                Predicate::Move => (s, Ok(())),
            },
            SymTyName::Tuple { .. } => require_some_argument(db, s, t, pred, or_else),
        },
    }
}

pub open spec fn require_places(
    db: Db,
    s: EnvModel,
    owner: int,
    ps: Seq<SymPlace>,
    pred: Predicate,
    or_else: OrElse,
) -> (EnvModel, Errors<()>)
    decreases owner, ps.len() + 1,
{
    if ps.len() == 0 {
        (s, Ok(()))
    } else if ps.last().id < owner {
        let (s1, r1) = require_places(db, s, owner, ps.drop_last(), pred, or_else);
        let (s2, r2) = require_place(db, s1, ps.last(), pred, or_else);
        (s2, first_failure(r1, r2))
    } else {
        (s, Ok(()))
    }
}

pub open spec fn require_perm(db: Db, s: EnvModel, p: SymPerm, pred: Predicate, or_else: OrElse) -> (
    EnvModel,
    Errors<()>,
)
    decreases p.id + 1, 0int,
{
    match db.perm_kind(p) {
        SymPermKind::Error(r) => (s, Err(r)),
        SymPermKind::My => match pred {
            Predicate::Copy => report(s, or_else.diagnostic(Because::JustSo)),
            Predicate::Move => (s, Ok(())),
        },
        SymPermKind::Our => match pred {
            Predicate::Copy => (s, Ok(())),
            Predicate::Move => report(s, or_else.diagnostic(Because::JustSo)),
        },
        SymPermKind::Shared(_) => match pred {
            Predicate::Copy => (s, Ok(())),
            Predicate::Move => report(s, or_else.diagnostic(Because::JustSo)),
        },
        // A lease has the predicate of every place it could alias.
        SymPermKind::Leased(ps) => require_places(db, s, p.id as int, ps@, pred, or_else),
        SymPermKind::Apply(a, b) => if a.id < p.id && b.id < p.id {
            match pred {
                Predicate::Copy => {
                    let (s1, r1) = match perm_is(db, s, b, pred) {
                        Err(r) => (s, Err(r)),
                        Ok(true) => (s, Ok(())),
                        Ok(false) => require_perm(db, s, a, pred, or_else),
                    };
                    let (s2, r2) = match perm_is(db, s1, a, pred) {
                        Err(r) => (s1, Err(r)),
                        Ok(true) => (s1, Ok(())),
                        Ok(false) => require_perm(db, s1, b, pred, or_else),
                    };
                    (s2, first_failure(r1, r2))
                },
                Predicate::Move => {
                    let (s1, r1) = require_perm(db, s, a, pred, or_else);
                    let (s2, r2) = require_perm(db, s1, b, pred, or_else);
                    (s2, first_failure(r1, r2))
                },
            }
        } else {
            (s, Ok(()))
        },
        SymPermKind::Var(v) => require_var(s, v, pred, or_else),
        SymPermKind::Infer(v) => require_infer(s, v, pred, or_else),
    }
}

/// Requiring a predicate of a place requires it of the place's type.
pub open spec fn require_place(db: Db, s: EnvModel, p: SymPlace, pred: Predicate, or_else: OrElse) -> (
    EnvModel,
    Errors<()>,
)
    decreases p.id + 1, 0int,
{
    if db.place_ty(p).id < p.id {
        require_ty(db, s, db.place_ty(p), pred, or_else)
    } else {
        (s, Ok(()))
    }
}

fn first_failure_exec(a: Errors<()>, b: Errors<()>) -> (r: Errors<()>)
    ensures
        r == first_failure(a, b),
{
    match a {
        Err(r) => Err(r),
        Ok(()) => b,
    }
}

/// Require that the term has the predicate. Place terms have no predicates.
pub fn require_term_is(db: &Db, env: &mut Env, g: SymGenericTerm, pred: Predicate, or_else: OrElse) -> (r:
    Errors<()>)
    requires
        db.wf(),
        db.is_generic(g),
        !(g is Place),
    ensures
        (final(env)@, r) == require_term(*db, old(env)@, g, pred, or_else),
{
    match g {
        SymGenericTerm::Type(t) => require_ty_is(db, env, t, pred, or_else),
        SymGenericTerm::Perm(p) => require_perm_is(db, env, p, pred, or_else),
        SymGenericTerm::Place(_) => vstd::pervasive::unreached(),
        SymGenericTerm::Error(r) => Err(r),
    }
}

/// Require that the term is copy.
pub fn require_copy(db: &Db, env: &mut Env, g: SymGenericTerm, or_else: OrElse) -> (r: Errors<()>)
    requires
        db.wf(),
        db.is_generic(g),
        !(g is Place),
    ensures
        (final(env)@, r) == require_term(*db, old(env)@, g, Predicate::Copy, or_else),
{
    require_term_is(db, env, g, Predicate::Copy, or_else)
}

/// Require that the term is move.
pub fn require_move(db: &Db, env: &mut Env, g: SymGenericTerm, or_else: OrElse) -> (r: Errors<()>)
    requires
        db.wf(),
        db.is_generic(g),
        !(g is Place),
    ensures
        (final(env)@, r) == require_term(*db, old(env)@, g, Predicate::Move, or_else),
{
    require_term_is(db, env, g, Predicate::Move, or_else)
}

fn require_some_argument_exec(
    db: &Db,
    env: &mut Env,
    t: SymTy,
    gs: &Vec<SymGenericTerm>,
    pred: Predicate,
    or_else: OrElse,
) -> (r: Errors<()>)
    requires
        db.wf(),
        db.is_ty(t),
        db.ty_kind(t) is Named,
        db.ty_kind(t)->Named_1@ == gs@,
    ensures
        (final(env)@, r) == require_some_argument(*db, old(env)@, t, pred, or_else),
{
    proof {
        lemma_children(*db, t.id as int);
    }
    match generics_any_provably(db, env, t.id, gs, pred) {
        Err(r) => Err(r),
        Ok(true) => Ok(()),
        Ok(false) => Err(env.report(or_else.diagnostic_for(Because::JustSo))),
    }
}

/// Require that the type has the predicate.
pub fn require_ty_is(db: &Db, env: &mut Env, t: SymTy, pred: Predicate, or_else: OrElse) -> (r: Errors<
    (),
>)
    requires
        db.wf(),
        db.is_ty(t),
    ensures
        (final(env)@, r) == require_ty(*db, old(env)@, t, pred, or_else),
    decreases t.id + 1, 0int,
{
    proof {
        lemma_children(*db, t.id as int);
    }
    match &db.terms[t.id] {
        Term::Ty(SymTyKind::Error(r)) => Err(*r),
        Term::Ty(SymTyKind::Perm(p, x)) => {
            let (p, x) = (*p, *x);
            match pred {
                Predicate::Copy => {
                    let r1 = match ty_is_provably(db, env, x, pred) {
                        Err(r) => Err(r),
                        Ok(true) => Ok(()),
                        Ok(false) => require_perm_is(db, env, p, pred, or_else),
                    };
                    let r2 = match perm_is_provably(db, env, p, pred) {
                        Err(r) => Err(r),
                        Ok(true) => Ok(()),
                        Ok(false) => require_ty_is(db, env, x, pred, or_else),
                    };
                    first_failure_exec(r1, r2)
                },
                Predicate::Move => {
                    let r1 = require_perm_is(db, env, p, pred, or_else);
                    let r2 = require_ty_is(db, env, x, pred, or_else);
                    first_failure_exec(r1, r2)
                },
            }
        },
        Term::Ty(SymTyKind::Never) => match pred {
            Predicate::Copy => Err(env.report(or_else.diagnostic_for(Because::NeverIsNotCopy))),
            Predicate::Move => Ok(()),
        },
        Term::Ty(SymTyKind::Infer(v)) => env.require_infer_is(*v, pred, or_else),
        Term::Ty(SymTyKind::Var(v)) => env.require_var_is(*v, pred, or_else),
        Term::Ty(SymTyKind::Named(name, gs)) => {
            let name = *name;
            match name {
                SymTyName::Primitive(prim) => match pred {
                    Predicate::Copy => Ok(()),
                    Predicate::Move => Err(
                        env.report(or_else.diagnostic_for(Because::PrimitiveIsCopy(prim))),
                    ),
                },
                SymTyName::Aggregate(a) => match a.style {
                    SymAggregateStyle::Struct => require_some_argument_exec(
                        db,
                        env,
                        t,
                        gs,
                        pred,
                        or_else,
                    ),
                    SymAggregateStyle::Class => match pred {
                        Predicate::Copy => Err(
                            env.report(or_else.diagnostic_for(Because::ClassIsNotCopy(name))),
                        ),
                        Predicate::Move => Ok(()),
                    },
                },
                SymTyName::Future => match pred {
                    Predicate::Copy => Err(
                        env.report(or_else.diagnostic_for(Because::ClassIsNotCopy(name))),
                    ),
                    Predicate::Move => Ok(()),
                },
                SymTyName::Tuple { .. } => require_some_argument_exec(db, env, t, gs, pred, or_else),
            }
        },
        _ => vstd::pervasive::unreached(),
    }
}

fn require_places_are(
    db: &Db,
    env: &mut Env,
    owner: usize,
    ps: &Vec<SymPlace>,
    pred: Predicate,
    or_else: OrElse,
) -> (r: Errors<()>)
    requires
        db.wf(),
        owner <= db.terms@.len(),
        places_in(db.terms@.take(owner as int), ps@),
    ensures
        (final(env)@, r) == require_places(*db, old(env)@, owner as int, ps@, pred, or_else),
    decreases owner, ps@.len() + 1,
{
    let ghost s0 = env@;
    let mut acc: Errors<()> = Ok(());
    let mut i: usize = 0;
    while i < ps.len()
        invariant
            0 <= i <= ps@.len(),
            db.wf(),
            owner <= db.terms@.len(),
            places_in(db.terms@.take(owner as int), ps@),
            (env@, acc) == require_places(*db, s0, owner as int, ps@.take(i as int), pred, or_else),
        decreases ps@.len() - i,
    {
        proof {
            lemma_places_before(*db, owner as int, ps@, i as int);
            assert(ps@.take(i + 1).drop_last() =~= ps@.take(i as int));
            assert(ps@.take(i + 1).last() == ps@[i as int]);
        }
        let r = require_place_is(db, env, ps[i], pred, or_else);
        acc = first_failure_exec(acc, r);
        i += 1;
    }
    proof {
        assert(ps@.take(ps@.len() as int) =~= ps@);
    }
    acc
}

/// Require that the permission has the predicate.
pub fn require_perm_is(db: &Db, env: &mut Env, p: SymPerm, pred: Predicate, or_else: OrElse) -> (r:
    Errors<()>)
    requires
        db.wf(),
        db.is_perm(p),
    ensures
        (final(env)@, r) == require_perm(*db, old(env)@, p, pred, or_else),
    decreases p.id + 1, 0int,
{
    proof {
        lemma_children(*db, p.id as int);
    }
    match &db.terms[p.id] {
        Term::Perm(SymPermKind::Error(r)) => Err(*r),
        Term::Perm(SymPermKind::My) => match pred {
            Predicate::Copy => Err(env.report(or_else.diagnostic_for(Because::JustSo))),
            Predicate::Move => Ok(()),
        },
        Term::Perm(SymPermKind::Our) | Term::Perm(SymPermKind::Shared(_)) => match pred {
            Predicate::Copy => Ok(()),
            Predicate::Move => Err(env.report(or_else.diagnostic_for(Because::JustSo))),
        },
        Term::Perm(SymPermKind::Leased(ps)) => require_places_are(db, env, p.id, ps, pred, or_else),
        Term::Perm(SymPermKind::Apply(a, b)) => {
            let (a, b) = (*a, *b);
            match pred {
                Predicate::Copy => {
                    let r1 = match perm_is_provably(db, env, b, pred) {
                        Err(r) => Err(r),
                        Ok(true) => Ok(()),
                        Ok(false) => require_perm_is(db, env, a, pred, or_else),
                    };
                    let r2 = match perm_is_provably(db, env, a, pred) {
                        Err(r) => Err(r),
                        Ok(true) => Ok(()),
                        Ok(false) => require_perm_is(db, env, b, pred, or_else),
                    };
                    first_failure_exec(r1, r2)
                },
                Predicate::Move => {
                    let r1 = require_perm_is(db, env, a, pred, or_else);
                    let r2 = require_perm_is(db, env, b, pred, or_else);
                    first_failure_exec(r1, r2)
                },
            }
        },
        Term::Perm(SymPermKind::Var(v)) => env.require_var_is(*v, pred, or_else),
        Term::Perm(SymPermKind::Infer(v)) => env.require_infer_is(*v, pred, or_else),
        _ => vstd::pervasive::unreached(),
    }
}

/// Require that the place has the predicate, by its type.
pub fn require_place_is(db: &Db, env: &mut Env, p: SymPlace, pred: Predicate, or_else: OrElse) -> (r:
    Errors<()>)
    requires
        db.wf(),
        db.is_place(p),
    ensures
        (final(env)@, r) == require_place(*db, old(env)@, p, pred, or_else),
    decreases p.id + 1, 0int,
{
    proof {
        lemma_children(*db, p.id as int);
    }
    match &db.terms[p.id] {
        Term::Place(_, ty) => require_ty_is(db, env, *ty, pred, or_else),
        _ => vstd::pervasive::unreached(),
    }
}

} // verus!
