use vstd::prelude::*;
use crate::db::{Db, Term};
use crate::diagnostic::{Because, Errors, OrElse};
use crate::env::{Env, EnvModel, Obligation, report};
use crate::terms::lemma_children;
use crate::types::{InferVarIndex, SymGenericTerm, SymTy, SymTyKind, SymTyName, SymVariable};
use crate::diagnostic::Reported;

verus! {

/// A type reduced to its shape: permissions stripped, named types kept with
/// the handle of the named type itself.
#[derive(Clone, Copy, Debug, PartialEq, Eq, Structural)]
pub enum RedTy {
    Error(Reported),
    Named(SymTyName, SymTy),
    Infer(InferVarIndex),
    Var(SymVariable),
    Never,
}

/// The shape of `t`, found under its permissions.
pub open spec fn red_ty(db: Db, t: SymTy) -> RedTy
    decreases t.id,
{
    match db.ty_kind(t) {
        SymTyKind::Perm(_, x) => if x.id < t.id {
            red_ty(db, x)
        } else {
            RedTy::Never
        },
        SymTyKind::Named(name, _) => RedTy::Named(name, t),
        SymTyKind::Infer(v) => RedTy::Infer(v),
        SymTyKind::Var(v) => RedTy::Var(v),
        SymTyKind::Never => RedTy::Never,
        SymTyKind::Error(r) => RedTy::Error(r),
    }
}

/// The reason to report: the failure itself, or the lower bound of an
/// inference variable on which it was found.
pub open spec fn because_on(because: Because, bound: Option<SymTy>) -> Because {
    match bound {
        Some(b) => Because::InferredLowerBound(b),
        None => because,
    }
}

/// Require that a shape that is not an inference variable is a future
/// awaiting `awaited`: a future spawns the obligation that its argument fits
/// `awaited`, anything else fails.
pub open spec fn require_future_shape(
    db: Db,
    s: EnvModel,
    red: RedTy,
    awaited: SymTy,
    or_else: OrElse,
    bound: Option<SymTy>,
) -> (EnvModel, Errors<()>) {
    match red {
        RedTy::Error(r) => (s, Err(r)),
        RedTy::Named(SymTyName::Future, t) => {
            let args = db.ty_kind(t)->Named_1@;
            if args.len() >= 1 && args[0] is Type {
                (
                    EnvModel {
                        obligations: s.obligations.push(
                            Obligation::SubTerms { sub: args[0]->Type_0, sup: awaited, or_else },
                        ),
                        ..s
                    },
                    Ok(()),
                )
            } else if args.len() >= 1 && args[0] is Error {
                (s, Err(args[0]->Error_0))
            } else {
                report(s, or_else.diagnostic(because_on(Because::JustSo, bound)))
            }
        },
        _ => report(s, or_else.diagnostic(because_on(Because::JustSo, bound))),
    }
}

/// Require that the shape `red` is a future awaiting `awaited`, following the
/// lower bounds of inference variables: bounds only get tighter, so a bound
/// that is not a future means the final type is not one. `bound` is the last
/// bound followed, cited by a failure. `None` means it cannot be decided yet:
/// an inference variable has no bound, or the chain of bounds (longer than
/// `fuel`, the number of inference variables) goes round a cycle of them.
pub open spec fn require_future_from(
    db: Db,
    s: EnvModel,
    red: RedTy,
    awaited: SymTy,
    or_else: OrElse,
    bound: Option<SymTy>,
    fuel: nat,
) -> Option<(EnvModel, Errors<()>)>
    decreases fuel,
{
    match red {
        RedTy::Infer(v) => if v.index >= s.infer_vars.len() {
            Some(report(s, or_else.diagnostic(Because::UnconstrainedInfer(or_else.span))))
        } else if s.infer_vars[v.index as int].lower_bound is Some && fuel > 0 {
            let b = s.infer_vars[v.index as int].lower_bound->Some_0;
            require_future_from(db, s, red_ty(db, b), awaited, or_else, Some(b), (fuel - 1) as nat)
        } else {
            None
        },
        _ => Some(require_future_shape(db, s, red, awaited, or_else, bound)),
    }
}

/// Require that `ty` is a future that awaits a value of type `awaited`.
pub open spec fn require_future(db: Db, s: EnvModel, ty: SymTy, awaited: SymTy, or_else: OrElse) -> Option<
    (EnvModel, Errors<()>),
> {
    require_future_from(db, s, red_ty(db, ty), awaited, or_else, None, s.infer_vars.len())
}

/// Reduce `t` to its shape.
pub fn to_red_ty(db: &Db, t: SymTy) -> (r: RedTy)
    requires
        db.wf(),
        db.is_ty(t),
    ensures
        r == red_ty(*db, t),
        r is Named ==> db.is_ty(r->Named_1) && db.ty_kind(r->Named_1) is Named,
    decreases t.id,
{
    proof {
        lemma_children(*db, t.id as int);
    }
    match &db.terms[t.id] {
        Term::Ty(SymTyKind::Perm(_, x)) => to_red_ty(db, *x),
        Term::Ty(SymTyKind::Named(name, _)) => RedTy::Named(*name, t),
        Term::Ty(SymTyKind::Infer(v)) => RedTy::Infer(*v),
        Term::Ty(SymTyKind::Var(v)) => RedTy::Var(*v),
        Term::Ty(SymTyKind::Never) => RedTy::Never,
        Term::Ty(SymTyKind::Error(r)) => RedTy::Error(*r),
        _ => vstd::pervasive::unreached(),
    }
}

fn because_on_exec(because: Because, bound: Option<SymTy>) -> (r: Because)
    ensures
        r == because_on(because, bound),
{
    match bound {
        Some(b) => Because::InferredLowerBound(b),
        None => because,
    }
}

fn require_future_red_type(
    db: &Db,
    env: &mut Env,
    red: RedTy,
    awaited: SymTy,
    or_else: OrElse,
    bound: Option<SymTy>,
) -> (r: Errors<()>)
    requires
        db.wf(),
        !(red is Infer),
        red is Named ==> db.is_ty(red->Named_1) && db.ty_kind(red->Named_1) is Named,
    ensures
        (final(env)@, r) == require_future_shape(*db, old(env)@, red, awaited, or_else, bound),
{
    match red {
        RedTy::Error(r) => Err(r),
        RedTy::Named(SymTyName::Future, t) => {
            match &db.terms[t.id] {
                Term::Ty(SymTyKind::Named(_, args)) => {
                    if args.len() >= 1 {
                        match args[0] {
                            SymGenericTerm::Type(sub) => {
                                env.spawn(Obligation::SubTerms { sub, sup: awaited, or_else });
                                Ok(())
                            },
                            SymGenericTerm::Error(r) => Err(r),
                            _ => Err(
                                env.report(or_else.diagnostic_for(because_on_exec(Because::JustSo, bound))),
                            ),
                        }
                    } else {
                        Err(env.report(or_else.diagnostic_for(because_on_exec(Because::JustSo, bound))))
                    }
                },
                _ => vstd::pervasive::unreached(),
            }
        },
        _ => Err(env.report(or_else.diagnostic_for(because_on_exec(Because::JustSo, bound)))),
    }
}

fn require_future_following(
    db: &Db,
    env: &mut Env,
    red: RedTy,
    awaited: SymTy,
    or_else: OrElse,
    bound: Option<SymTy>,
    fuel: usize,
) -> (r: Option<Errors<()>>)
    requires
        db.wf(),
        red is Named ==> db.is_ty(red->Named_1) && db.ty_kind(red->Named_1) is Named,
        forall|i: int|
            0 <= i < old(env)@.infer_vars.len() && (#[trigger] old(env)@.infer_vars[i]).lower_bound is Some
                ==> db.is_ty(old(env)@.infer_vars[i].lower_bound->Some_0),
    ensures
        match require_future_from(*db, old(env)@, red, awaited, or_else, bound, fuel as nat) {
            Some((s, res)) => final(env)@ == s && r == Some(res),
            None => final(env)@ == old(env)@ && r is None,
        },
    decreases fuel,
{
    match red {
        RedTy::Infer(v) => {
            if v.index >= env.infer_vars.len() {
                return Some(Err(env.report(or_else.diagnostic_for(Because::UnconstrainedInfer(or_else.span)))));
            }
            let data = env.infer_vars[v.index];
            proof {
                assert(old(env)@.infer_vars[v.index as int] == data);
            }
            match data.lower_bound {
                Some(b) => if fuel > 0 {
                    let next = to_red_ty(db, b);
                    require_future_following(db, env, next, awaited, or_else, Some(b), fuel - 1)
                } else {
                    None
                },
                None => None,
            }
        },
        _ => Some(require_future_red_type(db, env, red, awaited, or_else, bound)),
    }
}

/// Require that `ty` resolves to a future type that awaits a value of type
/// `awaited`; `None` when that cannot be decided yet, and then nothing changed.
pub fn require_future_type(db: &Db, env: &mut Env, ty: SymTy, awaited: SymTy, or_else: OrElse) -> (r:
    Option<Errors<()>>)
    requires
        db.wf(),
        db.is_ty(ty),
        forall|i: int|
            0 <= i < old(env)@.infer_vars.len() && (#[trigger] old(env)@.infer_vars[i]).lower_bound is Some
                ==> db.is_ty(old(env)@.infer_vars[i].lower_bound->Some_0),
    ensures
        match require_future(*db, old(env)@, ty, awaited, or_else) {
            Some((s, res)) => final(env)@ == s && r == Some(res),
            None => final(env)@ == old(env)@ && r is None,
        },
{
    let red = to_red_ty(db, ty);
    let fuel = env.infer_vars.len();
    require_future_following(db, env, red, awaited, or_else, None, fuel)
}

} // verus!
