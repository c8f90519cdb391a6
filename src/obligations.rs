use vstd::prelude::*;
use crate::db::Db;
use crate::diagnostic::Errors;
use crate::env::{Env, EnvModel, Obligation};
use crate::is_future::{require_future, require_future_type};
use crate::numeric::{require_numeric, require_numeric_type};
use crate::require::{require_term, require_term_is};

verus! {

/// What running a deferred obligation came to.
#[derive(Debug, PartialEq, Eq)]
pub enum ObligationOutcome {
    /// It was decided.
    Decided(Errors<()>),
    /// It cannot be decided yet (an inference variable without a bound), or it
    /// is one for the subtyping engine, which is not run here.
    NotDecidedHere,
}

/// The lower bounds of the inference variables are types of `db`.
pub open spec fn bounds_ok(db: Db, s: EnvModel) -> bool {
    forall|i: int|
        0 <= i < s.infer_vars.len() && (#[trigger] s.infer_vars[i]).lower_bound is Some ==> db.is_ty(
            s.infer_vars[i].lower_bound->Some_0,
        )
}

/// The terms of an obligation are terms of `db`, and a `where` clause is not
/// about a place.
pub open spec fn obligation_ok(db: Db, o: Obligation) -> bool {
    match o {
        Obligation::WhereClause { term, .. } => db.is_generic(term) && !(term is Place),
        Obligation::FutureType { ty, .. } => db.is_ty(ty),
        Obligation::Numeric { ty, .. } => db.is_ty(ty),
        _ => true,
    }
}

/// Run a deferred obligation: a `where` clause is required of its term by the
/// predicate engine, a future type is required as `await` needs it, a numeric
/// type is checked once its shape is known; the others are left to the
/// subtyping engine.
pub fn run_obligation(db: &Db, env: &mut Env, o: Obligation) -> (r: ObligationOutcome)
    requires
        db.wf(),
        obligation_ok(*db, o),
        bounds_ok(*db, old(env)@),
    ensures
        match o {
            Obligation::WhereClause { term, pred, or_else } => {
                let (s, res) = require_term(*db, old(env)@, term, pred, or_else);
                final(env)@ == s && r == ObligationOutcome::Decided(res)
            },
            Obligation::FutureType { ty, awaited, or_else } => match require_future(
                *db,
                old(env)@,
                ty,
                awaited,
                or_else,
            ) {
                Some((s, res)) => final(env)@ == s && r == ObligationOutcome::Decided(res),
                None => final(env)@ == old(env)@ && r == ObligationOutcome::NotDecidedHere,
            },
            Obligation::Numeric { ty, or_else } => match require_numeric(*db, old(env)@, ty, or_else) {
                Some((s, res)) => final(env)@ == s && r == ObligationOutcome::Decided(res),
                None => final(env)@ == old(env)@ && r == ObligationOutcome::NotDecidedHere,
            },
            _ => final(env)@ == old(env)@ && r == ObligationOutcome::NotDecidedHere,
        },
{
    match o {
        Obligation::WhereClause { term, pred, or_else } => ObligationOutcome::Decided(
            require_term_is(db, env, term, pred, or_else),
        ),
        Obligation::FutureType { ty, awaited, or_else } => match require_future_type(
            db,
            env,
            ty,
            awaited,
            or_else,
        ) {
            Some(res) => ObligationOutcome::Decided(res),
            None => ObligationOutcome::NotDecidedHere,
        },
        Obligation::Numeric { ty, or_else } => match require_numeric_type(db, env, ty, or_else) {
            Some(res) => ObligationOutcome::Decided(res),
            None => ObligationOutcome::NotDecidedHere,
        },
        _ => ObligationOutcome::NotDecidedHere,
    }
}

} // verus!
