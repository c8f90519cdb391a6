use vstd::prelude::*;
use crate::db::Db;
use crate::diagnostic::{Because, Errors, OrElse};
use crate::env::{Env, EnvModel, report};
use crate::is_future::{RedTy, red_ty, to_red_ty};
use crate::types::{SymPrimitive, SymTy, SymTyName};

verus! {

/// The primitive is a number.
pub open spec fn is_numeric_primitive(p: SymPrimitive) -> bool {
    match p {
        SymPrimitive::Int { .. } | SymPrimitive::Uint { .. } | SymPrimitive::Isize
        | SymPrimitive::Usize => true,
        SymPrimitive::Bool | SymPrimitive::Char => false,
    }
}

/// Require that a shape that is not an inference variable is numeric: a
/// numeric primitive or `!` is, anything else fails.
pub open spec fn require_numeric_shape(s: EnvModel, red: RedTy, or_else: OrElse, bound: Option<SymTy>) -> (
    EnvModel,
    Errors<()>,
) {
    match red {
        RedTy::Error(r) => (s, Err(r)),
        RedTy::Never => (s, Ok(())),
        RedTy::Named(SymTyName::Primitive(p), _) => if is_numeric_primitive(p) {
            (s, Ok(()))
        } else {
            report(s, or_else.diagnostic(crate::is_future::because_on(Because::JustSo, bound)))
        },
        _ => report(s, or_else.diagnostic(crate::is_future::because_on(Because::JustSo, bound))),
    }
}

/// Require that `ty` is numeric, if that can be decided now: an inference
/// variable is judged by its current lower bound (numeric types have no
/// subtypes, so a bound decides), and without one the requirement waits.
pub open spec fn require_numeric(db: Db, s: EnvModel, ty: SymTy, or_else: OrElse) -> Option<
    (EnvModel, Errors<()>),
> {
    match red_ty(db, ty) {
        RedTy::Infer(v) => if v.index < s.infer_vars.len() && s.infer_vars[v.index as int].lower_bound is Some {
            let bound = s.infer_vars[v.index as int].lower_bound->Some_0;
            match red_ty(db, bound) {
                RedTy::Infer(_) => None,
                red => Some(require_numeric_shape(s, red, or_else, Some(bound))),
            }
        } else {
            None
        },
        red => Some(require_numeric_shape(s, red, or_else, None)),
    }
}

fn require_numeric_red_type(env: &mut Env, red: RedTy, or_else: OrElse, bound: Option<SymTy>) -> (r: Errors<()>)
    ensures
        (final(env)@, r) == require_numeric_shape(old(env)@, red, or_else, bound),
{
    let because = match bound {
        Some(b) => Because::InferredLowerBound(b),
        None => Because::JustSo,
    };
    match red {
        RedTy::Error(r) => Err(r),
        RedTy::Never => Ok(()),
        RedTy::Named(SymTyName::Primitive(p), _) => match p {
            SymPrimitive::Int { .. } | SymPrimitive::Uint { .. } | SymPrimitive::Isize
            | SymPrimitive::Usize => Ok(()),
            SymPrimitive::Bool | SymPrimitive::Char => Err(env.report(or_else.diagnostic_for(because))),
        },
        _ => Err(env.report(or_else.diagnostic_for(because))),
    }
}

/// Require that `ty` is numeric; `None` when it cannot be decided yet, and
/// then nothing changed.
pub fn require_numeric_type(db: &Db, env: &mut Env, ty: SymTy, or_else: OrElse) -> (r: Option<Errors<()>>)
    requires
        db.wf(),
        db.is_ty(ty),
        forall|i: int|
            0 <= i < old(env)@.infer_vars.len() && (#[trigger] old(env)@.infer_vars[i]).lower_bound is Some
                ==> db.is_ty(old(env)@.infer_vars[i].lower_bound->Some_0),
    ensures
        match require_numeric(*db, old(env)@, ty, or_else) {
            Some((s, res)) => final(env)@ == s && r == Some(res),
            None => final(env)@ == old(env)@ && r is None,
        },
{
    match to_red_ty(db, ty) {
        RedTy::Infer(v) => {
            if v.index < env.infer_vars.len() {
                let data = env.infer_vars[v.index];
                proof {
                    assert(old(env)@.infer_vars[v.index as int] == data);
                }
                match data.lower_bound {
                    Some(bound) => {
                        let red = to_red_ty(db, bound);
                        if let RedTy::Infer(_) = red {
                            None
                        } else {
                            Some(require_numeric_red_type(env, red, or_else, Some(bound)))
                        }
                    },
                    None => None,
                }
            } else {
                None
            }
        },
        red => Some(require_numeric_red_type(env, red, or_else, None)),
    }
}

} // verus!
