use vstd::prelude::*;
use crate::ast::PermissionOp;
use crate::db::{Db, generic_in};
use crate::diagnostic::{DiagnosticKind, OrElse};
use crate::env::{Env, EnvModel, Obligation};
use crate::expr_result::{
    ExprResult, ExprResultKind, into_sym_place, into_temporary_var, plain, plain_diagnostic,
    reported_only,
};
use crate::scope::WellKnown;
use crate::scope::lemma_extends_is_ty;
use crate::span::Span;
use crate::subst::{lemma_extends_refl, lemma_extends_trans};
use crate::sym_expr::{
    SymBinaryOp, SymExpr, SymExprKind, SymLiteral, SymMatchArm, SymPlaceExpr, Temporary,
};
use crate::terms::{is_boolean, is_named, is_never, is_unit};
use crate::types::{SymGenericKind, SymGenericTerm, SymTy, SymTyKind, SymTyName};

verus! {


broadcast use {lemma_extends_is_ty, crate::env::lemma_grows_trans, crate::env::lemma_grows_refl};

/// `e` is the boolean literal `value`.
pub open spec fn is_bool_literal(e: SymExpr, value: bool) -> bool {
    *e.kind == SymExprKind::Primitive(SymLiteral::Integral { bits: if value { 1 } else { 0 } })
}

/// `e` is `if c { a } else { b }`: a match of a conditional arm and a fallback.
pub open spec fn is_if_then_else(e: SymExpr) -> bool {
    &&& *e.kind is Match
    &&& (*e.kind)->Match_arms@.len() == 2
    &&& (*e.kind)->Match_arms@[0].condition is Some
    &&& (*e.kind)->Match_arms@[1].condition is None
}

pub open spec fn if_condition(e: SymExpr) -> SymExpr {
    (*e.kind)->Match_arms@[0].condition->Some_0
}

pub open spec fn if_then(e: SymExpr) -> SymExpr {
    (*e.kind)->Match_arms@[0].body
}

pub open spec fn if_else(e: SymExpr) -> SymExpr {
    (*e.kind)->Match_arms@[1].body
}

/// Everything but the obligations of the session is unchanged, and these
/// grew by `spawned`.
pub open spec fn spawned_only(old_s: EnvModel, new_s: EnvModel, spawned: Seq<Obligation>) -> bool {
    new_s == EnvModel { obligations: old_s.obligations + spawned, ..old_s }
}

/// The literal `true` or `false`.
pub fn boolean_literal(db: &mut Db, span: Span, value: bool) -> (r: SymExpr)
    requires
        old(db).wf(),
    ensures
        final(db).wf(),
        final(db).extends(*old(db)),
        is_boolean(*final(db), r.ty),
        is_bool_literal(r, value),
        r.span == span,
{
    let ty = SymTy::boolean(db);
    let bits: u64 = if value {
        1
    } else {
        0
    };
    SymExpr::new(span, ty, SymExprKind::Primitive(SymLiteral::Integral { bits }))
}

/// `if condition { then_expr } else { else_expr }`, of the type of `then_expr`.
pub fn if_then_else(span: Span, condition: SymExpr, then_expr: SymExpr, else_expr: SymExpr) -> (r:
    SymExpr)
    ensures
        is_if_then_else(r),
        if_condition(r) == condition,
        if_then(r) == then_expr,
        if_else(r) == else_expr,
        r.ty == then_expr.ty,
        r.span == span,
{
    let ty = then_expr.ty;
    let arms = vec![
        SymMatchArm { condition: Some(condition), body: then_expr },
        SymMatchArm { condition: None, body: else_expr },
    ];
    SymExpr::new(span, ty, SymExprKind::Match { arms })
}

/// Every node that the `&&` desugaring builds has the span of the operation.
pub open spec fn and_and_spans(e: SymExpr, span: Span) -> bool {
    &&& e.span == span
    &&& if_then(e).span == span
    &&& if_then(if_then(e)).span == span
    &&& if_else(if_then(e)).span == span
    &&& if_else(e).span == span
}

/// Every node that the `||` desugaring builds has the span of the operation.
pub open spec fn or_or_spans(e: SymExpr, span: Span) -> bool {
    &&& e.span == span
    &&& if_then(e).span == span
    &&& if_else(e).span == span
    &&& if_then(if_else(e)).span == span
    &&& if_else(if_else(e)).span == span
}

/// `lhs && rhs`, desugared to `if lhs { if rhs { true } else { false } } else { false }`.
pub fn and_and(db: &mut Db, span: Span, lhs: SymExpr, rhs: SymExpr) -> (r: SymExpr)
    requires
        old(db).wf(),
    ensures
        final(db).wf(),
        final(db).extends(*old(db)),
        is_boolean(*final(db), r.ty),
        is_if_then_else(r),
        if_condition(r) == lhs,
        is_if_then_else(if_then(r)),
        if_condition(if_then(r)) == rhs,
        is_bool_literal(if_then(if_then(r)), true),
        is_bool_literal(if_else(if_then(r)), false),
        is_bool_literal(if_else(r), false),
        and_and_spans(r, span),
{
    let ghost d0 = *db;
    let t = boolean_literal(db, span, true);
    let ghost d1 = *db;
    let f1 = boolean_literal(db, span, false);
    let ghost d2 = *db;
    let f2 = boolean_literal(db, span, false);
    proof {
        lemma_extends_trans(d0, d1, d2);
        lemma_extends_trans(d0, d2, *db);
    }
    let inner = if_then_else(span, rhs, t, f1);
    if_then_else(span, lhs, inner, f2)
}

/// `lhs || rhs`, desugared to `if lhs { true } else { if rhs { true } else { false } }`.
pub fn or_or(db: &mut Db, span: Span, lhs: SymExpr, rhs: SymExpr) -> (r: SymExpr)
    requires
        old(db).wf(),
    ensures
        final(db).wf(),
        final(db).extends(*old(db)),
        is_boolean(*final(db), r.ty),
        is_if_then_else(r),
        if_condition(r) == lhs,
        is_bool_literal(if_then(r), true),
        is_if_then_else(if_else(r)),
        if_condition(if_else(r)) == rhs,
        is_bool_literal(if_then(if_else(r)), true),
        is_bool_literal(if_else(if_else(r)), false),
        or_or_spans(r, span),
{
    let ghost d0 = *db;
    let t1 = boolean_literal(db, span, true);
    let ghost d1 = *db;
    let t2 = boolean_literal(db, span, true);
    let ghost d2 = *db;
    let f = boolean_literal(db, span, false);
    proof {
        lemma_extends_trans(d0, d1, d2);
        lemma_extends_trans(d0, d2, *db);
    }
    let inner = if_then_else(span, rhs, t2, f);
    if_then_else(span, lhs, t1, inner)
}

/// An integer literal: its type is a fresh inference variable, which must end
/// up numeric (the context decides which numeric type).
pub fn integer_literal(db: &mut Db, env: &mut Env, span: Span, bits: u64) -> (r: ExprResult)
    requires
        old(db).wf(),
    ensures
        crate::env::grows(old(env)@, final(env)@),
        final(db).wf(),
        final(db).extends(*old(db)),
        r.span == span,
        r.temporaries@.len() == 0,
        r.kind is Expr,
        *r.kind->Expr_0.kind == SymExprKind::Primitive((SymLiteral::Integral { bits })),
        final(db).is_ty(r.kind->Expr_0.ty),
        final(db).ty_kind(r.kind->Expr_0.ty) == SymTyKind::Infer(
            crate::types::InferVarIndex { index: old(env)@.infer_vars.len() as usize },
        ),
        final(env)@.infer_vars.len() == old(env)@.infer_vars.len() + 1,
        final(env)@.infer_vars[old(env)@.infer_vars.len() as int].kind == SymGenericKind::Type,
        final(env)@.obligations == old(env)@.obligations.push(
            Obligation::Numeric {
                ty: r.kind->Expr_0.ty,
                or_else: OrElse { kind: DiagnosticKind::NumericTypeExpected, span },
            },
        ),
        final(env)@.diagnostics == old(env)@.diagnostics,
{
    let v = env.fresh_infer(SymGenericKind::Type, span);
    let ty = SymTy::infer(db, v);
    env.spawn(
        Obligation::Numeric { ty, or_else: OrElse { kind: DiagnosticKind::NumericTypeExpected, span } },
    );
    let e = SymExpr::new(span, ty, SymExprKind::Primitive(SymLiteral::Integral { bits }));
    ExprResult::from_expr(e, Vec::new())
}

/// The obligations of an operator on numbers: both operands numeric, and of
/// one type.
pub open spec fn operator_obligations(lhs: SymTy, rhs: SymTy, op_span: Span) -> Seq<Obligation> {
    seq![
        Obligation::Numeric {
            ty: lhs,
            or_else: OrElse { kind: DiagnosticKind::OperatorRequiresNumericType, span: op_span },
        },
        Obligation::Numeric {
            ty: rhs,
            or_else: OrElse { kind: DiagnosticKind::OperatorRequiresNumericType, span: op_span },
        },
        Obligation::EqualTypes {
            lhs,
            rhs,
            or_else: OrElse { kind: DiagnosticKind::OperatorArgumentsMustHaveSameType, span: op_span },
        },
    ]
}

fn spawn_operator_obligations(env: &mut Env, lhs: SymTy, rhs: SymTy, op_span: Span)
    ensures
        spawned_only(old(env)@, final(env)@, operator_obligations(lhs, rhs, op_span)),
{
    let ghost s0 = env@;
    let numeric = OrElse { kind: DiagnosticKind::OperatorRequiresNumericType, span: op_span };
    env.spawn(Obligation::Numeric { ty: lhs, or_else: numeric });
    env.spawn(Obligation::Numeric { ty: rhs, or_else: numeric });
    env.spawn(
        Obligation::EqualTypes {
            lhs,
            rhs,
            or_else: OrElse { kind: DiagnosticKind::OperatorArgumentsMustHaveSameType, span: op_span },
        },
    );
    proof {
        assert(env@.obligations =~= s0.obligations + operator_obligations(lhs, rhs, op_span));
    }
}

/// An arithmetic (`+ - * /`) or comparison operation on two checked operands.
/// Both must be numeric and of one type (checked later); arithmetic has the
/// type of its left operand, a comparison is boolean.
pub fn binary_op(
    db: &mut Db,
    env: &mut Env,
    span: Span,
    op: SymBinaryOp,
    op_span: Span,
    lhs: SymExpr,
    rhs: SymExpr,
    temporaries: Vec<Temporary>,
) -> (r: ExprResult)
    requires
        old(db).wf(),
        old(db).is_ty(lhs.ty),
    ensures
        crate::env::grows(old(env)@, final(env)@),
        final(db).wf(),
        final(db).extends(*old(db)),
        r.span == span,
        r.temporaries == temporaries,
        r.kind is Expr,
        *r.kind->Expr_0.kind == SymExprKind::BinaryOp(op, lhs, rhs),
        final(db).is_ty(r.kind->Expr_0.ty),
        match op {
            SymBinaryOp::Add | SymBinaryOp::Sub | SymBinaryOp::Mul | SymBinaryOp::Div => r.kind->Expr_0.ty == lhs.ty,
            _ => is_boolean(*final(db), r.kind->Expr_0.ty),
        },
        spawned_only(old(env)@, final(env)@, operator_obligations(lhs.ty, rhs.ty, op_span)),
{
    spawn_operator_obligations(env, lhs.ty, rhs.ty, op_span);
    let ty = match op {
        SymBinaryOp::Add | SymBinaryOp::Sub | SymBinaryOp::Mul | SymBinaryOp::Div => {
            proof {
                lemma_extends_refl(*db);
            }
            lhs.ty
        },
        _ => SymTy::boolean(db),
    };
    ExprResult::from_expr(SymExpr::new(span, ty, SymExprKind::BinaryOp(op, lhs, rhs)), temporaries)
}

/// The obligation that `e` is boolean.
pub open spec fn bool_obligation(e_ty: SymTy, boolean: SymTy, span: Span) -> Obligation {
    Obligation::Assignable {
        value: e_ty,
        target: boolean,
        or_else: OrElse { kind: DiagnosticKind::BadSubtype, span },
    }
}

/// Require (later) that an expression is boolean.
pub fn require_expr_has_bool_ty(db: &mut Db, env: &mut Env, e_ty: SymTy, span: Span) -> (r: SymTy)
    requires
        old(db).wf(),
    ensures
        crate::env::grows(old(env)@, final(env)@),
        final(db).wf(),
        final(db).extends(*old(db)),
        is_boolean(*final(db), r),
        spawned_only(old(env)@, final(env)@, seq![bool_obligation(e_ty, r, span)]),
{
    let boolean = SymTy::boolean(db);
    env.spawn(
        Obligation::Assignable {
            value: e_ty,
            target: boolean,
            or_else: OrElse { kind: DiagnosticKind::BadSubtype, span },
        },
    );
    proof {
        assert(env@.obligations =~= old(env)@.obligations + seq![bool_obligation(e_ty, boolean, span)]);
    }
    boolean
}

/// `place = value`: the value must be assignable to the place (checked later);
/// the assignment itself is of type `()`.
pub fn assign(
    db: &mut Db,
    env: &mut Env,
    span: Span,
    place: SymPlaceExpr,
    value: SymExpr,
    temporaries: Vec<Temporary>,
) -> (r: ExprResult)
    requires
        old(db).wf(),
    ensures
        crate::env::grows(old(env)@, final(env)@),
        final(db).wf(),
        final(db).extends(*old(db)),
        r.span == span,
        r.temporaries == temporaries,
        r.kind is Expr,
        is_unit(*final(db), r.kind->Expr_0.ty),
        spawned_only(
            old(env)@,
            final(env)@,
            seq![
                Obligation::Assignable {
                    value: value.ty,
                    target: place.ty,
                    or_else: OrElse { kind: DiagnosticKind::InvalidAssignmentType, span },
                },
            ],
        ),
        *r.kind->Expr_0.kind == (SymExprKind::Assign { place, value }),
{
    env.spawn(
        Obligation::Assignable {
            value: value.ty,
            target: place.ty,
            or_else: OrElse { kind: DiagnosticKind::InvalidAssignmentType, span },
        },
    );
    proof {
        assert(env@.obligations =~= old(env)@.obligations + seq![
            Obligation::Assignable {
                value: value.ty,
                target: place.ty,
                or_else: OrElse { kind: DiagnosticKind::InvalidAssignmentType, span },
            },
        ]);
    }
    let ty = SymTy::unit(db);
    ExprResult::from_expr(SymExpr::new(span, ty, SymExprKind::Assign { place, value }), temporaries)
}

/// `!operand`: the operand must be boolean, and so is the result.
pub fn not_op(
    db: &mut Db,
    env: &mut Env,
    span: Span,
    op_span: Span,
    operand: SymExpr,
    temporaries: Vec<Temporary>,
) -> (r: ExprResult)
    requires
        old(db).wf(),
    ensures
        crate::env::grows(old(env)@, final(env)@),
        final(db).wf(),
        final(db).extends(*old(db)),
        r.span == span,
        r.temporaries == temporaries,
        r.kind is Expr,
        is_boolean(*final(db), r.kind->Expr_0.ty),
        spawned_only(old(env)@, final(env)@, seq![bool_obligation(operand.ty, r.kind->Expr_0.ty, span)]),
        *r.kind->Expr_0.kind == (SymExprKind::Not { operand, op_span }),
{
    let boolean = require_expr_has_bool_ty(db, env, operand.ty, span);
    ExprResult::from_expr(SymExpr::new(span, boolean, SymExprKind::Not { operand, op_span }), temporaries)
}

/// `return value` (`return ()` when there is no value). The value must be
/// assignable to the declared return type (checked later); outside of a
/// function, `return` is an error. The expression's type is `!`.
pub fn return_expr(
    db: &mut Db,
    env: &mut Env,
    span: Span,
    value: Option<SymExpr>,
    temporaries: Vec<Temporary>,
) -> (r: ExprResult)
    requires
        old(db).wf(),
    ensures
        crate::env::grows(old(env)@, final(env)@),
        final(db).wf(),
        final(db).extends(*old(db)),
        r.span == span,
        crate::expr_result::result_types_ok(*final(db), &r),
        r.kind is Expr || r.kind is PlaceExpr,
        old(env)@.return_ty is None ==> r.kind is PlaceExpr,
        old(env)@.return_ty is None ==> reported_only(
            old(env)@,
            final(env)@,
            plain(DiagnosticKind::UnexpectedReturn, span),
        ),
        old(env)@.return_ty is Some ==> r.kind is Expr && *r.kind->Expr_0.kind is Return
            && is_never(*final(db), r.kind->Expr_0.ty) && r.temporaries == temporaries
            && final(env)@.diagnostics == old(env)@.diagnostics && final(env)@.obligations.len()
            == old(env)@.obligations.len() + 1 && final(env)@.obligations.last() is Assignable
            && final(env)@.obligations.last()->Assignable_target == old(env)@.return_ty->Some_0
            && (value is Some ==> final(env)@.obligations.last()->Assignable_value == value->Some_0.ty),
        old(env)@.return_ty is Some ==> final(env)@.obligations.last() == (Obligation::Assignable {
            value: (*r.kind->Expr_0.kind)->Return_0.ty,
            target: old(env)@.return_ty->Some_0,
            or_else: OrElse { kind: DiagnosticKind::InvalidReturnValue, span },
        }),
        old(env)@.return_ty is Some && value is Some ==> (*r.kind->Expr_0.kind)->Return_0
            == value->Some_0,
        old(env)@.return_ty is Some && value is None ==> *(*r.kind->Expr_0.kind)->Return_0.kind is Tuple
            && (*(*r.kind->Expr_0.kind)->Return_0.kind)->Tuple_0@.len() == 0 && is_unit(
            *final(db),
            (*r.kind->Expr_0.kind)->Return_0.ty,
        ),
{
    let value_ty: Option<SymTy> = match &value {
        Some(e) => Some(e.ty),
        None => None,
    };
    let return_value = match value {
        Some(e) => e,
        None => {
            let ty = SymTy::unit(db);
            SymExpr::new(span, ty, SymExprKind::Tuple(Vec::new()))
        },
    };
    let ghost d1 = *db;
    match env.return_ty {
        None => {
            let r = env.report(plain_diagnostic(DiagnosticKind::UnexpectedReturn, span));
            let result = ExprResult::err(db, r, span);
            proof {
                lemma_extends_trans(*old(db), d1, *db);
            }
            result
        },
        Some(expected) => {
            env.spawn(
                Obligation::Assignable {
                    value: return_value.ty,
                    target: expected,
                    or_else: OrElse { kind: DiagnosticKind::InvalidReturnValue, span },
                },
            );
            let never = SymTy::never(db);
            proof {
                lemma_extends_trans(*old(db), d1, *db);
            }
            ExprResult {
                temporaries,
                span,
                kind: ExprResultKind::Expr(
                    SymExpr::new(span, never, SymExprKind::Return(return_value)),
                ),
            }
        },
    }
}

/// `future.await`: the awaited type is a fresh inference variable, and the
/// future's type must be a future of it (checked later).
pub fn await_expr(
    db: &mut Db,
    env: &mut Env,
    span: Span,
    await_span: Span,
    future: SymExpr,
    temporaries: Vec<Temporary>,
) -> (r: ExprResult)
    requires
        old(db).wf(),
    ensures
        crate::env::grows(old(env)@, final(env)@),
        final(db).wf(),
        final(db).extends(*old(db)),
        r.span == span,
        r.temporaries == temporaries,
        r.kind is Expr,
        final(db).is_ty(r.kind->Expr_0.ty),
        final(db).ty_kind(r.kind->Expr_0.ty) == SymTyKind::Infer(
            crate::types::InferVarIndex { index: old(env)@.infer_vars.len() as usize },
        ),
        final(env)@.obligations == old(env)@.obligations.push(
            Obligation::FutureType {
                ty: future.ty,
                awaited: r.kind->Expr_0.ty,
                or_else: OrElse { kind: DiagnosticKind::AwaitNonFuture, span: await_span },
            },
        ),
        final(env)@.diagnostics == old(env)@.diagnostics,
        final(env)@.infer_vars.len() == old(env)@.infer_vars.len() + 1,
        *r.kind->Expr_0.kind == (SymExprKind::Await { future, await_keyword: await_span }),
{
    let v = env.fresh_infer(SymGenericKind::Type, await_span);
    let awaited = SymTy::infer(db, v);
    env.spawn(
        Obligation::FutureType {
            ty: future.ty,
            awaited,
            or_else: OrElse { kind: DiagnosticKind::AwaitNonFuture, span: await_span },
        },
    );
    ExprResult::from_expr(
        SymExpr::new(span, awaited, SymExprKind::Await { future, await_keyword: await_span }),
        temporaries,
    )
}

/// A permission operation on a place: `mut` gives the type leased from the
/// place, `ref` the type shared from it, `give` the type itself.
pub fn permission_op(
    db: &mut Db,
    span: Span,
    op: PermissionOp,
    place_expr: SymPlaceExpr,
    temporaries: Vec<Temporary>,
) -> (r: ExprResult)
    requires
        old(db).wf(),
        old(db).is_ty(place_expr.ty),
    ensures
        final(db).wf(),
        final(db).extends(*old(db)),
        r.span == span,
        r.temporaries == temporaries,
        r.kind is Expr,
        final(db).is_ty(r.kind->Expr_0.ty),
        op == PermissionOp::Give ==> r.kind->Expr_0.ty == place_expr.ty,
        op == PermissionOp::Reference ==> final(db).ty_kind(r.kind->Expr_0.ty) is Perm
            && final(db).ty_kind(r.kind->Expr_0.ty)->Perm_1 == place_expr.ty && final(db).perm_kind(
            final(db).ty_kind(r.kind->Expr_0.ty)->Perm_0,
        ) is Shared,
        op == PermissionOp::Mutate ==> final(db).ty_kind(r.kind->Expr_0.ty) is Perm
            && final(db).ty_kind(r.kind->Expr_0.ty)->Perm_1 == place_expr.ty && final(db).perm_kind(
            final(db).ty_kind(r.kind->Expr_0.ty)->Perm_0,
        ) is Leased,
        *r.kind->Expr_0.kind == SymExprKind::PermissionOp(op, place_expr),
        op == PermissionOp::Mutate ==> exists|p: crate::types::SymPlace|
            crate::expr_result::place_of(*final(db), p, place_expr) && final(db).perm_kind(
                final(db).ty_kind(r.kind->Expr_0.ty)->Perm_0,
            )->Leased_0@ == seq![p],
        op == PermissionOp::Reference ==> exists|p: crate::types::SymPlace|
            crate::expr_result::place_of(*final(db), p, place_expr) && final(db).perm_kind(
                final(db).ty_kind(r.kind->Expr_0.ty)->Perm_0,
            )->Shared_0@ == seq![p],
{
    let ghost d0 = *db;
    let place = into_sym_place(db, &place_expr);
    let ghost d1 = *db;
    let ty = match op {
        PermissionOp::Mutate => place_expr.ty.leased(db, place),
        PermissionOp::Reference => place_expr.ty.shared(db, place),
        PermissionOp::Give => {
            proof {
                lemma_extends_refl(*db);
            }
            place_expr.ty
        },
    };
    proof {
        lemma_extends_trans(d0, d1, *db);
        assert(db.terms@[place.id as int] == d1.terms@[place.id as int]);
        assert(crate::expr_result::place_of(*db, place, place_expr));
    }
    ExprResult::from_expr(SymExpr::new(span, ty, SymExprKind::PermissionOp(op, place_expr)), temporaries)
}

/// A tuple of checked elements: its type is the tuple of their types.
pub fn tuple(db: &mut Db, span: Span, elements: Vec<SymExpr>, temporaries: Vec<Temporary>) -> (r:
    ExprResult)
    requires
        old(db).wf(),
        forall|k: int| 0 <= k < elements@.len() ==> #[trigger] old(db).is_ty(elements@[k].ty),
    ensures
        final(db).wf(),
        final(db).extends(*old(db)),
        r.span == span,
        r.temporaries == temporaries,
        r.kind is Expr,
        is_named(
            *final(db),
            r.kind->Expr_0.ty,
            SymTyName::Tuple { arity: elements@.len() as usize },
            elements@.map_values(|e: SymExpr| SymGenericTerm::Type(e.ty)),
        ),
        *r.kind->Expr_0.kind == SymExprKind::Tuple(elements),
{
    let mut tys: Vec<SymGenericTerm> = Vec::new();
    let mut k: usize = 0;
    while k < elements.len()
        invariant
            0 <= k <= elements@.len(),
            tys@ == elements@.take(k as int).map_values(|e: SymExpr| SymGenericTerm::Type(e.ty)),
            forall|j: int| 0 <= j < elements@.len() ==> #[trigger] db.is_ty(elements@[j].ty),
        decreases elements@.len() - k,
    {
        tys.push(SymGenericTerm::Type(elements[k].ty));
        k += 1;
        proof {
            assert(tys@ =~= elements@.take(k as int).map_values(|e: SymExpr| SymGenericTerm::Type(e.ty)));
        }
    }
    proof {
        assert(elements@.take(elements@.len() as int) =~= elements@);
        assert forall|j: int| 0 <= j < tys@.len() implies #[trigger] generic_in(db.terms@, tys@[j]) by {
            assert(db.is_ty(elements@[j].ty));
        }
    }
    let arity = elements.len();
    let ty = SymTy::named(db, SymTyName::Tuple { arity }, tys);
    ExprResult::from_expr(SymExpr::new(span, ty, SymExprKind::Tuple(elements)), temporaries)
}

/// `if` arms that were checked: each arm's body must be assignable (checked
/// later) to the type of the whole, which is `()` without an `else` arm and a
/// fresh inference variable with one.
pub fn if_arms(db: &mut Db, env: &mut Env, span: Span, arms: Vec<SymMatchArm>, has_else: bool) -> (r:
    ExprResult)
    requires
        old(db).wf(),
    ensures
        crate::env::grows(old(env)@, final(env)@),
        final(db).wf(),
        final(db).extends(*old(db)),
        r.span == span,
        r.temporaries@.len() == 0,
        r.kind is Expr,
        final(db).is_ty(r.kind->Expr_0.ty),
        !has_else ==> is_unit(*final(db), r.kind->Expr_0.ty),
        has_else ==> final(db).ty_kind(r.kind->Expr_0.ty) is Infer,
        final(env)@.diagnostics == old(env)@.diagnostics,
        final(env)@.obligations.len() == old(env)@.obligations.len() + arms@.len(),
        forall|k: int|
            0 <= k < arms@.len() ==> #[trigger] final(env)@.obligations[old(env)@.obligations.len() + k]
                == (Obligation::Assignable {
                    value: arms@[k].body.ty,
                    target: r.kind->Expr_0.ty,
                    or_else: OrElse { kind: DiagnosticKind::BadSubtype, span: arms@[k].body.span },
                }),
        *r.kind->Expr_0.kind == (SymExprKind::Match { arms }),
{
    let ty = if !has_else {
        SymTy::unit(db)
    } else {
        let v = env.fresh_infer(SymGenericKind::Type, span);
        SymTy::infer(db, v)
    };
    let ghost s1 = env@;
    let mut k: usize = 0;
    while k < arms.len()
        invariant
            crate::env::grows(old(env)@, env@),
            0 <= k <= arms@.len(),
            env@.diagnostics == s1.diagnostics,
            env@.obligations.len() == s1.obligations.len() + k,
            env@.obligations.take(s1.obligations.len() as int) == s1.obligations,
            forall|j: int|
                0 <= j < k ==> #[trigger] env@.obligations[s1.obligations.len() + j] == (
                Obligation::Assignable {
                    value: arms@[j].body.ty,
                    target: ty,
                    or_else: OrElse { kind: DiagnosticKind::BadSubtype, span: arms@[j].body.span },
                }),
        decreases arms@.len() - k,
    {
        let ghost before = env@;
        env.spawn(
            Obligation::Assignable {
                value: arms[k].body.ty,
                target: ty,
                or_else: OrElse { kind: DiagnosticKind::BadSubtype, span: arms[k].body.span },
            },
        );
        proof {
            assert(env@.obligations.take(s1.obligations.len() as int) =~= before.obligations.take(
                s1.obligations.len() as int,
            ));
            assert forall|j: int| 0 <= j < k + 1 implies #[trigger] env@.obligations[s1.obligations.len()
                + j] == (Obligation::Assignable {
                value: arms@[j].body.ty,
                target: ty,
                or_else: OrElse { kind: DiagnosticKind::BadSubtype, span: arms@[j].body.span },
            }) by {
                if j < k {
                    assert(env@.obligations[s1.obligations.len() + j] == before.obligations[s1.obligations.len() + j]);
                }
            }
        }
        k += 1;
    }
    proof {
        assert(s1.obligations.len() == old(env)@.obligations.len());
    }
    ExprResult::from_expr(SymExpr::new(span, ty, SymExprKind::Match { arms }), Vec::new())
}

fn copy_bytes(bytes: &Vec<u8>) -> (r: Vec<u8>)
    ensures
        r@ == bytes@,
{
    let mut r: Vec<u8> = Vec::new();
    let mut k: usize = 0;
    while k < bytes.len()
        invariant
            0 <= k <= bytes@.len(),
            r@ == bytes@.take(k as int),
        decreases bytes@.len() - k,
    {
        r.push(bytes[k]);
        k += 1;
        proof {
            assert(r@ =~= bytes@.take(k as int));
        }
    }
    proof {
        assert(bytes@.take(bytes@.len() as int) =~= bytes@);
    }
    r
}

/// A string literal, desugared to `String.literal(b"...", length)`: the byte
/// literal and its length are bound to temporaries, which are the call's
/// arguments. Without the well-known items it needs, it is an error.
pub fn string_literal(db: &mut Db, env: &mut Env, well_known: WellKnown, span: Span, bytes: &Vec<u8>) -> (r:
    ExprResult)
    requires
        old(db).wf(),
    ensures
        crate::env::grows(old(env)@, final(env)@),
        final(db).wf(),
        final(db).extends(*old(db)),
        crate::expr_result::result_types_ok(*final(db), &r),
        r.kind is Expr || r.kind is PlaceExpr,
        well_known.string_class is Some && well_known.pointer_struct is Some
            && well_known.string_literal_fn is Some ==> {
            &&& final(env)@ == old(env)@
            &&& r.kind is Expr
            &&& *r.kind->Expr_0.kind is Call
            &&& (*r.kind->Expr_0.kind)->Call_function == well_known.string_literal_fn->Some_0
            &&& r.temporaries@.len() == 2
            &&& (*r.kind->Expr_0.kind)->Call_arg_temps@ == seq![r.temporaries@[0].lv, r.temporaries@[1].lv]
            &&& r.temporaries@[0].initializer is Some
            &&& *r.temporaries@[0].initializer->Some_0.kind is ByteLiteral
            &&& (*r.temporaries@[0].initializer->Some_0.kind)->ByteLiteral_0@ == bytes@
            &&& r.temporaries@[1].initializer is Some
            &&& *r.temporaries@[1].initializer->Some_0.kind == SymExprKind::Primitive(
                (SymLiteral::Integral { bits: bytes@.len() as u64 }),
            )
            &&& is_named(
                *final(db),
                r.kind->Expr_0.ty,
                SymTyName::Aggregate(well_known.string_class->Some_0),
                Seq::empty(),
            )
        },
        !(well_known.string_class is Some && well_known.pointer_struct is Some
            && well_known.string_literal_fn is Some) ==> r.kind is PlaceExpr,
        !(well_known.string_class is Some && well_known.pointer_struct is Some
            && well_known.string_literal_fn is Some) ==> reported_only(
            old(env)@,
            final(env)@,
            plain(DiagnosticKind::UnresolvedName, span),
        ),
{
    match (well_known.pointer_struct, well_known.string_class, well_known.string_literal_fn) {
        (Some(pointer), Some(string), Some(literal_fn)) => {
            let ghost d0 = *db;
            let u8_ty = SymTy::u8(db);
            let pointer_ty = SymTy::named(
                db,
                SymTyName::Aggregate(pointer),
                vec![SymGenericTerm::Type(u8_ty)],
            );
            let byte_literal = SymExpr::new(span, pointer_ty, SymExprKind::ByteLiteral(copy_bytes(bytes)));
            let u32_ty = SymTy::u32(db);
            let length = bytes.len() as u64;
            let length_literal = SymExpr::new(
                span,
                u32_ty,
                SymExprKind::Primitive(SymLiteral::Integral { bits: length }),
            );
            let mut temporaries: Vec<Temporary> = Vec::new();
            let bytes_var = into_temporary_var(db, byte_literal, &mut temporaries);
            let length_var = into_temporary_var(db, length_literal, &mut temporaries);
            let string_ty = SymTy::string(db, string);
            let call = SymExpr::new(
                span,
                string_ty,
                SymExprKind::Call {
                    function: literal_fn,
                    substitution: Vec::new(),
                    arg_temps: vec![bytes_var, length_var],
                },
            );
            ExprResult { temporaries, span, kind: ExprResultKind::Expr(call) }
        },
        _ => {
            let reported = env.report(plain_diagnostic(DiagnosticKind::UnresolvedName, span));
            ExprResult::err(db, reported, span)
        },
    }
}

} // verus!
