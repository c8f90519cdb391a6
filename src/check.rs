use vstd::prelude::*;
use crate::ast::{AstBinaryOp, AstExpr, AstExprKind, AstGenericTerm};
use crate::calls::{
    check_class_call, check_function_call, check_method_call, checked_call, generic_vars,
    generic_terms, inferred_from, lemma_checked_call_earlier, named_call_checked, no_new_reported,
};
use crate::db::Db;
use crate::diagnostic::DiagnosticKind;
use crate::env::{Env, EnvModel, Obligation, has_obligation};
use crate::diagnostic::OrElse;
use crate::scope::first_name;
use crate::types::{InferVarIndex, SymGenericKind, SymGenericTerm, SymPlace, SymTy, SymTyKind, SymVariable};
use crate::sym_expr::SymPlaceExprKind;
use crate::expr_rules::{and_and_spans, or_or_spans};
use crate::expr_rules::operator_obligations;
use crate::ast::PermissionOp;
use crate::expr_result::{
    ExprResult, ExprResultKind, place_of, plain, plain_diagnostic, result_ok, result_types_ok,
};
use crate::expr_rules::{
    and_and, assign, await_expr, binary_op, boolean_literal, if_arms, if_condition, if_else, if_then,
    integer_literal, is_bool_literal, is_if_then_else, not_op, or_or, permission_op,
    require_expr_has_bool_ty, return_expr, string_literal, tuple,
};
use crate::is_future::{RedTy, to_red_ty};
use crate::scope::{
    NameResolution, NameResolutionSym, Scope, lemma_extends_generic, lemma_extends_is_ty,
    lemma_scope_extends,
};
use crate::span::Span;
use crate::subst::{lemma_extends_refl, lemma_extends_trans};
use crate::sym_expr::{SymBinaryOp, SymExpr, SymExprKind, SymLiteral, SymMatchArm, Temporary};
use crate::terms::{is_boolean, is_never, is_unit};
use crate::types::SymTyName;
use crate::word::Word;

verus! {


broadcast use {crate::terms::lemma_extends_is_named, crate::env::lemma_grows_keeps_obligation, lemma_extends_is_ty, lemma_extends_trans, crate::env::lemma_grows_trans, crate::env::lemma_grows_refl};

/// `e` has the shape of `if a { if b { true } else { false } } else { false }`.
pub open spec fn is_and_and_shape(e: SymExpr) -> bool {
    &&& is_if_then_else(e)
    &&& is_if_then_else(if_then(e))
    &&& is_bool_literal(if_then(if_then(e)), true)
    &&& is_bool_literal(if_else(if_then(e)), false)
    &&& is_bool_literal(if_else(e), false)
}

/// `e` has the shape of `if a { true } else { if b { true } else { false } }`.
pub open spec fn is_or_or_shape(e: SymExpr) -> bool {
    &&& is_if_then_else(e)
    &&& is_bool_literal(if_then(e), true)
    &&& is_if_then_else(if_else(e))
    &&& is_bool_literal(if_then(if_else(e)), true)
    &&& is_bool_literal(if_else(if_else(e)), false)
}

/// The checked operator of a binary operation.
pub open spec fn sym_binary_op(op: AstBinaryOp) -> SymBinaryOp {
    match op {
        AstBinaryOp::Add => SymBinaryOp::Add,
        AstBinaryOp::Sub => SymBinaryOp::Sub,
        AstBinaryOp::Mul => SymBinaryOp::Mul,
        AstBinaryOp::Div => SymBinaryOp::Div,
        AstBinaryOp::GreaterThan => SymBinaryOp::GreaterThan,
        AstBinaryOp::LessThan => SymBinaryOp::LessThan,
        AstBinaryOp::GreaterEqual => SymBinaryOp::GreaterEqual,
        AstBinaryOp::LessEqual => SymBinaryOp::LessEqual,
        _ => SymBinaryOp::EqualEqual,
    }
}

/// An integer or boolean literal.
pub open spec fn is_literal(e: AstExpr) -> bool {
    *e.kind is Integer || *e.kind is Boolean
}

/// `+ - * /`
pub open spec fn is_arithmetic(op: AstBinaryOp) -> bool {
    op == AstBinaryOp::Add || op == AstBinaryOp::Sub || op == AstBinaryOp::Mul || op == AstBinaryOp::Div
}

/// An arithmetic or comparison operator (not `&&`, `||` or `=`).
pub open spec fn is_operator(op: AstBinaryOp) -> bool {
    !(op == AstBinaryOp::AndAnd || op == AstBinaryOp::OrOr || op == AstBinaryOp::Assign)
}

/// `e` is the checked value of the operand `ast`: a literal gives that
/// literal, and a name gives a value at the name's span.
pub open spec fn operand_of(ast: AstExpr, e: SymExpr) -> bool {
    match *ast.kind {
        AstExprKind::Integer(n) => *e.kind == SymExprKind::Primitive((SymLiteral::Integral { bits: n })),
        AstExprKind::Boolean(b) => is_bool_literal(e, b),
        AstExprKind::Id(_, _) => e.span == ast.span,
        _ => true,
    }
}

/// The local place variable that the name `w` resolves to, if it resolves to one
/// with a type in scope.
pub open spec fn name_place_variable(scope: &Scope, db: Db, w: Word) -> Option<SymVariable> {
    match first_name(scope.names@, w) {
        Some((NameResolutionSym::Variable(v), _)) => if v.id < db.variables@.len()
            && db.variables@[v.id as int].kind == SymGenericKind::Place && (exists|k: int|
            0 <= k < scope.locals@.len() && scope.locals@[k].0 == v) {
            Some(v)
        } else {
            None
        },
        _ => None,
    }
}

/// `e` is the value of the operand `ast` that names a local place variable:
/// the place used by reference.
pub open spec fn name_value_of(scope: &Scope, db: Db, ast: AstExpr, e: SymExpr) -> bool {
    *ast.kind is Id && name_place_variable(scope, db, (*ast.kind)->Id_0) is Some ==> {
        &&& *e.kind is PermissionOp
        &&& (*e.kind)->PermissionOp_0 == PermissionOp::Reference
        &&& *(*e.kind)->PermissionOp_1.kind == SymPlaceExprKind::Var(
            name_place_variable(scope, db, (*ast.kind)->Id_0)->Some_0,
        )
        &&& e.span == ast.span
    }
}

/// `s` ends with `tail`.
pub open spec fn ends_with_terms(s: Seq<SymGenericTerm>, tail: Seq<SymGenericTerm>) -> bool {
    tail.len() <= s.len() && s.subrange(s.len() - tail.len(), s.len() as int) == tail
}

/// The last obligations of `s` are `tail`.
pub open spec fn ends_with(s: Seq<Obligation>, tail: Seq<Obligation>) -> bool {
    tail.len() <= s.len() && s.subrange(s.len() - tail.len(), s.len() as int) == tail
}

/// `e` is the checked `lhs op rhs`: its operands are the checked operands, its
/// type is that of the left one for arithmetic and boolean for comparisons,
/// and the operator's obligations were spawned last.
pub open spec fn operator_checked(
    db: Db,
    s: EnvModel,
    op: AstBinaryOp,
    op_span: Span,
    lhs: AstExpr,
    rhs: AstExpr,
    e: SymExpr,
) -> bool {
    &&& *e.kind is BinaryOp
    &&& (*e.kind)->BinaryOp_0 == sym_binary_op(op)
    &&& operand_of(lhs, (*e.kind)->BinaryOp_1)
    &&& operand_of(rhs, (*e.kind)->BinaryOp_2)
    &&& is_arithmetic(op) ==> e.ty == (*e.kind)->BinaryOp_1.ty
    &&& !is_arithmetic(op) ==> is_boolean(db, e.ty)
    &&& ends_with(
        s.obligations,
        operator_obligations((*e.kind)->BinaryOp_1.ty, (*e.kind)->BinaryOp_2.ty, op_span),
    )
}

/// `o` requires `e` to be boolean.
pub open spec fn requires_boolean(db: Db, o: Obligation, e: SymExpr) -> bool {
    &&& o is Assignable
    &&& o->Assignable_value == e.ty
    &&& is_boolean(db, o->Assignable_target)
    &&& o->Assignable_or_else == (OrElse { kind: DiagnosticKind::BadSubtype, span: e.span })
}

/// Some obligation of `s` requires `e` to be boolean.
pub open spec fn boolean_required(db: Db, s: EnvModel, e: SymExpr) -> bool {
    exists|o: Obligation| #[trigger] has_obligation(s, o) && requires_boolean(db, o, e)
}

pub proof fn lemma_boolean_required_grows(db1: Db, db2: Db, s1: EnvModel, s2: EnvModel, e: SymExpr)
    requires
        db2.extends(db1),
        crate::env::grows(s1, s2),
        boolean_required(db1, s1, e),
    ensures
        boolean_required(db2, s2, e),
{
    let o = choose|o: Obligation| #[trigger] has_obligation(s1, o) && requires_boolean(db1, o, e);
    assert(has_obligation(s2, o));
    assert(requires_boolean(db2, o, e));
}

/// Each checked arm of an `if` keeps the shape of its source arm; each
/// condition is required to be boolean, and each body to be assignable to the
/// type of the whole.
pub open spec fn if_arms_checked(
    db: Db,
    s: EnvModel,
    ast_arms: Seq<crate::ast::AstIfArm>,
    arms: Seq<SymMatchArm>,
    ty: SymTy,
) -> bool {
    &&& arms.len() == ast_arms.len()
    &&& forall|k: int|
        0 <= k < arms.len() ==> {
            &&& ((#[trigger] arms[k]).condition is Some) == (ast_arms[k].condition is Some)
            &&& arms[k].condition is Some ==> boolean_required(db, s, arms[k].condition->Some_0)
            &&& has_obligation(
                s,
                Obligation::Assignable {
                    value: arms[k].body.ty,
                    target: ty,
                    or_else: OrElse { kind: DiagnosticKind::BadSubtype, span: arms[k].body.span },
                },
            )
        }
}

/// The last two obligations of `s` require `a` and then `b` to be boolean.
pub open spec fn both_boolean_required(db: Db, s: EnvModel, a: SymExpr, b: SymExpr) -> bool {
    &&& s.obligations.len() >= 2
    &&& requires_boolean(db, s.obligations[s.obligations.len() - 2], a)
    &&& requires_boolean(db, s.obligations[s.obligations.len() - 1], b)
}

pub proof fn lemma_result_extends(old_db: Db, new_db: Db, scope: &Scope, r: &ExprResult)
    requires
        new_db.extends(old_db),
        result_ok(old_db, scope, r),
    ensures
        result_ok(new_db, scope, r),
{
    match &r.kind {
        ExprResultKind::Method { generics, .. } => {
            if generics is Some {
                assert forall|k: int| 0 <= k < generics->Some_0@.len() implies #[trigger] new_db.is_generic(
                    generics->Some_0@[k].term,
                ) by {
                    lemma_extends_generic(old_db, new_db, generics->Some_0@[k].term);
                }
            }
        },
        ExprResultKind::Other(res) => {
            assert forall|k: int| 0 <= k < res.generics@.len() implies #[trigger] new_db.is_generic(
                res.generics@[k],
            ) by {
                lemma_extends_generic(old_db, new_db, res.generics@[k]);
            }
        },
        _ => {},
    }
}

/// A reported error as the result of checking an expression.
fn error_result(db: &mut Db, env: &mut Env, kind: DiagnosticKind, span: Span) -> (r: ExprResult)
    requires
        old(db).wf(),
    ensures
        crate::env::grows(old(env)@, final(env)@),
        final(db).wf(),
        final(db).extends(*old(db)),
        result_types_ok(*final(db), &r),
        r.kind is PlaceExpr,
        crate::expr_result::reported_only(old(env)@, final(env)@, plain(kind, span)),
{
    let reported = env.report(plain_diagnostic(kind, span));
    ExprResult::err(db, reported, span)
}

/// Look up a member of the value `owner` by its type: a method of its class
/// is a method waiting for its call.
fn lookup_member(db: &mut Db, env: &mut Env, scope: &Scope, owner: ExprResult, id: Word, id_span: Span) -> (r:
    ExprResult)
    requires
        old(db).wf(),
        scope.ok(*old(db)),
        result_ok(*old(db), scope, &owner),
        owner.kind is PlaceExpr || owner.kind is Expr,
    ensures
        crate::env::grows(old(env)@, final(env)@),
        final(db).wf(),
        final(db).extends(*old(db)),
        result_ok(*final(db), scope, &r),
{
    let ty = match &owner.kind {
        ExprResultKind::PlaceExpr(p) => p.ty,
        ExprResultKind::Expr(e) => e.ty,
        _ => vstd::pervasive::unreached(),
    };
    let span = owner.span;
    if let RedTy::Named(SymTyName::Aggregate(a), _) = to_red_ty(db, ty) {
        if let Some((NameResolutionSym::Function(f), _)) = scope.resolve_member(db, a.id, id) {
            let mut temporaries: Vec<Temporary> = Vec::new();
            let self_expr = owner.into_expr(db, env, &mut temporaries);
            return ExprResult {
                temporaries,
                span,
                kind: ExprResultKind::Method { self_expr, id_span, function: f, generics: None },
            };
        }
    }
    error_result(db, env, DiagnosticKind::NoSuchMember, id_span)
}

/// Validate explicit generic arguments: each must be a term of the store.
fn validate_generics(db: &Db, args: &Vec<AstGenericTerm>) -> (r: Result<Vec<AstGenericTerm>, Span>)
    ensures
        r is Ok ==> r->Ok_0@ == args@ && forall|k: int|
            0 <= k < args@.len() ==> #[trigger] db.is_generic(args@[k].term),
        r is Err ==> exists|k: int| 0 <= k < args@.len() && !db.is_generic(#[trigger] args@[k].term),
{
    let mut out: Vec<AstGenericTerm> = Vec::new();
    let mut k: usize = 0;
    while k < args.len()
        invariant
            0 <= k <= args@.len(),
            out@ == args@.take(k as int),
            forall|j: int| 0 <= j < k ==> #[trigger] db.is_generic(args@[j].term),
        decreases args@.len() - k,
    {
        if !db.valid_generic(args[k].term) {
            proof {
                assert(!db.is_generic(args@[k as int].term));
            }
            return Err(args[k].span);
        }
        out.push(args[k]);
        k += 1;
        proof {
            assert(out@ =~= args@.take(k as int));
        }
    }
    proof {
        assert(args@.take(args@.len() as int) =~= args@);
    }
    Ok(out)
}

/// Check each element of a tuple, left to right, as a value; their
/// temporaries are added to `temporaries`.
fn check_elements(
    db: &mut Db,
    env: &mut Env,
    scope: &Scope,
    elements: &Vec<AstExpr>,
    temporaries: &mut Vec<Temporary>,
) -> (r: Vec<SymExpr>)
    requires
        old(db).wf(),
        scope.ok(*old(db)),
    ensures
        crate::env::grows(old(env)@, final(env)@),
        final(db).wf(),
        final(db).extends(*old(db)),
        r@.len() == elements@.len(),
        forall|j: int| 0 <= j < r@.len() ==> #[trigger] final(db).is_ty(r@[j].ty),
    decreases elements, 0int,
{
    let ghost d0 = *db;
    let mut exprs: Vec<SymExpr> = Vec::new();
    let mut k: usize = 0;
    while k < elements.len()
        invariant
            crate::env::grows(old(env)@, env@),
            db.wf(),
            db.extends(d0),
            d0 == *old(db),
            scope.ok(d0),
            0 <= k <= elements@.len(),
            exprs@.len() == k,
            forall|j: int| 0 <= j < exprs@.len() ==> #[trigger] db.is_ty(exprs@[j].ty),
        decreases elements@.len() - k,
    {
        proof {
            lemma_scope_extends(*scope, d0, *db);
            assert(decreases_to!(*elements => elements@));
            assert(decreases_to!(elements@ => elements@[k as int]));
        }
        let ghost before = *db;
        let element = check_expr(db, env, scope, &elements[k]);
        let ghost mid = *db;
        let e = element.into_expr(db, env, temporaries);
        let ghost prev = exprs@;
        let ghost ety = e.ty;
        proof {
            lemma_extends_trans(before, mid, *db);
            assert forall|j: int| 0 <= j < prev.len() implies #[trigger] db.is_ty(prev[j].ty) by {
                lemma_extends_is_ty(before, *db, prev[j].ty);
            }
        }
        exprs.push(e);
        proof {
            assert forall|j: int| 0 <= j < exprs@.len() implies #[trigger] db.is_ty(exprs@[j].ty) by {
                if j < prev.len() {
                    assert(exprs@[j] == prev[j]);
                } else {
                    assert(exprs@[j].ty == ety);
                }
            }
        }
        k += 1;
    }
    exprs
}

/// Check an expression of the unchecked tree.
#[verifier::spinoff_prover]
#[verifier::rlimit(100)]
pub fn check_expr(db: &mut Db, env: &mut Env, scope: &Scope, expr: &AstExpr) -> (r: ExprResult)
    requires
        old(db).wf(),
        scope.ok(*old(db)),
    ensures
        crate::env::grows(old(env)@, final(env)@),
        final(db).wf(),
        final(db).extends(*old(db)),
        result_ok(*final(db), scope, &r),
        *expr.kind is BinaryOp && is_operator((*expr.kind)->BinaryOp_0) ==> r.kind is Expr
            && operator_checked(
            *final(db),
            final(env)@,
            (*expr.kind)->BinaryOp_0,
            (*expr.kind)->BinaryOp_1,
            (*expr.kind)->BinaryOp_2,
            (*expr.kind)->BinaryOp_3,
            r.kind->Expr_0,
        ) && (*(*expr.kind)->BinaryOp_2.kind is Integer ==> final(db).ty_kind(
            (*r.kind->Expr_0.kind)->BinaryOp_1.ty,
        ) == SymTyKind::Infer(InferVarIndex { index: old(env)@.infer_vars.len() as usize }))
            && (*(*expr.kind)->BinaryOp_2.kind is Integer && *(*expr.kind)->BinaryOp_3.kind is Integer
            ==> final(db).ty_kind((*r.kind->Expr_0.kind)->BinaryOp_2.ty) == SymTyKind::Infer(
            InferVarIndex { index: (old(env)@.infer_vars.len() + 1) as usize },
        )) && (is_literal((*expr.kind)->BinaryOp_2) && is_literal((*expr.kind)->BinaryOp_3)
            ==> r.temporaries@.len() == 0),
        *expr.kind is BinaryOp && (*expr.kind)->BinaryOp_0 == AstBinaryOp::AndAnd ==> r.kind is Expr
            && is_and_and_shape(r.kind->Expr_0) && operand_of(
            (*expr.kind)->BinaryOp_2,
            if_condition(r.kind->Expr_0),
        ) && operand_of((*expr.kind)->BinaryOp_3, if_condition(if_then(r.kind->Expr_0)))
            && name_value_of(scope, *old(db), (*expr.kind)->BinaryOp_2, if_condition(r.kind->Expr_0))
            && name_value_of(
            scope,
            *old(db),
            (*expr.kind)->BinaryOp_3,
            if_condition(if_then(r.kind->Expr_0)),
        ) && and_and_spans(r.kind->Expr_0, expr.span) && both_boolean_required(
            *final(db),
            final(env)@,
            if_condition(r.kind->Expr_0),
            if_condition(if_then(r.kind->Expr_0)),
        ),
        *expr.kind is BinaryOp && (*expr.kind)->BinaryOp_0 == AstBinaryOp::OrOr ==> r.kind is Expr
            && is_or_or_shape(r.kind->Expr_0) && operand_of(
            (*expr.kind)->BinaryOp_2,
            if_condition(r.kind->Expr_0),
        ) && operand_of((*expr.kind)->BinaryOp_3, if_condition(if_else(r.kind->Expr_0)))
            && name_value_of(scope, *old(db), (*expr.kind)->BinaryOp_2, if_condition(r.kind->Expr_0))
            && name_value_of(
            scope,
            *old(db),
            (*expr.kind)->BinaryOp_3,
            if_condition(if_else(r.kind->Expr_0)),
        ) && or_or_spans(r.kind->Expr_0, expr.span) && both_boolean_required(
            *final(db),
            final(env)@,
            if_condition(r.kind->Expr_0),
            if_condition(if_else(r.kind->Expr_0)),
        ),
        *expr.kind is BinaryOp && (*expr.kind)->BinaryOp_0 == AstBinaryOp::Assign ==> r.kind is Expr
            && *r.kind->Expr_0.kind is Assign && is_unit(*final(db), r.kind->Expr_0.ty)
            && final(env)@.obligations.len() > 0 && final(env)@.obligations.last() == (
            Obligation::Assignable {
                value: (*r.kind->Expr_0.kind)->Assign_value.ty,
                target: (*r.kind->Expr_0.kind)->Assign_place.ty,
                or_else: OrElse { kind: DiagnosticKind::InvalidAssignmentType, span: expr.span },
            }),
        *expr.kind is Integer ==> r.kind is Expr && r.temporaries@.len() == 0
            && final(db).ty_kind(r.kind->Expr_0.ty) == SymTyKind::Infer(
            InferVarIndex { index: old(env)@.infer_vars.len() as usize },
        ) && *r.kind->Expr_0.kind == SymExprKind::Primitive(
            (SymLiteral::Integral { bits: (*expr.kind)->Integer_0 }),
        ) && final(env)@.infer_vars.len() == old(env)@.infer_vars.len() + 1
            && final(env)@.obligations == old(env)@.obligations.push(
            Obligation::Numeric {
                ty: r.kind->Expr_0.ty,
                or_else: OrElse { kind: DiagnosticKind::NumericTypeExpected, span: expr.span },
            },
        ),
        *expr.kind is ParenthesisOp && (*expr.kind)->ParenthesisOp_1@.len() < usize::MAX
            && *(*expr.kind)->ParenthesisOp_0.kind is Id && first_name(
            scope.names@,
            (*(*expr.kind)->ParenthesisOp_0.kind)->Id_0,
        ) is Some ==> ({
            let callee = (*expr.kind)->ParenthesisOp_0;
            let sym = first_name(scope.names@, (*callee.kind)->Id_0)->Some_0.0;
            let n = (*expr.kind)->ParenthesisOp_1@.len();
            &&& sym is Function ==> named_call_checked(
                *old(db),
                *final(db),
                final(env)@,
                scope,
                sym->Function_0,
                Seq::empty(),
                n as int,
                callee.span,
                &r,
            )
            &&& sym is Aggregate ==> no_new_reported(
                *final(db),
                old(env)@,
                final(env)@,
                scope,
                sym->Aggregate_0,
                callee.span,
                &r,
            )
        }),
        *expr.kind is Id && name_place_variable(scope, *old(db), (*expr.kind)->Id_0) is Some ==> r.kind is PlaceExpr
            && *r.kind->PlaceExpr_0.kind == SymPlaceExprKind::Var(
            name_place_variable(scope, *old(db), (*expr.kind)->Id_0)->Some_0,
        ),
        *expr.kind is Id ==> r.span == expr.span && (r.kind is PlaceExpr || r.kind is Other) && (first_name(
            scope.names@,
            (*expr.kind)->Id_0,
        ) is Some && !(first_name(scope.names@, (*expr.kind)->Id_0)->Some_0.0 is Variable)
            ==> final(env)@ == old(env)@ && *final(db) == *old(db)) && (r.kind is PlaceExpr ==> r.kind->PlaceExpr_0.span
            == expr.span) && (first_name(scope.names@, (*expr.kind)->Id_0) is Some && !(first_name(
            scope.names@,
            (*expr.kind)->Id_0,
        )->Some_0.0 is Variable) ==> r.kind is Other && r.kind->Other_0.sym == first_name(
            scope.names@,
            (*expr.kind)->Id_0,
        )->Some_0.0 && r.kind->Other_0.generics@.len() == 0),
        *expr.kind is Return && old(env)@.return_ty is None ==> r.kind is PlaceExpr
            && final(env)@.diagnostics.len() > 0 && final(env)@.diagnostics.last() == plain(
            DiagnosticKind::UnexpectedReturn,
            expr.span,
        ),
        *expr.kind is Return && old(env)@.return_ty is Some ==> r.kind is Expr
            && *r.kind->Expr_0.kind is Return && is_never(*final(db), r.kind->Expr_0.ty)
            && final(env)@.obligations.len() > 0 && final(env)@.obligations.last() is Assignable
            && final(env)@.obligations.last() == (Obligation::Assignable {
                value: (*r.kind->Expr_0.kind)->Return_0.ty,
                target: old(env)@.return_ty->Some_0,
                or_else: OrElse { kind: DiagnosticKind::InvalidReturnValue, span: expr.span },
            }) && ((*expr.kind)->Return_0 is Some ==> operand_of(
                (*expr.kind)->Return_0->Some_0,
                (*r.kind->Expr_0.kind)->Return_0,
            )) && ((*expr.kind)->Return_0 is None ==> *(*r.kind->Expr_0.kind)->Return_0.kind is Tuple
                && (*(*r.kind->Expr_0.kind)->Return_0.kind)->Tuple_0@.len() == 0 && is_unit(
                *final(db),
                (*r.kind->Expr_0.kind)->Return_0.ty,
            )),
        *expr.kind is Await ==> r.kind is Expr && *r.kind->Expr_0.kind is Await
            && (*r.kind->Expr_0.kind)->Await_await_keyword == (*expr.kind)->Await_1
            && final(db).ty_kind(r.kind->Expr_0.ty) == SymTyKind::Infer(
            InferVarIndex { index: (final(env)@.infer_vars.len() - 1) as usize },
        ) && old(env)@.infer_vars.len() < final(env)@.infer_vars.len() && operand_of(
            (*expr.kind)->Await_0,
            (*r.kind->Expr_0.kind)->Await_future,
        ) && final(env)@.obligations.len() > 0
            && final(env)@.obligations.last() == (Obligation::FutureType {
                ty: (*r.kind->Expr_0.kind)->Await_future.ty,
                awaited: r.kind->Expr_0.ty,
                or_else: OrElse { kind: DiagnosticKind::AwaitNonFuture, span: (*expr.kind)->Await_1 },
            }),
        *expr.kind is PermissionOp ==> r.kind is Expr && *r.kind->Expr_0.kind is PermissionOp
            && (*r.kind->Expr_0.kind)->PermissionOp_0 == (*expr.kind)->PermissionOp_0 && ({
                let place_ty = (*r.kind->Expr_0.kind)->PermissionOp_1.ty;
                let ty = r.kind->Expr_0.ty;
                &&& (*expr.kind)->PermissionOp_0 == PermissionOp::Give ==> ty == place_ty
                &&& (*expr.kind)->PermissionOp_0 == PermissionOp::Reference ==> final(db).ty_kind(ty) is Perm
                    && final(db).ty_kind(ty)->Perm_1 == place_ty && final(db).perm_kind(
                    final(db).ty_kind(ty)->Perm_0,
                ) is Shared
                &&& (*expr.kind)->PermissionOp_0 == PermissionOp::Mutate ==> final(db).ty_kind(ty) is Perm
                    && final(db).ty_kind(ty)->Perm_1 == place_ty && final(db).perm_kind(
                    final(db).ty_kind(ty)->Perm_0,
                ) is Leased
                &&& (*expr.kind)->PermissionOp_0 == PermissionOp::Reference ==> exists|p: SymPlace|
                    place_of(*final(db), p, (*r.kind->Expr_0.kind)->PermissionOp_1) && final(db).perm_kind(
                        final(db).ty_kind(ty)->Perm_0,
                    )->Shared_0@ == seq![p]
                &&& (*expr.kind)->PermissionOp_0 == PermissionOp::Mutate ==> exists|p: SymPlace|
                    place_of(*final(db), p, (*r.kind->Expr_0.kind)->PermissionOp_1) && final(db).perm_kind(
                        final(db).ty_kind(ty)->Perm_0,
                    )->Leased_0@ == seq![p]
            }),
        *expr.kind is Boolean ==> r.kind is Expr && r.temporaries@.len() == 0 && is_boolean(
            *final(db),
            r.kind->Expr_0.ty,
        )
            && is_bool_literal(r.kind->Expr_0, (*expr.kind)->Boolean_0),
        *expr.kind is Tuple ==> r.kind is Expr && final(db).ty_kind(r.kind->Expr_0.ty) is Named
            && final(db).ty_kind(r.kind->Expr_0.ty)->Named_0 == (SymTyName::Tuple {
            arity: (*expr.kind)->Tuple_0@.len() as usize,
        }) && *r.kind->Expr_0.kind is Tuple && final(db).ty_kind(r.kind->Expr_0.ty)->Named_1@
            == (*r.kind->Expr_0.kind)->Tuple_0@.map_values(|e: SymExpr| SymGenericTerm::Type(e.ty)),
        *expr.kind is SquareBracketOp && (*(*expr.kind)->SquareBracketOp_0.kind is Integer
            || *(*expr.kind)->SquareBracketOp_0.kind is Boolean) ==> r.kind is PlaceExpr
            && final(env)@.diagnostics.len() > 0 && final(env)@.diagnostics.last() == plain(
            DiagnosticKind::NotImplemented,
            expr.span,
        ),
        *expr.kind is SquareBracketOp ==> !(r.kind is Expr) && (r.kind is Method
            ==> r.kind->Method_generics is Some && r.kind->Method_generics->Some_0@
            == (*expr.kind)->SquareBracketOp_1@) && (r.kind is Other ==> ends_with_terms(
            r.kind->Other_0.generics@,
            generic_terms((*expr.kind)->SquareBracketOp_1@),
        )) && (r.kind is PlaceExpr ==> final(env)@.diagnostics.len() > 0 && (
        final(env)@.diagnostics.last().kind == DiagnosticKind::MissingCallToMethod
            || final(env)@.diagnostics.last().kind == DiagnosticKind::NotImplemented
            || final(env)@.diagnostics.last().kind == DiagnosticKind::UnresolvedName)),
        *expr.kind is SquareBracketOp && *(*expr.kind)->SquareBracketOp_0.kind is Id && first_name(
            scope.names@,
            (*(*expr.kind)->SquareBracketOp_0.kind)->Id_0,
        ) is Some && !(first_name(
            scope.names@,
            (*(*expr.kind)->SquareBracketOp_0.kind)->Id_0,
        )->Some_0.0 is Variable) ==> ((forall|k: int|
            0 <= k < (*expr.kind)->SquareBracketOp_1@.len() ==> old(db).is_generic(
                #[trigger] (*expr.kind)->SquareBracketOp_1@[k].term,
            )) ==> r.kind is Other && r.kind->Other_0.sym == first_name(
            scope.names@,
            (*(*expr.kind)->SquareBracketOp_0.kind)->Id_0,
        )->Some_0.0 && r.kind->Other_0.generics@ == generic_terms((*expr.kind)->SquareBracketOp_1@))
            && (!(forall|k: int|
            0 <= k < (*expr.kind)->SquareBracketOp_1@.len() ==> old(db).is_generic(
                #[trigger] (*expr.kind)->SquareBracketOp_1@[k].term,
            )) ==> r.kind is PlaceExpr && final(env)@.diagnostics.last().kind
            == DiagnosticKind::UnresolvedName),
        *expr.kind is Negate ==> r.kind is PlaceExpr && final(env)@.diagnostics.last() == plain(
            DiagnosticKind::NotImplemented,
            expr.span,
        ),
        *expr.kind is If ==> r.kind is Expr && *r.kind->Expr_0.kind is Match && r.temporaries@.len() == 0
            && if_arms_checked(
            *final(db),
            final(env)@,
            (*expr.kind)->If_0@,
            (*r.kind->Expr_0.kind)->Match_arms@,
            r.kind->Expr_0.ty,
        )
            && (*r.kind->Expr_0.kind)->Match_arms@.len() == (*expr.kind)->If_0@.len() && ((forall|j: int|
            0 <= j < (*expr.kind)->If_0@.len() ==> (#[trigger] (*expr.kind)->If_0@[j]).condition is Some)
            ==> is_unit(*final(db), r.kind->Expr_0.ty)) && (!(forall|j: int|
            0 <= j < (*expr.kind)->If_0@.len() ==> (#[trigger] (*expr.kind)->If_0@[j]).condition is Some)
            ==> final(db).ty_kind(r.kind->Expr_0.ty) is Infer),
        *expr.kind is Not ==> r.kind is Expr && is_boolean(*final(db), r.kind->Expr_0.ty),
    decreases expr, 0int,
{
    let span = expr.span;
    let ghost d0 = *db;
    match &*expr.kind {
        AstExprKind::Integer(bits) => integer_literal(db, env, span, *bits),
        AstExprKind::Boolean(value) => ExprResult::from_expr(boolean_literal(db, span, *value), Vec::new()),
        AstExprKind::String(bytes) => string_literal(db, env, scope.well_known, span, bytes),
        AstExprKind::Tuple(elements) => {
            let mut temporaries: Vec<Temporary> = Vec::new();
            let exprs = check_elements(db, env, scope, elements, &mut temporaries);
            tuple(db, span, exprs, temporaries)
        },
        AstExprKind::BinaryOp(op, op_span, lhs, rhs) => {
            let op = *op;
            let op_span = *op_span;
            let mut temporaries: Vec<Temporary> = Vec::new();
            if let AstBinaryOp::Assign = op {
                let place_result = check_expr(db, env, scope, lhs);
                let place = place_result.into_place_expr(db, env, &mut temporaries);
                proof {
                    lemma_scope_extends(*scope, d0, *db);
                }
                let value_result = check_expr(db, env, scope, rhs);
                let value = value_result.into_expr(db, env, &mut temporaries);
                return assign(db, env, span, place, value, temporaries);
            }
            let lhs_result = check_expr(db, env, scope, lhs);
            let l = lhs_result.into_expr(db, env, &mut temporaries);
            proof {
                lemma_scope_extends(*scope, d0, *db);
            }
            let ghost d1 = *db;
            let rhs_result = check_expr(db, env, scope, rhs);
            let r = rhs_result.into_expr(db, env, &mut temporaries);
            proof {
                assert(d1.is_ty(l.ty));
            }
            match op {
                AstBinaryOp::AndAnd | AstBinaryOp::OrOr => {
                    let _ = require_expr_has_bool_ty(db, env, l.ty, l.span);
                    let _ = require_expr_has_bool_ty(db, env, r.ty, r.span);
                    let e = if let AstBinaryOp::AndAnd = op {
                        and_and(db, span, l, r)
                    } else {
                        or_or(db, span, l, r)
                    };
                    ExprResult::from_expr(e, temporaries)
                },
                _ => {
                    let sym_op = match op {
                        AstBinaryOp::Add => SymBinaryOp::Add,
                        AstBinaryOp::Sub => SymBinaryOp::Sub,
                        AstBinaryOp::Mul => SymBinaryOp::Mul,
                        AstBinaryOp::Div => SymBinaryOp::Div,
                        AstBinaryOp::GreaterThan => SymBinaryOp::GreaterThan,
                        AstBinaryOp::LessThan => SymBinaryOp::LessThan,
                        AstBinaryOp::GreaterEqual => SymBinaryOp::GreaterEqual,
                        AstBinaryOp::LessEqual => SymBinaryOp::LessEqual,
                        _ => SymBinaryOp::EqualEqual,
                    };
                    let ghost s1 = env@;
                    let ghost (l_ty, r_ty) = (l.ty, r.ty);
                    let result = binary_op(db, env, span, sym_op, op_span, l, r, temporaries);
                    proof {
                        let ops = operator_obligations(l_ty, r_ty, op_span);
                        assert(env@.obligations.subrange(
                            env@.obligations.len() - ops.len(),
                            env@.obligations.len() as int,
                        ) =~= ops);
                    }
                    result
                },
            }
        },
        AstExprKind::Id(id, id_span) => match scope.resolve_name(db, env, *id, *id_span) {
            Err(reported) => ExprResult::err(db, reported, span),
            Ok(res) => {
                proof {
                    lemma_extends_refl(*db);
                }
                ExprResult::from_name_resolution(db, env, scope, res, span)
            },
        },
        AstExprKind::DotId(owner, id, id_span) => {
            let owner_result = check_expr(db, env, scope, owner);
            proof {
                lemma_scope_extends(*scope, d0, *db);
            }
            match owner_result.kind {
                ExprResultKind::PlaceExpr(_) | ExprResultKind::Expr(_) => lookup_member(
                    db,
                    env,
                    scope,
                    owner_result,
                    *id,
                    *id_span,
                ),
                ExprResultKind::Method { self_expr, .. } => error_result(
                    db,
                    env,
                    DiagnosticKind::MissingCallToMethod,
                    self_expr.span,
                ),
                ExprResultKind::Other(res) => {
                    let member = match res.sym {
                        NameResolutionSym::Aggregate(a) => scope.resolve_member(db, a.id, *id),
                        _ => None,
                    };
                    match member {
                        Some((sym, decl_span)) => {
                            let found = NameResolution { sym, span: decl_span, generics: res.generics };
                            ExprResult::from_name_resolution(db, env, scope, found, span)
                        },
                        None => error_result(db, env, DiagnosticKind::NoSuchMember, *id_span),
                    }
                },
            }
        },
        AstExprKind::SquareBracketOp(owner, args) => {
            let owner_result = check_expr(db, env, scope, owner);
            let ExprResult { temporaries, span: owner_span, kind } = owner_result;
            match kind {
                ExprResultKind::Method { self_expr, id_span, function, generics: None } => {
                    match validate_generics(db, args) {
                        Ok(generics) => ExprResult {
                            temporaries,
                            span: owner_span,
                            kind: ExprResultKind::Method {
                                self_expr,
                                id_span,
                                function,
                                generics: Some(generics),
                            },
                        },
                        Err(bad) => error_result(db, env, DiagnosticKind::UnresolvedName, bad),
                    }
                },
                ExprResultKind::Method { self_expr, .. } => error_result(
                    db,
                    env,
                    DiagnosticKind::MissingCallToMethod,
                    self_expr.span,
                ),
                ExprResultKind::PlaceExpr(_) | ExprResultKind::Expr(_) => error_result(
                    db,
                    env,
                    DiagnosticKind::NotImplemented,
                    span,
                ),
                ExprResultKind::Other(res) => {
                    match validate_generics(db, args) {
                        Ok(extra) => {
                            let NameResolution { sym, span: decl_span, generics: mut terms } = res;
                            let ghost res_generics = terms@;
                            proof {
                                assert(generic_terms(extra@.take(0)) =~= Seq::<SymGenericTerm>::empty());
                                assert(terms@ =~= res_generics + generic_terms(extra@.take(0)));
                            }
                            let ghost n0 = terms@.len();
                            let mut k: usize = 0;
                            while k < extra.len()
                                invariant
                                    crate::env::grows(old(env)@, env@),
                                    0 <= k <= extra@.len(),
                                    forall|j: int| 0 <= j < terms@.len() ==> #[trigger] db.is_generic(terms@[j]),
                                    forall|j: int| 0 <= j < extra@.len() ==> #[trigger] db.is_generic(extra@[j].term),
                                    terms@ == res_generics + generic_terms(extra@.take(k as int)),
                                decreases extra@.len() - k,
                            {
                                terms.push(extra[k].term);
                                k += 1;
                                proof {
                                    assert(generic_terms(extra@.take(k as int)) =~= generic_terms(
                                        extra@.take(k - 1),
                                    ).push(extra@[k - 1].term));
                                    assert(terms@ =~= res_generics + generic_terms(extra@.take(k as int)));
                                }
                            }
                            proof {
                                assert(extra@.take(extra@.len() as int) =~= extra@);
                                let gt = generic_terms(extra@);
                                assert(terms@.subrange(terms@.len() - gt.len(), terms@.len() as int) =~= gt);
                                if res_generics.len() == 0 {
                                    assert(terms@ =~= gt);
                                }
                            }
                            ExprResult {
                                temporaries,
                                span,
                                kind: ExprResultKind::Other(
                                    NameResolution { sym, span: decl_span, generics: terms },
                                ),
                            }
                        },
                        Err(bad) => error_result(db, env, DiagnosticKind::UnresolvedName, bad),
                    }
                },
            }
        },
        AstExprKind::ParenthesisOp(owner, args) => {
            let owner_result = check_expr(db, env, scope, owner);
            proof {
                lemma_scope_extends(*scope, d0, *db);
            }
            if args.len() == usize::MAX {
                return error_result(db, env, DiagnosticKind::NotImplemented, span);
            }
            let ExprResult { temporaries, span: owner_span, kind } = owner_result;
            match kind {
                ExprResultKind::Method { self_expr, id_span, function, generics } => check_method_call(
                    db,
                    env,
                    scope,
                    id_span,
                    span,
                    function,
                    self_expr,
                    args,
                    generics,
                    temporaries,
                ),
                ExprResultKind::Other(res) => match res.sym {
                    NameResolutionSym::Function(f) => {
                        let ghost d1 = *db;
                        let ghost g = res.generics@;
                        let result = check_function_call(
                            db,
                            env,
                            scope,
                            owner_span,
                            span,
                            f,
                            args,
                            res.generics,
                            temporaries,
                        );
                        proof {
                            let sig = scope.functions@[f.id as int];
                            if sig.error is None && g.len() <= sig.outer_vars@.len() + sig.own_vars@.len()
                                && args@.len() == sig.inputs@.len() {
                                let subst = choose|subst: Seq<SymGenericTerm>|
                                    {
                                        &&& subst.len() == sig.outer_vars@.len() + sig.own_vars@.len()
                                        &&& subst.take(g.len() as int) == g
                                        &&& inferred_from(d1, *db, subst, g.len() as int, generic_vars(sig))
                                        &&& checked_call(
                                            d1,
                                            *db,
                                            env@,
                                            result.kind->Expr_0,
                                            f,
                                            subst,
                                            args@.len() as nat,
                                            sig,
                                            owner_span,
                                            None,
                                        )
                                    };
                                lemma_checked_call_earlier(
                                    d0,
                                    d1,
                                    *db,
                                    env@,
                                    result.kind->Expr_0,
                                    f,
                                    subst,
                                    args@.len() as nat,
                                    sig,
                                    owner_span,
                                    None,
                                );
                                if g.len() == 0 {
                                    assert(g =~= Seq::<SymGenericTerm>::empty());
                                    assert(subst.take(0) == Seq::<SymGenericTerm>::empty());
                                }
                            }
                        }
                        result
                    },
                    NameResolutionSym::Aggregate(_) => check_class_call(
                        db,
                        env,
                        scope,
                        owner_span,
                        span,
                        res,
                        args,
                        temporaries,
                    ),
                    _ => error_result(db, env, DiagnosticKind::NotCallable, owner_span),
                },
                _ => error_result(db, env, DiagnosticKind::NotCallable, owner_span),
            }
        },
        AstExprKind::Return(value) => {
            let mut temporaries: Vec<Temporary> = Vec::new();
            let value = match value {
                Some(e) => {
                    let result = check_expr(db, env, scope, e);
                    Some(result.into_expr(db, env, &mut temporaries))
                },
                None => None,
            };
            return_expr(db, env, span, value, temporaries)
        },
        AstExprKind::Await(future, await_span) => {
            let mut temporaries: Vec<Temporary> = Vec::new();
            let result = check_expr(db, env, scope, future);
            let future_expr = result.into_expr(db, env, &mut temporaries);
            await_expr(db, env, span, *await_span, future_expr, temporaries)
        },
        AstExprKind::Not(operand, op_span) => {
            let mut temporaries: Vec<Temporary> = Vec::new();
            let result = check_expr(db, env, scope, operand);
            let operand_expr = result.into_expr(db, env, &mut temporaries);
            not_op(db, env, span, *op_span, operand_expr, temporaries)
        },
        AstExprKind::Negate(_, _) => error_result(db, env, DiagnosticKind::NotImplemented, span),
        AstExprKind::If(ast_arms) => {
            let mut arms: Vec<SymMatchArm> = Vec::new();
            let mut has_else = false;
            let mut k: usize = 0;
            while k < ast_arms.len()
                invariant
                    crate::env::grows(old(env)@, env@),
                    db.wf(),
                    db.extends(d0),
                    scope.ok(d0),
                    0 <= k <= ast_arms@.len(),
                    *expr.kind is If,
                    (*expr.kind)->If_0 == *ast_arms,
                    arms@.len() == k,
                    has_else == (exists|j: int| 0 <= j < k && (#[trigger] ast_arms@[j]).condition is None),
                    forall|j: int|
                        0 <= j < k ==> ((#[trigger] arms@[j]).condition is Some) == (ast_arms@[j].condition is Some)
                            && (arms@[j].condition is Some ==> boolean_required(
                            *db,
                            env@,
                            arms@[j].condition->Some_0,
                        )),
                decreases ast_arms@.len() - k,
            {
                proof {
                    lemma_scope_extends(*scope, d0, *db);
                }
                proof {
                    assert(decreases_to!(*expr => expr.kind));
                    assert(decreases_to!(*expr.kind => (*expr.kind)->If_0));
                    assert(decreases_to!(*ast_arms => ast_arms@));
                    assert(decreases_to!(ast_arms@ => ast_arms@[k as int]));
                    assert(decreases_to!(ast_arms@[k as int] => ast_arms@[k as int].result));
                    assert(decreases_to!(ast_arms@[k as int] => ast_arms@[k as int].condition));
                    assert(ast_arms@[k as int].condition is Some ==> decreases_to!(
                        ast_arms@[k as int].condition => ast_arms@[k as int].condition->Some_0));
                    assert(decreases_to!(*expr => ast_arms@[k as int].result));
                    assert(ast_arms@[k as int].condition is Some ==> decreases_to!(
                        *expr => ast_arms@[k as int].condition->Some_0));
                }
                let arm = &ast_arms[k];
                let ghost d_start = *db;
                let ghost s_start = env@;
                let condition = match &arm.condition {
                    Some(c) => {
                        let result = check_expr(db, env, scope, c);
                        let cond = result.into_expr_with_enclosed_temporaries(db, env);
                        let ghost s_b = env@;
                        let _ = require_expr_has_bool_ty(db, env, cond.ty, cond.span);
                        proof {
                            let o = env@.obligations[env@.obligations.len() - 1];
                            assert(env@.obligations =~= s_b.obligations + seq![o]);
                            assert(has_obligation(env@, o));
                            assert(requires_boolean(*db, o, cond));
                        }
                        Some(cond)
                    },
                    None => {
                        has_else = true;
                        None
                    },
                };
                proof {
                    lemma_scope_extends(*scope, d0, *db);
                }
                let ghost d_c = *db;
                let ghost s_c = env@;
                let body_result = check_expr(db, env, scope, &arm.result);
                let body = body_result.into_expr_with_enclosed_temporaries(db, env);
                let ghost prev_arms = arms@;
                let ghost cond_value = condition;
                arms.push(SymMatchArm { condition, body });
                proof {
                    assert forall|j: int| 0 <= j < k + 1 implies ((#[trigger] arms@[j]).condition is Some)
                        == (ast_arms@[j].condition is Some) && (arms@[j].condition is Some
                        ==> boolean_required(*db, env@, arms@[j].condition->Some_0)) by {
                        if j < k {
                            assert(arms@[j] == prev_arms[j]);
                            if arms@[j].condition is Some {
                                lemma_boolean_required_grows(d_start, *db, s_start, env@, arms@[j].condition->Some_0);
                            }
                        } else {
                            assert(arms@[j].condition == cond_value);
                            if cond_value is Some {
                                lemma_boolean_required_grows(d_c, *db, s_c, env@, cond_value->Some_0);
                            }
                        }
                    }
                    if ast_arms@[k as int].condition is None {
                        assert(has_else);
                        assert(exists|j: int| 0 <= j < k + 1 && (#[trigger] ast_arms@[j]).condition is None);
                    } else {
                        assert((exists|j: int| 0 <= j < k + 1 && (#[trigger] ast_arms@[j]).condition is None)
                            == (exists|j: int| 0 <= j < k && (#[trigger] ast_arms@[j]).condition is None));
                    }
                }
                k += 1;
            }
            let ghost d_arms = *db;
            let ghost s_arms = env@;
            let ghost arms_value = arms@;
            let result = if_arms(db, env, span, arms, has_else);
            proof {
                let ty = result.kind->Expr_0.ty;
                assert forall|j: int| 0 <= j < arms_value.len() implies {
                    &&& ((#[trigger] arms_value[j]).condition is Some) == (ast_arms@[j].condition is Some)
                    &&& arms_value[j].condition is Some ==> boolean_required(*db, env@, arms_value[j].condition->Some_0)
                    &&& has_obligation(
                        env@,
                        Obligation::Assignable {
                            value: arms_value[j].body.ty,
                            target: ty,
                            or_else: OrElse { kind: DiagnosticKind::BadSubtype, span: arms_value[j].body.span },
                        },
                    )
                } by {
                    if arms_value[j].condition is Some {
                        lemma_boolean_required_grows(d_arms, *db, s_arms, env@, arms_value[j].condition->Some_0);
                    }
                    assert(env@.obligations[s_arms.obligations.len() + j] == Obligation::Assignable {
                        value: arms_value[j].body.ty,
                        target: ty,
                        or_else: OrElse { kind: DiagnosticKind::BadSubtype, span: arms_value[j].body.span },
                    });
                }
            }
            result
        },
        AstExprKind::PermissionOp(op, value) => {
            let mut temporaries: Vec<Temporary> = Vec::new();
            let result = check_expr(db, env, scope, value);
            let place_expr = result.into_place_expr(db, env, &mut temporaries);
            permission_op(db, span, *op, place_expr, temporaries)
        },
    }
}

} // verus!
