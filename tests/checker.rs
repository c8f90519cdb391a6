use dada_ir_sym::alternatives::{Alternative, AlternativeTree, Progress};
use dada_ir_sym::ast::{AstBinaryOp, AstExpr, AstExprKind, AstGenericTerm, AstIfArm, PermissionOp};
use dada_ir_sym::check::check_expr;
use dada_ir_sym::class::{Class, SymAggregateStyle};
use dada_ir_sym::db::{Db, Term};
use dada_ir_sym::diagnostic::{Because, DiagnosticKind, OrElse, Reported};
use dada_ir_sym::env::{Env, Obligation};
use dada_ir_sym::expr_result::{ExprResult, ExprResultKind};
use dada_ir_sym::obligations::{ObligationOutcome, run_obligation};
use dada_ir_sym::scope::{FunctionSignature, NameResolutionSym, Scope, WellKnown};
use dada_ir_sym::span::Span;
use dada_ir_sym::sym_expr::{
    SymBinaryOp, SymExpr, SymExprKind, SymFunction, SymLiteral, SymPlaceExprKind,
};
use dada_ir_sym::types::{SymGenericKind, SymGenericTerm, SymPerm, SymTy, SymTyKind, SymVariable};
use dada_ir_sym::word::Word;

fn sp(start: u32, end: u32) -> Span {
    Span::new(start, end)
}

fn ast(span: Span, kind: AstExprKind) -> AstExpr {
    AstExpr { span, kind: Box::new(kind) }
}

fn int_literal(span: Span, value: u64) -> AstExpr {
    ast(span, AstExprKind::Integer(value))
}

fn no_well_known() -> WellKnown {
    WellKnown { string_class: None, pointer_struct: None, string_literal_fn: None }
}

fn empty_scope() -> Scope {
    Scope { names: vec![], members: vec![], locals: vec![], functions: vec![], well_known: no_well_known() }
}

fn expr_of(r: ExprResult) -> SymExpr {
    match r.kind {
        ExprResultKind::Expr(e) => e,
        _ => panic!("expected an expression"),
    }
}

fn ty_kind(db: &Db, t: SymTy) -> &SymTyKind {
    match &db.terms[t.id] {
        Term::Ty(k) => k,
        _ => panic!("not a type"),
    }
}

fn is_bool(e: &SymExpr, value: u64) -> bool {
    matches!(&*e.kind, SymExprKind::Primitive(SymLiteral::Integral { bits }) if *bits == value)
}

/// A scope with one function `f(a: u32, b: u32) -> u32`.
fn scope_with_function(db: &mut Db) -> (Scope, Word) {
    let u32_ty = SymTy::u32(db);
    let a = db.add_variable(SymGenericKind::Place, None, sp(100, 101));
    let b = db.add_variable(SymGenericKind::Place, None, sp(102, 103));
    let f = Word::intern(db, "f");
    let signature = FunctionSignature {
        name: f,
        name_span: sp(90, 91),
        outer_vars: vec![],
        own_vars: vec![],
        input_vars: vec![a, b],
        inputs: vec![u32_ty, u32_ty],
        output: u32_ty,
        where_clauses: vec![],
        error: None,
    };
    let scope = Scope {
        names: vec![(f, NameResolutionSym::Function(SymFunction { id: 0 }), sp(90, 91))],
        members: vec![],
        locals: vec![],
        functions: vec![signature],
        well_known: no_well_known(),
    };
    (scope, f)
}

#[test]
fn calling_with_too_few_or_too_many_arguments_is_an_error() {
    for n in [1u64, 3] {
        let mut db = Db::new();
        let mut env = Env::new(None);
        let (scope, f) = scope_with_function(&mut db);
        let args: Vec<AstExpr> = (0..n).map(|i| int_literal(sp(10 + i as u32, 11 + i as u32), i)).collect();
        let call = ast(sp(0, 20), AstExprKind::ParenthesisOp(ast(sp(0, 1), AstExprKind::Id(f, sp(0, 1))), args));
        let r = check_expr(&mut db, &mut env, &scope, &call);
        assert!(matches!(r.kind, ExprResultKind::PlaceExpr(_)));
        assert_eq!(env.diagnostics.len(), 1);
        let d = env.diagnostics[0];
        assert_eq!(d.kind, DiagnosticKind::WrongArgumentCount { expected: 2, found: n as usize });
        assert_eq!(d.span, sp(0, 1));
        assert_eq!(d.related, Some(sp(90, 91)));
    }
}

#[test]
fn a_call_binds_each_argument_to_a_temporary() {
    let mut db = Db::new();
    let mut env = Env::new(None);
    let (scope, f) = scope_with_function(&mut db);
    let call = ast(
        sp(0, 20),
        AstExprKind::ParenthesisOp(ast(sp(0, 1), AstExprKind::Id(f, sp(0, 1))), vec![int_literal(sp(2, 3), 1), int_literal(sp(5, 6), 2)]),
    );
    let r = check_expr(&mut db, &mut env, &scope, &call);
    assert!(env.diagnostics.is_empty());
    let e = expr_of(r);
    let (lv0, init0, body0) = match *e.kind {
        SymExprKind::LetIn { lv, initializer, body, .. } => (lv, initializer.unwrap(), body),
        _ => panic!("expected the first argument's let"),
    };
    assert!(matches!(&*init0.kind, SymExprKind::Primitive(SymLiteral::Integral { bits: 1 })));
    let (lv1, init1, body1) = match *body0.kind {
        SymExprKind::LetIn { lv, initializer, body, .. } => (lv, initializer.unwrap(), body),
        _ => panic!("expected the second argument's let"),
    };
    assert!(matches!(&*init1.kind, SymExprKind::Primitive(SymLiteral::Integral { bits: 2 })));
    match &*body1.kind {
        SymExprKind::Call { function, arg_temps, .. } => {
            assert_eq!(*function, SymFunction { id: 0 });
            assert_eq!(arg_temps, &vec![lv0, lv1]);
        }
        _ => panic!("expected the call"),
    }
    let assignable = env.obligations.iter().filter(|o| matches!(o, Obligation::Assignable { .. })).count();
    assert_eq!(assignable, 2);
}

#[test]
fn one_plus_two_is_a_numeric_binary_operation() {
    let mut db = Db::new();
    let mut env = Env::new(None);
    let scope = empty_scope();
    let op_span = sp(2, 3);
    let sum = ast(sp(0, 5), AstExprKind::BinaryOp(AstBinaryOp::Add, op_span, int_literal(sp(0, 1), 1), int_literal(sp(4, 5), 2)));
    let e = expr_of(check_expr(&mut db, &mut env, &scope, &sum));
    assert!(env.diagnostics.is_empty());
    let (lhs, rhs) = match *e.kind {
        SymExprKind::BinaryOp(SymBinaryOp::Add, lhs, rhs) => (lhs, rhs),
        _ => panic!("expected an addition"),
    };
    assert!(matches!(&*lhs.kind, SymExprKind::Primitive(SymLiteral::Integral { bits: 1 })));
    assert!(matches!(&*rhs.kind, SymExprKind::Primitive(SymLiteral::Integral { bits: 2 })));
    assert_eq!(env.infer_vars.len(), 2);
    assert!(matches!(ty_kind(&db, lhs.ty), SymTyKind::Infer(v) if v.index == 0));
    assert!(matches!(ty_kind(&db, rhs.ty), SymTyKind::Infer(v) if v.index == 1));
    assert_ne!(lhs.ty, rhs.ty);
    assert_eq!(e.ty, lhs.ty);
    let numeric = |t: SymTy, kind: DiagnosticKind, span: Span| Obligation::Numeric { ty: t, or_else: OrElse { kind, span } };
    assert_eq!(
        env.obligations,
        vec![
            numeric(lhs.ty, DiagnosticKind::NumericTypeExpected, sp(0, 1)),
            numeric(rhs.ty, DiagnosticKind::NumericTypeExpected, sp(4, 5)),
            numeric(lhs.ty, DiagnosticKind::OperatorRequiresNumericType, op_span),
            numeric(rhs.ty, DiagnosticKind::OperatorRequiresNumericType, op_span),
            Obligation::EqualTypes {
                lhs: lhs.ty,
                rhs: rhs.ty,
                or_else: OrElse { kind: DiagnosticKind::OperatorArgumentsMustHaveSameType, span: op_span },
            },
        ]
    );
}

#[test]
fn a_comparison_is_boolean() {
    let mut db = Db::new();
    let mut env = Env::new(None);
    let scope = empty_scope();
    let cmp = ast(sp(0, 5), AstExprKind::BinaryOp(AstBinaryOp::LessThan, sp(2, 3), int_literal(sp(0, 1), 1), int_literal(sp(4, 5), 2)));
    let e = expr_of(check_expr(&mut db, &mut env, &scope, &cmp));
    assert!(matches!(&*e.kind, SymExprKind::BinaryOp(SymBinaryOp::LessThan, _, _)));
    assert_eq!(e.ty, SymTy::boolean(&mut db));
}

/// A scope with a class `Point`, whose members are given.
fn scope_with_class(db: &mut Db, members: Vec<(Word, NameResolutionSym, Span)>) -> (Scope, Word) {
    let point = Word::intern(db, "Point");
    let class = Class { name: point, style: SymAggregateStyle::Class, name_decl_span: sp(60, 65), span: sp(54, 80) };
    let aggregate = db.add_class(class);
    let scope = Scope {
        names: vec![(point, NameResolutionSym::Aggregate(aggregate), sp(60, 65))],
        members: members.into_iter().map(|(w, s, span)| (aggregate.id, w, s, span)).collect(),
        locals: vec![],
        functions: vec![],
        well_known: no_well_known(),
    };
    (scope, point)
}

fn call_point(point: Word) -> AstExpr {
    ast(
        sp(0, 11),
        AstExprKind::ParenthesisOp(
            ast(sp(0, 5), AstExprKind::Id(point, sp(0, 5))),
            vec![int_literal(sp(6, 7), 1), int_literal(sp(9, 10), 2)],
        ),
    )
}

#[test]
fn calling_a_class_without_new_is_an_error() {
    let mut db = Db::new();
    let mut env = Env::new(None);
    let (scope, point) = scope_with_class(&mut db, vec![]);
    let r = check_expr(&mut db, &mut env, &scope, &call_point(point));
    assert!(matches!(r.kind, ExprResultKind::PlaceExpr(_)));
    assert_eq!(env.diagnostics.len(), 1);
    assert_eq!(env.diagnostics[0].kind, DiagnosticKind::NoNewMethod { member_found: false });
    assert_eq!(env.diagnostics[0].span, sp(0, 5));
    assert_eq!(env.diagnostics[0].related, Some(sp(60, 65)));
}

#[test]
fn calling_a_class_whose_new_is_not_a_method_is_an_error() {
    let mut db = Db::new();
    let mut env = Env::new(None);
    let new = Word::intern(&mut db, "new");
    let field = db.add_variable(SymGenericKind::Place, Some(new), sp(70, 73));
    let (scope, point) = scope_with_class(&mut db, vec![(new, NameResolutionSym::Variable(field), sp(70, 73))]);
    let r = check_expr(&mut db, &mut env, &scope, &call_point(point));
    assert!(matches!(r.kind, ExprResultKind::PlaceExpr(_)));
    assert_eq!(env.diagnostics.len(), 1);
    assert_eq!(env.diagnostics[0].kind, DiagnosticKind::NoNewMethod { member_found: true });
    assert_eq!(env.diagnostics[0].related, Some(sp(70, 73)));
}

#[test]
fn calling_a_class_calls_its_new_method() {
    let mut db = Db::new();
    let mut env = Env::new(None);
    let u32_ty = SymTy::u32(&mut db);
    let new = Word::intern(&mut db, "new");
    let x = db.add_variable(SymGenericKind::Place, None, sp(100, 101));
    let y = db.add_variable(SymGenericKind::Place, None, sp(102, 103));
    let (mut scope, point) = scope_with_class(&mut db, vec![(new, NameResolutionSym::Function(SymFunction { id: 0 }), sp(70, 73))]);
    scope.functions.push(FunctionSignature {
        name: new,
        name_span: sp(70, 73),
        outer_vars: vec![],
        own_vars: vec![],
        input_vars: vec![x, y],
        inputs: vec![u32_ty, u32_ty],
        output: u32_ty,
        where_clauses: vec![],
        error: None,
    });
    let e = expr_of(check_expr(&mut db, &mut env, &scope, &call_point(point)));
    assert!(env.diagnostics.is_empty());
    assert!(matches!(&*e.kind, SymExprKind::LetIn { .. }));
    assert_eq!(e.ty, u32_ty);
}

/// A scope with boolean locals `a` and `b`.
fn scope_with_booleans(db: &mut Db) -> (Scope, Word, Word) {
    let boolean = SymTy::boolean(db);
    let a = Word::intern(db, "a");
    let b = Word::intern(db, "b");
    let va = db.add_variable(SymGenericKind::Place, Some(a), sp(0, 1));
    let vb = db.add_variable(SymGenericKind::Place, Some(b), sp(5, 6));
    let scope = Scope {
        names: vec![
            (a, NameResolutionSym::Variable(va), sp(0, 1)),
            (b, NameResolutionSym::Variable(vb), sp(5, 6)),
        ],
        members: vec![],
        locals: vec![(va, boolean), (vb, boolean)],
        functions: vec![],
        well_known: no_well_known(),
    };
    (scope, a, b)
}

fn if_parts(e: SymExpr) -> (SymExpr, SymExpr, SymExpr) {
    match *e.kind {
        SymExprKind::Match { mut arms } => {
            assert_eq!(arms.len(), 2);
            let else_arm = arms.pop().unwrap();
            let then_arm = arms.pop().unwrap();
            assert!(else_arm.condition.is_none());
            (then_arm.condition.unwrap(), then_arm.body, else_arm.body)
        }
        _ => panic!("expected an if"),
    }
}

fn is_reference_to(e: &SymExpr, var_span: Span) -> bool {
    match &*e.kind {
        SymExprKind::PermissionOp(PermissionOp::Reference, place) => {
            matches!(&*place.kind, SymPlaceExprKind::Var(_)) && place.span == var_span
        }
        _ => false,
    }
}

#[test]
fn and_and_desugars_to_nested_ifs() {
    let mut db = Db::new();
    let mut env = Env::new(None);
    let (scope, a, b) = scope_with_booleans(&mut db);
    let and = ast(
        sp(0, 6),
        AstExprKind::BinaryOp(
            AstBinaryOp::AndAnd,
            sp(2, 4),
            ast(sp(0, 1), AstExprKind::Id(a, sp(0, 1))),
            ast(sp(5, 6), AstExprKind::Id(b, sp(5, 6))),
        ),
    );
    let e = expr_of(check_expr(&mut db, &mut env, &scope, &and));
    assert!(env.diagnostics.is_empty());
    assert_eq!(e.ty, SymTy::boolean(&mut db));
    let (cond, then_expr, else_expr) = if_parts(e);
    assert!(is_reference_to(&cond, sp(0, 1)));
    assert!(is_bool(&else_expr, 0));
    let (inner_cond, inner_then, inner_else) = if_parts(then_expr);
    assert!(is_reference_to(&inner_cond, sp(5, 6)));
    assert!(is_bool(&inner_then, 1));
    assert!(is_bool(&inner_else, 0));
}

#[test]
fn or_or_desugars_to_nested_ifs() {
    let mut db = Db::new();
    let mut env = Env::new(None);
    let (scope, a, b) = scope_with_booleans(&mut db);
    let or = ast(
        sp(0, 6),
        AstExprKind::BinaryOp(
            AstBinaryOp::OrOr,
            sp(2, 4),
            ast(sp(0, 1), AstExprKind::Id(a, sp(0, 1))),
            ast(sp(5, 6), AstExprKind::Id(b, sp(5, 6))),
        ),
    );
    let e = expr_of(check_expr(&mut db, &mut env, &scope, &or));
    let (cond, then_expr, else_expr) = if_parts(e);
    assert!(is_reference_to(&cond, sp(0, 1)));
    assert!(is_bool(&then_expr, 1));
    let (inner_cond, inner_then, inner_else) = if_parts(else_expr);
    assert!(is_reference_to(&inner_cond, sp(5, 6)));
    assert!(is_bool(&inner_then, 1));
    assert!(is_bool(&inner_else, 0));
}

#[test]
fn return_outside_a_function_is_an_error() {
    let mut db = Db::new();
    let mut env = Env::new(None);
    let scope = empty_scope();
    let ret = ast(sp(0, 8), AstExprKind::Return(Some(int_literal(sp(7, 8), 1))));
    let r = check_expr(&mut db, &mut env, &scope, &ret);
    assert!(matches!(r.kind, ExprResultKind::PlaceExpr(_)));
    assert_eq!(env.diagnostics.last().unwrap().kind, DiagnosticKind::UnexpectedReturn);
}

#[test]
fn return_is_of_type_never_and_fits_the_return_type() {
    let mut db = Db::new();
    let u32_ty = SymTy::u32(&mut db);
    let mut env = Env::new(Some(u32_ty));
    let scope = empty_scope();
    let ret = ast(sp(0, 6), AstExprKind::Return(None));
    let e = expr_of(check_expr(&mut db, &mut env, &scope, &ret));
    assert!(env.diagnostics.is_empty());
    assert_eq!(e.ty, SymTy::never(&mut db));
    let unit = SymTy::unit(&mut db);
    assert_eq!(
        env.obligations.last(),
        Some(&Obligation::Assignable {
            value: unit,
            target: u32_ty,
            or_else: OrElse { kind: DiagnosticKind::InvalidReturnValue, span: sp(0, 6) },
        })
    );
}

#[test]
fn await_spawns_a_future_obligation() {
    let mut db = Db::new();
    let mut env = Env::new(None);
    let scope = empty_scope();
    let aw = ast(sp(0, 7), AstExprKind::Await(int_literal(sp(0, 1), 1), sp(2, 7)));
    let e = expr_of(check_expr(&mut db, &mut env, &scope, &aw));
    let future_ty = match &*e.kind {
        SymExprKind::Await { future, await_keyword } => {
            assert_eq!(*await_keyword, sp(2, 7));
            future.ty
        }
        _ => panic!("expected an await"),
    };
    assert_eq!(
        env.obligations.last(),
        Some(&Obligation::FutureType {
            ty: future_ty,
            awaited: e.ty,
            or_else: OrElse { kind: DiagnosticKind::AwaitNonFuture, span: sp(2, 7) },
        })
    );
    assert!(matches!(ty_kind(&db, e.ty), SymTyKind::Infer(_)));
}

#[test]
fn if_without_else_is_unit_and_with_else_is_inferred() {
    let mut db = Db::new();
    let mut env = Env::new(None);
    let (scope, a, _) = scope_with_booleans(&mut db);
    let cond = || ast(sp(3, 4), AstExprKind::Id(a, sp(3, 4)));
    let no_else = ast(sp(0, 10), AstExprKind::If(vec![AstIfArm { condition: Some(cond()), result: int_literal(sp(6, 7), 1) }]));
    let e = expr_of(check_expr(&mut db, &mut env, &scope, &no_else));
    assert_eq!(e.ty, SymTy::unit(&mut db));
    let with_else = ast(
        sp(0, 20),
        AstExprKind::If(vec![
            AstIfArm { condition: Some(cond()), result: int_literal(sp(6, 7), 1) },
            AstIfArm { condition: None, result: int_literal(sp(15, 16), 2) },
        ]),
    );
    let e = expr_of(check_expr(&mut db, &mut env, &scope, &with_else));
    assert!(matches!(ty_kind(&db, e.ty), SymTyKind::Infer(_)));
    let to_if = env
        .obligations
        .iter()
        .filter(|o| matches!(o, Obligation::Assignable { target, .. } if *target == e.ty))
        .count();
    assert_eq!(to_if, 2);
}

#[test]
fn tuples_have_tuple_types() {
    let mut db = Db::new();
    let mut env = Env::new(None);
    let scope = empty_scope();
    let tuple = ast(
        sp(0, 12),
        AstExprKind::Tuple(vec![ast(sp(1, 5), AstExprKind::Boolean(true)), ast(sp(7, 11), AstExprKind::Boolean(false))]),
    );
    let e = expr_of(check_expr(&mut db, &mut env, &scope, &tuple));
    let boolean = SymTy::boolean(&mut db);
    match ty_kind(&db, e.ty) {
        SymTyKind::Named(dada_ir_sym::types::SymTyName::Tuple { arity: 2 }, args) => {
            assert_eq!(args, &vec![SymGenericTerm::Type(boolean), SymGenericTerm::Type(boolean)]);
        }
        _ => panic!("expected a pair type"),
    }
}

#[test]
fn permission_operations_wrap_the_place_type() {
    let mut db = Db::new();
    let mut env = Env::new(None);
    let (scope, a, _) = scope_with_booleans(&mut db);
    let boolean = SymTy::boolean(&mut db);
    let give = ast(sp(0, 6), AstExprKind::PermissionOp(PermissionOp::Give, ast(sp(0, 1), AstExprKind::Id(a, sp(0, 1)))));
    assert_eq!(expr_of(check_expr(&mut db, &mut env, &scope, &give)).ty, boolean);
    let mutate = ast(sp(0, 6), AstExprKind::PermissionOp(PermissionOp::Mutate, ast(sp(0, 1), AstExprKind::Id(a, sp(0, 1)))));
    let e = expr_of(check_expr(&mut db, &mut env, &scope, &mutate));
    match ty_kind(&db, e.ty) {
        SymTyKind::Perm(p, t) => {
            assert_eq!(*t, boolean);
            assert!(matches!(&db.terms[p.id], Term::Perm(dada_ir_sym::types::SymPermKind::Leased(ps)) if ps.len() == 1));
        }
        _ => panic!("expected a leased type"),
    }
}

#[test]
fn unknown_names_and_negation_are_reported() {
    let mut db = Db::new();
    let mut env = Env::new(None);
    let scope = empty_scope();
    let x = Word::intern(&mut db, "x");
    let id = ast(sp(0, 1), AstExprKind::Id(x, sp(0, 1)));
    let r = check_expr(&mut db, &mut env, &scope, &id);
    assert!(matches!(r.kind, ExprResultKind::PlaceExpr(_)));
    assert_eq!(env.diagnostics.last().unwrap().kind, DiagnosticKind::UnresolvedName);
    let neg = ast(sp(0, 2), AstExprKind::Negate(int_literal(sp(1, 2), 1), sp(0, 1)));
    let _ = check_expr(&mut db, &mut env, &scope, &neg);
    assert_eq!(env.diagnostics.last().unwrap().kind, DiagnosticKind::NotImplemented);
}

/// A scope with a class `C` whose method `m[T](self)` has one generic.
fn scope_with_method(db: &mut Db) -> (Scope, Word, Word, SymVariable) {
    let c = Word::intern(db, "C");
    let m = Word::intern(db, "m");
    let class = Class { name: c, style: SymAggregateStyle::Class, name_decl_span: sp(0, 1), span: sp(0, 30) };
    let aggregate = db.add_class(class);
    let c_ty = SymTy::named(db, dada_ir_sym::types::SymTyName::Aggregate(aggregate), vec![]);
    let t = db.add_variable(SymGenericKind::Type, None, sp(40, 41));
    let this = db.add_variable(SymGenericKind::Place, None, sp(42, 46));
    let unit = SymTy::unit(db);
    let local = db.add_variable(SymGenericKind::Place, None, sp(50, 51));
    let x = Word::intern(db, "x");
    let scope = Scope {
        names: vec![(x, NameResolutionSym::Variable(local), sp(50, 51))],
        members: vec![(aggregate.id, m, NameResolutionSym::Function(SymFunction { id: 0 }), sp(35, 36))],
        locals: vec![(local, c_ty)],
        functions: vec![FunctionSignature {
            name: m,
            name_span: sp(35, 36),
            outer_vars: vec![],
            own_vars: vec![t],
            input_vars: vec![this],
            inputs: vec![c_ty],
            output: unit,
            where_clauses: vec![],
            error: None,
        }],
        well_known: no_well_known(),
    };
    (scope, x, m, t)
}

fn method_call(x: Word, m: Word, generics: Option<Vec<AstGenericTerm>>) -> AstExpr {
    let receiver = ast(sp(0, 1), AstExprKind::Id(x, sp(0, 1)));
    let member = ast(sp(0, 3), AstExprKind::DotId(receiver, m, sp(2, 3)));
    let owner = match generics {
        Some(g) => ast(sp(0, 8), AstExprKind::SquareBracketOp(member, g)),
        None => member,
    };
    ast(sp(0, 10), AstExprKind::ParenthesisOp(owner, vec![]))
}

#[test]
fn a_method_call_passes_the_receiver_first() {
    let mut db = Db::new();
    let mut env = Env::new(None);
    let (scope, x, m, _) = scope_with_method(&mut db);
    let e = expr_of(check_expr(&mut db, &mut env, &scope, &method_call(x, m, None)));
    assert!(env.diagnostics.is_empty());
    match *e.kind {
        SymExprKind::LetIn { initializer, body, .. } => {
            assert!(is_reference_to(&initializer.unwrap(), sp(0, 1)));
            match &*body.kind {
                SymExprKind::Call { substitution, arg_temps, .. } => {
                    assert_eq!(substitution.len(), 1);
                    assert_eq!(arg_temps.len(), 1);
                }
                _ => panic!("expected the call"),
            }
        }
        _ => panic!("expected the receiver's let"),
    }
}

#[test]
fn explicit_method_generics_are_counted_and_kinded() {
    let mut db = Db::new();
    let mut env = Env::new(None);
    let (scope, x, m, _) = scope_with_method(&mut db);
    let u32_ty = SymTy::u32(&mut db);
    let our = SymPerm::our(&mut db);
    let two = vec![
        AstGenericTerm { term: SymGenericTerm::Type(u32_ty), span: sp(4, 7) },
        AstGenericTerm { term: SymGenericTerm::Type(u32_ty), span: sp(8, 9) },
    ];
    let _ = check_expr(&mut db, &mut env, &scope, &method_call(x, m, Some(two)));
    let d = *env.diagnostics.last().unwrap();
    assert_eq!(d.kind, DiagnosticKind::WrongGenericCount { expected: 1, found: 2 });
    assert_eq!(d.related, Some(sp(35, 36)));
    let wrong_kind = vec![AstGenericTerm { term: SymGenericTerm::Perm(our), span: sp(4, 7) }];
    let _ = check_expr(&mut db, &mut env, &scope, &method_call(x, m, Some(wrong_kind)));
    let d = *env.diagnostics.last().unwrap();
    assert_eq!(
        d.kind,
        DiagnosticKind::KindMismatch { expected_kind: SymGenericKind::Type, found_kind: SymGenericKind::Perm }
    );
    assert_eq!(d.span, sp(4, 7));
    let n = env.diagnostics.len();
    let right = vec![AstGenericTerm { term: SymGenericTerm::Type(u32_ty), span: sp(4, 7) }];
    let e = expr_of(check_expr(&mut db, &mut env, &scope, &method_call(x, m, Some(right))));
    assert_eq!(env.diagnostics.len(), n);
    match *e.kind {
        SymExprKind::LetIn { body, .. } => match &*body.kind {
            SymExprKind::Call { substitution, .. } => assert_eq!(substitution, &vec![SymGenericTerm::Type(u32_ty)]),
            _ => panic!("expected the call"),
        },
        _ => panic!("expected the receiver's let"),
    }
}

#[test]
fn a_method_named_but_not_called_is_an_error() {
    let mut db = Db::new();
    let mut env = Env::new(None);
    let (scope, x, m, _) = scope_with_method(&mut db);
    let receiver = ast(sp(0, 1), AstExprKind::Id(x, sp(0, 1)));
    let member = ast(sp(0, 3), AstExprKind::DotId(receiver, m, sp(2, 3)));
    let not_called = ast(sp(0, 6), AstExprKind::Not(member, sp(4, 5)));
    let _ = check_expr(&mut db, &mut env, &scope, &not_called);
    assert_eq!(env.diagnostics.last().unwrap().kind, DiagnosticKind::MissingCallToMethod);
    assert_eq!(env.diagnostics.last().unwrap().because, Because::JustSo);
    let _ = Reported { index: 0 };
}

#[test]
fn required_alternatives_follow_the_live_children() {
    let mut tree = AlternativeTree::new();
    let root = Alternative::root(&mut tree);
    assert!(root.is_required(&tree));
    let children = root.spawn_children(&mut tree, 2);
    assert_eq!(children.len(), 2);
    assert!(!children[0].is_required(&tree));
    assert!(!children[1].is_required(&tree));
    let grandchildren = children[0].spawn_children(&mut tree, 1);
    assert!(!grandchildren[0].is_required(&tree));
    children[1].release(&mut tree);
    assert!(children[0].is_required(&tree));
    assert!(grandchildren[0].is_required(&tree));
    assert_eq!(tree.nodes[root.id].counter, 1);
}

#[test]
fn if_required_polls_the_branch_that_counts() {
    let mut tree = AlternativeTree::new();
    let root = Alternative::root(&mut tree);
    let children = root.spawn_children(&mut tree, 2);
    let a = children[0];
    assert_eq!(a.if_required(&tree, Progress::Ready(Ok(())), Progress::Ready(Ok(false))), Progress::Ready(Ok(false)));
    assert_eq!(a.if_required(&tree, Progress::Ready(Ok(())), Progress::Pending), Progress::Pending);
    children[1].release(&mut tree);
    assert_eq!(a.if_required(&tree, Progress::Ready(Ok(())), Progress::Ready(Ok(false))), Progress::Ready(Ok(true)));
    assert_eq!(a.if_required(&tree, Progress::Pending, Progress::Ready(Ok(false))), Progress::Pending);
    let r = Reported { index: 4 };
    assert_eq!(a.if_required(&tree, Progress::Ready(Err(r)), Progress::Ready(Ok(true))), Progress::Ready(Err(r)));
}

#[test]
fn a_string_literal_calls_the_literal_constructor() {
    let mut db = Db::new();
    let mut env = Env::new(None);
    let string_name = Word::intern(&mut db, "String");
    let pointer_name = Word::intern(&mut db, "Pointer");
    let string_class = db.add_class(Class { name: string_name, style: SymAggregateStyle::Class, name_decl_span: sp(0, 1), span: sp(0, 1) });
    let pointer = db.add_class(Class { name: pointer_name, style: SymAggregateStyle::Struct, name_decl_span: sp(0, 1), span: sp(0, 1) });
    let mut scope = empty_scope();
    let missing = ast(sp(0, 4), AstExprKind::String(b"hi".to_vec()));
    let r = check_expr(&mut db, &mut env, &scope, &missing);
    assert!(matches!(r.kind, ExprResultKind::PlaceExpr(_)));
    assert_eq!(env.diagnostics.last().unwrap().kind, DiagnosticKind::UnresolvedName);
    scope.well_known = WellKnown {
        string_class: Some(string_class),
        pointer_struct: Some(pointer),
        string_literal_fn: Some(SymFunction { id: 0 }),
    };
    let n = env.diagnostics.len();
    let literal = ast(sp(0, 4), AstExprKind::String(b"hi".to_vec()));
    let r = check_expr(&mut db, &mut env, &scope, &literal);
    assert_eq!(env.diagnostics.len(), n);
    assert_eq!(r.temporaries.len(), 2);
    match r.temporaries[0].initializer.as_ref().map(|e| &*e.kind) {
        Some(SymExprKind::ByteLiteral(bytes)) => assert_eq!(bytes, &b"hi".to_vec()),
        _ => panic!("expected the byte literal"),
    }
    match r.temporaries[1].initializer.as_ref().map(|e| &*e.kind) {
        Some(SymExprKind::Primitive(SymLiteral::Integral { bits })) => assert_eq!(*bits, 2),
        _ => panic!("expected the length"),
    }
    let lvs = vec![r.temporaries[0].lv, r.temporaries[1].lv];
    let e = expr_of(r);
    match &*e.kind {
        SymExprKind::Call { function, arg_temps, .. } => {
            assert_eq!(*function, SymFunction { id: 0 });
            assert_eq!(arg_temps, &lvs);
        }
        _ => panic!("expected the constructor call"),
    }
    assert_eq!(e.ty, SymTy::string(&mut db, string_class));
}

#[test]
fn assignment_is_unit_and_requires_an_assignable_value() {
    let mut db = Db::new();
    let mut env = Env::new(None);
    let (scope, a, b) = scope_with_booleans(&mut db);
    let assign = ast(
        sp(0, 5),
        AstExprKind::BinaryOp(
            AstBinaryOp::Assign,
            sp(2, 3),
            ast(sp(0, 1), AstExprKind::Id(a, sp(0, 1))),
            ast(sp(4, 5), AstExprKind::Id(b, sp(4, 5))),
        ),
    );
    let e = expr_of(check_expr(&mut db, &mut env, &scope, &assign));
    assert!(env.diagnostics.is_empty());
    assert_eq!(e.ty, SymTy::unit(&mut db));
    assert!(matches!(&*e.kind, SymExprKind::Assign { .. }));
    assert!(matches!(
        env.obligations.last(),
        Some(Obligation::Assignable { or_else: OrElse { kind: DiagnosticKind::InvalidAssignmentType, .. }, .. })
    ));
}

#[test]
fn calling_something_that_is_not_callable_is_an_error() {
    let mut db = Db::new();
    let mut env = Env::new(None);
    let scope = empty_scope();
    let call = ast(sp(0, 6), AstExprKind::ParenthesisOp(ast(sp(0, 4), AstExprKind::Boolean(true)), vec![]));
    let r = check_expr(&mut db, &mut env, &scope, &call);
    assert!(matches!(r.kind, ExprResultKind::PlaceExpr(_)));
    assert_eq!(env.diagnostics.last().unwrap().kind, DiagnosticKind::NotCallable);
    assert_eq!(env.diagnostics.last().unwrap().span, sp(0, 4));
}

#[test]
fn a_class_name_is_not_a_value() {
    let mut db = Db::new();
    let mut env = Env::new(None);
    let (scope, point) = scope_with_class(&mut db, vec![]);
    let not = ast(sp(0, 6), AstExprKind::Not(ast(sp(1, 6), AstExprKind::Id(point, sp(1, 6))), sp(0, 1)));
    let _ = check_expr(&mut db, &mut env, &scope, &not);
    assert_eq!(env.diagnostics.len(), 1);
    assert_eq!(env.diagnostics[0].kind, DiagnosticKind::NonExpr);
    assert_eq!(env.diagnostics[0].span, sp(1, 6));
}

#[test]
fn an_unknown_member_is_an_error() {
    let mut db = Db::new();
    let mut env = Env::new(None);
    let (scope, x, _, _) = scope_with_method(&mut db);
    let unknown = Word::intern(&mut db, "unknown");
    let member = ast(sp(0, 9), AstExprKind::DotId(ast(sp(0, 1), AstExprKind::Id(x, sp(0, 1))), unknown, sp(2, 9)));
    let r = check_expr(&mut db, &mut env, &scope, &member);
    assert!(matches!(r.kind, ExprResultKind::PlaceExpr(_)));
    assert_eq!(env.diagnostics.last().unwrap().kind, DiagnosticKind::NoSuchMember);
    assert_eq!(env.diagnostics.last().unwrap().span, sp(2, 9));
}

#[test]
fn explicit_generics_of_a_function_are_counted() {
    let mut db = Db::new();
    let mut env = Env::new(None);
    let (scope, f) = scope_with_function(&mut db);
    let u32_ty = SymTy::u32(&mut db);
    let with_generics = ast(
        sp(0, 6),
        AstExprKind::SquareBracketOp(
            ast(sp(0, 1), AstExprKind::Id(f, sp(0, 1))),
            vec![AstGenericTerm { term: SymGenericTerm::Type(u32_ty), span: sp(2, 5) }],
        ),
    );
    let call = ast(sp(0, 12), AstExprKind::ParenthesisOp(with_generics, vec![int_literal(sp(7, 8), 1), int_literal(sp(10, 11), 2)]));
    let r = check_expr(&mut db, &mut env, &scope, &call);
    assert!(matches!(r.kind, ExprResultKind::PlaceExpr(_)));
    assert_eq!(env.diagnostics.last().unwrap().kind, DiagnosticKind::WrongGenericCount { expected: 0, found: 1 });
}

#[test]
fn generic_arguments_that_are_not_terms_are_unresolved() {
    let mut db = Db::new();
    let mut env = Env::new(None);
    let (scope, f) = scope_with_function(&mut db);
    let dangling = SymTy { id: 9999 };
    let with_generics = ast(
        sp(0, 6),
        AstExprKind::SquareBracketOp(
            ast(sp(0, 1), AstExprKind::Id(f, sp(0, 1))),
            vec![AstGenericTerm { term: SymGenericTerm::Type(dangling), span: sp(2, 5) }],
        ),
    );
    let _ = check_expr(&mut db, &mut env, &scope, &with_generics);
    assert_eq!(env.diagnostics.last().unwrap().kind, DiagnosticKind::UnresolvedName);
    assert_eq!(env.diagnostics.last().unwrap().span, sp(2, 5));
}

#[test]
fn where_clauses_of_a_callee_are_spawned() {
    let mut db = Db::new();
    let mut env = Env::new(None);
    let t = db.add_variable(SymGenericKind::Type, None, sp(80, 81));
    let t_ty = SymTy::var(&mut db, t);
    let a = db.add_variable(SymGenericKind::Place, None, sp(82, 83));
    let g = Word::intern(&mut db, "g");
    let scope = Scope {
        names: vec![(g, NameResolutionSym::Function(SymFunction { id: 0 }), sp(78, 79))],
        members: vec![],
        locals: vec![],
        functions: vec![FunctionSignature {
            name: g,
            name_span: sp(78, 79),
            outer_vars: vec![],
            own_vars: vec![t],
            input_vars: vec![a],
            inputs: vec![t_ty],
            output: t_ty,
            where_clauses: vec![(SymGenericTerm::Type(t_ty), dada_ir_sym::diagnostic::Predicate::Copy)],
            error: None,
        }],
        well_known: no_well_known(),
    };
    let call = ast(sp(0, 4), AstExprKind::ParenthesisOp(ast(sp(0, 1), AstExprKind::Id(g, sp(0, 1))), vec![int_literal(sp(2, 3), 7)]));
    let e = expr_of(check_expr(&mut db, &mut env, &scope, &call));
    assert!(env.diagnostics.is_empty());
    let inferred = match &*e.kind {
        SymExprKind::LetIn { body, .. } => match &*body.kind {
            SymExprKind::Call { substitution, .. } => substitution[0],
            _ => panic!("expected the call"),
        },
        _ => panic!("expected the argument's let"),
    };
    assert!(matches!(inferred, SymGenericTerm::Type(t) if matches!(ty_kind(&db, t), SymTyKind::Infer(_))));
    assert_eq!(e.ty, match inferred { SymGenericTerm::Type(t) => t, _ => panic!() });
    assert!(env.obligations.iter().any(|o| matches!(
        o,
        Obligation::WhereClause { term, pred: dada_ir_sym::diagnostic::Predicate::Copy, .. } if *term == inferred
    )));
}

#[test]
fn numeric_obligations_of_one_plus_two_hold_once_the_literals_are_bounded() {
    let mut db = Db::new();
    let mut env = Env::new(None);
    let scope = empty_scope();
    let sum = ast(sp(0, 5), AstExprKind::BinaryOp(AstBinaryOp::Add, sp(2, 3), int_literal(sp(0, 1), 1), int_literal(sp(4, 5), 2)));
    let _ = check_expr(&mut db, &mut env, &scope, &sum);
    let obligations = env.obligations.clone();
    for o in &obligations {
        if let Obligation::Numeric { .. } = o {
            assert_eq!(run_obligation(&db, &mut env, *o), ObligationOutcome::NotDecidedHere);
        }
    }
    let u32_ty = SymTy::u32(&mut db);
    env.infer_vars[0].lower_bound = Some(u32_ty);
    env.infer_vars[1].lower_bound = Some(u32_ty);
    let mut numeric = 0;
    for o in &obligations {
        if let Obligation::Numeric { .. } = o {
            assert_eq!(run_obligation(&db, &mut env, *o), ObligationOutcome::Decided(Ok(())));
            numeric += 1;
        }
    }
    assert_eq!(numeric, 4);
    let boolean = SymTy::boolean(&mut db);
    env.infer_vars[1].lower_bound = Some(boolean);
    let last_numeric = obligations.iter().rev().find(|o| matches!(o, Obligation::Numeric { .. })).copied().unwrap();
    assert!(matches!(run_obligation(&db, &mut env, last_numeric), ObligationOutcome::Decided(Err(_))));
    assert_eq!(env.diagnostics.last().unwrap().because, Because::InferredLowerBound(boolean));
    assert_eq!(env.diagnostics.last().unwrap().kind, DiagnosticKind::OperatorRequiresNumericType);
}
