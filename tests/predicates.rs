use dada_ir_sym::class::{Class, SymAggregateStyle};
use dada_ir_sym::db::Db;
use dada_ir_sym::diagnostic::{Because, DiagnosticKind, OrElse, Predicate};
use dada_ir_sym::env::Env;
use dada_ir_sym::is_future::require_future_type;
use dada_ir_sym::isnt_copy::term_isnt_provably_copy;
use dada_ir_sym::obligations::{ObligationOutcome, run_obligation};
use dada_ir_sym::env::Obligation;
use dada_ir_sym::predicates::{is_provably_copy, is_provably_move};
use dada_ir_sym::require::{require_copy, require_move};
use dada_ir_sym::span::Span;
use dada_ir_sym::types::{
    SymAggregate, SymGenericKind, SymGenericTerm, SymPerm, SymPlace, SymTy, SymTyName,
};
use dada_ir_sym::word::Word;

fn or_else() -> OrElse {
    OrElse { kind: DiagnosticKind::WhereClause, span: Span::new(10, 20) }
}

fn class_ty(db: &mut Db, name: &str, style: SymAggregateStyle, args: Vec<SymGenericTerm>) -> (SymAggregate, SymTy) {
    let word = Word::intern(db, name);
    let class = Class { name: word, style, name_decl_span: Span::new(0, 1), span: Span::new(0, 2) };
    let aggregate = db.add_class(class);
    let ty = SymTy::named(db, SymTyName::Aggregate(aggregate), args);
    (aggregate, ty)
}

fn ty(t: SymTy) -> SymGenericTerm {
    SymGenericTerm::Type(t)
}

fn perm(p: SymPerm) -> SymGenericTerm {
    SymGenericTerm::Perm(p)
}

fn place_of(db: &mut Db, t: SymTy) -> SymPlace {
    let var = db.add_variable(SymGenericKind::Place, None, Span::new(0, 1));
    SymPlace::var(db, var, t)
}

#[test]
fn primitives_classes_and_futures_are_copy_exactly_when_not_move() {
    let mut db = Db::new();
    let env = Env::new(None);
    let u32_ty = SymTy::u32(&mut db);
    let (_, class) = class_ty(&mut db, "C", SymAggregateStyle::Class, vec![]);
    let future = SymTy::named(&mut db, SymTyName::Future, vec![ty(u32_ty)]);
    assert_eq!(is_provably_copy(&db, &env, ty(u32_ty)), Ok(true));
    assert_eq!(is_provably_move(&db, &env, ty(u32_ty)), Ok(false));
    assert_eq!(is_provably_copy(&db, &env, ty(class)), Ok(false));
    assert_eq!(is_provably_move(&db, &env, ty(class)), Ok(true));
    assert_eq!(is_provably_copy(&db, &env, ty(future)), Ok(false));
    assert_eq!(is_provably_move(&db, &env, ty(future)), Ok(true));
}

#[test]
fn a_struct_with_a_copy_and_a_move_field_is_both() {
    let mut db = Db::new();
    let env = Env::new(None);
    let u32_ty = SymTy::u32(&mut db);
    let (_, class) = class_ty(&mut db, "C", SymAggregateStyle::Class, vec![]);
    let (_, pair) = class_ty(&mut db, "Pair", SymAggregateStyle::Struct, vec![ty(u32_ty), ty(class)]);
    assert_eq!(is_provably_copy(&db, &env, ty(pair)), Ok(true));
    assert_eq!(is_provably_move(&db, &env, ty(pair)), Ok(true));
    let (_, only_copy) = class_ty(&mut db, "Only", SymAggregateStyle::Struct, vec![ty(u32_ty)]);
    assert_eq!(is_provably_move(&db, &env, ty(only_copy)), Ok(false));
    let unit = SymTy::unit(&mut db);
    assert_eq!(is_provably_copy(&db, &env, ty(unit)), Ok(false));
    assert_eq!(is_provably_move(&db, &env, ty(unit)), Ok(false));
}

#[test]
fn never_is_copy_but_cannot_be_required_copy() {
    let mut db = Db::new();
    let mut env = Env::new(None);
    let never = SymTy::never(&mut db);
    assert_eq!(is_provably_copy(&db, &env, ty(never)), Ok(true));
    assert_eq!(is_provably_move(&db, &env, ty(never)), Ok(false));
    assert!(require_move(&db, &mut env, ty(never), or_else()).is_ok());
    assert!(require_copy(&db, &mut env, ty(never), or_else()).is_err());
    assert_eq!(env.diagnostics.last().unwrap().because, Because::NeverIsNotCopy);
}

#[test]
fn base_permissions_have_fixed_predicates() {
    let mut db = Db::new();
    let mut env = Env::new(None);
    let my = SymPerm::my(&mut db);
    let our = SymPerm::our(&mut db);
    let u32_ty = SymTy::u32(&mut db);
    let x = place_of(&mut db, u32_ty);
    let shared = SymPerm::shared(&mut db, vec![x]);

    let r = require_copy(&db, &mut env, perm(my), or_else());
    assert!(r.is_err());
    assert_eq!(env.diagnostics.len(), 1);
    assert_eq!(env.diagnostics[0].because, Because::JustSo);
    assert_eq!(env.diagnostics[0].kind, DiagnosticKind::WhereClause);
    assert_eq!(r.unwrap_err().index, 0);

    assert_eq!(require_copy(&db, &mut env, perm(our), or_else()), Ok(()));
    assert_eq!(require_copy(&db, &mut env, perm(shared), or_else()), Ok(()));
    assert_eq!(env.diagnostics.len(), 1);

    assert!(require_move(&db, &mut env, perm(our), or_else()).is_err());
    assert!(require_move(&db, &mut env, perm(shared), or_else()).is_err());
    assert_eq!(env.diagnostics.len(), 3);
    assert_eq!(require_move(&db, &mut env, perm(my), or_else()), Ok(()));
    assert_eq!(env.diagnostics.len(), 3);
}

#[test]
fn a_lease_is_copy_only_if_every_place_is() {
    let mut db = Db::new();
    let mut env = Env::new(None);
    let u32_ty = SymTy::u32(&mut db);
    let (_, class) = class_ty(&mut db, "C", SymAggregateStyle::Class, vec![]);
    let p1 = place_of(&mut db, u32_ty);
    let p2 = place_of(&mut db, class);
    let p3 = place_of(&mut db, u32_ty);
    let mixed = SymPerm::leased(&mut db, vec![p1, p2]);
    let both_copy = SymPerm::leased(&mut db, vec![p1, p3]);
    assert_eq!(is_provably_copy(&db, &env, perm(mixed)), Ok(false));
    assert_eq!(is_provably_copy(&db, &env, perm(both_copy)), Ok(true));
    assert!(require_copy(&db, &mut env, perm(mixed), or_else()).is_err());
    assert_eq!(env.diagnostics.len(), 1);
    assert!(matches!(
        env.diagnostics[0].because,
        Because::ClassIsNotCopy(SymTyName::Aggregate(_))
    ));
    assert_eq!(require_copy(&db, &mut env, perm(both_copy), or_else()), Ok(()));
}

#[test]
fn our_my_is_copy_but_not_move() {
    let mut db = Db::new();
    let mut env = Env::new(None);
    let our = SymPerm::our(&mut db);
    let my = SymPerm::my(&mut db);
    let our_my = SymPerm::apply(&mut db, our, my);
    assert_eq!(is_provably_copy(&db, &env, perm(my)), Ok(false));
    assert_eq!(is_provably_copy(&db, &env, perm(our_my)), Ok(true));
    assert_eq!(is_provably_move(&db, &env, perm(our_my)), Ok(false));
    assert!(require_move(&db, &mut env, perm(our_my), or_else()).is_err());
    assert_eq!(require_copy(&db, &mut env, perm(our_my), or_else()), Ok(()));
    let my_my = SymPerm::apply(&mut db, my, my);
    assert_eq!(require_move(&db, &mut env, perm(my_my), or_else()), Ok(()));
}

#[test]
fn requiring_copy_of_an_inference_variable_records_it() {
    let mut db = Db::new();
    let mut env = Env::new(None);
    let v = env.fresh_infer(SymGenericKind::Type, Span::new(0, 1));
    let t = SymTy::infer(&mut db, v);
    assert_eq!(is_provably_copy(&db, &env, ty(t)), Ok(false));
    assert_eq!(require_copy(&db, &mut env, ty(t), or_else()), Ok(()));
    assert_eq!(is_provably_copy(&db, &env, ty(t)), Ok(true));
    assert!(env.infer_vars[0].is.copy);
    env.infer_vars[0].isnt.moves = true;
    assert!(require_move(&db, &mut env, ty(t), or_else()).is_err());
    assert_eq!(env.diagnostics.last().unwrap().because, Because::InferIsKnownNot(v, Predicate::Move));
}

#[test]
fn universal_variables_need_declared_predicates() {
    let mut db = Db::new();
    let mut env = Env::new(None);
    let var = db.add_variable(SymGenericKind::Type, None, Span::new(0, 1));
    let t = SymTy::var(&mut db, var);
    assert_eq!(is_provably_copy(&db, &env, ty(t)), Ok(false));
    assert_eq!(term_isnt_provably_copy(&db, &env, ty(t)), Ok(true));
    assert!(require_copy(&db, &mut env, ty(t), or_else()).is_err());
    env.declare(var, Predicate::Copy);
    assert_eq!(is_provably_copy(&db, &env, ty(t)), Ok(true));
    assert_eq!(term_isnt_provably_copy(&db, &env, ty(t)), Ok(false));
    assert_eq!(require_copy(&db, &mut env, ty(t), or_else()), Ok(()));
}

#[test]
fn isnt_provably_copy_is_the_dual_decision() {
    let mut db = Db::new();
    let env = Env::new(None);
    let my = SymPerm::my(&mut db);
    let our = SymPerm::our(&mut db);
    let u32_ty = SymTy::u32(&mut db);
    let (_, class) = class_ty(&mut db, "C", SymAggregateStyle::Class, vec![]);
    assert_eq!(term_isnt_provably_copy(&db, &env, perm(my)), Ok(true));
    assert_eq!(term_isnt_provably_copy(&db, &env, perm(our)), Ok(false));
    assert_eq!(term_isnt_provably_copy(&db, &env, ty(u32_ty)), Ok(false));
    assert_eq!(term_isnt_provably_copy(&db, &env, ty(class)), Ok(true));
    let our_my = SymPerm::apply(&mut db, our, my);
    assert_eq!(term_isnt_provably_copy(&db, &env, perm(our_my)), Ok(false));
    let my_my = SymPerm::apply(&mut db, my, my);
    assert_eq!(term_isnt_provably_copy(&db, &env, perm(my_my)), Ok(true));
    let mut env2 = Env::new(None);
    let v = env2.fresh_infer(SymGenericKind::Type, Span::new(0, 1));
    let t = SymTy::infer(&mut db, v);
    assert_eq!(is_provably_copy(&db, &env2, ty(t)), Ok(false));
    assert_eq!(term_isnt_provably_copy(&db, &env2, ty(t)), Ok(false));
}

#[test]
fn error_terms_short_circuit() {
    let mut db = Db::new();
    let mut env = Env::new(None);
    let reported = env.report(dada_ir_sym::expr_result::plain_diagnostic(DiagnosticKind::NotCallable, Span::new(0, 1)));
    let err = SymTy::err(&mut db, reported);
    assert_eq!(is_provably_copy(&db, &env, ty(err)), Err(reported));
    assert_eq!(require_copy(&db, &mut env, ty(err), or_else()), Err(reported));
    assert_eq!(env.diagnostics.len(), 1);
    assert_eq!(is_provably_copy(&db, &env, SymGenericTerm::Error(reported)), Err(reported));
}

#[test]
fn a_future_type_awaits_its_argument() {
    let mut db = Db::new();
    let mut env = Env::new(None);
    let u32_ty = SymTy::u32(&mut db);
    let future = SymTy::named(&mut db, SymTyName::Future, vec![ty(u32_ty)]);
    let v = env.fresh_infer(SymGenericKind::Type, Span::new(3, 4));
    let awaited = SymTy::infer(&mut db, v);
    let await_or_else = OrElse { kind: DiagnosticKind::AwaitNonFuture, span: Span::new(5, 6) };
    assert_eq!(require_future_type(&db, &mut env, future, awaited, await_or_else), Some(Ok(())));
    assert_eq!(
        env.obligations.last(),
        Some(&Obligation::SubTerms { sub: u32_ty, sup: awaited, or_else: await_or_else })
    );
    assert!(matches!(require_future_type(&db, &mut env, u32_ty, awaited, await_or_else), Some(Err(_))));
    assert_eq!(env.diagnostics.last().unwrap().because, Because::JustSo);
    assert_eq!(env.diagnostics.last().unwrap().kind, DiagnosticKind::AwaitNonFuture);
}

#[test]
fn a_future_type_is_judged_by_the_lower_bound_of_an_inference_variable() {
    let mut db = Db::new();
    let mut env = Env::new(None);
    let u32_ty = SymTy::u32(&mut db);
    let future = SymTy::named(&mut db, SymTyName::Future, vec![ty(u32_ty)]);
    let v = env.fresh_infer(SymGenericKind::Type, Span::new(3, 4));
    let w = env.fresh_infer(SymGenericKind::Type, Span::new(7, 8));
    let infer_v = SymTy::infer(&mut db, v);
    let infer_w = SymTy::infer(&mut db, w);
    let await_or_else = OrElse { kind: DiagnosticKind::AwaitNonFuture, span: Span::new(5, 6) };
    let before = env.diagnostics.len();
    assert_eq!(require_future_type(&db, &mut env, infer_v, infer_w, await_or_else), None);
    assert_eq!(env.diagnostics.len(), before);
    env.infer_vars[v.index].lower_bound = Some(future);
    assert_eq!(require_future_type(&db, &mut env, infer_v, infer_w, await_or_else), Some(Ok(())));
    env.infer_vars[v.index].lower_bound = Some(u32_ty);
    assert!(matches!(require_future_type(&db, &mut env, infer_v, infer_w, await_or_else), Some(Err(_))));
    assert_eq!(env.diagnostics.last().unwrap().because, Because::InferredLowerBound(u32_ty));
}

#[test]
fn deferred_where_clauses_run_through_the_predicate_engine() {
    let mut db = Db::new();
    let mut env = Env::new(None);
    let u32_ty = SymTy::u32(&mut db);
    let (_, class) = class_ty(&mut db, "C", SymAggregateStyle::Class, vec![]);
    let copy_u32 = Obligation::WhereClause { term: ty(u32_ty), pred: Predicate::Copy, or_else: or_else() };
    assert_eq!(run_obligation(&db, &mut env, copy_u32), ObligationOutcome::Decided(Ok(())));
    let copy_class = Obligation::WhereClause { term: ty(class), pred: Predicate::Copy, or_else: or_else() };
    assert!(matches!(run_obligation(&db, &mut env, copy_class), ObligationOutcome::Decided(Err(_))));
    assert_eq!(env.diagnostics.len(), 1);
    let equal = Obligation::EqualTypes { lhs: u32_ty, rhs: class, or_else: or_else() };
    assert_eq!(run_obligation(&db, &mut env, equal), ObligationOutcome::NotDecidedHere);
    assert_eq!(env.diagnostics.len(), 1);
}

#[test]
fn a_future_type_follows_chains_of_lower_bounds() {
    let mut db = Db::new();
    let mut env = Env::new(None);
    let u32_ty = SymTy::u32(&mut db);
    let future = SymTy::named(&mut db, SymTyName::Future, vec![ty(u32_ty)]);
    let v = env.fresh_infer(SymGenericKind::Type, Span::new(3, 4));
    let w = env.fresh_infer(SymGenericKind::Type, Span::new(7, 8));
    let awaited_var = env.fresh_infer(SymGenericKind::Type, Span::new(9, 10));
    let infer_v = SymTy::infer(&mut db, v);
    let infer_w = SymTy::infer(&mut db, w);
    let awaited = SymTy::infer(&mut db, awaited_var);
    let await_or_else = OrElse { kind: DiagnosticKind::AwaitNonFuture, span: Span::new(5, 6) };
    env.infer_vars[v.index].lower_bound = Some(infer_w);
    env.infer_vars[w.index].lower_bound = Some(future);
    assert_eq!(require_future_type(&db, &mut env, infer_v, awaited, await_or_else), Some(Ok(())));
    env.infer_vars[w.index].lower_bound = Some(infer_v);
    assert_eq!(require_future_type(&db, &mut env, infer_v, awaited, await_or_else), None);
}
