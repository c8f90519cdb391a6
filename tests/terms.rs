use dada_ir_sym::ast::{AstGenericDecl, AstGenericKind, AstPerm, AstPermKind};
use dada_ir_sym::class::{Class, SymAggregateStyle};
use dada_ir_sym::db::{Db, Term};
use dada_ir_sym::generic::{AssertKind, HasKind};
use dada_ir_sym::diagnostic::Reported;
use dada_ir_sym::span::Span;
use dada_ir_sym::subst::subst_ty;
use dada_ir_sym::types::{
    InferVarIndex, SymGenericKind, SymGenericTerm, SymPerm, SymPermKind, SymPlace, SymPrimitive,
    SymTy, SymTyKind, SymTyName,
};
use dada_ir_sym::universe::Universe;
use dada_ir_sym::word::Word;

fn span(start: u32, end: u32) -> Span {
    Span::new(start, end)
}

fn perm_kind(db: &Db, p: SymPerm) -> &SymPermKind {
    match &db.terms[p.id] {
        Term::Perm(k) => k,
        _ => panic!("not a permission"),
    }
}

fn ty_kind(db: &Db, t: SymTy) -> &SymTyKind {
    match &db.terms[t.id] {
        Term::Ty(k) => k,
        _ => panic!("not a type"),
    }
}

#[test]
fn unit_twice_is_the_same_type() {
    let mut db = Db::new();
    let a = SymTy::unit(&mut db);
    let n = db.terms.len();
    let b = SymTy::unit(&mut db);
    assert_eq!(a, b);
    assert_eq!(db.terms.len(), n);
    match ty_kind(&db, a) {
        SymTyKind::Named(SymTyName::Tuple { arity: 0 }, args) => assert!(args.is_empty()),
        _ => panic!("unit is not the empty tuple"),
    }
}

#[test]
fn never_twice_is_the_same_type() {
    let mut db = Db::new();
    let a = SymTy::never(&mut db);
    let b = SymTy::never(&mut db);
    assert_eq!(a, b);
    assert!(matches!(ty_kind(&db, a), SymTyKind::Never));
    assert_ne!(a, SymTy::unit(&mut db));
}

#[test]
fn structurally_equal_types_are_identical() {
    let mut db = Db::new();
    let u8_a = SymTy::u8(&mut db);
    let u8_b = SymTy::primitive(&mut db, SymPrimitive::Uint { bits: 8 });
    assert_eq!(u8_a, u8_b);
    let u32_ty = SymTy::u32(&mut db);
    assert_ne!(u8_a, u32_ty);
    let t1 = SymTy::named(&mut db, SymTyName::Tuple { arity: 2 }, vec![u8_a.into_term(), u32_ty.into_term()]);
    let t2 = SymTy::named(&mut db, SymTyName::Tuple { arity: 2 }, vec![u8_b.into_term(), u32_ty.into_term()]);
    let t3 = SymTy::named(&mut db, SymTyName::Tuple { arity: 2 }, vec![u32_ty.into_term(), u8_a.into_term()]);
    assert_eq!(t1, t2);
    assert_ne!(t1, t3);
    let p1 = SymPerm::our(&mut db);
    let p2 = SymPerm::our(&mut db);
    assert_eq!(p1, p2);
}

trait IntoTerm {
    fn into_term(self) -> SymGenericTerm;
}

impl IntoTerm for SymTy {
    fn into_term(self) -> SymGenericTerm {
        SymGenericTerm::Type(self)
    }
}

#[test]
fn my_applied_to_a_type_leaves_it_alone() {
    let mut db = Db::new();
    let ty = SymTy::u32(&mut db);
    let my = SymPerm::my(&mut db);
    assert_eq!(my.apply_to_ty(&mut db, ty), ty);
    let our = SymPerm::our(&mut db);
    let our_ty = our.apply_to_ty(&mut db, ty);
    assert_ne!(our_ty, ty);
    match ty_kind(&db, our_ty) {
        SymTyKind::Perm(p, t) => {
            assert_eq!(*p, our);
            assert_eq!(*t, ty);
        }
        _ => panic!("expected a permission type"),
    }
}

#[test]
fn leaves_flatten_applications_left_to_right() {
    let mut db = Db::new();
    let ty = SymTy::u32(&mut db);
    let x_var = db.add_variable(SymGenericKind::Place, None, span(0, 1));
    let y_var = db.add_variable(SymGenericKind::Place, None, span(2, 3));
    let x = SymPlace::var(&mut db, x_var, ty);
    let y = SymPlace::var(&mut db, y_var, ty);
    let shared_x = SymPerm::shared(&mut db, vec![x]);
    let leased_y = SymPerm::leased(&mut db, vec![y]);
    let our = SymPerm::our(&mut db);
    let inner = SymPerm::apply(&mut db, shared_x, leased_y);
    let outer = SymPerm::apply(&mut db, inner, our);
    assert_eq!(outer.leaves(&db), vec![shared_x, leased_y, our]);
    let other = SymPerm::apply(&mut db, our, inner);
    assert_eq!(other.leaves(&db), vec![our, shared_x, leased_y]);
    assert_eq!(our.leaves(&db), vec![our]);
    assert!(matches!(perm_kind(&db, shared_x), SymPermKind::Shared(ps) if ps == &vec![x]));
}

#[test]
fn a_place_covers_its_fields() {
    let mut db = Db::new();
    let ty = SymTy::u32(&mut db);
    let a_var = db.add_variable(SymGenericKind::Place, None, span(0, 1));
    let b_var = db.add_variable(SymGenericKind::Place, None, span(2, 3));
    let a = SymPlace::var(&mut db, a_var, ty);
    let b = SymPlace::var(&mut db, b_var, ty);
    let name = Word::intern(&mut db, "f");
    let f = db.add_field(name, ty);
    let a_f = a.field(&mut db, f);
    assert!(a.no_inference_vars(&db));
    assert!(a_f.no_inference_vars(&db));
    assert!(a.covers(&db, a));
    assert!(a.covers(&db, a_f));
    assert!(!a_f.covers(&db, a));
    assert!(!b.covers(&db, a_f));
    assert!(a_f.is_covered_by(&db, a));
    assert!(!a.is_covered_by(&db, a_f));
}

#[test]
fn inference_places_are_detected() {
    let mut db = Db::new();
    let ty = SymTy::u32(&mut db);
    let infer = SymPlace::new(
        &mut db,
        dada_ir_sym::types::SymPlaceKind::Infer(InferVarIndex { index: 0 }),
        ty,
    );
    let name = Word::intern(&mut db, "f");
    let f = db.add_field(name, ty);
    let infer_f = infer.field(&mut db, f);
    assert!(!infer.no_inference_vars(&db));
    assert!(!infer_f.no_inference_vars(&db));
}

#[test]
fn generic_terms_report_their_kinds() {
    let mut db = Db::new();
    let ty = SymTy::u32(&mut db);
    let perm = SymPerm::our(&mut db);
    let t = SymGenericTerm::Type(ty);
    let p = SymGenericTerm::Perm(perm);
    let e = SymGenericTerm::Error(Reported { index: 3 });
    assert_eq!(t.kind(), Ok(SymGenericKind::Type));
    assert_eq!(p.kind(), Ok(SymGenericKind::Perm));
    assert_eq!(e.kind(), Err(Reported { index: 3 }));
    assert!(t.is_of_kind(SymGenericKind::Type));
    assert!(!t.is_of_kind(SymGenericKind::Perm));
    assert!(e.is_of_kind(SymGenericKind::Place));
    assert!(HasKind::has_kind(&ty, SymGenericKind::Type));
    assert!(!HasKind::has_kind(&perm, SymGenericKind::Type));
    assert_eq!(t.assert_type(&mut db), ty);
    let err_ty: SymTy = e.assert_kind(&mut db);
    assert!(matches!(ty_kind(&db, err_ty), SymTyKind::Error(Reported { index: 3 })));
    let err_perm: SymPerm = e.assert_kind(&mut db);
    assert!(matches!(perm_kind(&db, err_perm), SymPermKind::Error(Reported { index: 3 })));
}

#[test]
fn as_infer_finds_inference_variables() {
    let mut db = Db::new();
    let v = InferVarIndex { index: 7 };
    let infer_ty = SymTy::infer(&mut db, v);
    let infer_perm = SymPerm::infer(&mut db, v);
    let ty = SymTy::u32(&mut db);
    assert_eq!(SymGenericTerm::Type(infer_ty).as_infer(&db), Some(v));
    assert_eq!(SymGenericTerm::Perm(infer_perm).as_infer(&db), Some(v));
    assert_eq!(SymGenericTerm::Type(ty).as_infer(&db), None);
    assert_eq!(SymGenericTerm::Error(Reported { index: 0 }).as_infer(&db), None);
}

#[test]
fn substitution_replaces_variables() {
    let mut db = Db::new();
    let t_var = db.add_variable(SymGenericKind::Type, None, span(0, 1));
    let t = SymTy::var(&mut db, t_var);
    let our = SymPerm::our(&mut db);
    let our_t = SymTy::perm(&mut db, our, t);
    let u32_ty = SymTy::u32(&mut db);
    let sub = vec![(t_var, SymGenericTerm::Type(u32_ty))];
    assert_eq!(subst_ty(&mut db, t, &sub), u32_ty);
    let our_u32 = SymTy::perm(&mut db, our, u32_ty);
    assert_eq!(subst_ty(&mut db, our_t, &sub), our_u32);
    let untouched = SymTy::boolean(&mut db);
    assert_eq!(subst_ty(&mut db, untouched, &sub), untouched);
}

#[test]
fn words_are_interned() {
    let mut db = Db::new();
    let a = Word::intern(&mut db, "hello");
    let b = Word::intern(&mut db, String::from("hello"));
    let c = Word::intern(&mut db, "world");
    assert_eq!(a, b);
    assert_ne!(a, c);
    assert_eq!(a.as_str(&db), "hello");
    assert_eq!(c.as_str(&db), "world");
    assert_eq!(a.len(&db), 5);
    let accented = Word::intern(&mut db, "héllo");
    assert_eq!(accented.len(&db), 6);
}

#[test]
fn class_name_span_is_its_declared_name() {
    let mut db = Db::new();
    let name = Word::intern(&mut db, "Point");
    let class = Class {
        name,
        style: SymAggregateStyle::Class,
        name_decl_span: span(6, 11),
        span: span(0, 30),
    };
    assert_eq!(class.name_span(), span(6, 11));
    let aggregate = db.add_class(class);
    assert_eq!(aggregate.style, SymAggregateStyle::Class);
    assert_eq!(db.class(aggregate).name_span(), span(6, 11));
}

#[test]
fn universes_count_up_from_the_root() {
    let root = Universe::root();
    assert_eq!(root.level(), 1);
    let next = root.next();
    assert_eq!(next.level(), 2);
    assert_eq!(next.next().level(), 3);
    assert!(next.contains(root));
    assert!(!root.contains(next));
    assert!(root.contains(root));
}

#[test]
fn generic_declarations_declare_variables() {
    let mut db = Db::new();
    let t = Word::intern(&mut db, "T");
    let decl = AstGenericDecl { kind: AstGenericKind::Perm, name: Some(t), span: span(4, 5) };
    let v = decl.symbol(&mut db);
    assert_eq!(db.variables[v.id].kind, SymGenericKind::Perm);
    assert_eq!(db.variables[v.id].name, Some(t));
    assert_eq!(AstGenericKind::Type.symbol(), SymGenericKind::Type);
    let shared = AstPerm { kind: AstPermKind::AnonymousShared, span: span(7, 13) };
    let p = shared.anonymous_perm_symbol(&mut db);
    assert_ne!(p, v);
    assert_eq!(db.variables[p.id].kind, SymGenericKind::Perm);
    assert_eq!(db.variables[p.id].span, span(7, 13));
}

#[test]
fn a_place_covers_its_index_places() {
    let mut db = Db::new();
    let ty = SymTy::u32(&mut db);
    let a_var = db.add_variable(SymGenericKind::Place, None, span(0, 1));
    let a = SymPlace::var(&mut db, a_var, ty);
    let a_i = a.index(&mut db, ty);
    let name = Word::intern(&mut db, "f");
    let f = db.add_field(name, ty);
    let a_i_f = a_i.field(&mut db, f);
    assert!(a.covers(&db, a_i));
    assert!(a.covers(&db, a_i_f));
    assert!(a_i.covers(&db, a_i_f));
    assert!(!a_i.covers(&db, a));
    assert!(a_i.is_covered_by(&db, a));
}
