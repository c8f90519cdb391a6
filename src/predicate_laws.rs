use vstd::prelude::*;
use crate::class::SymAggregateStyle;
use crate::db::Db;
use crate::diagnostic::{Because, OrElse, Predicate};
use crate::env::{EnvModel, facts_consistent, lemma_infer_facts_exclusive, report};
use crate::isnt_copy::{generics_all_isnt_copy, perm_isnt_copy, place_isnt_copy, places_any_isnt_copy, term_isnt_copy, ty_isnt_copy};
use crate::predicates::{generic_id, lemma_generics_before, lemma_places_before, places_all};
use crate::db::{generics_in, places_in};
use crate::diagnostic::Reported;
use crate::predicates::{either, both, generics_any, perm_is, place_is, term_is, ty_is};
use crate::require::{require_perm, require_place, require_places, require_term};
use crate::terms::lemma_children;
use crate::types::{SymGenericTerm, SymPerm, SymPermKind, SymPlace, SymTy, SymTyKind};

verus! {

/// A type whose head is a primitive, a class or a future is copy exactly when
/// it is not move: these categories are mutually exclusive.
pub proof fn nominal_types_are_copy_or_move(db: Db, s: EnvModel, t: SymTy)
    requires
        db.wf(),
        db.is_ty(t),
        db.ty_kind(t) is Named,
        ({
            let name = db.ty_kind(t)->Named_0;
            name is Primitive || name is Future || (name is Aggregate
                && name->Aggregate_0.style == SymAggregateStyle::Class)
        }),
    ensures
        ty_is(db, s, t, Predicate::Copy) is Ok,
        ty_is(db, s, t, Predicate::Move) is Ok,
        ty_is(db, s, t, Predicate::Copy)->Ok_0 == !ty_is(db, s, t, Predicate::Move)->Ok_0,
{
}

/// A struct or tuple with two arguments has each predicate when one of its
/// arguments has it (tested left to right): it can be copy and move at once.
pub proof fn two_argument_aggregates_take_either_argument(
    db: Db,
    s: EnvModel,
    t: SymTy,
    a: SymGenericTerm,
    b: SymGenericTerm,
    pred: Predicate,
)
    requires
        db.wf(),
        db.is_ty(t),
        db.ty_kind(t) is Named,
        db.ty_kind(t)->Named_1@ == seq![a, b],
        ({
            let name = db.ty_kind(t)->Named_0;
            name is Tuple || (name is Aggregate && name->Aggregate_0.style
                == SymAggregateStyle::Struct)
        }),
    ensures
        ty_is(db, s, t, pred) == either(term_is(db, s, a, pred), term_is(db, s, b, pred)),
{
    lemma_children(db, t.id as int);
    let gs = seq![a, b];
    assert(crate::db::generic_in(db.terms@.take(t.id as int), gs[0]));
    assert(crate::db::generic_in(db.terms@.take(t.id as int), gs[1]));
    assert(gs.drop_last() =~= seq![a]);
    assert(seq![a].drop_last() =~= Seq::<SymGenericTerm>::empty());
    assert(generics_any(db, s, t.id as int, Seq::empty(), pred) == Ok::<bool, crate::diagnostic::Reported>(false));
    assert(generics_any(db, s, t.id as int, seq![a], pred) == term_is(db, s, a, pred));
    assert(generics_any(db, s, t.id as int, gs, pred) == either(
        term_is(db, s, a, pred),
        term_is(db, s, b, pred),
    ));
}

/// `my` is never copy and always move; `our` and `shared` are always copy and
/// never move. Requiring the impossible one reports a plain failure.
pub proof fn base_permissions_require(db: Db, s: EnvModel, p: SymPerm, or_else: OrElse)
    requires
        db.wf(),
        db.is_perm(p),
    ensures
        db.perm_kind(p) is My ==> require_perm(db, s, p, Predicate::Copy, or_else) == report(
            s,
            or_else.diagnostic(Because::JustSo),
        ),
        db.perm_kind(p) is My ==> require_perm(db, s, p, Predicate::Move, or_else) == (s, Ok::<
            (),
            crate::diagnostic::Reported,
        >(())),
        (db.perm_kind(p) is Our || db.perm_kind(p) is Shared) ==> require_perm(
            db,
            s,
            p,
            Predicate::Copy,
            or_else,
        ) == (s, Ok::<(), crate::diagnostic::Reported>(())),
        (db.perm_kind(p) is Our || db.perm_kind(p) is Shared) ==> require_perm(
            db,
            s,
            p,
            Predicate::Move,
            or_else,
        ) == report(s, or_else.diagnostic(Because::JustSo)),
        require_term(db, s, SymGenericTerm::Perm(p), Predicate::Copy, or_else) == require_perm(
            db,
            s,
            p,
            Predicate::Copy,
            or_else,
        ),
{
}

/// A lease of two places is copy (or move) exactly when both places are.
pub proof fn lease_of_two_places_needs_both(
    db: Db,
    s: EnvModel,
    p: SymPerm,
    p1: SymPlace,
    p2: SymPlace,
    pred: Predicate,
)
    requires
        db.wf(),
        db.is_perm(p),
        db.perm_kind(p) is Leased,
        db.perm_kind(p)->Leased_0@ == seq![p1, p2],
    ensures
        perm_is(db, s, p, pred) == both(place_is(db, s, p1, pred), place_is(db, s, p2, pred)),
        place_is(db, s, p1, pred) == Ok::<bool, crate::diagnostic::Reported>(true) && place_is(
            db,
            s,
            p2,
            pred,
        ) == Ok::<bool, crate::diagnostic::Reported>(false) ==> perm_is(db, s, p, pred) == Ok::<
            bool,
            crate::diagnostic::Reported,
        >(false),
{
    lemma_children(db, p.id as int);
    let ps = seq![p1, p2];
    assert(crate::db::place_in(db.terms@.take(p.id as int), ps[0]));
    assert(crate::db::place_in(db.terms@.take(p.id as int), ps[1]));
    assert(ps.drop_last() =~= seq![p1]);
    assert(seq![p1].drop_last() =~= Seq::<SymPlace>::empty());
    let owner = p.id as int;
    assert(crate::predicates::places_all(db, s, owner, Seq::empty(), pred) == Ok::<bool, crate::diagnostic::Reported>(true));
    assert(crate::predicates::places_all(db, s, owner, seq![p1], pred) == place_is(db, s, p1, pred));
    assert(crate::predicates::places_all(db, s, owner, ps, pred) == both(
        place_is(db, s, p1, pred),
        place_is(db, s, p2, pred),
    ));
}

/// `our my` is copy, since one side is, but requiring it to be move fails,
/// since `our` is not move.
pub proof fn our_my_is_copy_but_not_move(db: Db, s: EnvModel, p: SymPerm, a: SymPerm, b: SymPerm, or_else: OrElse)
    requires
        db.wf(),
        db.is_perm(p),
        db.perm_kind(p) == SymPermKind::Apply(a, b),
        db.perm_kind(a) is Our,
        db.perm_kind(b) is My,
    ensures
        perm_is(db, s, p, Predicate::Copy) == Ok::<bool, crate::diagnostic::Reported>(true),
        perm_is(db, s, b, Predicate::Copy) == Ok::<bool, crate::diagnostic::Reported>(false),
        require_perm(db, s, p, Predicate::Move, or_else).1 is Err,
{
    lemma_children(db, p.id as int);
    assert(db.is_perm(a) && db.is_perm(b));
    assert(perm_is(db, s, a, Predicate::Copy) == Ok::<bool, crate::diagnostic::Reported>(true));
    assert(perm_is(db, s, b, Predicate::Copy) == Ok::<bool, crate::diagnostic::Reported>(false));
    assert(require_perm(db, s, a, Predicate::Move, or_else).1 is Err);
}

/// Requiring a lease of two places to be copy requires it of each place: with
/// the first place of a primitive type and the second of a class type, it
/// fails, citing the class of the second place.
pub proof fn lease_requires_copy_of_each_place(
    db: Db,
    s: EnvModel,
    p: SymPerm,
    p1: SymPlace,
    p2: SymPlace,
    or_else: OrElse,
)
    requires
        db.wf(),
        db.is_perm(p),
        db.perm_kind(p) is Leased,
        db.perm_kind(p)->Leased_0@ == seq![p1, p2],
        db.ty_kind(db.place_ty(p1)) is Named,
        db.ty_kind(db.place_ty(p1))->Named_0 is Primitive,
        db.ty_kind(db.place_ty(p2)) is Named,
        db.ty_kind(db.place_ty(p2))->Named_0 is Aggregate,
        db.ty_kind(db.place_ty(p2))->Named_0->Aggregate_0.style == SymAggregateStyle::Class,
    ensures
        require_perm(db, s, p, Predicate::Copy, or_else) == report(
            s,
            or_else.diagnostic(Because::ClassIsNotCopy(db.ty_kind(db.place_ty(p2))->Named_0)),
        ),
{
    lemma_children(db, p.id as int);
    let ps = seq![p1, p2];
    assert(crate::db::place_in(db.terms@.take(p.id as int), ps[0]));
    assert(crate::db::place_in(db.terms@.take(p.id as int), ps[1]));
    lemma_children(db, p1.id as int);
    lemma_children(db, p2.id as int);
    assert(ps.drop_last() =~= seq![p1]);
    assert(seq![p1].drop_last() =~= Seq::<SymPlace>::empty());
    let owner = p.id as int;
    let oe = or_else;
    assert(require_places(db, s, owner, Seq::empty(), Predicate::Copy, oe) == (s, Ok::<(), crate::diagnostic::Reported>(())));
    assert(require_place(db, s, p1, Predicate::Copy, oe) == (s, Ok::<(), crate::diagnostic::Reported>(())));
    assert(require_places(db, s, owner, seq![p1], Predicate::Copy, oe) == (s, Ok::<(), crate::diagnostic::Reported>(())));
    assert(require_place(db, s, p2, Predicate::Copy, oe) == report(
        s,
        oe.diagnostic(Because::ClassIsNotCopy(db.ty_kind(db.place_ty(p2))->Named_0)),
    ));
    assert(require_places(db, s, owner, ps, Predicate::Copy, oe) == report(
        s,
        oe.diagnostic(Because::ClassIsNotCopy(db.ty_kind(db.place_ty(p2))->Named_0)),
    ));
}

/// With consistent facts about inference variables, a term is never both
/// provably copy and provably not copy.
pub proof fn isnt_copy_excludes_copy(db: Db, s: EnvModel, g: SymGenericTerm)
    requires
        db.wf(),
        db.is_generic(g),
        facts_consistent(s),
    ensures
        term_isnt_copy(db, s, g) == Ok::<bool, Reported>(true) ==> term_is(db, s, g, Predicate::Copy)
            != Ok::<bool, Reported>(true),
    decreases generic_id(g) + 1, 1int,
{
    match g {
        SymGenericTerm::Type(t) => lemma_ty_exclusive(db, s, t),
        SymGenericTerm::Perm(p) => lemma_perm_exclusive(db, s, p),
        _ => {},
    }
}

proof fn lemma_ty_exclusive(db: Db, s: EnvModel, t: SymTy)
    requires
        db.wf(),
        db.is_ty(t),
        facts_consistent(s),
    ensures
        ty_isnt_copy(db, s, t) == Ok::<bool, Reported>(true) ==> ty_is(db, s, t, Predicate::Copy) != Ok::<
            bool,
            Reported,
        >(true),
    decreases t.id + 1, 0int,
{
    lemma_children(db, t.id as int);
    match db.ty_kind(t) {
        SymTyKind::Perm(p, x) => {
            lemma_perm_exclusive(db, s, p);
            lemma_ty_exclusive(db, s, x);
        },
        SymTyKind::Infer(v) => lemma_infer_facts_exclusive(s, v, Predicate::Copy),
        SymTyKind::Named(_, gs) => {
            lemma_generics_exclusive(db, s, t.id as int, gs@);
        },
        _ => {},
    }
}

proof fn lemma_generics_exclusive(db: Db, s: EnvModel, owner: int, gs: Seq<SymGenericTerm>)
    requires
        db.wf(),
        0 <= owner <= db.terms@.len(),
        generics_in(db.terms@.take(owner), gs),
        facts_consistent(s),
    ensures
        generics_all_isnt_copy(db, s, owner, gs) == Ok::<bool, Reported>(true) ==> generics_any(
            db,
            s,
            owner,
            gs,
            Predicate::Copy,
        ) != Ok::<bool, Reported>(true),
    decreases owner, gs.len() + 1,
{
    if gs.len() > 0 {
        assert(generics_in(db.terms@.take(owner), gs.drop_last()));
        lemma_generics_exclusive(db, s, owner, gs.drop_last());
        lemma_generics_before(db, owner, gs, gs.len() - 1);
        let last = gs.last();
        if !(last is Error) && 0 <= generic_id(last) < owner {
            isnt_copy_excludes_copy(db, s, last);
        }
    }
}

proof fn lemma_perm_exclusive(db: Db, s: EnvModel, p: SymPerm)
    requires
        db.wf(),
        db.is_perm(p),
        facts_consistent(s),
    ensures
        perm_isnt_copy(db, s, p) == Ok::<bool, Reported>(true) ==> perm_is(db, s, p, Predicate::Copy)
            != Ok::<bool, Reported>(true),
    decreases p.id + 1, 0int,
{
    lemma_children(db, p.id as int);
    match db.perm_kind(p) {
        SymPermKind::Apply(a, b) => {
            lemma_perm_exclusive(db, s, a);
            lemma_perm_exclusive(db, s, b);
        },
        SymPermKind::Infer(v) => lemma_infer_facts_exclusive(s, v, Predicate::Copy),
        SymPermKind::Leased(ps) => lemma_places_exclusive(db, s, p.id as int, ps@),
        _ => {},
    }
}

proof fn lemma_places_exclusive(db: Db, s: EnvModel, owner: int, ps: Seq<SymPlace>)
    requires
        db.wf(),
        0 <= owner <= db.terms@.len(),
        places_in(db.terms@.take(owner), ps),
        facts_consistent(s),
    ensures
        places_any_isnt_copy(db, s, owner, ps) == Ok::<bool, Reported>(true) ==> places_all(
            db,
            s,
            owner,
            ps,
            Predicate::Copy,
        ) != Ok::<bool, Reported>(true),
    decreases owner, ps.len() + 1,
{
    if ps.len() > 0 {
        assert(places_in(db.terms@.take(owner), ps.drop_last()));
        lemma_places_exclusive(db, s, owner, ps.drop_last());
        lemma_places_before(db, owner, ps, ps.len() - 1);
        if ps.last().id < owner {
            lemma_place_exclusive(db, s, ps.last());
        }
    }
}

proof fn lemma_place_exclusive(db: Db, s: EnvModel, p: SymPlace)
    requires
        db.wf(),
        db.is_place(p),
        facts_consistent(s),
    ensures
        place_isnt_copy(db, s, p) == Ok::<bool, Reported>(true) ==> place_is(db, s, p, Predicate::Copy)
            != Ok::<bool, Reported>(true),
    decreases p.id + 1, 0int,
{
    lemma_children(db, p.id as int);
    if db.place_ty(p).id < p.id {
        lemma_ty_exclusive(db, s, db.place_ty(p));
    }
}

} // verus!
