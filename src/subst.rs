use vstd::prelude::*;
use crate::db::{Db, Term, generic_in};
use crate::terms::lemma_children;
use crate::types::{
    SymGenericTerm, SymPerm, SymPermKind, SymPlace, SymPlaceKind, SymTy, SymTyKind, SymVariable,
};

verus! {

/// A substitution: each variable stands for the term paired with it.
pub type Substitution = Vec<(SymVariable, SymGenericTerm)>;

/// The term that `v` stands for, the first pairing of `v` if several.
pub open spec fn subst_lookup(sub: Seq<(SymVariable, SymGenericTerm)>, v: SymVariable) -> Option<
    SymGenericTerm,
>
    decreases sub.len(),
{
    if sub.len() == 0 {
        None
    } else if sub[0].0 == v {
        Some(sub[0].1)
    } else {
        subst_lookup(sub.drop_first(), v)
    }
}

/// `r` is `t` with the substitution applied, structurally: each variable that
/// `sub` maps is replaced by its term (an error term gives the error type), and
/// permissions and arguments are substituted in turn. `db` holds both.
pub open spec fn ty_substituted(db: Db, sub: Seq<(SymVariable, SymGenericTerm)>, t: SymTy, r: SymTy) -> bool
    decreases t.id, 1int,
{
    &&& db.is_ty(t)
    &&& db.is_ty(r)
    &&& match db.ty_kind(t) {
        SymTyKind::Var(v) => match subst_lookup(sub, v) {
            Some(SymGenericTerm::Type(x)) => r == x,
            Some(SymGenericTerm::Error(e)) => db.ty_kind(r) == SymTyKind::Error(e),
            _ => r == t,
        },
        SymTyKind::Perm(p, x) => db.ty_kind(r) is Perm && p.id < t.id && x.id < t.id && perm_substituted(
            db,
            sub,
            p,
            db.ty_kind(r)->Perm_0,
        ) && ty_substituted(db, sub, x, db.ty_kind(r)->Perm_1),
        SymTyKind::Named(n, args) => db.ty_kind(r) is Named && db.ty_kind(r)->Named_0 == n
            && db.ty_kind(r)->Named_1@.len() == args@.len() && forall|k: int|
            0 <= k < args@.len() ==> generic_substituted_below(
                db,
                sub,
                t.id as int,
                #[trigger] args@[k],
                db.ty_kind(r)->Named_1@[k],
            ),
        _ => r == t,
    }
}

/// `r` is the generic term `g`, below `bound`, substituted.
pub open spec fn generic_substituted_below(
    db: Db,
    sub: Seq<(SymVariable, SymGenericTerm)>,
    bound: int,
    g: SymGenericTerm,
    r: SymGenericTerm,
) -> bool
    decreases bound, 0int,
{
    match g {
        SymGenericTerm::Type(a) => a.id < bound && r is Type && ty_substituted(db, sub, a, r->Type_0),
        SymGenericTerm::Perm(a) => a.id < bound && r is Perm && perm_substituted(db, sub, a, r->Perm_0),
        SymGenericTerm::Place(a) => a.id < bound && r is Place && place_substituted(db, sub, a, r->Place_0),
        SymGenericTerm::Error(_) => r == g,
    }
}

/// `r` is the place `q`, below `bound`, substituted.
pub open spec fn place_substituted_below(
    db: Db,
    sub: Seq<(SymVariable, SymGenericTerm)>,
    bound: int,
    q: SymPlace,
    r: SymPlace,
) -> bool
    decreases bound, 0int,
{
    q.id < bound && place_substituted(db, sub, q, r)
}

/// `r` is the permission `p` with the substitution applied.
pub open spec fn perm_substituted(db: Db, sub: Seq<(SymVariable, SymGenericTerm)>, p: SymPerm, r: SymPerm) -> bool
    decreases p.id, 1int,
{
    &&& db.is_perm(p)
    &&& db.is_perm(r)
    &&& match db.perm_kind(p) {
        SymPermKind::Var(v) => match subst_lookup(sub, v) {
            Some(SymGenericTerm::Perm(x)) => r == x,
            Some(SymGenericTerm::Error(e)) => db.perm_kind(r) == SymPermKind::Error(e),
            _ => r == p,
        },
        SymPermKind::Apply(a, b) => db.perm_kind(r) is Apply && a.id < p.id && b.id < p.id
            && perm_substituted(db, sub, a, db.perm_kind(r)->Apply_0) && perm_substituted(
            db,
            sub,
            b,
            db.perm_kind(r)->Apply_1,
        ),
        SymPermKind::Shared(ps) => db.perm_kind(r) is Shared && db.perm_kind(r)->Shared_0@.len()
            == ps@.len() && forall|k: int|
            0 <= k < ps@.len() ==> place_substituted_below(
                db,
                sub,
                p.id as int,
                #[trigger] ps@[k],
                db.perm_kind(r)->Shared_0@[k],
            ),
        SymPermKind::Leased(ps) => db.perm_kind(r) is Leased && db.perm_kind(r)->Leased_0@.len()
            == ps@.len() && forall|k: int|
            0 <= k < ps@.len() ==> place_substituted_below(
                db,
                sub,
                p.id as int,
                #[trigger] ps@[k],
                db.perm_kind(r)->Leased_0@[k],
            ),
        _ => r == p,
    }
}

/// `r` is the place `q` with the substitution applied, its type included.
pub open spec fn place_substituted(db: Db, sub: Seq<(SymVariable, SymGenericTerm)>, q: SymPlace, r: SymPlace) -> bool
    decreases q.id, 1int,
{
    &&& db.is_place(q)
    &&& db.is_place(r)
    &&& match db.place_kind(q) {
        SymPlaceKind::Var(v) => match subst_lookup(sub, v) {
            Some(SymGenericTerm::Place(x)) => r == x,
            _ => r == q,
        },
        SymPlaceKind::Field(base, f) => db.place_kind(r) is Field && db.place_kind(r)->Field_1 == f
            && base.id < q.id && db.place_ty(q).id < q.id && place_substituted(
            db,
            sub,
            base,
            db.place_kind(r)->Field_0,
        ) && ty_substituted(db, sub, db.place_ty(q), db.place_ty(r)),
        SymPlaceKind::Index(base) => db.place_kind(r) is Index && base.id < q.id && db.place_ty(q).id
            < q.id && place_substituted(db, sub, base, db.place_kind(r)->Index_0) && ty_substituted(
            db,
            sub,
            db.place_ty(q),
            db.place_ty(r),
        ),
        _ => r == q,
    }
}

pub proof fn lemma_ty_substituted_extends(
    d1: Db,
    d2: Db,
    sub: Seq<(SymVariable, SymGenericTerm)>,
    t: SymTy,
    r: SymTy,
)
    requires
        d2.extends(d1),
        ty_substituted(d1, sub, t, r),
    ensures
        ty_substituted(d2, sub, t, r),
    decreases t.id, 1int,
{
    assert(d2.terms@[t.id as int] == d1.terms@[t.id as int]);
    assert(d2.terms@[r.id as int] == d1.terms@[r.id as int]);
    match d1.ty_kind(t) {
        SymTyKind::Perm(p, x) => {
            lemma_perm_substituted_extends(d1, d2, sub, p, d1.ty_kind(r)->Perm_0);
            lemma_ty_substituted_extends(d1, d2, sub, x, d1.ty_kind(r)->Perm_1);
        },
        SymTyKind::Named(n, args) => {
            assert forall|k: int| 0 <= k < args@.len() implies generic_substituted_below(
                d2,
                sub,
                t.id as int,
                #[trigger] args@[k],
                d2.ty_kind(r)->Named_1@[k],
            ) by {
                lemma_generic_substituted_extends(d1, d2, sub, t.id as int, args@[k], d1.ty_kind(r)->Named_1@[k]);
            }
        },
        _ => {},
    }
}

pub proof fn lemma_generic_substituted_extends(
    d1: Db,
    d2: Db,
    sub: Seq<(SymVariable, SymGenericTerm)>,
    bound: int,
    g: SymGenericTerm,
    r: SymGenericTerm,
)
    requires
        d2.extends(d1),
        generic_substituted_below(d1, sub, bound, g, r),
    ensures
        generic_substituted_below(d2, sub, bound, g, r),
    decreases bound, 0int,
{
    match g {
        SymGenericTerm::Type(a) => lemma_ty_substituted_extends(d1, d2, sub, a, r->Type_0),
        SymGenericTerm::Perm(a) => lemma_perm_substituted_extends(d1, d2, sub, a, r->Perm_0),
        SymGenericTerm::Place(a) => lemma_place_substituted_extends(d1, d2, sub, a, r->Place_0),
        SymGenericTerm::Error(_) => {},
    }
}

pub proof fn lemma_perm_substituted_extends(
    d1: Db,
    d2: Db,
    sub: Seq<(SymVariable, SymGenericTerm)>,
    p: SymPerm,
    r: SymPerm,
)
    requires
        d2.extends(d1),
        perm_substituted(d1, sub, p, r),
    ensures
        perm_substituted(d2, sub, p, r),
    decreases p.id, 1int,
{
    assert(d2.terms@[p.id as int] == d1.terms@[p.id as int]);
    assert(d2.terms@[r.id as int] == d1.terms@[r.id as int]);
    match d1.perm_kind(p) {
        SymPermKind::Apply(a, b) => {
            lemma_perm_substituted_extends(d1, d2, sub, a, d1.perm_kind(r)->Apply_0);
            lemma_perm_substituted_extends(d1, d2, sub, b, d1.perm_kind(r)->Apply_1);
        },
        SymPermKind::Shared(ps) => {
            assert forall|k: int| 0 <= k < ps@.len() implies place_substituted_below(
                d2,
                sub,
                p.id as int,
                #[trigger] ps@[k],
                d2.perm_kind(r)->Shared_0@[k],
            ) by {
                lemma_place_below_extends(d1, d2, sub, p.id as int, ps@[k], d1.perm_kind(r)->Shared_0@[k]);
            }
        },
        SymPermKind::Leased(ps) => {
            assert forall|k: int| 0 <= k < ps@.len() implies place_substituted_below(
                d2,
                sub,
                p.id as int,
                #[trigger] ps@[k],
                d2.perm_kind(r)->Leased_0@[k],
            ) by {
                lemma_place_below_extends(d1, d2, sub, p.id as int, ps@[k], d1.perm_kind(r)->Leased_0@[k]);
            }
        },
        _ => {},
    }
}

pub proof fn lemma_place_below_extends(
    d1: Db,
    d2: Db,
    sub: Seq<(SymVariable, SymGenericTerm)>,
    bound: int,
    q: SymPlace,
    r: SymPlace,
)
    requires
        d2.extends(d1),
        place_substituted_below(d1, sub, bound, q, r),
    ensures
        place_substituted_below(d2, sub, bound, q, r),
    decreases bound, 0int,
{
    lemma_place_substituted_extends(d1, d2, sub, q, r);
}

pub proof fn lemma_place_substituted_extends(
    d1: Db,
    d2: Db,
    sub: Seq<(SymVariable, SymGenericTerm)>,
    q: SymPlace,
    r: SymPlace,
)
    requires
        d2.extends(d1),
        place_substituted(d1, sub, q, r),
    ensures
        place_substituted(d2, sub, q, r),
    decreases q.id, 1int,
{
    assert(d2.terms@[q.id as int] == d1.terms@[q.id as int]);
    assert(d2.terms@[r.id as int] == d1.terms@[r.id as int]);
    match d1.place_kind(q) {
        SymPlaceKind::Field(base, _) => {
            lemma_place_substituted_extends(d1, d2, sub, base, d1.place_kind(r)->Field_0);
            lemma_ty_substituted_extends(d1, d2, sub, d1.place_ty(q), d1.place_ty(r));
        },
        SymPlaceKind::Index(base) => {
            lemma_place_substituted_extends(d1, d2, sub, base, d1.place_kind(r)->Index_0);
            lemma_ty_substituted_extends(d1, d2, sub, d1.place_ty(q), d1.place_ty(r));
        },
        _ => {},
    }
}

/// `r` is the generic term `g` with the substitution applied.
pub open spec fn generic_substituted(
    db: Db,
    sub: Seq<(SymVariable, SymGenericTerm)>,
    g: SymGenericTerm,
    r: SymGenericTerm,
) -> bool {
    match g {
        SymGenericTerm::Type(a) => r is Type && ty_substituted(db, sub, a, r->Type_0),
        SymGenericTerm::Perm(a) => r is Perm && perm_substituted(db, sub, a, r->Perm_0),
        SymGenericTerm::Place(a) => r is Place && place_substituted(db, sub, a, r->Place_0),
        SymGenericTerm::Error(_) => r == g,
    }
}

/// Every term of the substitution is interned in `db`.
pub open spec fn subst_ok(db: Db, sub: Seq<(SymVariable, SymGenericTerm)>) -> bool {
    forall|k: int| 0 <= k < sub.len() ==> #[trigger] db.is_generic(sub[k].1)
}

pub proof fn lemma_subst_ok_extends(old_db: Db, new_db: Db, sub: Seq<(SymVariable, SymGenericTerm)>)
    requires
        subst_ok(old_db, sub),
        new_db.extends(old_db),
    ensures
        subst_ok(new_db, sub),
{
    assert forall|k: int| 0 <= k < sub.len() implies #[trigger] new_db.is_generic(sub[k].1) by {
        assert(old_db.is_generic(sub[k].1));
        let g = sub[k].1;
        match g {
            SymGenericTerm::Type(t) => assert(new_db.terms@[t.id as int] == old_db.terms@[t.id as int]),
            SymGenericTerm::Perm(p) => assert(new_db.terms@[p.id as int] == old_db.terms@[p.id as int]),
            SymGenericTerm::Place(p) => assert(new_db.terms@[p.id as int] == old_db.terms@[p.id as int]),
            SymGenericTerm::Error(_) => {},
        }
    }
}

pub broadcast proof fn lemma_extends_trans(a: Db, b: Db, c: Db)
    requires
        b.extends(a),
        c.extends(b),
    ensures
        #![trigger b.extends(a), c.extends(b)]
        c.extends(a),
{
    assert forall|i: int| 0 <= i < a.terms@.len() implies #[trigger] c.terms@[i] == a.terms@[i] by {
        assert(b.terms@[i] == a.terms@[i]);
    }
    assert forall|i: int| 0 <= i < a.words@.len() implies #[trigger] c.words@[i] == a.words@[i] by {
        assert(b.words@[i] == a.words@[i]);
    }
    assert forall|i: int| 0 <= i < a.classes@.len() implies #[trigger] c.classes@[i] == a.classes@[i] by {
        assert(b.classes@[i] == a.classes@[i]);
    }
    assert forall|i: int| 0 <= i < a.variables@.len() implies #[trigger] c.variables@[i]
        == a.variables@[i] by {
        assert(b.variables@[i] == a.variables@[i]);
    }
    assert forall|i: int| 0 <= i < a.fields@.len() implies #[trigger] c.fields@[i] == a.fields@[i] by {
        assert(b.fields@[i] == a.fields@[i]);
    }
}

pub proof fn lemma_extends_refl(a: Db)
    ensures
        a.extends(a),
{
}

fn lookup(sub: &Substitution, v: SymVariable, Ghost(db): Ghost<Db>) -> (r: Option<SymGenericTerm>)
    requires
        subst_ok(db, sub@),
    ensures
        r == subst_lookup(sub@, v),
        r is Some ==> db.is_generic(r->Some_0),
{
    let mut i: usize = 0;
    proof {
        assert(sub@.skip(0) =~= sub@);
    }
    while i < sub.len()
        invariant
            0 <= i <= sub@.len(),
            subst_lookup(sub@, v) == subst_lookup(sub@.skip(i as int), v),
            subst_ok(db, sub@),
        decreases sub@.len() - i,
    {
        proof {
            assert(sub@.skip(i as int).drop_first() =~= sub@.skip(i + 1));
        }
        let (w, t) = sub[i];
        if w == v {
            proof {
                assert(sub@.skip(i as int)[0] == sub@[i as int]);
                assert(db.is_generic(sub@[i as int].1));
            }
            return Some(t);
        }
        i += 1;
    }
    None
}

/// Structural information about a type, copied out of the store.
enum TyShape {
    Perm(SymPerm, SymTy),
    Named(usize),
    Var(SymVariable),
    Leaf,
}

/// Apply `sub` to the type `t`: every variable it maps is replaced.
pub fn subst_ty(db: &mut Db, t: SymTy, sub: &Substitution) -> (r: SymTy)
    requires
        old(db).wf(),
        old(db).is_ty(t),
        subst_ok(*old(db), sub@),
    ensures
        final(db).wf(),
        final(db).extends(*old(db)),
        final(db).is_ty(r),
        ty_substituted(*final(db), sub@, t, r),
    decreases t.id + 1, 0int,
{
    proof {
        lemma_children(*db, t.id as int);
    }
    let shape = match &db.terms[t.id] {
        Term::Ty(SymTyKind::Perm(p, x)) => TyShape::Perm(*p, *x),
        Term::Ty(SymTyKind::Named(_, args)) => TyShape::Named(args.len()),
        Term::Ty(SymTyKind::Var(v)) => TyShape::Var(*v),
        _ => TyShape::Leaf,
    };
    match shape {
        TyShape::Perm(p, x) => {
            let ghost d0 = *db;
            let p2 = subst_perm(db, p, sub);
            let ghost d1 = *db;
            proof {
                lemma_subst_ok_extends(d0, d1, sub@);
                assert(db.terms@[x.id as int] == d0.terms@[x.id as int]);
            }
            let x2 = subst_ty(db, x, sub);
            proof {
                lemma_extends_trans(d0, d1, *db);
                assert(db.terms@[p2.id as int] == d1.terms@[p2.id as int]);
            }
            let ghost d2 = *db;
            let r = SymTy::perm(db, p2, x2);
            proof {
                lemma_extends_trans(d0, d2, *db);
                lemma_perm_substituted_extends(d1, *db, sub@, p, p2);
                lemma_ty_substituted_extends(d2, *db, sub@, x, x2);
                assert(db.terms@[t.id as int] == d0.terms@[t.id as int]);
            }
            r
        },
        TyShape::Named(n) => {
            let ghost d0 = *db;
            let name = match &db.terms[t.id] {
                Term::Ty(SymTyKind::Named(name, _)) => *name,
                _ => vstd::pervasive::unreached(),
            };
            let mut args: Vec<SymGenericTerm> = Vec::new();
            let mut k: usize = 0;
            while k < n
                invariant
                    db.wf(),
                    db.extends(d0),
                    d0.wf(),
                    d0.is_ty(t),
                    d0.ty_kind(t) is Named,
                    d0.ty_kind(t)->Named_1@.len() == n,
                    crate::db::term_ok(d0.terms@.take(t.id as int), d0.terms@[t.id as int]),
                    t.id < d0.terms@.len(),
                    subst_ok(*db, sub@),
                    0 <= k <= n,
                    args@.len() == k,
                    forall|j: int| 0 <= j < k ==> #[trigger] db.is_generic(args@[j]),
                    forall|j: int|
                        0 <= j < k ==> generic_substituted_below(
                            *db,
                            sub@,
                            t.id as int,
                            d0.ty_kind(t)->Named_1@[j],
                            #[trigger] args@[j],
                        ),
                decreases n - k,
            {
                proof {
                    assert(db.terms@[t.id as int] == d0.terms@[t.id as int]);
                    assert(generic_in(d0.terms@.take(t.id as int), d0.ty_kind(t)->Named_1@[k as int]));
                }
                let g = match &db.terms[t.id] {
                    Term::Ty(SymTyKind::Named(_, a)) => a[k],
                    _ => vstd::pervasive::unreached(),
                };
                let ghost before = *db;
                let g2 = if let SymGenericTerm::Error(_) = g {
                    proof {
                        lemma_extends_refl(*db);
                    }
                    g
                } else {
                    subst_generic(db, g, sub)
                };
                proof {
                    lemma_extends_trans(d0, before, *db);
                    lemma_subst_ok_extends(before, *db, sub@);
                    assert(g == d0.ty_kind(t)->Named_1@[k as int]);
                    assert(generic_substituted_below(*db, sub@, t.id as int, g, g2));
                    assert forall|j: int| 0 <= j < k implies generic_substituted_below(
                        *db,
                        sub@,
                        t.id as int,
                        d0.ty_kind(t)->Named_1@[j],
                        #[trigger] args@[j],
                    ) by {
                        lemma_generic_substituted_extends(
                            before,
                            *db,
                            sub@,
                            t.id as int,
                            d0.ty_kind(t)->Named_1@[j],
                            args@[j],
                        );
                    }
                    assert forall|j: int| 0 <= j < k implies #[trigger] db.is_generic(args@[j]) by {
                        assert(before.is_generic(args@[j]));
                        match args@[j] {
                            SymGenericTerm::Type(a) => assert(db.terms@[a.id as int] == before.terms@[a.id as int]),
                            SymGenericTerm::Perm(a) => assert(db.terms@[a.id as int] == before.terms@[a.id as int]),
                            SymGenericTerm::Place(a) => assert(db.terms@[a.id as int] == before.terms@[a.id as int]),
                            SymGenericTerm::Error(_) => {},
                        }
                    }
                }
                let ghost prev = args@;
                args.push(g2);
                proof {
                    assert forall|j: int| 0 <= j < k + 1 implies generic_substituted_below(
                        *db,
                        sub@,
                        t.id as int,
                        d0.ty_kind(t)->Named_1@[j],
                        #[trigger] args@[j],
                    ) by {
                        if j < k {
                            assert(args@[j] == prev[j]);
                        }
                    }
                }
                k += 1;
            }
            let ghost d1 = *db;
            let ghost new_args = args@;
            proof {
                assert forall|j: int| 0 <= j < args@.len() implies #[trigger] generic_in(
                    db.terms@,
                    args@[j],
                ) by {
                    assert(db.is_generic(args@[j]));
                }
            }
            let r = SymTy::named(db, name, args);
            proof {
                lemma_extends_trans(d0, d1, *db);
                assert forall|j: int| 0 <= j < new_args.len() implies generic_substituted_below(
                    *db,
                    sub@,
                    t.id as int,
                    #[trigger] d0.ty_kind(t)->Named_1@[j],
                    db.ty_kind(r)->Named_1@[j],
                ) by {
                    lemma_generic_substituted_extends(
                        d1,
                        *db,
                        sub@,
                        t.id as int,
                        d0.ty_kind(t)->Named_1@[j],
                        new_args[j],
                    );
                }
                assert(db.terms@[t.id as int] == d0.terms@[t.id as int]);
            }
            r
        },
        TyShape::Var(v) => match lookup(sub, v, Ghost(*db)) {
            Some(SymGenericTerm::Type(x)) => x,
            Some(SymGenericTerm::Error(e)) => SymTy::err(db, e),
            _ => {
                proof {
                    lemma_extends_refl(*db);
                }
                t
            },
        },
        TyShape::Leaf => {
            proof {
                lemma_extends_refl(*db);
            }
            t
        },
    }
}

/// Apply `sub` to a generic term.
pub fn subst_generic(db: &mut Db, g: SymGenericTerm, sub: &Substitution) -> (r: SymGenericTerm)
    requires
        old(db).wf(),
        old(db).is_generic(g),
        subst_ok(*old(db), sub@),
    ensures
        final(db).wf(),
        final(db).extends(*old(db)),
        final(db).is_generic(r),
        generic_substituted(*final(db), sub@, g, r),
    decreases crate::predicates::generic_id(g) + 1, 1int,
{
    match g {
        SymGenericTerm::Type(t) => SymGenericTerm::Type(subst_ty(db, t, sub)),
        SymGenericTerm::Perm(p) => SymGenericTerm::Perm(subst_perm(db, p, sub)),
        SymGenericTerm::Place(p) => SymGenericTerm::Place(subst_place(db, p, sub)),
        SymGenericTerm::Error(_) => {
            proof {
                lemma_extends_refl(*db);
            }
            g
        },
    }
}

/// Apply `sub` to a permission.
pub fn subst_perm(db: &mut Db, p: SymPerm, sub: &Substitution) -> (r: SymPerm)
    requires
        old(db).wf(),
        old(db).is_perm(p),
        subst_ok(*old(db), sub@),
    ensures
        final(db).wf(),
        final(db).extends(*old(db)),
        final(db).is_perm(r),
        perm_substituted(*final(db), sub@, p, r),
    decreases p.id + 1, 0int,
{
    proof {
        lemma_children(*db, p.id as int);
    }
    let ghost d0 = *db;
    let (tag, a, b, v, n) = match &db.terms[p.id] {
        Term::Perm(SymPermKind::Apply(a, b)) => (0u8, *a, *b, SymVariable { id: 0 }, 0usize),
        Term::Perm(SymPermKind::Var(v)) => (1u8, p, p, *v, 0usize),
        Term::Perm(SymPermKind::Shared(ps)) => (2u8, p, p, SymVariable { id: 0 }, ps.len()),
        Term::Perm(SymPermKind::Leased(ps)) => (3u8, p, p, SymVariable { id: 0 }, ps.len()),
        _ => (4u8, p, p, SymVariable { id: 0 }, 0usize),
    };
    if tag == 0 {
        let a2 = subst_perm(db, a, sub);
        let ghost d1 = *db;
        proof {
            lemma_subst_ok_extends(d0, d1, sub@);
            assert(db.terms@[b.id as int] == d0.terms@[b.id as int]);
        }
        let b2 = subst_perm(db, b, sub);
        proof {
            lemma_extends_trans(d0, d1, *db);
            assert(db.terms@[a2.id as int] == d1.terms@[a2.id as int]);
        }
        let ghost d2 = *db;
        let r = SymPerm::apply(db, a2, b2);
        proof {
            lemma_extends_trans(d0, d2, *db);
            lemma_perm_substituted_extends(d1, *db, sub@, a, a2);
            lemma_perm_substituted_extends(d2, *db, sub@, b, b2);
            assert(db.terms@[p.id as int] == d0.terms@[p.id as int]);
        }
        r
    } else if tag == 1 {
        match lookup(sub, v, Ghost(*db)) {
            Some(SymGenericTerm::Perm(x)) => x,
            Some(SymGenericTerm::Error(e)) => {
                let r = SymPerm::err(db, e);
                proof {
                    assert(db.terms@[p.id as int] == d0.terms@[p.id as int]);
                }
                r
            },
            _ => {
                proof {
                    lemma_extends_refl(*db);
                }
                p
            },
        }
    } else if tag == 2 || tag == 3 {
        let ghost ps0 = if tag == 2 {
            d0.perm_kind(p)->Shared_0@
        } else {
            d0.perm_kind(p)->Leased_0@
        };
        let mut places: Vec<SymPlace> = Vec::new();
        let mut k: usize = 0;
        while k < n
            invariant
                db.wf(),
                db.extends(d0),
                d0.wf(),
                d0.is_perm(p),
                tag == 2 ==> d0.perm_kind(p) is Shared && d0.perm_kind(p)->Shared_0@.len() == n,
                tag == 3 ==> d0.perm_kind(p) is Leased && d0.perm_kind(p)->Leased_0@.len() == n,
                tag == 2 || tag == 3,
                crate::db::term_ok(d0.terms@.take(p.id as int), d0.terms@[p.id as int]),
                subst_ok(*db, sub@),
                0 <= k <= n,
                places@.len() == k,
                forall|j: int| 0 <= j < k ==> #[trigger] db.is_place(places@[j]),
                ps0 == (if tag == 2 {
                    d0.perm_kind(p)->Shared_0@
                } else {
                    d0.perm_kind(p)->Leased_0@
                }),
                forall|j: int|
                    0 <= j < k ==> place_substituted_below(*db, sub@, p.id as int, ps0[j], #[trigger] places@[j]),
            decreases n - k,
        {
            proof {
                assert(db.terms@[p.id as int] == d0.terms@[p.id as int]);
                if tag == 2 {
                    assert(crate::db::place_in(d0.terms@.take(p.id as int), d0.perm_kind(p)->Shared_0@[k as int]));
                } else {
                    assert(crate::db::place_in(d0.terms@.take(p.id as int), d0.perm_kind(p)->Leased_0@[k as int]));
                }
            }
            let q = match &db.terms[p.id] {
                Term::Perm(SymPermKind::Shared(ps)) => ps[k],
                Term::Perm(SymPermKind::Leased(ps)) => ps[k],
                _ => vstd::pervasive::unreached(),
            };
            let ghost before = *db;
            let q2 = subst_place(db, q, sub);
            proof {
                lemma_extends_trans(d0, before, *db);
                lemma_subst_ok_extends(before, *db, sub@);
                assert(q == ps0[k as int]);
                assert forall|j: int| 0 <= j < k implies place_substituted_below(
                    *db,
                    sub@,
                    p.id as int,
                    ps0[j],
                    #[trigger] places@[j],
                ) by {
                    lemma_place_below_extends(before, *db, sub@, p.id as int, ps0[j], places@[j]);
                }
                assert forall|j: int| 0 <= j < k implies #[trigger] db.is_place(places@[j]) by {
                    assert(before.is_place(places@[j]));
                    assert(db.terms@[places@[j].id as int] == before.terms@[places@[j].id as int]);
                }
            }
            let ghost prev = places@;
            places.push(q2);
            proof {
                assert forall|j: int| 0 <= j < k + 1 implies place_substituted_below(
                    *db,
                    sub@,
                    p.id as int,
                    ps0[j],
                    #[trigger] places@[j],
                ) by {
                    if j < k {
                        assert(places@[j] == prev[j]);
                    }
                }
            }
            k += 1;
        }
        let ghost d1 = *db;
        let ghost new_places = places@;
        proof {
            assert forall|j: int| 0 <= j < places@.len() implies #[trigger] crate::db::place_in(
                db.terms@,
                places@[j],
            ) by {
                assert(db.is_place(places@[j]));
            }
        }
        let r = if tag == 2 {
            SymPerm::shared(db, places)
        } else {
            SymPerm::leased(db, places)
        };
        proof {
            lemma_extends_trans(d0, d1, *db);
            assert forall|j: int| 0 <= j < new_places.len() implies place_substituted_below(
                *db,
                sub@,
                p.id as int,
                #[trigger] ps0[j],
                new_places[j],
            ) by {
                lemma_place_below_extends(d1, *db, sub@, p.id as int, ps0[j], new_places[j]);
            }
            assert(db.terms@[p.id as int] == d0.terms@[p.id as int]);
        }
        r
    } else {
        proof {
            lemma_extends_refl(*db);
        }
        p
    }
}

/// Apply `sub` to a place, and to its type.
pub fn subst_place(db: &mut Db, p: SymPlace, sub: &Substitution) -> (r: SymPlace)
    requires
        old(db).wf(),
        old(db).is_place(p),
        subst_ok(*old(db), sub@),
    ensures
        final(db).wf(),
        final(db).extends(*old(db)),
        final(db).is_place(r),
        place_substituted(*final(db), sub@, p, r),
    decreases p.id + 1, 0int,
{
    proof {
        lemma_children(*db, p.id as int);
    }
    let ghost d0 = *db;
    let (kind, ty) = match &db.terms[p.id] {
        Term::Place(k, ty) => (*k, *ty),
        _ => vstd::pervasive::unreached(),
    };
    match kind {
        SymPlaceKind::Var(v) => match lookup(sub, v, Ghost(*db)) {
            Some(SymGenericTerm::Place(x)) => x,
            _ => {
                proof {
                    lemma_extends_refl(*db);
                }
                p
            },
        },
        SymPlaceKind::Field(base, f) => {
            let base2 = subst_place(db, base, sub);
            let ghost d1 = *db;
            proof {
                lemma_subst_ok_extends(d0, d1, sub@);
                assert(db.terms@[ty.id as int] == d0.terms@[ty.id as int]);
            }
            let ty2 = subst_ty(db, ty, sub);
            proof {
                lemma_extends_trans(d0, d1, *db);
                assert(db.terms@[base2.id as int] == d1.terms@[base2.id as int]);
            }
            let ghost d2 = *db;
            let r = SymPlace::new(db, SymPlaceKind::Field(base2, f), ty2);
            proof {
                lemma_extends_trans(d0, d2, *db);
                lemma_place_substituted_extends(d1, *db, sub@, base, base2);
                lemma_ty_substituted_extends(d2, *db, sub@, ty, ty2);
                assert(db.terms@[p.id as int] == d0.terms@[p.id as int]);
            }
            r
        },
        SymPlaceKind::Index(base) => {
            let base2 = subst_place(db, base, sub);
            let ghost d1 = *db;
            proof {
                lemma_subst_ok_extends(d0, d1, sub@);
                assert(db.terms@[ty.id as int] == d0.terms@[ty.id as int]);
            }
            let ty2 = subst_ty(db, ty, sub);
            proof {
                lemma_extends_trans(d0, d1, *db);
                assert(db.terms@[base2.id as int] == d1.terms@[base2.id as int]);
            }
            let ghost d2 = *db;
            let r = SymPlace::new(db, SymPlaceKind::Index(base2), ty2);
            proof {
                lemma_extends_trans(d0, d2, *db);
                lemma_place_substituted_extends(d1, *db, sub@, base, base2);
                lemma_ty_substituted_extends(d2, *db, sub@, ty, ty2);
                assert(db.terms@[p.id as int] == d0.terms@[p.id as int]);
            }
            r
        },
        _ => {
            proof {
                lemma_extends_refl(*db);
            }
            p
        },
    }
}

} // verus!
