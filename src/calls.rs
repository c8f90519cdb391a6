use vstd::prelude::*;
use crate::ast::{AstExpr, AstGenericTerm};
use crate::db::Db;
use crate::diagnostic::{Because, Diagnostic, DiagnosticKind, OrElse, Reported};
use crate::env::{Env, EnvModel, Obligation, has_obligation};
use crate::expr_result::{ExprResult, reported_only, result_ok};
use crate::check::{check_expr, operand_of};
use crate::generic::{term_as_infer, term_has_kind};
use crate::scope::{
    FunctionSignature, NameResolution, NameResolutionSym, Scope, first_member, lemma_extends_is_ty,
    lemma_extends_generic, lemma_scope_extends, signature_ok, var_ok,
};
use crate::span::Span;
use crate::subst::{
    generic_substituted, lemma_perm_substituted_extends, lemma_place_substituted_extends,
    lemma_ty_substituted_extends, ty_substituted,
    Substitution, lemma_extends_trans, lemma_subst_ok_extends, subst_generic, subst_ok, subst_ty,
};
use crate::sym_expr::{SymExpr, SymExprKind, SymFunction, SymPlaceExprKind, Temporary};
use crate::types::{SymAggregate, SymGenericKind, SymGenericTerm, SymPlace, SymPlaceKind, SymTy, SymVariable};
use crate::word::Word;

verus! {


broadcast use {crate::env::lemma_grows_keeps_obligation, lemma_extends_is_ty, lemma_extends_trans, crate::env::lemma_grows_trans, crate::env::lemma_grows_refl};

/// The variables bound by the first `n` nested `let`s of `e`, outermost first.
pub open spec fn let_vars(e: SymExpr, n: nat) -> Seq<SymVariable>
    decreases n,
{
    if n == 0 {
        Seq::empty()
    } else {
        match *e.kind {
            SymExprKind::LetIn { lv, body, .. } => seq![lv] + let_vars(body, (n - 1) as nat),
            _ => Seq::empty(),
        }
    }
}

/// What is left of `e` under its first `n` nested `let`s.
pub open spec fn let_body(e: SymExpr, n: nat) -> SymExpr
    decreases n,
{
    if n == 0 {
        e
    } else {
        match *e.kind {
            SymExprKind::LetIn { body, .. } => let_body(body, (n - 1) as nat),
            _ => e,
        }
    }
}

/// `e` is `let t0 = a0 in ... let tn = an in function(t0, ..., tn)`: each of the
/// `n` arguments is bound to a temporary, the first one outermost.
pub open spec fn is_bound_call(e: SymExpr, function: SymFunction, n: nat) -> bool {
    &&& let_vars(e, n).len() == n
    &&& *let_body(e, n).kind is Call
    &&& (*let_body(e, n).kind)->Call_function == function
    &&& (*let_body(e, n).kind)->Call_arg_temps@ == let_vars(e, n)
}

/// `e` was required to be assignable to some parameter type.
pub open spec fn assignable_spawned(s: EnvModel, e: SymExpr) -> bool {
    exists|target: SymTy|
        #[trigger] has_obligation(
            s,
            Obligation::Assignable {
                value: e.ty,
                target,
                or_else: OrElse { kind: DiagnosticKind::BadSubtype, span: e.span },
            },
        )
}

/// A `where` clause with predicate `pred` was spawned for the call at `span`.
pub open spec fn where_spawned(s: EnvModel, pred: crate::diagnostic::Predicate, span: Span) -> bool {
    exists|t: SymGenericTerm|
        #[trigger] has_obligation(
            s,
            Obligation::WhereClause {
                term: t,
                pred,
                or_else: OrElse { kind: DiagnosticKind::WhereClause, span },
            },
        )
}

/// `r` is `t` with `sub1`, then `sub2`, applied.
pub open spec fn twice_substituted(
    db: Db,
    sub1: Seq<(SymVariable, SymGenericTerm)>,
    sub2: Seq<(SymVariable, SymGenericTerm)>,
    t: SymTy,
    r: SymTy,
) -> bool {
    exists|mid: SymTy| #[trigger] ty_substituted(db, sub1, t, mid) && ty_substituted(db, sub2, mid, r)
}

/// `r` is the generic term `g` with `sub1`, then `sub2`, applied.
pub open spec fn generic_twice_substituted(
    db: Db,
    sub1: Seq<(SymVariable, SymGenericTerm)>,
    sub2: Seq<(SymVariable, SymGenericTerm)>,
    g: SymGenericTerm,
    r: SymGenericTerm,
) -> bool {
    exists|mid: SymGenericTerm|
        #[trigger] generic_substituted(db, sub1, g, mid) && generic_substituted(db, sub2, mid, r)
}

pub proof fn lemma_generic_substituted_extends_any(
    d1: Db,
    d2: Db,
    sub: Seq<(SymVariable, SymGenericTerm)>,
    g: SymGenericTerm,
    r: SymGenericTerm,
)
    requires
        d2.extends(d1),
        generic_substituted(d1, sub, g, r),
    ensures
        generic_substituted(d2, sub, g, r),
{
    match g {
        SymGenericTerm::Type(a) => lemma_ty_substituted_extends(d1, d2, sub, a, r->Type_0),
        SymGenericTerm::Perm(a) => lemma_perm_substituted_extends(d1, d2, sub, a, r->Perm_0),
        SymGenericTerm::Place(a) => lemma_place_substituted_extends(d1, d2, sub, a, r->Place_0),
        SymGenericTerm::Error(_) => {},
    }
}

pub proof fn lemma_twice_extends(
    d1: Db,
    d2: Db,
    sub1: Seq<(SymVariable, SymGenericTerm)>,
    sub2: Seq<(SymVariable, SymGenericTerm)>,
    t: SymTy,
    r: SymTy,
)
    requires
        d2.extends(d1),
        twice_substituted(d1, sub1, sub2, t, r),
    ensures
        twice_substituted(d2, sub1, sub2, t, r),
{
    let mid = choose|mid: SymTy| #[trigger] ty_substituted(d1, sub1, t, mid) && ty_substituted(d1, sub2, mid, r);
    lemma_ty_substituted_extends(d1, d2, sub1, t, mid);
    lemma_ty_substituted_extends(d1, d2, sub2, mid, r);
}

/// The substitution of the first binder of `sig`: its generic variables, to
/// the given terms.
pub open spec fn first_binder(sig: FunctionSignature, substitution: Seq<SymGenericTerm>) -> Seq<
    (SymVariable, SymGenericTerm),
> {
    Seq::new(substitution.len(), |k: int| (generic_vars(sig)[k], substitution[k]))
}

/// The substitution of the second binder of `sig`: each input variable to the
/// place of the temporary of its argument.
pub open spec fn second_binder(
    db: Db,
    sig: FunctionSignature,
    temps: Seq<SymVariable>,
    sub2: Seq<(SymVariable, SymGenericTerm)>,
) -> bool {
    &&& sub2.len() == temps.len()
    &&& forall|i: int|
        0 <= i < sub2.len() ==> (#[trigger] sub2[i]).0 == sig.input_vars@[i] && sub2[i].1 is Place
            && db.is_place(sub2[i].1->Place_0) && db.place_kind(sub2[i].1->Place_0)
            == SymPlaceKind::Var(temps[i])
}

/// The argument `arg` in slot `i` is required to be assignable to its
/// parameter type, instantiated.
pub open spec fn argument_required(
    db: Db,
    sub1: Seq<(SymVariable, SymGenericTerm)>,
    sub2: Seq<(SymVariable, SymGenericTerm)>,
    s: EnvModel,
    sig: FunctionSignature,
    i: int,
    arg: SymExpr,
) -> bool {
    exists|target: SymTy|
        #[trigger] twice_substituted(db, sub1, sub2, sig.inputs@[i], target) && has_obligation(
            s,
            Obligation::Assignable {
                value: arg.ty,
                target,
                or_else: OrElse { kind: DiagnosticKind::BadSubtype, span: arg.span },
            },
        )
}

/// The `w`-th `where` clause, instantiated, was spawned.
pub open spec fn where_required(
    db: Db,
    sub1: Seq<(SymVariable, SymGenericTerm)>,
    sub2: Seq<(SymVariable, SymGenericTerm)>,
    s: EnvModel,
    sig: FunctionSignature,
    w: int,
    span: Span,
) -> bool {
    exists|t: SymGenericTerm|
        #[trigger] generic_twice_substituted(db, sub1, sub2, sig.where_clauses@[w].0, t) && has_obligation(
            s,
            Obligation::WhereClause {
                term: t,
                pred: sig.where_clauses@[w].1,
                or_else: OrElse { kind: DiagnosticKind::WhereClause, span },
            },
        )
}

pub proof fn lemma_where_required_grows(
    d1: Db,
    d2: Db,
    s1: EnvModel,
    s2: EnvModel,
    sub1: Seq<(SymVariable, SymGenericTerm)>,
    sub2: Seq<(SymVariable, SymGenericTerm)>,
    sig: FunctionSignature,
    w: int,
    span: Span,
)
    requires
        d2.extends(d1),
        crate::env::grows(s1, s2),
        where_required(d1, sub1, sub2, s1, sig, w, span),
    ensures
        where_required(d2, sub1, sub2, s2, sig, w, span),
{
    let t = choose|t: SymGenericTerm|
        #[trigger] generic_twice_substituted(d1, sub1, sub2, sig.where_clauses@[w].0, t) && has_obligation(
            s1,
            Obligation::WhereClause {
                term: t,
                pred: sig.where_clauses@[w].1,
                or_else: OrElse { kind: DiagnosticKind::WhereClause, span },
            },
        );
    let mid = choose|mid: SymGenericTerm|
        #[trigger] generic_substituted(d1, sub1, sig.where_clauses@[w].0, mid) && generic_substituted(
            d1,
            sub2,
            mid,
            t,
        );
    lemma_generic_substituted_extends_any(d1, d2, sub1, sig.where_clauses@[w].0, mid);
    lemma_generic_substituted_extends_any(d1, d2, sub2, mid, t);
    assert(generic_twice_substituted(d2, sub1, sub2, sig.where_clauses@[w].0, t));
    assert(has_obligation(
        s2,
        Obligation::WhereClause {
            term: t,
            pred: sig.where_clauses@[w].1,
            or_else: OrElse { kind: DiagnosticKind::WhereClause, span },
        },
    ));
}

/// The call `e` of `sig` with `n` arguments is instantiated as the
/// substitution says: its type is the output type, each argument is required
/// to fit its parameter type, and each `where` clause is spawned, all with the
/// generics substituted, then each input variable replaced by the place of its
/// argument's temporary.
pub open spec fn call_substituted(
    db: Db,
    s: EnvModel,
    e: SymExpr,
    n: nat,
    sig: FunctionSignature,
    substitution: Seq<SymGenericTerm>,
    span: Span,
) -> bool {
    exists|sub2: Seq<(SymVariable, SymGenericTerm)>|
        #[trigger] second_binder(db, sig, let_vars(e, n), sub2) && {
            let sub1 = first_binder(sig, substitution);
            &&& twice_substituted(db, sub1, sub2, sig.output, e.ty)
            &&& forall|i: int|
                0 <= i < n ==> argument_required(db, sub1, sub2, s, sig, i, #[trigger] let_init(e, i as nat))
            &&& forall|w: int|
                0 <= w < sig.where_clauses@.len() ==> #[trigger] where_required(db, sub1, sub2, s, sig, w, span)
        }
}

/// The initializer of the `i`-th nested `let` of `e`.
pub open spec fn let_init(e: SymExpr, i: nat) -> SymExpr {
    (*let_body(e, i).kind)->LetIn_initializer->Some_0
}

/// What a successful check of a call of `function` builds and spawns:
/// `let t0 = a0 in ... f(t0, ..., tn)` with the given substitution; every `let`
/// is of the call's type; the temporaries are fresh place variables, in order;
/// the receiver, if any, is the first argument; each argument is required to
/// be assignable to its parameter, and each `where` clause is spawned.
pub open spec fn checked_call(
    old_db: Db,
    db: Db,
    s: EnvModel,
    e: SymExpr,
    function: SymFunction,
    substitution: Seq<SymGenericTerm>,
    n: nat,
    sig: FunctionSignature,
    callee_span: Span,
    self_expr: Option<SymExpr>,
) -> bool {
    &&& is_bound_call(e, function, n)
    &&& call_substituted(db, s, e, n, sig, substitution, callee_span)
    &&& (*let_body(e, n).kind)->Call_substitution@ == substitution
    &&& forall|j: nat| j <= n ==> (#[trigger] let_body(e, j)).ty == e.ty
    &&& forall|i: int|
        0 <= i < n ==> *(#[trigger] let_body(e, i as nat)).kind is LetIn && (*let_body(
            e,
            i as nat,
        ).kind)->LetIn_initializer is Some
    &&& forall|i: int, j: int|
        0 <= i < j < n ==> (#[trigger] let_vars(e, n)[i]).id < (#[trigger] let_vars(e, n)[j]).id
    &&& forall|i: int|
        0 <= i < n ==> old_db.variables@.len() <= (#[trigger] let_vars(e, n)[i]).id
            < db.variables@.len() && db.variables@[let_vars(e, n)[i].id as int].kind
            == SymGenericKind::Place
    &&& self_expr is Some ==> let_init(e, 0) == self_expr->Some_0
    &&& forall|i: int|
        0 <= i < n ==> assignable_spawned(s, #[trigger] let_init(e, i as nat))
    &&& forall|w: int|
        0 <= w < sig.where_clauses@.len() ==> where_spawned(s, (#[trigger] sig.where_clauses@[w]).1, callee_span)
}

/// The diagnostic for a call with the wrong number of arguments: it points at
/// the call and at the declaration of the function.
pub open spec fn arity_diagnostic(expected: usize, found: usize, callee_span: Span, decl_span: Span) -> Diagnostic {
    Diagnostic {
        kind: DiagnosticKind::WrongArgumentCount { expected, found },
        span: callee_span,
        related: Some(decl_span),
        because: Because::JustSo,
    }
}

/// `g` is a term of an inference variable, of the given kind.
pub open spec fn is_inference_term(db: Db, g: SymGenericTerm, kind: SymGenericKind) -> bool {
    &&& db.is_generic(g)
    &&& term_as_infer(db, g) is Some
    &&& term_has_kind(g, kind)
}

pub proof fn lemma_inference_term_extends(old_db: Db, new_db: Db, g: SymGenericTerm, kind: SymGenericKind)
    requires
        new_db.extends(old_db),
        is_inference_term(old_db, g, kind),
    ensures
        is_inference_term(new_db, g, kind),
{
    match g {
        SymGenericTerm::Type(t) => assert(new_db.terms@[t.id as int] == old_db.terms@[t.id as int]),
        SymGenericTerm::Perm(p) => assert(new_db.terms@[p.id as int] == old_db.terms@[p.id as int]),
        SymGenericTerm::Place(p) => assert(new_db.terms@[p.id as int] == old_db.terms@[p.id as int]),
        SymGenericTerm::Error(_) => {},
    }
}

/// The index of the inference variable that `g` is.
pub open spec fn infer_index(db: Db, g: SymGenericTerm) -> int {
    term_as_infer(db, g)->Some_0.index as int
}

/// The terms of `subst` from `start` to `end` are inference variables created
/// between `lo` and `hi`, each a new one.
pub open spec fn fresh_between(
    db: Db,
    subst: Seq<SymGenericTerm>,
    start: int,
    end: int,
    lo: int,
    hi: int,
) -> bool {
    &&& forall|k: int| start <= k < end ==> lo <= #[trigger] infer_index(db, subst[k]) < hi
    &&& forall|i: int, j: int|
        start <= i < j < end ==> #[trigger] infer_index(db, subst[i]) < #[trigger] infer_index(
            db,
            subst[j],
        )
}

pub proof fn lemma_infer_index_extends(old_db: Db, new_db: Db, g: SymGenericTerm)
    requires
        new_db.extends(old_db),
        old_db.is_generic(g),
    ensures
        term_as_infer(new_db, g) == term_as_infer(old_db, g),
{
    match g {
        SymGenericTerm::Type(t) => assert(new_db.terms@[t.id as int] == old_db.terms@[t.id as int]),
        SymGenericTerm::Perm(p) => assert(new_db.terms@[p.id as int] == old_db.terms@[p.id as int]),
        SymGenericTerm::Place(p) => assert(new_db.terms@[p.id as int] == old_db.terms@[p.id as int]),
        SymGenericTerm::Error(_) => {},
    }
}

pub proof fn lemma_fresh_between_extends(
    old_db: Db,
    new_db: Db,
    subst: Seq<SymGenericTerm>,
    start: int,
    end: int,
    lo: int,
    hi: int,
    hi2: int,
)
    requires
        new_db.extends(old_db),
        0 <= start,
        end <= subst.len(),
        forall|k: int| start <= k < end ==> #[trigger] old_db.is_generic(subst[k]),
        fresh_between(old_db, subst, start, end, lo, hi),
        hi <= hi2,
    ensures
        fresh_between(new_db, subst, start, end, lo, hi2),
{
    assert forall|k: int| start <= k < end implies infer_index(new_db, subst[k]) == infer_index(
        old_db,
        subst[k],
    ) by {
        lemma_infer_index_extends(old_db, new_db, subst[k]);
    }
    assert forall|k: int| start <= k < end implies lo <= #[trigger] infer_index(new_db, subst[k]) < hi2 by {
        assert(lo <= infer_index(old_db, subst[k]) < hi);
    }
    assert forall|i: int, j: int| start <= i < j < end implies #[trigger] infer_index(new_db, subst[i])
        < #[trigger] infer_index(new_db, subst[j]) by {
        assert(infer_index(old_db, subst[i]) < infer_index(old_db, subst[j]));
    }
}

pub proof fn lemma_fresh_between_join(
    db: Db,
    subst: Seq<SymGenericTerm>,
    a: int,
    b: int,
    c: int,
    lo: int,
    mid: int,
    hi: int,
)
    requires
        fresh_between(db, subst, a, b, lo, mid),
        fresh_between(db, subst, b, c, mid, hi),
        lo <= mid <= hi,
    ensures
        fresh_between(db, subst, a, c, lo, hi),
{
    assert forall|k: int| a <= k < c implies lo <= #[trigger] infer_index(db, subst[k]) < hi by {
        if k < b {
            assert(lo <= infer_index(db, subst[k]) < mid);
        } else {
            assert(mid <= infer_index(db, subst[k]) < hi);
        }
    }
    assert forall|i: int, j: int| a <= i < j < c implies #[trigger] infer_index(db, subst[i])
        < #[trigger] infer_index(db, subst[j]) by {
        if i < b && j >= b {
            assert(infer_index(db, subst[i]) < mid);
            assert(mid <= infer_index(db, subst[j]));
        }
    }
}

/// The generic variables of a signature, those of the enclosing scope first.
pub open spec fn generic_vars(sig: FunctionSignature) -> Seq<SymVariable> {
    sig.outer_vars@ + sig.own_vars@
}

/// From `start` on, each term of `subst` is a fresh inference variable of the
/// kind of its variable (kinds as declared in `kinds`).
pub open spec fn inferred_from(
    kinds: Db,
    db: Db,
    subst: Seq<SymGenericTerm>,
    start: int,
    vars: Seq<SymVariable>,
) -> bool {
    forall|k: int|
        start <= k < subst.len() ==> is_inference_term(
            db,
            #[trigger] subst[k],
            kinds.variables@[vars[k].id as int].kind,
        )
}

pub proof fn lemma_inferred_from_extends(
    kinds: Db,
    old_db: Db,
    new_db: Db,
    subst: Seq<SymGenericTerm>,
    start: int,
    vars: Seq<SymVariable>,
)
    requires
        new_db.extends(old_db),
        inferred_from(kinds, old_db, subst, start, vars),
    ensures
        inferred_from(kinds, new_db, subst, start, vars),
{
    assert forall|k: int| start <= k < subst.len() implies is_inference_term(
        new_db,
        #[trigger] subst[k],
        kinds.variables@[vars[k].id as int].kind,
    ) by {
        lemma_inference_term_extends(old_db, new_db, subst[k], kinds.variables@[vars[k].id as int].kind);
    }
}

/// A successful check made on a store that grew from `old_db` also holds of
/// `old_db`: the temporaries are fresh there too.
pub proof fn lemma_checked_call_earlier(
    old_db: Db,
    mid_db: Db,
    db: Db,
    s: EnvModel,
    e: SymExpr,
    function: SymFunction,
    substitution: Seq<SymGenericTerm>,
    n: nat,
    sig: FunctionSignature,
    callee_span: Span,
    self_expr: Option<SymExpr>,
)
    requires
        mid_db.extends(old_db),
        checked_call(mid_db, db, s, e, function, substitution, n, sig, callee_span, self_expr),
    ensures
        checked_call(old_db, db, s, e, function, substitution, n, sig, callee_span, self_expr),
{
}

/// Pair each variable with the term at the same position.
fn zip_substitution(vars: &Vec<SymVariable>, first: usize, terms: &Vec<SymGenericTerm>, sub: &mut Substitution)
    requires
        first + vars@.len() <= terms@.len(),
    ensures
        final(sub)@.len() == old(sub)@.len() + vars@.len(),
        forall|k: int| 0 <= k < old(sub)@.len() ==> #[trigger] final(sub)@[k] == old(sub)@[k],
        forall|k: int|
            0 <= k < vars@.len() ==> #[trigger] final(sub)@[old(sub)@.len() + k] == (
            vars@[k],
            terms@[first + k],
        ),
{
    let ghost n0 = sub@.len();
    let n_terms = terms.len();
    let mut k: usize = 0;
    while k < vars.len()
        invariant
            0 <= k <= vars@.len(),
            first + vars@.len() <= terms@.len(),
            terms@.len() == n_terms,
            sub@.len() == n0 + k,
            n0 == old(sub)@.len(),
            forall|j: int| 0 <= j < n0 ==> #[trigger] sub@[j] == old(sub)@[j],
            forall|j: int| 0 <= j < k ==> #[trigger] sub@[n0 + j] == (vars@[j], terms@[first + j]),
        decreases vars@.len() - k,
    {
        sub.push((vars[k], terms[first + k]));
        k += 1;
    }
}

/// A fresh inference variable of the given kind, as a term.
pub fn fresh_inference_term(db: &mut Db, env: &mut Env, kind: SymGenericKind, span: Span) -> (r: SymGenericTerm)
    requires
        old(db).wf(),
    ensures
        crate::env::grows(old(env)@, final(env)@),
        final(db).wf(),
        final(db).extends(*old(db)),
        final(db).is_generic(r),
        final(env)@.diagnostics == old(env)@.diagnostics,
        final(env)@.obligations == old(env)@.obligations,
        final(env)@.return_ty == old(env)@.return_ty,
        term_has_kind(r, kind),
        is_inference_term(*final(db), r, kind),
        infer_index(*final(db), r) == old(env)@.infer_vars.len(),
        old(env)@.infer_vars.len() < final(env)@.infer_vars.len(),
{
    let v = env.fresh_infer(kind, span);
    match kind {
        SymGenericKind::Type => SymGenericTerm::Type(SymTy::infer(db, v)),
        SymGenericKind::Perm => SymGenericTerm::Perm(crate::types::SymPerm::infer(db, v)),
        SymGenericKind::Place => {
            let w = env.fresh_infer(SymGenericKind::Type, span);
            let ty = SymTy::infer(db, w);
            SymGenericTerm::Place(SymPlace::new(db, SymPlaceKind::Infer(v), ty))
        },
    }
}

/// Fresh inference variables for each of `vars`, of their kinds.
pub fn existential_substitution(
    db: &mut Db,
    env: &mut Env,
    span: Span,
    vars: &Vec<SymVariable>,
    out: &mut Vec<SymGenericTerm>,
)
    requires
        old(db).wf(),
        forall|k: int| 0 <= k < vars@.len() ==> #[trigger] var_ok(*old(db), vars@[k]),
        forall|k: int| 0 <= k < old(out)@.len() ==> #[trigger] old(db).is_generic(old(out)@[k]),
    ensures
        crate::env::grows(old(env)@, final(env)@),
        final(db).wf(),
        final(db).extends(*old(db)),
        final(out)@.len() == old(out)@.len() + vars@.len(),
        forall|k: int| 0 <= k < old(out)@.len() ==> #[trigger] final(out)@[k] == old(out)@[k],
        forall|k: int| 0 <= k < final(out)@.len() ==> #[trigger] final(db).is_generic(final(out)@[k]),
        final(env)@.diagnostics == old(env)@.diagnostics,
        final(env)@.obligations == old(env)@.obligations,
        final(env)@.return_ty == old(env)@.return_ty,
        forall|k: int|
            0 <= k < vars@.len() ==> is_inference_term(
                *final(db),
                #[trigger] final(out)@[old(out)@.len() + k],
                old(db).variables@[vars@[k].id as int].kind,
            ),
        fresh_between(
            *final(db),
            final(out)@,
            old(out)@.len() as int,
            final(out)@.len() as int,
            old(env)@.infer_vars.len() as int,
            final(env)@.infer_vars.len() as int,
        ),
{
    let mut k: usize = 0;
    while k < vars.len()
        invariant
            crate::env::grows(old(env)@, env@),
            db.wf(),
            db.extends(*old(db)),
            0 <= k <= vars@.len(),
            forall|j: int| 0 <= j < vars@.len() ==> #[trigger] var_ok(*old(db), vars@[j]),
            out@.len() == old(out)@.len() + k,
            forall|j: int| 0 <= j < old(out)@.len() ==> #[trigger] out@[j] == old(out)@[j],
            forall|j: int| 0 <= j < out@.len() ==> #[trigger] db.is_generic(out@[j]),
            env@.diagnostics == old(env)@.diagnostics,
            env@.obligations == old(env)@.obligations,
            env@.return_ty == old(env)@.return_ty,
            forall|j: int|
                0 <= j < k ==> is_inference_term(
                    *db,
                    #[trigger] out@[old(out)@.len() + j],
                    old(db).variables@[vars@[j].id as int].kind,
                ),
            fresh_between(
                *db,
                out@,
                old(out)@.len() as int,
                out@.len() as int,
                old(env)@.infer_vars.len() as int,
                env@.infer_vars.len() as int,
            ),
        decreases vars@.len() - k,
    {
        proof {
            assert(var_ok(*old(db), vars@[k as int]));
            assert(db.variables@[vars@[k as int].id as int] == old(db).variables@[vars@[k as int].id as int]);
        }
        let kind = db.variables[vars[k].id].kind;
        let ghost before = *db;
        let ghost s_before = env@;
        let t = fresh_inference_term(db, env, kind, span);
        proof {
            assert forall|j: int| 0 <= j < out@.len() implies #[trigger] db.is_generic(out@[j]) by {
                lemma_extends_generic(before, *db, out@[j]);
            }
            lemma_fresh_between_extends(
                before,
                *db,
                out@,
                old(out)@.len() as int,
                out@.len() as int,
                old(env)@.infer_vars.len() as int,
                s_before.infer_vars.len() as int,
                s_before.infer_vars.len() as int,
            );
            assert forall|j: int| 0 <= j < k implies is_inference_term(
                *db,
                #[trigger] out@[old(out)@.len() + j],
                old(db).variables@[vars@[j].id as int].kind,
            ) by {
                lemma_inference_term_extends(
                    before,
                    *db,
                    out@[old(out)@.len() + j],
                    old(db).variables@[vars@[j].id as int].kind,
                );
            }
        }
        let ghost prev = out@;
        out.push(t);
        proof {
            assert forall|j: int| old(out)@.len() <= j < out@.len() implies old(env)@.infer_vars.len()
                <= #[trigger] infer_index(*db, out@[j]) < env@.infer_vars.len() by {
                if j < prev.len() {
                    assert(out@[j] == prev[j]);
                }
            }
            assert forall|i: int, j: int| old(out)@.len() <= i < j < out@.len() implies #[trigger] infer_index(
                *db,
                out@[i],
            ) < #[trigger] infer_index(*db, out@[j]) by {
                assert(out@[i] == prev[i]);
                if j < prev.len() {
                    assert(out@[j] == prev[j]);
                }
            }
            assert forall|j: int| 0 <= j < k + 1 implies is_inference_term(
                *db,
                #[trigger] out@[old(out)@.len() + j],
                old(db).variables@[vars@[j].id as int].kind,
            ) by {
                if j < k {
                    assert(out@[old(out)@.len() + j] == prev[old(out)@.len() + j]);
                }
            }
        }
        k += 1;
    }
}

fn copy_vars(v: &Vec<SymVariable>) -> (r: Vec<SymVariable>)
    ensures
        r@ == v@,
{
    let mut r: Vec<SymVariable> = Vec::new();
    let mut k: usize = 0;
    while k < v.len()
        invariant
            0 <= k <= v@.len(),
            r@ == v@.take(k as int),
        decreases v@.len() - k,
    {
        r.push(v[k]);
        k += 1;
        proof {
            assert(r@ =~= v@.take(k as int));
        }
    }
    proof {
        assert(v@.take(v@.len() as int) =~= v@);
    }
    r
}

/// Check a call, given the callee's substitution for its generics: bind each
/// argument slot to a fresh place variable, check that the number of
/// arguments is right, spawn the callee's `where` clauses, check each
/// argument and require it to be assignable to its parameter type, and build
/// `let t0 = a0 in ... let tn = an in f(t0, ..., tn)`.
pub fn check_call_common(
    db: &mut Db,
    env: &mut Env,
    scope: &Scope,
    function: SymFunction,
    expr_span: Span,
    callee_span: Span,
    substitution: Vec<SymGenericTerm>,
    ast_args: &Vec<AstExpr>,
    self_expr: Option<SymExpr>,
    temporaries: Vec<Temporary>,
) -> (r: ExprResult)
    requires
        old(db).wf(),
        scope.ok(*old(db)),
        function.id < scope.functions@.len(),
        substitution@.len() == scope.functions@[function.id as int].outer_vars@.len()
            + scope.functions@[function.id as int].own_vars@.len(),
        forall|k: int| 0 <= k < substitution@.len() ==> #[trigger] old(db).is_generic(substitution@[k]),
        self_expr is Some ==> old(db).is_ty(self_expr->Some_0.ty),
        ast_args@.len() < usize::MAX,
    ensures
        crate::env::grows(old(env)@, final(env)@),
        final(db).wf(),
        final(db).extends(*old(db)),
        result_ok(*final(db), scope, &r),
        ({
            let sig = scope.functions@[function.id as int];
            let found = (if self_expr is Some { 1int } else { 0int }) + ast_args@.len();
            &&& found != sig.inputs@.len() ==> reported_only(
                old(env)@,
                final(env)@,
                arity_diagnostic(sig.inputs@.len() as usize, found as usize, callee_span, sig.name_span),
            ) && r.kind is PlaceExpr && r.temporaries@.len() == 0 && *r.kind->PlaceExpr_0.kind
                == SymPlaceExprKind::Error(
                Reported { index: old(env)@.diagnostics.len() as usize },
            )
            &&& found == sig.inputs@.len() ==> r.kind is Expr && (forall|i: int|
                (if self_expr is Some { 1int } else { 0int }) <= i < found ==> operand_of(
                    ast_args@[i - (if self_expr is Some { 1int } else { 0int })],
                    #[trigger] let_init(r.kind->Expr_0, i as nat),
                )) && checked_call(
                *old(db),
                *final(db),
                final(env)@,
                r.kind->Expr_0,
                function,
                substitution@,
                found as nat,
                sig,
                callee_span,
                self_expr,
            )
        }),
    decreases ast_args, 1int,
{
    let sig = &scope.functions[function.id];
    proof {
        assert(signature_ok(*db, scope.functions@[function.id as int]));
    }
    let self_args: usize = match &self_expr {
        Some(_) => 1,
        None => 0,
    };
    let expected = sig.inputs.len();
    let found = self_args + ast_args.len();
    if found != expected {
        let r = env.report(
            Diagnostic {
                kind: DiagnosticKind::WrongArgumentCount { expected, found },
                span: callee_span,
                related: Some(sig.name_span),
                because: Because::JustSo,
            },
        );
        return ExprResult::err(db, r, expr_span);
    }
    let ghost d0 = *db;
    // The first binder: generics of the enclosing scope, then the function's own.

    let mut sub1: Substitution = Vec::new();
    zip_substitution(&sig.outer_vars, 0, &substitution, &mut sub1);
    let ghost s_outer = sub1@;
    zip_substitution(&sig.own_vars, sig.outer_vars.len(), &substitution, &mut sub1);
    proof {
        assert forall|k: int| 0 <= k < sub1@.len() implies #[trigger] db.is_generic(sub1@[k].1) by {
            if k < sig.outer_vars@.len() {
                assert(sub1@[k] == s_outer[k]);
                assert(s_outer[0 + k] == (sig.outer_vars@[k], substitution@[0 + k]));
            } else {
                let j = k - sig.outer_vars@.len();
                assert(sub1@[sig.outer_vars@.len() + j] == (sig.own_vars@[j], substitution@[sig.outer_vars@.len() + j]));
            }
        }
        assert forall|k: int| 0 <= k < sub1@.len() implies sub1@[k] == first_binder(*sig, substitution@)[k] by {
            if k < sig.outer_vars@.len() {
                assert(sub1@[k] == s_outer[k]);
                assert(s_outer[0 + k] == (sig.outer_vars@[k], substitution@[0 + k]));
            } else {
                let j = k - sig.outer_vars@.len();
                assert(sub1@[sig.outer_vars@.len() + j] == (sig.own_vars@[j], substitution@[sig.outer_vars@.len() + j]));
            }
        }
        assert(sub1@ =~= first_binder(*sig, substitution@));
    }
    // The second binder: one fresh place variable per argument slot.

    let mut arg_temps: Vec<SymVariable> = Vec::new();
    let mut sub2: Substitution = Vec::new();
    let mut i: usize = 0;
    while i < expected
        invariant
            crate::env::grows(old(env)@, env@),
            db.wf(),
            db.extends(d0),
            scope.ok(d0),
            signature_ok(d0, *sig),
            *sig == scope.functions@[function.id as int],
            expected == sig.inputs@.len(),
            found == expected,
            found == self_args + ast_args@.len(),
            self_args == (if self_expr is Some { 1usize } else { 0usize }),
            0 <= i <= expected,
            arg_temps@.len() == i,
            subst_ok(*db, sub1@),
            subst_ok(*db, sub2@),
            sub1@ == first_binder(*sig, substitution@),
            second_binder(*db, *sig, arg_temps@, sub2@),
            d0 == *old(db),
            forall|a: int, b: int|
                0 <= a < b < arg_temps@.len() ==> (#[trigger] arg_temps@[a]).id < (#[trigger] arg_temps@[b]).id,
            forall|a: int|
                0 <= a < arg_temps@.len() ==> d0.variables@.len() <= (#[trigger] arg_temps@[a]).id
                    < db.variables@.len() && db.variables@[arg_temps@[a].id as int].kind
                    == SymGenericKind::Place,
        decreases expected - i,
    {
        let span_i = if i < self_args {
            match &self_expr {
                Some(e) => e.span,
                None => callee_span,
            }
        } else {
            ast_args[i - self_args].span
        };
        let ghost before = *db;
        let lv = db.add_variable(SymGenericKind::Place, None, span_i);
        let ghost after_var = *db;
        proof {
            lemma_subst_ok_extends(before, *db, sub1@);
            lemma_subst_ok_extends(before, *db, sub2@);
            assert(d0.is_ty(sig.inputs@[i as int]));
        }
        let ghost b1 = *db;
        let ty1 = subst_ty(db, sig.inputs[i], &sub1);
        proof {
            lemma_subst_ok_extends(b1, *db, sub1@);
            lemma_subst_ok_extends(b1, *db, sub2@);
        }
        let ghost b2 = *db;
        let place = SymPlace::var(db, lv, ty1);
        proof {
            lemma_subst_ok_extends(b2, *db, sub1@);
            lemma_subst_ok_extends(b2, *db, sub2@);
        }
        let ghost s2 = sub2@;
        let ghost temps_now = arg_temps@;
        sub2.push((sig.input_vars[i], SymGenericTerm::Place(place)));
        proof {
            assert forall|j: int| 0 <= j < s2.len() implies #[trigger] db.place_kind(s2[j].1->Place_0)
                == before.place_kind(s2[j].1->Place_0) && db.is_place(s2[j].1->Place_0) by {
                assert(before.is_place(s2[j].1->Place_0));
                assert(db.terms@[s2[j].1->Place_0.id as int] == before.terms@[s2[j].1->Place_0.id as int]);
            }
            assert forall|k: int| 0 <= k < sub2@.len() implies #[trigger] db.is_generic(sub2@[k].1) by {
                if k < s2.len() {
                    assert(sub2@[k] == s2[k]);
                }
            }
        }
        let ghost temps_before = arg_temps@;
        arg_temps.push(lv);
        proof {
            assert forall|j: int| 0 <= j < sub2@.len() implies (#[trigger] sub2@[j]).0 == sig.input_vars@[j]
                && sub2@[j].1 is Place && db.is_place(sub2@[j].1->Place_0) && db.place_kind(
                sub2@[j].1->Place_0,
            ) == SymPlaceKind::Var(arg_temps@[j]) by {
                if j < s2.len() {
                    assert(sub2@[j] == s2[j]);
                    assert(arg_temps@[j] == temps_now[j]);
                }
            }
            assert forall|a: int|
                0 <= a < arg_temps@.len() implies d0.variables@.len() <= (#[trigger] arg_temps@[a]).id
                < db.variables@.len() && db.variables@[arg_temps@[a].id as int].kind
                == SymGenericKind::Place by {
                if a < temps_before.len() {
                    assert(before.variables@[arg_temps@[a].id as int].kind == SymGenericKind::Place);
                    assert(after_var.variables@[arg_temps@[a].id as int] == before.variables@[arg_temps@[a].id as int]);
                    assert(db.variables@[arg_temps@[a].id as int] == after_var.variables@[arg_temps@[a].id as int]);
                } else {
                    assert(db.variables@[lv.id as int] == after_var.variables@[lv.id as int]);
                }
            }
        }
        i += 1;
    }
    let ghost d_temps = *db;
    proof {
        crate::subst::lemma_extends_refl(*db);
    }
    // The parameter types, output type and `where` clauses, instantiated.

    let mut input_tys: Vec<SymTy> = Vec::new();
    let mut k: usize = 0;
    while k < expected
        invariant
            crate::env::grows(old(env)@, env@),
            db.wf(),
            db.extends(d0),
            signature_ok(d0, *sig),
            expected == sig.inputs@.len(),
            0 <= k <= expected,
            input_tys@.len() == k,
            db.extends(d_temps),
            forall|j: int| 0 <= j < k ==> #[trigger] db.is_ty(input_tys@[j]),
            subst_ok(*db, sub1@),
            subst_ok(*db, sub2@),
            forall|j: int|
                0 <= j < k ==> twice_substituted(*db, sub1@, sub2@, sig.inputs@[j], #[trigger] input_tys@[j]),
        decreases expected - k,
    {
        proof {
            assert(d0.is_ty(sig.inputs@[k as int]));
        }
        let ghost b0 = *db;
        let t1 = subst_ty(db, sig.inputs[k], &sub1);
        proof {
            lemma_subst_ok_extends(b0, *db, sub2@);
            lemma_subst_ok_extends(b0, *db, sub1@);
        }
        let ghost b1 = *db;
        let t2 = subst_ty(db, t1, &sub2);
        proof {
            lemma_subst_ok_extends(b1, *db, sub1@);
            lemma_subst_ok_extends(b1, *db, sub2@);
            lemma_ty_substituted_extends(b1, *db, sub1@, sig.inputs@[k as int], t1);
            assert(twice_substituted(*db, sub1@, sub2@, sig.inputs@[k as int], t2));
            assert forall|j: int| 0 <= j < k implies twice_substituted(
                *db,
                sub1@,
                sub2@,
                sig.inputs@[j],
                #[trigger] input_tys@[j],
            ) by {
                lemma_twice_extends(b0, *db, sub1@, sub2@, sig.inputs@[j], input_tys@[j]);
            }
        }
        let ghost prev_tys = input_tys@;
        input_tys.push(t2);
        proof {
            assert forall|j: int| 0 <= j < k + 1 implies twice_substituted(
                *db,
                sub1@,
                sub2@,
                sig.inputs@[j],
                #[trigger] input_tys@[j],
            ) by {
                if j < k {
                    assert(input_tys@[j] == prev_tys[j]);
                }
            }
        }
        k += 1;
    }
    let ghost d_in = *db;
    let ghost b3 = *db;
    let out1 = subst_ty(db, sig.output, &sub1);
    proof {
        lemma_subst_ok_extends(b3, *db, sub2@);
        lemma_subst_ok_extends(b3, *db, sub1@);
    }
    let ghost b4 = *db;
    let output = subst_ty(db, out1, &sub2);
    proof {
        lemma_subst_ok_extends(b4, *db, sub1@);
        lemma_subst_ok_extends(b4, *db, sub2@);
        lemma_ty_substituted_extends(b4, *db, sub1@, sig.output, out1);
        assert(twice_substituted(*db, sub1@, sub2@, sig.output, output));
    }
    let ghost d_out = *db;
    proof {
        crate::subst::lemma_extends_refl(*db);
    }
    let mut w: usize = 0;
    while w < sig.where_clauses.len()
        invariant
            crate::env::grows(old(env)@, env@),
            db.wf(),
            db.extends(d0),
            signature_ok(d0, *sig),
            0 <= w <= sig.where_clauses@.len(),
            subst_ok(*db, sub1@),
            subst_ok(*db, sub2@),
            db.is_ty(output),
            db.extends(d_temps),
            forall|v: int| 0 <= v < w ==> #[trigger] where_required(*db, sub1@, sub2@, env@, *sig, v, callee_span),
            db.extends(d_out),
            forall|v: int|
                0 <= v < w ==> where_spawned(env@, (#[trigger] sig.where_clauses@[v]).1, callee_span),
            forall|j: int| 0 <= j < input_tys@.len() ==> #[trigger] db.is_ty(input_tys@[j]),
        decreases sig.where_clauses@.len() - w,
    {
        let (term, pred) = sig.where_clauses[w];
        proof {
            assert(d0.is_generic(sig.where_clauses@[w as int].0));
            lemma_extends_generic(d0, *db, term);
        }
        let ghost b0 = *db;
        let t1 = subst_generic(db, term, &sub1);
        proof {
            lemma_subst_ok_extends(b0, *db, sub2@);
            lemma_subst_ok_extends(b0, *db, sub1@);
        }
        let ghost b1 = *db;
        let t2 = subst_generic(db, t1, &sub2);
        proof {
            lemma_subst_ok_extends(b1, *db, sub1@);
            lemma_subst_ok_extends(b1, *db, sub2@);
        }
        let ghost s_before = env@;
        let ghost d_before_spawn = *db;
        proof {
            lemma_generic_substituted_extends_any(b1, *db, sub1@, term, t1);
            assert(generic_twice_substituted(*db, sub1@, sub2@, term, t2));
        }
        env.spawn(
            Obligation::WhereClause {
                term: t2,
                pred,
                or_else: OrElse { kind: DiagnosticKind::WhereClause, span: callee_span },
            },
        );
        proof {
            let o = Obligation::WhereClause {
                term: t2,
                pred,
                or_else: OrElse { kind: DiagnosticKind::WhereClause, span: callee_span },
            };
            assert(env@.obligations[env@.obligations.len() - 1] == o);
            assert(has_obligation(env@, o));
            assert(sig.where_clauses@[w as int] == (term, pred));
            assert(where_required(*db, sub1@, sub2@, env@, *sig, w as int, callee_span));
            assert forall|v: int| 0 <= v < w implies #[trigger] where_required(
                *db,
                sub1@,
                sub2@,
                env@,
                *sig,
                v,
                callee_span,
            ) by {
                lemma_where_required_grows(b0, *db, s_before, env@, sub1@, sub2@, *sig, v, callee_span);
            }
            assert forall|v: int| 0 <= v < w + 1 implies where_spawned(env@, (#[trigger] sig.where_clauses@[v]).1, callee_span) by {
                if v < w {
                    let t = choose|t: SymGenericTerm|
                        has_obligation(
                            s_before,
                            Obligation::WhereClause {
                                term: t,
                                pred: sig.where_clauses@[v].1,
                                or_else: OrElse { kind: DiagnosticKind::WhereClause, span: callee_span },
                            },
                        );
                    assert(has_obligation(
                        env@,
                        Obligation::WhereClause {
                            term: t,
                            pred: sig.where_clauses@[v].1,
                            or_else: OrElse { kind: DiagnosticKind::WhereClause, span: callee_span },
                        },
                    ));
                } else {
                    assert(sig.where_clauses@[v].1 == pred);
                }
            }
        }
        w += 1;
    }
    let ghost s_where = env@;
    let ghost d_where = *db;
    proof {
        crate::subst::lemma_extends_refl(*db);
    }
    // The arguments, each required to fit its parameter type.

    let mut temporaries = temporaries;
    let mut args: Vec<SymExpr> = Vec::new();
    let ghost self_value = self_expr;
    if let Some(e) = self_expr {
        env.spawn(
            Obligation::Assignable {
                value: e.ty,
                target: input_tys[0],
                or_else: OrElse { kind: DiagnosticKind::BadSubtype, span: e.span },
            },
        );
        proof {
            let o = Obligation::Assignable {
                value: e.ty,
                target: input_tys@[0],
                or_else: OrElse { kind: DiagnosticKind::BadSubtype, span: e.span },
            };
            assert(env@.obligations[env@.obligations.len() - 1] == o);
            assert(has_obligation(env@, o));
            assert(assignable_spawned(env@, e));
        }
        args.push(e);
    }
    let mut j: usize = 0;
    while j < ast_args.len()
        invariant
            crate::env::grows(old(env)@, env@),
            db.wf(),
            db.extends(d0),
            scope.ok(d0),
            0 <= j <= ast_args@.len(),
            self_args <= 1,
            found == self_args + ast_args@.len(),
            args@.len() == self_args + j,
            input_tys@.len() == self_args + ast_args@.len(),
            forall|q: int| 0 <= q < input_tys@.len() ==> #[trigger] db.is_ty(input_tys@[q]),
            forall|q: int| 0 <= q < args@.len() ==> #[trigger] db.is_ty(args@[q].ty),
            db.is_ty(output),
            db.extends(d_temps),
            db.extends(d_where),
            crate::env::grows(s_where, env@),
            self_value is Some ==> args@.len() >= 1 && args@[0] == self_value->Some_0,
            self_value is Some <==> self_args == 1,
            forall|q: int|
                0 <= q < args@.len() ==> has_obligation(
                    env@,
                    Obligation::Assignable {
                        value: (#[trigger] args@[q]).ty,
                        target: input_tys@[q],
                        or_else: OrElse { kind: DiagnosticKind::BadSubtype, span: args@[q].span },
                    },
                ),
            forall|q: int|
                self_args <= q < args@.len() ==> operand_of(ast_args@[q - self_args], #[trigger] args@[q]),
            forall|q: int|
                0 <= q < args@.len() ==> assignable_spawned(env@, #[trigger] args@[q]),
        decreases ast_args@.len() - j,
    {
        proof {
            lemma_scope_extends(*scope, d0, *db);
        }
        let ghost b0 = *db;
        let arg = check_expr(db, env, scope, &ast_args[j]);
        let ghost b1 = *db;
        let e = arg.into_expr(db, env, &mut temporaries);
        proof {
            assert forall|q: int| 0 <= q < args@.len() implies #[trigger] db.is_ty(args@[q].ty) by {
                assert(b0.is_ty(args@[q].ty));
            }
        }
        let ghost s_before = env@;
        let target = input_tys[self_args + j];
        env.spawn(
            Obligation::Assignable {
                value: e.ty,
                target,
                or_else: OrElse { kind: DiagnosticKind::BadSubtype, span: e.span },
            },
        );
        let ghost args_before = args@;
        proof {
            let o = Obligation::Assignable {
                value: e.ty,
                target,
                or_else: OrElse { kind: DiagnosticKind::BadSubtype, span: e.span },
            };
            assert(env@.obligations[env@.obligations.len() - 1] == o);
            assert(has_obligation(env@, o));
            assert(assignable_spawned(env@, e));
        }
        let ghost e_value = e;
        args.push(e);
        proof {
            assert forall|q: int| 0 <= q < args@.len() implies assignable_spawned(env@, #[trigger] args@[q]) by {
                if q < args_before.len() {
                    assert(args@[q] == args_before[q]);
                    let t = choose|t: SymTy|
                        has_obligation(
                            s_before,
                            Obligation::Assignable {
                                value: args_before[q].ty,
                                target: t,
                                or_else: OrElse { kind: DiagnosticKind::BadSubtype, span: args_before[q].span },
                            },
                        );
                    assert(has_obligation(
                        env@,
                        Obligation::Assignable {
                            value: args_before[q].ty,
                            target: t,
                            or_else: OrElse { kind: DiagnosticKind::BadSubtype, span: args_before[q].span },
                        },
                    ));
                } else {
                    assert(args@[q] == e_value);
                }
            }
            assert forall|q: int| 0 <= q < args@.len() implies has_obligation(
                env@,
                Obligation::Assignable {
                    value: (#[trigger] args@[q]).ty,
                    target: input_tys@[q],
                    or_else: OrElse { kind: DiagnosticKind::BadSubtype, span: args@[q].span },
                },
            ) by {
                if q < args_before.len() {
                    assert(args@[q] == args_before[q]);
                    assert(has_obligation(
                        s_before,
                        Obligation::Assignable {
                            value: args_before[q].ty,
                            target: input_tys@[q],
                            or_else: OrElse { kind: DiagnosticKind::BadSubtype, span: args_before[q].span },
                        },
                    ));
                } else {
                    assert(args@[q] == e_value);
                }
            }
            assert forall|q: int| self_args <= q < args@.len() implies operand_of(
                ast_args@[q - self_args],
                #[trigger] args@[q],
            ) by {
                if q < args_before.len() {
                    assert(args@[q] == args_before[q]);
                } else {
                    assert(args@[q] == e_value);
                    assert(q - self_args == j);
                }
            }
        }
        j += 1;
    }
    // `let t0 = a0 in ... let tn = an in f(t0, ..., tn)`, built from the inside out.

    let call_temps = copy_vars(&arg_temps);
    let mut call_expr = SymExpr::new(
        expr_span,
        output,
        SymExprKind::Call { function, substitution, arg_temps: call_temps },
    );
    let ghost call_node = call_expr;
    let ghost all_args = args@;
    proof {
        assert((*call_node.kind)->Call_substitution@ == substitution@);
    }
    let mut n: usize = expected;
    while n > 0
        invariant
            crate::env::grows(old(env)@, env@),
            0 <= n <= expected,
            args@.len() == n,
            arg_temps@.len() == expected,
            let_vars(call_expr, (expected - n) as nat) == arg_temps@.subrange(n as int, expected as int),
            let_body(call_expr, (expected - n) as nat) == call_node,
            *call_node.kind is Call,
            (*call_node.kind)->Call_function == function,
            (*call_node.kind)->Call_arg_temps@ == arg_temps@,
            (*call_node.kind)->Call_substitution@ == substitution@,
            db.is_ty(call_expr.ty),
            call_expr.ty == output,
            all_args.len() == expected,
            args@ == all_args.take(n as int),
            forall|j: nat| j <= expected - n ==> (#[trigger] let_body(call_expr, j)).ty == output,
            forall|i: int|
                n <= i < expected ==> *(#[trigger] let_body(call_expr, (i - n) as nat)).kind is LetIn
                    && (*let_body(call_expr, (i - n) as nat).kind)->LetIn_initializer == Some(all_args[i]),
        decreases n,
    {
        let ghost args_before = args@;
        let arg = args.pop().unwrap();
        proof {
            assert(arg == all_args[n - 1]);
            assert(args@ =~= all_args.take(n - 1));
        }
        let lv = arg_temps[n - 1];
        let ghost body = call_expr;
        let span = call_expr.span;
        let ty = call_expr.ty;
        let arg_ty = arg.ty;
        call_expr = SymExpr::new(
            span,
            ty,
            SymExprKind::LetIn { lv, ty: arg_ty, initializer: Some(arg), body: call_expr },
        );
        n -= 1;
        proof {
            let m = (expected - n) as nat;
            assert(let_vars(call_expr, m) == seq![lv] + let_vars(body, (m - 1) as nat));
            assert(let_vars(call_expr, m) =~= arg_temps@.subrange(n as int, expected as int));
            assert(let_body(call_expr, m) == let_body(body, (m - 1) as nat));
            assert forall|j: nat| j + 1 <= m implies let_body(call_expr, j + 1) == let_body(body, j) by {}
            assert forall|j: nat| j <= m implies (#[trigger] let_body(call_expr, j)).ty == output by {
                if j > 0 {
                    assert(let_body(call_expr, j) == let_body(body, (j - 1) as nat));
                }
            }
            assert forall|i: int| n <= i < expected implies *(#[trigger] let_body(
                call_expr,
                (i - n) as nat,
            )).kind is LetIn && (*let_body(call_expr, (i - n) as nat).kind)->LetIn_initializer == Some(
                all_args[i],
            ) by {
                if i > n {
                    assert(let_body(call_expr, (i - n) as nat) == let_body(body, (i - (n + 1)) as nat));
                    assert(*let_body(body, (i - (n + 1)) as nat).kind is LetIn);
                }
            }
        }
    }
    proof {
        assert(arg_temps@.subrange(0, expected as int) =~= arg_temps@);
        assert forall|a: int|
            0 <= a < arg_temps@.len() implies old(db).variables@.len() <= (#[trigger] arg_temps@[a]).id
            < db.variables@.len() && db.variables@[arg_temps@[a].id as int].kind
            == SymGenericKind::Place by {
            assert(d_temps.variables@[arg_temps@[a].id as int].kind == SymGenericKind::Place);
            assert(db.variables@[arg_temps@[a].id as int] == d_temps.variables@[arg_temps@[a].id as int]);
        }
        assert forall|w: int| 0 <= w < sig.where_clauses@.len() implies where_spawned(env@, (#[trigger] sig.where_clauses@[w]).1, callee_span) by {
            let t = choose|t: SymGenericTerm|
                has_obligation(
                    s_where,
                    Obligation::WhereClause {
                        term: t,
                        pred: sig.where_clauses@[w].1,
                        or_else: OrElse { kind: DiagnosticKind::WhereClause, span: callee_span },
                    },
                );
            assert(has_obligation(
                env@,
                Obligation::WhereClause {
                    term: t,
                    pred: sig.where_clauses@[w].1,
                    or_else: OrElse { kind: DiagnosticKind::WhereClause, span: callee_span },
                },
            ));
        }
        assert forall|i: int| 0 <= i < expected implies assignable_spawned(env@, #[trigger] let_init(call_expr, i as nat)) by {
            assert(n == 0);
            assert((i - n) as nat == i as nat);
            assert(*let_body(call_expr, (i - n) as nat).kind is LetIn);
            assert(let_init(call_expr, i as nat) == all_args[i]);
            assert(assignable_spawned(env@, all_args[i]));
        }
        let sub1v = sub1@;
        let sub2v = sub2@;
        assert forall|j: int| 0 <= j < sub2v.len() implies #[trigger] db.place_kind(sub2v[j].1->Place_0)
            == d_temps.place_kind(sub2v[j].1->Place_0) && db.is_place(sub2v[j].1->Place_0) by {
            assert(d_temps.is_place(sub2v[j].1->Place_0));
            assert(db.terms@[sub2v[j].1->Place_0.id as int] == d_temps.terms@[sub2v[j].1->Place_0.id as int]);
        }
        assert(let_vars(call_expr, expected as nat) == arg_temps@);
        assert(second_binder(*db, *sig, let_vars(call_expr, expected as nat), sub2v));
        lemma_twice_extends(d_out, *db, sub1v, sub2v, sig.output, output);
        assert forall|w: int| 0 <= w < sig.where_clauses@.len() implies #[trigger] where_required(
            *db,
            sub1v,
            sub2v,
            env@,
            *sig,
            w,
            callee_span,
        ) by {
            lemma_where_required_grows(d_where, *db, s_where, env@, sub1v, sub2v, *sig, w, callee_span);
        }
        assert forall|i: int| 0 <= i < expected implies argument_required(
            *db,
            sub1v,
            sub2v,
            env@,
            *sig,
            i,
            #[trigger] let_init(call_expr, i as nat),
        ) by {
            assert((i - n) as nat == i as nat);
            assert(*let_body(call_expr, (i - n) as nat).kind is LetIn);
            assert(let_init(call_expr, i as nat) == all_args[i]);
            assert(has_obligation(
                env@,
                Obligation::Assignable {
                    value: all_args[i].ty,
                    target: input_tys@[i],
                    or_else: OrElse { kind: DiagnosticKind::BadSubtype, span: all_args[i].span },
                },
            ));
            lemma_twice_extends(d_in, *db, sub1v, sub2v, sig.inputs@[i], input_tys@[i]);
        }
        assert(call_substituted(*db, env@, call_expr, expected as nat, *sig, substitution@, callee_span));
        assert forall|i: int| self_args <= i < expected implies operand_of(
            ast_args@[i - self_args],
            #[trigger] let_init(call_expr, i as nat),
        ) by {
            assert((i - n) as nat == i as nat);
            assert(*let_body(call_expr, (i - n) as nat).kind is LetIn);
            assert(let_init(call_expr, i as nat) == all_args[i]);
        }
        assert forall|i: int| 0 <= i < expected implies *(#[trigger] let_body(call_expr, i as nat)).kind is LetIn
            && (*let_body(call_expr, i as nat).kind)->LetIn_initializer is Some by {
            assert((i - n) as nat == i as nat);
            assert(*let_body(call_expr, (i - n) as nat).kind is LetIn);
        }
        if self_value is Some {
            assert((0 - n) as nat == 0nat);
            assert(*let_body(call_expr, (0 - n) as nat).kind is LetIn);
            assert(let_init(call_expr, 0) == all_args[0]);
        }
    }
    ExprResult::from_expr(call_expr, temporaries)
}

/// Check each argument, for its diagnostics only, when the call itself failed.
fn check_args_for_diagnostics(db: &mut Db, env: &mut Env, scope: &Scope, ast_args: &Vec<AstExpr>)
    requires
        old(db).wf(),
        scope.ok(*old(db)),
    ensures
        crate::env::grows(old(env)@, final(env)@),
        final(db).wf(),
        final(db).extends(*old(db)),
    decreases ast_args, 0int,
{
    let ghost d0 = *db;
    let mut j: usize = 0;
    while j < ast_args.len()
        invariant
            crate::env::grows(old(env)@, env@),
            db.wf(),
            db.extends(d0),
            scope.ok(d0),
            0 <= j <= ast_args@.len(),
        decreases ast_args@.len() - j,
    {
        proof {
            lemma_scope_extends(*scope, d0, *db);
        }
        let _ = check_expr(db, env, scope, &ast_args[j]);
        j += 1;
    }
}

/// Check a call of a function by name, `f(args)` or `f[generics](args)`:
/// generics not given explicitly become fresh inference variables.
pub fn check_function_call(
    db: &mut Db,
    env: &mut Env,
    scope: &Scope,
    function_span: Span,
    expr_span: Span,
    function: SymFunction,
    ast_args: &Vec<AstExpr>,
    generics: Vec<SymGenericTerm>,
    temporaries: Vec<Temporary>,
) -> (r: ExprResult)
    requires
        old(db).wf(),
        scope.ok(*old(db)),
        function.id < scope.functions@.len(),
        forall|k: int| 0 <= k < generics@.len() ==> #[trigger] old(db).is_generic(generics@[k]),
        ast_args@.len() < usize::MAX,
    ensures
        crate::env::grows(old(env)@, final(env)@),
        final(db).wf(),
        final(db).extends(*old(db)),
        result_ok(*final(db), scope, &r),
        ({
            let sig = scope.functions@[function.id as int];
            let found = ast_args@.len();
            &&& sig.error is Some ==> r.kind is PlaceExpr && r.temporaries@.len() == 0
                && *r.kind->PlaceExpr_0.kind == SymPlaceExprKind::Error(sig.error->Some_0)
            &&& sig.error is None && generics@.len() > sig.outer_vars@.len() + sig.own_vars@.len()
                ==> r.kind is PlaceExpr && r.temporaries@.len() == 0 && final(env)@ == (EnvModel {
                diagnostics: old(env)@.diagnostics.push(
                    generic_count_diagnostic(
                        (sig.outer_vars@.len() + sig.own_vars@.len()) as usize,
                        generics@.len() as usize,
                        function_span,
                        sig.name_span,
                    ),
                ),
                ..old(env)@
            })
            &&& sig.error is None && generics@.len() <= sig.outer_vars@.len() + sig.own_vars@.len()
                && found != sig.inputs@.len() ==> r.kind is PlaceExpr && final(env)@.diagnostics
                == old(env)@.diagnostics.push(
                arity_diagnostic(sig.inputs@.len() as usize, found as usize, function_span, sig.name_span),
            )
            &&& sig.error is None && generics@.len() <= sig.outer_vars@.len() + sig.own_vars@.len()
                && found == sig.inputs@.len() ==> r.kind is Expr && exists|subst: Seq<SymGenericTerm>|
                {
                    &&& subst.len() == sig.outer_vars@.len() + sig.own_vars@.len()
                    &&& subst.take(generics@.len() as int) == generics@
                    &&& inferred_from(*old(db), *final(db), subst, generics@.len() as int, generic_vars(sig))
                    &&& fresh_between(
                        *final(db),
                        subst,
                        generics@.len() as int,
                        subst.len() as int,
                        old(env)@.infer_vars.len() as int,
                        final(env)@.infer_vars.len() as int,
                    )
                    &&& checked_call(
                        *old(db),
                        *final(db),
                        final(env)@,
                        r.kind->Expr_0,
                        function,
                        subst,
                        found as nat,
                        sig,
                        function_span,
                        None,
                    )
                }
        }),
    decreases ast_args, 2int,
{
    let sig = &scope.functions[function.id];
    proof {
        assert(signature_ok(*db, scope.functions@[function.id as int]));
    }
    if let Some(reported) = sig.error {
        check_args_for_diagnostics(db, env, scope, ast_args);
        return ExprResult::err(db, reported, expr_span);
    }
    let n_outer = sig.outer_vars.len();
    let n_own = sig.own_vars.len();
    if generics.len() > n_outer && generics.len() - n_outer > n_own {
        let r = env.report(
            Diagnostic {
                kind: DiagnosticKind::WrongGenericCount {
                    expected: n_outer + n_own,
                    found: generics.len(),
                },
                span: function_span,
                related: Some(sig.name_span),
                because: Because::JustSo,
            },
        );
        return ExprResult::err(db, r, expr_span);
    }
    // Generics not given explicitly are inferred.

    let ghost given = generics@;
    let mut substitution = generics;
    let ghost d0 = *db;
    let ghost diags0 = env@.diagnostics;
    let ghost n_given = substitution@.len();
    proof {
        assert(substitution@.take(n_given as int) =~= given);
    }
    while substitution.len() < n_outer || substitution.len() - n_outer < n_own
        invariant
            crate::env::grows(old(env)@, env@),
            db.wf(),
            db.extends(d0),
            signature_ok(d0, *sig),
            n_outer == sig.outer_vars@.len(),
            n_own == sig.own_vars@.len(),
            substitution@.len() <= n_outer + n_own,
            forall|q: int| 0 <= q < substitution@.len() ==> #[trigger] db.is_generic(substitution@[q]),
            env@.diagnostics == diags0,
            d0 == *old(db),
            n_given == given.len(),
            n_given <= substitution@.len(),
            substitution@.take(n_given as int) == given,
            inferred_from(d0, *db, substitution@, n_given as int, generic_vars(*sig)),
            fresh_between(
                *db,
                substitution@,
                n_given as int,
                substitution@.len() as int,
                old(env)@.infer_vars.len() as int,
                env@.infer_vars.len() as int,
            ),
        decreases n_outer + n_own - substitution@.len(),
    {
        let k = substitution.len();
        let var = if k < n_outer {
            sig.outer_vars[k]
        } else {
            sig.own_vars[k - n_outer]
        };
        proof {
            if k < n_outer {
                assert(var_ok(d0, sig.outer_vars@[k as int]));
            } else {
                assert(var_ok(d0, sig.own_vars@[k - n_outer]));
            }
        }
        let kind = db.variables[var.id].kind;
        let ghost before = *db;
        let ghost s_before = env@;
        let t = fresh_inference_term(db, env, kind, function_span);
        proof {
            lemma_fresh_between_extends(
                before,
                *db,
                substitution@,
                n_given as int,
                substitution@.len() as int,
                old(env)@.infer_vars.len() as int,
                s_before.infer_vars.len() as int,
                s_before.infer_vars.len() as int,
            );
            assert forall|q: int| 0 <= q < substitution@.len() implies #[trigger] db.is_generic(
                substitution@[q],
            ) by {
                lemma_extends_generic(before, *db, substitution@[q]);
            }
            lemma_inferred_from_extends(d0, before, *db, substitution@, n_given as int, generic_vars(*sig));
            assert(generic_vars(*sig)[k as int] == var);
            assert(before.variables@[var.id as int] == d0.variables@[var.id as int]);
        }
        let ghost prev = substitution@;
        substitution.push(t);
        proof {
            assert(substitution@.take(n_given as int) =~= prev.take(n_given as int));
            assert forall|j: int| n_given <= j < substitution@.len() implies old(env)@.infer_vars.len()
                <= #[trigger] infer_index(*db, substitution@[j]) < env@.infer_vars.len() by {
                if j < prev.len() {
                    assert(substitution@[j] == prev[j]);
                }
            }
            assert forall|i: int, j: int| n_given <= i < j < substitution@.len() implies #[trigger] infer_index(
                *db,
                substitution@[i],
            ) < #[trigger] infer_index(*db, substitution@[j]) by {
                assert(substitution@[i] == prev[i]);
                if j < prev.len() {
                    assert(substitution@[j] == prev[j]);
                }
            }
            assert forall|q: int| n_given <= q < substitution@.len() implies is_inference_term(
                *db,
                #[trigger] substitution@[q],
                d0.variables@[generic_vars(*sig)[q].id as int].kind,
            ) by {
                if q < prev.len() {
                    assert(substitution@[q] == prev[q]);
                }
            }
        }
    }
    let ghost subst = substitution@;
    let ghost d_mid = *db;
    let ghost s_mid_infer = env@.infer_vars.len();
    proof {
        lemma_scope_extends(*scope, d0, *db);
    }
    let r = check_call_common(
        db,
        env,
        scope,
        function,
        expr_span,
        function_span,
        substitution,
        ast_args,
        None,
        temporaries,
    );
    proof {
        lemma_inferred_from_extends(d0, d_mid, *db, subst, n_given as int, generic_vars(*sig));
        lemma_fresh_between_extends(
            d_mid,
            *db,
            subst,
            n_given as int,
            subst.len() as int,
            old(env)@.infer_vars.len() as int,
            s_mid_infer as int,
            env@.infer_vars.len() as int,
        );
        if r.kind is Expr && ast_args@.len() == sig.inputs@.len() {
            lemma_checked_call_earlier(
                d0,
                d_mid,
                *db,
                env@,
                r.kind->Expr_0,
                function,
                subst,
                ast_args@.len() as nat,
                *sig,
                function_span,
                None,
            );
        }
    }
    r
}

/// The diagnostic for explicit generics of the wrong number.
pub open spec fn generic_count_diagnostic(expected: usize, found: usize, span: Span, decl_span: Span) -> Diagnostic {
    Diagnostic {
        kind: DiagnosticKind::WrongGenericCount { expected, found },
        span,
        related: Some(decl_span),
        because: Because::JustSo,
    }
}

/// The explicit generic arguments, if any were given.
pub open spec fn given_generics(generics: Option<Vec<AstGenericTerm>>) -> Option<Seq<AstGenericTerm>> {
    match generics {
        Some(g) => Some(g@),
        None => None,
    }
}

/// The terms of explicit generic arguments.
pub open spec fn generic_terms(given: Seq<AstGenericTerm>) -> Seq<SymGenericTerm> {
    given.map_values(|g: AstGenericTerm| g.term)
}

/// Each explicit generic argument has the kind of its variable.
pub open spec fn kinds_match(db: Db, given: Seq<AstGenericTerm>, vars: Seq<SymVariable>) -> bool {
    forall|k: int|
        0 <= k < given.len() ==> term_has_kind(
            #[trigger] given[k].term,
            db.variables@[vars[k].id as int].kind,
        )
}

/// The substitution of a method call: fresh inference variables for the
/// generics of the enclosing scope, then the explicit generics if given, or
/// more fresh inference variables if not.
pub open spec fn method_substitution(
    kinds: Db,
    db: Db,
    subst: Seq<SymGenericTerm>,
    sig: FunctionSignature,
    given: Option<Seq<AstGenericTerm>>,
    lo: int,
    hi: int,
) -> bool {
    let n_outer = sig.outer_vars@.len();
    &&& subst.len() == n_outer + sig.own_vars@.len()
    &&& fresh_between(db, subst, 0, if given is None { subst.len() as int } else { n_outer as int }, lo, hi)
    &&& forall|k: int|
        0 <= k < n_outer ==> is_inference_term(
            db,
            #[trigger] subst[k],
            kinds.variables@[sig.outer_vars@[k].id as int].kind,
        )
    &&& given is None ==> forall|k: int|
        0 <= k < sig.own_vars@.len() ==> is_inference_term(
            db,
            #[trigger] subst[n_outer + k],
            kinds.variables@[sig.own_vars@[k].id as int].kind,
        )
    &&& given is Some ==> subst.subrange(n_outer as int, subst.len() as int) == generic_terms(
        given->Some_0,
    )
}

/// Add explicit generic arguments to `substitution`, one for each of `vars`,
/// checking that each has the kind of its variable.
fn explicit_generics(
    db: &Db,
    env: &mut Env,
    vars: &Vec<SymVariable>,
    given: &Vec<AstGenericTerm>,
    substitution: &mut Vec<SymGenericTerm>,
) -> (r: Result<(), crate::diagnostic::Reported>)
    requires
        db.wf(),
        given@.len() == vars@.len(),
        forall|k: int| 0 <= k < vars@.len() ==> #[trigger] var_ok(*db, vars@[k]),
        forall|k: int| 0 <= k < given@.len() ==> #[trigger] db.is_generic(given@[k].term),
        forall|k: int| 0 <= k < old(substitution)@.len() ==> #[trigger] db.is_generic(old(substitution)@[k]),
    ensures
        crate::env::grows(old(env)@, final(env)@),
        r is Ok ==> final(substitution)@.len() == old(substitution)@.len() + given@.len()
            && final(env)@ == old(env)@,
        forall|k: int| 0 <= k < final(substitution)@.len() ==> #[trigger] db.is_generic(final(substitution)@[k]),
        r is Err ==> final(env)@.diagnostics.len() == old(env)@.diagnostics.len() + 1
            && final(env)@.diagnostics.last().kind is KindMismatch,
        r is Ok <==> kinds_match(*db, given@, vars@),
        r is Ok ==> final(substitution)@ == old(substitution)@ + generic_terms(given@),
{
    let mut k: usize = 0;
    while k < given.len()
        invariant
            crate::env::grows(old(env)@, env@),
            given@.len() == vars@.len(),
            0 <= k <= given@.len(),
            substitution@.len() == old(substitution)@.len() + k,
            forall|q: int| 0 <= q < vars@.len() ==> #[trigger] var_ok(*db, vars@[q]),
            forall|q: int| 0 <= q < given@.len() ==> #[trigger] db.is_generic(given@[q].term),
            forall|q: int| 0 <= q < substitution@.len() ==> #[trigger] db.is_generic(substitution@[q]),
            env@ == old(env)@,
            substitution@ == old(substitution)@ + generic_terms(given@.take(k as int)),
            kinds_match(*db, given@.take(k as int), vars@),
        decreases given@.len() - k,
    {
        let generic = given[k];
        let var = vars[k];
        proof {
            assert(var_ok(*db, vars@[k as int]));
            assert(db.is_generic(given@[k as int].term));
        }
        let var_data = db.variables[var.id];
        if !generic.term.is_of_kind(var_data.kind) {
            proof {
                assert(given@[k as int] == generic);
                assert(!kinds_match(*db, given@, vars@));
            }
            let found_kind = match generic.term.kind() {
                Ok(kind) => kind,
                Err(_) => var_data.kind,
            };
            let r = env.report(
                Diagnostic {
                    kind: DiagnosticKind::KindMismatch { expected_kind: var_data.kind, found_kind },
                    span: generic.span,
                    related: Some(var_data.span),
                    because: Because::JustSo,
                },
            );
            return Err(r);
        }
        let ghost prev = substitution@;
        substitution.push(generic.term);
        proof {
            assert(given@.take(k + 1) =~= given@.take(k as int).push(generic));
            assert(generic_terms(given@.take(k + 1)) =~= generic_terms(given@.take(k as int)).push(generic.term));
            assert(substitution@ =~= old(substitution)@ + generic_terms(given@.take(k + 1)));
            assert forall|q: int| 0 <= q < given@.take(k + 1).len() implies term_has_kind(
                #[trigger] given@.take(k + 1)[q].term,
                db.variables@[vars@[q].id as int].kind,
            ) by {
                if q < k {
                    assert(given@.take(k + 1)[q] == given@.take(k as int)[q]);
                }
            }
        }
        k += 1;
    }
    proof {
        assert(given@.take(given@.len() as int) =~= given@);
    }
    Ok(())
}

/// Check a call `a.b(args)` or `a.b[generics](args)` of a method. Explicit
/// generics apply to the method's own generics only; those of the enclosing
/// class always become fresh inference variables.
pub fn check_method_call(
    db: &mut Db,
    env: &mut Env,
    scope: &Scope,
    id_span: Span,
    expr_span: Span,
    function: SymFunction,
    self_expr: SymExpr,
    ast_args: &Vec<AstExpr>,
    generics: Option<Vec<AstGenericTerm>>,
    temporaries: Vec<Temporary>,
) -> (r: ExprResult)
    requires
        old(db).wf(),
        scope.ok(*old(db)),
        function.id < scope.functions@.len(),
        old(db).is_ty(self_expr.ty),
        generics is Some ==> forall|k: int|
            0 <= k < generics->Some_0@.len() ==> #[trigger] old(db).is_generic(generics->Some_0@[k].term),
        ast_args@.len() < usize::MAX,
    ensures
        crate::env::grows(old(env)@, final(env)@),
        final(db).wf(),
        final(db).extends(*old(db)),
        result_ok(*final(db), scope, &r),
        scope.functions@[function.id as int].error is Some ==> r.kind is PlaceExpr
            && r.temporaries@.len() == 0 && *r.kind->PlaceExpr_0.kind == SymPlaceExprKind::Error(
            scope.functions@[function.id as int].error->Some_0,
        ),
        ({
            let sig = scope.functions@[function.id as int];
            let n = 1 + ast_args@.len();
            let given = given_generics(generics);
            sig.error is None ==> {
                &&& generics is Some && generics->Some_0@.len() != sig.own_vars@.len() ==> r.kind is PlaceExpr
                    && r.temporaries@.len() == 0 && final(env)@.obligations == old(env)@.obligations
                    && final(env)@.diagnostics == old(env)@.diagnostics.push(
                    generic_count_diagnostic(
                        sig.own_vars@.len() as usize,
                        generics->Some_0@.len() as usize,
                        id_span,
                        sig.name_span,
                    ),
                )
                &&& generics is Some && generics->Some_0@.len() == sig.own_vars@.len() && !kinds_match(
                    *old(db),
                    generics->Some_0@,
                    sig.own_vars@,
                ) ==> r.kind is PlaceExpr && final(env)@.diagnostics.len() == old(env)@.diagnostics.len() + 1
                    && final(env)@.diagnostics.last().kind is KindMismatch
                &&& (generics is None || (generics->Some_0@.len() == sig.own_vars@.len() && kinds_match(
                    *old(db),
                    generics->Some_0@,
                    sig.own_vars@,
                ))) ==> {
                    &&& n == sig.inputs@.len() ==> r.kind is Expr && exists|subst: Seq<SymGenericTerm>|
                        method_substitution(
                            *old(db),
                            *final(db),
                            subst,
                            sig,
                            given,
                            old(env)@.infer_vars.len() as int,
                            final(env)@.infer_vars.len() as int,
                        ) && checked_call(
                            *old(db),
                            *final(db),
                            final(env)@,
                            r.kind->Expr_0,
                            function,
                            subst,
                            n as nat,
                            sig,
                            id_span,
                            Some(self_expr),
                        )
                    &&& n != sig.inputs@.len() ==> r.kind is PlaceExpr && final(env)@.diagnostics
                        == old(env)@.diagnostics.push(
                        arity_diagnostic(sig.inputs@.len() as usize, n as usize, id_span, sig.name_span),
                    )
                }
            }
        }),
    decreases ast_args, 2int,
{
    let sig = &scope.functions[function.id];
    proof {
        assert(signature_ok(*db, scope.functions@[function.id as int]));
    }
    if let Some(reported) = sig.error {
        check_args_for_diagnostics(db, env, scope, ast_args);
        return ExprResult::err(db, reported, expr_span);
    }
    let ghost d0 = *db;
    let ghost given = given_generics(generics);
    let mut substitution: Vec<SymGenericTerm> = Vec::new();
    match generics {
        None => {
            existential_substitution(db, env, id_span, &sig.outer_vars, &mut substitution);
            let ghost d1 = *db;
            let ghost s_a = substitution@;
            let ghost l1 = env@.infer_vars.len();
            proof {
                assert forall|k: int| 0 <= k < sig.own_vars@.len() implies #[trigger] var_ok(
                    *db,
                    sig.own_vars@[k],
                ) by {
                    assert(var_ok(d0, sig.own_vars@[k]));
                }
            }
            existential_substitution(db, env, id_span, &sig.own_vars, &mut substitution);
            proof {
                let n_outer = sig.outer_vars@.len();
                lemma_fresh_between_extends(
                    d1,
                    *db,
                    s_a,
                    0,
                    n_outer as int,
                    old(env)@.infer_vars.len() as int,
                    l1 as int,
                    l1 as int,
                );
                assert forall|k: int| 0 <= k < n_outer implies substitution@[k] == s_a[k] by {}
                assert(fresh_between(*db, substitution@, 0, n_outer as int, old(env)@.infer_vars.len() as int, l1 as int));
                lemma_fresh_between_join(
                    *db,
                    substitution@,
                    0,
                    n_outer as int,
                    substitution@.len() as int,
                    old(env)@.infer_vars.len() as int,
                    l1 as int,
                    env@.infer_vars.len() as int,
                );
                assert forall|k: int| 0 <= k < n_outer implies is_inference_term(
                    *db,
                    #[trigger] substitution@[k],
                    d0.variables@[sig.outer_vars@[k].id as int].kind,
                ) by {
                    assert(substitution@[k] == s_a[k]);
                    assert(s_a[0 + k] == s_a[k]);
                    lemma_inference_term_extends(d1, *db, s_a[k], d0.variables@[sig.outer_vars@[k].id as int].kind);
                }
                assert forall|k: int| 0 <= k < sig.own_vars@.len() implies is_inference_term(
                    *db,
                    #[trigger] substitution@[n_outer + k],
                    d0.variables@[sig.own_vars@[k].id as int].kind,
                ) by {
                    assert(var_ok(d0, sig.own_vars@[k]));
                    assert(d1.variables@[sig.own_vars@[k].id as int] == d0.variables@[sig.own_vars@[k].id as int]);
                }
                assert(method_substitution(d0, *db, substitution@, *sig, given, old(env)@.infer_vars.len() as int, env@.infer_vars.len() as int));
            }
        },
        Some(generics) => {
            existential_substitution(db, env, id_span, &sig.outer_vars, &mut substitution);
            let ghost d1 = *db;
            let ghost s_a = substitution@;
            proof {
                assert forall|k: int| 0 <= k < sig.own_vars@.len() implies #[trigger] var_ok(
                    *db,
                    sig.own_vars@[k],
                ) by {
                    assert(var_ok(d0, sig.own_vars@[k]));
                }
                assert forall|k: int| 0 <= k < generics@.len() implies #[trigger] db.is_generic(
                    generics@[k].term,
                ) by {
                    lemma_extends_generic(d0, *db, generics@[k].term);
                }
            }
            if sig.own_vars.len() != generics.len() {
                let r = env.report(
                    Diagnostic {
                        kind: DiagnosticKind::WrongGenericCount {
                            expected: sig.own_vars.len(),
                            found: generics.len(),
                        },
                        span: id_span,
                        related: Some(sig.name_span),
                        because: Because::JustSo,
                    },
                );
                let result = ExprResult::err(db, r, expr_span);
                proof {
                    lemma_extends_trans(d0, d1, *db);
                }
                return result;
            }
            let ghost d2 = *db;
            proof {
                assert forall|k: int| 0 <= k < sig.own_vars@.len() implies #[trigger] d2.variables@[sig.own_vars@[k].id as int]
                    == d0.variables@[sig.own_vars@[k].id as int] by {
                    assert(var_ok(d0, sig.own_vars@[k]));
                }
                assert(kinds_match(d2, generics@, sig.own_vars@) == kinds_match(d0, generics@, sig.own_vars@));
            }
            match explicit_generics(db, env, &sig.own_vars, &generics, &mut substitution) {
                Ok(()) => {
                    proof {
                        let n_outer = sig.outer_vars@.len();
                        assert forall|k: int| 0 <= k < n_outer implies substitution@[k] == s_a[k] by {}
                        assert(fresh_between(
                            *db,
                            substitution@,
                            0,
                            n_outer as int,
                            old(env)@.infer_vars.len() as int,
                            env@.infer_vars.len() as int,
                        ));
                        assert(substitution@.subrange(n_outer as int, substitution@.len() as int) =~= generic_terms(generics@));
                        assert forall|k: int| 0 <= k < n_outer implies is_inference_term(
                            *db,
                            #[trigger] substitution@[k],
                            d0.variables@[sig.outer_vars@[k].id as int].kind,
                        ) by {
                            assert(substitution@[k] == s_a[k]);
                            assert(s_a[0 + k] == s_a[k]);
                        }
                        assert(method_substitution(d0, *db, substitution@, *sig, given, old(env)@.infer_vars.len() as int, env@.infer_vars.len() as int));
                    }
                },
                Err(r) => {
                    let result = ExprResult::err(db, r, expr_span);
                    proof {
                        lemma_extends_trans(d0, d1, d2);
                        lemma_extends_trans(d0, d2, *db);
                    }
                    return result;
                },
            }
            proof {
                lemma_extends_trans(d0, d1, *db);
            }
        },
    }
    proof {
        lemma_scope_extends(*scope, d0, *db);
    }
    let ghost subst = substitution@;
    let ghost d_mid = *db;
    let ghost s_mid_infer = env@.infer_vars.len();
    let ghost self_value = self_expr;
    let r = check_call_common(
        db,
        env,
        scope,
        function,
        expr_span,
        id_span,
        substitution,
        ast_args,
        Some(self_expr),
        temporaries,
    );
    proof {
        lemma_method_substitution_extends(
            d0,
            d_mid,
            *db,
            subst,
            *sig,
            given,
            old(env)@.infer_vars.len() as int,
            s_mid_infer as int,
            env@.infer_vars.len() as int,
        );
        if 1 + ast_args@.len() != sig.inputs@.len() {
            assert(r.kind is PlaceExpr);
            assert(env@.diagnostics == old(env)@.diagnostics.push(
                arity_diagnostic(sig.inputs@.len() as usize, (1 + ast_args@.len()) as usize, id_span, sig.name_span),
            ));
        }
        if r.kind is Expr && 1 + ast_args@.len() == sig.inputs@.len() {
            lemma_checked_call_earlier(
                d0,
                d_mid,
                *db,
                env@,
                r.kind->Expr_0,
                function,
                subst,
                (1 + ast_args@.len()) as nat,
                *sig,
                id_span,
                Some(self_value),
            );
            assert(method_substitution(
                d0,
                *db,
                subst,
                *sig,
                given,
                old(env)@.infer_vars.len() as int,
                env@.infer_vars.len() as int,
            ) && checked_call(
                d0,
                *db,
                env@,
                r.kind->Expr_0,
                function,
                subst,
                (1 + ast_args@.len()) as nat,
                *sig,
                id_span,
                Some(self_value),
            ));
        }
    }
    r
}

pub proof fn lemma_method_substitution_extends(
    kinds: Db,
    old_db: Db,
    new_db: Db,
    subst: Seq<SymGenericTerm>,
    sig: FunctionSignature,
    given: Option<Seq<AstGenericTerm>>,
    lo: int,
    hi: int,
    hi2: int,
)
    requires
        new_db.extends(old_db),
        method_substitution(kinds, old_db, subst, sig, given, lo, hi),
        forall|k: int| 0 <= k < subst.len() ==> #[trigger] old_db.is_generic(subst[k]),
        hi <= hi2,
    ensures
        method_substitution(kinds, new_db, subst, sig, given, lo, hi2),
{
    lemma_fresh_between_extends(
        old_db,
        new_db,
        subst,
        0,
        if given is None { subst.len() as int } else { sig.outer_vars@.len() as int },
        lo,
        hi,
        hi2,
    );
    let n_outer = sig.outer_vars@.len();
    assert forall|k: int| 0 <= k < n_outer implies is_inference_term(
        new_db,
        #[trigger] subst[k],
        kinds.variables@[sig.outer_vars@[k].id as int].kind,
    ) by {
        lemma_inference_term_extends(old_db, new_db, subst[k], kinds.variables@[sig.outer_vars@[k].id as int].kind);
    }
    if given is None {
        assert forall|k: int| 0 <= k < sig.own_vars@.len() implies is_inference_term(
            new_db,
            #[trigger] subst[n_outer + k],
            kinds.variables@[sig.own_vars@[k].id as int].kind,
        ) by {
            lemma_inference_term_extends(
                old_db,
                new_db,
                subst[n_outer + k],
                kinds.variables@[sig.own_vars@[k].id as int].kind,
            );
        }
    }
}

/// The diagnostic for calling a class that has no `new` method: it points at
/// the call, and at the member named `new` if there is one, else at the class.
pub open spec fn no_new_diagnostic(member_found: bool, class_span: Span, related: Span) -> Diagnostic {
    Diagnostic {
        kind: DiagnosticKind::NoNewMethod { member_found },
        span: class_span,
        related: Some(related),
        because: Because::JustSo,
    }
}

/// What checking the call of function `f` by name gives, with `generics`
/// given and `n` arguments: with a valid signature, the bound call with a
/// substitution that starts with the given generics, or the arity error.
pub open spec fn named_call_checked(
    old_db: Db,
    db: Db,
    s: EnvModel,
    scope: &Scope,
    f: SymFunction,
    generics: Seq<SymGenericTerm>,
    n: int,
    span: Span,
    r: &ExprResult,
) -> bool {
    let sig = scope.functions@[f.id as int];
    &&& sig.error is Some ==> r.kind is PlaceExpr && r.temporaries@.len() == 0
        && *r.kind->PlaceExpr_0.kind == SymPlaceExprKind::Error(sig.error->Some_0)
    &&& sig.error is None && generics.len() <= sig.outer_vars@.len() + sig.own_vars@.len() ==> {
        &&& n == sig.inputs@.len() ==> r.kind is Expr && exists|subst: Seq<SymGenericTerm>|
            {
                &&& subst.len() == sig.outer_vars@.len() + sig.own_vars@.len()
                &&& subst.take(generics.len() as int) == generics
                &&& checked_call(old_db, db, s, r.kind->Expr_0, f, subst, n as nat, sig, span, None)
            }
        &&& n != sig.inputs@.len() ==> r.kind is PlaceExpr && s.diagnostics.len() > 0
            && s.diagnostics.last() == arity_diagnostic(sig.inputs@.len() as usize, n as usize, span, sig.name_span)
    }
}

/// When the class has no method `new`, the call is an error that says whether
/// there is a member named `new` at all, and a word `new` exists.
pub open spec fn no_new_reported(
    db: Db,
    old_s: EnvModel,
    s: EnvModel,
    scope: &Scope,
    class: SymAggregate,
    class_span: Span,
    r: &ExprResult,
) -> bool {
    &&& exists|new_word: Word| new_word.id < db.words@.len() && #[trigger] new_word.text(db) == "new"@
    &&& forall|new_word: Word|
        new_word.id < db.words@.len() && #[trigger] new_word.text(db) == "new"@ ==> {
            let member = first_member(scope.members@, class.id, new_word);
            &&& member is None ==> r.kind is PlaceExpr && reported_only(
                old_s,
                s,
                no_new_diagnostic(false, class_span, db.classes@[class.id as int].name_decl_span),
            )
            &&& member is Some && !(member->Some_0.0 is Function) ==> r.kind is PlaceExpr
                && reported_only(old_s, s, no_new_diagnostic(true, class_span, member->Some_0.1))
        }
}

/// Check a call of a class, `Class(args)`, as a call of its method `new`.
pub fn check_class_call(
    db: &mut Db,
    env: &mut Env,
    scope: &Scope,
    class_span: Span,
    expr_span: Span,
    name_resolution: NameResolution,
    ast_args: &Vec<AstExpr>,
    temporaries: Vec<Temporary>,
) -> (r: ExprResult)
    requires
        old(db).wf(),
        scope.ok(*old(db)),
        name_resolution.sym is Aggregate,
        scope.sym_ok(*old(db), name_resolution.sym),
        forall|k: int|
            0 <= k < name_resolution.generics@.len() ==> #[trigger] old(db).is_generic(
                name_resolution.generics@[k],
            ),
        ast_args@.len() < usize::MAX,
    ensures
        crate::env::grows(old(env)@, final(env)@),
        final(db).wf(),
        final(db).extends(*old(db)),
        result_ok(*final(db), scope, &r),
        no_new_reported(
            *final(db),
            old(env)@,
            final(env)@,
            scope,
            name_resolution.sym->Aggregate_0,
            class_span,
            &r,
        ),
        forall|new_word: Word|
            new_word.id < final(db).words@.len() && #[trigger] new_word.text(*final(db)) == "new"@ ==> {
                let class = name_resolution.sym->Aggregate_0;
                let member = first_member(scope.members@, class.id, new_word);
                member is Some && member->Some_0.0 is Function ==> named_call_checked(
                    *old(db),
                    *final(db),
                    final(env)@,
                    scope,
                    member->Some_0.0->Function_0,
                    name_resolution.generics@,
                    ast_args@.len() as int,
                    class_span,
                    &r,
                )
            },
    decreases ast_args, 3int,
{
    let ghost d0 = *db;
    let new_word = Word::intern(db, "new");
    proof {
        lemma_scope_extends(*scope, d0, *db);
        lemma_new_word_unique(*db, new_word);
    }
    let class = match name_resolution.sym {
        NameResolutionSym::Aggregate(a) => a,
        _ => vstd::pervasive::unreached(),
    };
    let result = match scope.resolve_member(db, class.id, new_word) {
        Some((NameResolutionSym::Function(f), _)) => {
            let mut generics: Vec<SymGenericTerm> = Vec::new();
            let mut k: usize = 0;
            while k < name_resolution.generics.len()
                invariant
                    crate::env::grows(old(env)@, env@),
                    0 <= k <= name_resolution.generics@.len(),
                    generics@ == name_resolution.generics@.take(k as int),
                decreases name_resolution.generics@.len() - k,
            {
                generics.push(name_resolution.generics[k]);
                k += 1;
                proof {
                    assert(generics@ =~= name_resolution.generics@.take(k as int));
                }
            }
            proof {
                assert(name_resolution.generics@.take(name_resolution.generics@.len() as int) =~= name_resolution.generics@);
                assert forall|q: int| 0 <= q < generics@.len() implies #[trigger] db.is_generic(generics@[q]) by {
                    lemma_extends_generic(d0, *db, generics@[q]);
                }
            }
            let ghost d1 = *db;
            let ghost s1 = env@;
            let ghost g = generics@;
            let result = check_function_call(db, env, scope, class_span, expr_span, f, ast_args, generics, temporaries);
            proof {
                let sig = scope.functions@[f.id as int];
                if sig.error is None && g.len() <= sig.outer_vars@.len() + sig.own_vars@.len()
                    && ast_args@.len() == sig.inputs@.len() {
                    let subst = choose|subst: Seq<SymGenericTerm>|
                        {
                            &&& subst.len() == sig.outer_vars@.len() + sig.own_vars@.len()
                            &&& subst.take(g.len() as int) == g
                            &&& inferred_from(d1, *db, subst, g.len() as int, generic_vars(sig))
                            &&& checked_call(
                                d1,
                                *db,
                                env@,
                                result.kind->Expr_0,
                                f,
                                subst,
                                ast_args@.len() as nat,
                                sig,
                                class_span,
                                None,
                            )
                        };
                    lemma_checked_call_earlier(
                        *old(db),
                        d1,
                        *db,
                        env@,
                        result.kind->Expr_0,
                        f,
                        subst,
                        ast_args@.len() as nat,
                        sig,
                        class_span,
                        None,
                    );
                }
            }
            result
        },
        Some((_, member_span)) => {
            let r = env.report(
                Diagnostic {
                    kind: DiagnosticKind::NoNewMethod { member_found: true },
                    span: class_span,
                    related: Some(member_span),
                    because: Because::JustSo,
                },
            );
            ExprResult::err(db, r, expr_span)
        },
        None => {
            let name_span = db.classes[class.id].name_span();
            let r = env.report(
                Diagnostic {
                    kind: DiagnosticKind::NoNewMethod { member_found: false },
                    span: class_span,
                    related: Some(name_span),
                    because: Because::JustSo,
                },
            );
            ExprResult::err(db, r, expr_span)
        },
    };
    proof {
        lemma_new_word_unique(*db, new_word);
        assert(new_word.text(*db) == "new"@);
    }
    result
}

/// Words are unique: a word with the text of `w` is `w`.
proof fn lemma_new_word_unique(db: Db, w: Word)
    requires
        db.wf(),
        w.id < db.words@.len(),
    ensures
        forall|v: Word| v.id < db.words@.len() && #[trigger] v.text(db) == w.text(db) ==> v == w,
{
    assert forall|v: Word| v.id < db.words@.len() && #[trigger] v.text(db) == w.text(db) implies v == w by {
        if v.id != w.id {
            assert(db.words@[v.id as int]@ != db.words@[w.id as int]@);
        }
    }
}

} // verus!
