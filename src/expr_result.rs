use vstd::prelude::*;
use crate::ast::{AstGenericTerm, PermissionOp};
use crate::db::Db;
use crate::diagnostic::{Because, Diagnostic, DiagnosticKind, Reported};
use crate::env::{Env, EnvModel};
use crate::scope::{NameResolution, NameResolutionSym, Scope, lemma_extends_is_ty};
use crate::span::Span;
use crate::subst::{lemma_extends_refl, lemma_extends_trans};
use crate::sym_expr::{
    SymExpr, SymExprKind, SymFunction, SymPlaceExpr, SymPlaceExprKind, Temporary,
};
use crate::types::{SymGenericKind, SymPlace, SymPlaceKind, SymTy, SymTyKind};

verus! {


broadcast use {lemma_extends_is_ty, crate::env::lemma_grows_trans, crate::env::lemma_grows_refl};

/// The result of checking an expression, before it is used: a place, a value,
/// a method still waiting for its call, or a name that is not an expression
/// (a module, a class). It carries the temporaries that whoever consumes it
/// must bind.
#[derive(Debug)]
pub struct ExprResult {
    pub temporaries: Vec<Temporary>,
    pub span: Span,
    pub kind: ExprResultKind,
}

#[derive(Debug)]
pub enum ExprResultKind {
    /// An expression identifying a place in memory.
    PlaceExpr(SymPlaceExpr),
    /// An expression that produces a value.
    Expr(SymExpr),
    /// A method call that still lacks its arguments.
    Method {
        self_expr: SymExpr,
        id_span: Span,
        function: SymFunction,
        generics: Option<Vec<AstGenericTerm>>,
    },
    /// A name resolution that cannot be represented as an expression.
    Other(NameResolution),
}

/// A diagnostic with no second span and no further reason.
pub open spec fn plain(kind: DiagnosticKind, span: Span) -> Diagnostic {
    Diagnostic { kind, span, related: None, because: Because::JustSo }
}

pub fn plain_diagnostic(kind: DiagnosticKind, span: Span) -> (r: Diagnostic)
    ensures
        r == plain(kind, span),
{
    Diagnostic { kind, span, related: None, because: Because::JustSo }
}

/// The types an expression result carries are interned in `db`.
pub open spec fn result_types_ok(db: Db, r: &ExprResult) -> bool {
    match r.kind {
        ExprResultKind::PlaceExpr(p) => db.is_ty(p.ty),
        ExprResultKind::Expr(e) => db.is_ty(e.ty),
        ExprResultKind::Method { self_expr, generics, .. } => db.is_ty(self_expr.ty) && (
        generics is Some ==> forall|k: int|
            0 <= k < generics->Some_0@.len() ==> #[trigger] db.is_generic(generics->Some_0@[k].term)),
        ExprResultKind::Other(res) => forall|k: int|
            0 <= k < res.generics@.len() ==> #[trigger] db.is_generic(res.generics@[k]),
    }
}

/// The types an expression result carries are interned in `db`, and what it
/// names is in scope.
pub open spec fn result_ok(db: Db, scope: &Scope, r: &ExprResult) -> bool {
    &&& result_types_ok(db, r)
    &&& match r.kind {
        ExprResultKind::Method { function, .. } => function.id < scope.functions@.len(),
        ExprResultKind::Other(res) => scope.sym_ok(db, res.sym),
        _ => true,
    }
}

/// Only the diagnostics of the session changed, by `new` being reported.
pub open spec fn reported_only(old_s: EnvModel, new_s: EnvModel, d: Diagnostic) -> bool {
    new_s == EnvModel { diagnostics: old_s.diagnostics.push(d), ..old_s }
}

impl ExprResult {
    /// The result of an expression whose checking reported an error.
    pub fn err(db: &mut Db, reported: Reported, span: Span) -> (r: ExprResult)
        requires
            old(db).wf(),
        ensures
            final(db).wf(),
            final(db).extends(*old(db)),
            r.span == span,
            r.temporaries@.len() == 0,
            r.kind is PlaceExpr,
            r.kind->PlaceExpr_0.span == span,
            *r.kind->PlaceExpr_0.kind == SymPlaceExprKind::Error(reported),
            final(db).is_ty(r.kind->PlaceExpr_0.ty),
            final(db).ty_kind(r.kind->PlaceExpr_0.ty) == SymTyKind::Error(reported),
    {
        let ty = SymTy::err(db, reported);
        ExprResult {
            temporaries: Vec::new(),
            span,
            kind: ExprResultKind::PlaceExpr(
                SymPlaceExpr::new(span, ty, SymPlaceExprKind::Error(reported)),
            ),
        }
    }

    pub fn from_place_expr(expr: SymPlaceExpr, temporaries: Vec<Temporary>) -> (r: ExprResult)
        ensures
            r.span == expr.span,
            r.temporaries == temporaries,
            r.kind == ExprResultKind::PlaceExpr(expr),
    {
        ExprResult { temporaries, span: expr.span, kind: ExprResultKind::PlaceExpr(expr) }
    }

    pub fn from_expr(expr: SymExpr, temporaries: Vec<Temporary>) -> (r: ExprResult)
        ensures
            r.span == expr.span,
            r.temporaries == temporaries,
            r.kind == ExprResultKind::Expr(expr),
    {
        ExprResult { temporaries, span: expr.span, kind: ExprResultKind::Expr(expr) }
    }

    /// A result from lexical name resolution: a local variable is a place;
    /// anything else is kept as a name.
    pub fn from_name_resolution(
        db: &Db,
        env: &mut Env,
        scope: &Scope,
        res: NameResolution,
        span: Span,
    ) -> (r: ExprResult)
        requires
            db.wf(),
            scope.ok(*db),
            scope.sym_ok(*db, res.sym),
            forall|k: int| 0 <= k < res.generics@.len() ==> #[trigger] db.is_generic(res.generics@[k]),
        ensures
            crate::env::grows(old(env)@, final(env)@),
            result_ok(*db, scope, &r),
            r.span == span,
            r.kind is PlaceExpr ==> r.kind->PlaceExpr_0.span == span,
            r.kind is PlaceExpr || r.kind is Other,
            res.sym is Variable && res.sym->Variable_0.id < db.variables@.len()
                && db.variables@[res.sym->Variable_0.id as int].kind == SymGenericKind::Place
                && (exists|k: int| 0 <= k < scope.locals@.len() && scope.locals@[k].0 == res.sym->Variable_0)
                ==> r.kind is PlaceExpr && *r.kind->PlaceExpr_0.kind == SymPlaceExprKind::Var(
                res.sym->Variable_0,
            ),
            r.temporaries@.len() == 0,
            !(res.sym is Variable) ==> r.kind == ExprResultKind::Other(res) && final(env)@ == old(
                env,
            )@,
            res.sym is Variable && res.sym->Variable_0.id < db.variables@.len()
                && db.variables@[res.sym->Variable_0.id as int].kind
                != SymGenericKind::Place ==> r.kind == ExprResultKind::Other(res) && final(env)@
                == old(env)@,
    {
        if let NameResolutionSym::Variable(var) = res.sym {
            if db.variables[var.id].kind == SymGenericKind::Place {
                let mut k: usize = 0;
                while k < scope.locals.len()
                    invariant
                        0 <= k <= scope.locals@.len(),
                        db.wf(),
                        scope.ok(*db),
                        env@ == old(env)@,
                        res.sym == NameResolutionSym::Variable(var),
                        var.id < db.variables@.len(),
                        db.variables@[var.id as int].kind == SymGenericKind::Place,
                        forall|j: int| 0 <= j < k ==> (#[trigger] scope.locals@[j]).0 != var,
                    decreases scope.locals@.len() - k,
                {
                    let (v, ty) = scope.locals[k];
                    if v == var {
                        proof {
                            assert(db.is_ty(scope.locals@[k as int].1));
                        }
                        let place_expr = SymPlaceExpr::new(span, ty, SymPlaceExprKind::Var(var));
                        return ExprResult {
                            temporaries: Vec::new(),
                            span,
                            kind: ExprResultKind::PlaceExpr(place_expr),
                        };
                    }
                    k += 1;
                }
            }
        }
        ExprResult { temporaries: Vec::new(), span, kind: ExprResultKind::Other(res) }
    }
}

/// The place that a place expression names, typed as the expression is.
pub fn into_sym_place(db: &mut Db, place_expr: &SymPlaceExpr) -> (r: SymPlace)
    requires
        old(db).wf(),
        old(db).is_ty(place_expr.ty),
    ensures
        final(db).wf(),
        final(db).extends(*old(db)),
        final(db).is_place(r),
        final(db).place_ty(r) == place_expr.ty,
        match *place_expr.kind {
            SymPlaceExprKind::Var(v) => final(db).place_kind(r) == SymPlaceKind::Var(v),
            SymPlaceExprKind::Error(e) => final(db).place_kind(r) == SymPlaceKind::Error(e),
        },
{
    match &*place_expr.kind {
        SymPlaceExprKind::Var(v) => SymPlace::var(db, *v, place_expr.ty),
        SymPlaceExprKind::Error(e) => SymPlace::new(db, SymPlaceKind::Error(*e), place_expr.ty),
    }
}

/// `place` is the place that the place expression names.
pub open spec fn place_of(db: Db, place: SymPlace, place_expr: SymPlaceExpr) -> bool {
    &&& db.is_place(place)
    &&& db.place_ty(place) == place_expr.ty
    &&& match *place_expr.kind {
        SymPlaceExprKind::Var(v) => db.place_kind(place) == SymPlaceKind::Var(v),
        SymPlaceExprKind::Error(e) => db.place_kind(place) == SymPlaceKind::Error(e),
    }
}

/// `ty` shared from `place`, as its type when used by reference.
pub open spec fn is_shared_from(db: Db, r: SymTy, ty: SymTy, place: SymPlace) -> bool {
    &&& db.is_ty(r)
    &&& db.ty_kind(r) is Perm
    &&& db.ty_kind(r)->Perm_1 == ty
    &&& db.perm_kind(db.ty_kind(r)->Perm_0) is Shared
    &&& db.perm_kind(db.ty_kind(r)->Perm_0)->Shared_0@ == seq![place]
}

impl ExprResult {
    /// The type of this result, treated as an expression. A name that is not
    /// an expression, or a method missing its call, is reported.
    pub fn ty(&self, db: &mut Db, env: &mut Env) -> (r: SymTy)
        requires
            old(db).wf(),
            result_types_ok(*old(db), self),
        ensures
            crate::env::grows(old(env)@, final(env)@),
            final(db).wf(),
            final(db).extends(*old(db)),
            final(db).is_ty(r),
            self.kind is Expr ==> r == self.kind->Expr_0.ty && final(env)@ == old(env)@,
            self.kind is PlaceExpr ==> r == self.kind->PlaceExpr_0.ty && final(env)@ == old(env)@,
            self.kind is Other ==> reported_only(old(env)@, final(env)@, plain(DiagnosticKind::NonExpr, self.span)),
            self.kind is Method ==> reported_only(
                old(env)@,
                final(env)@,
                plain(DiagnosticKind::MissingCallToMethod, self.kind->Method_self_expr.span),
            ),
    {
        match &self.kind {
            ExprResultKind::PlaceExpr(p) => {
                proof {
                    lemma_extends_refl(*db);
                }
                p.ty
            },
            ExprResultKind::Expr(e) => {
                proof {
                    lemma_extends_refl(*db);
                }
                e.ty
            },
            ExprResultKind::Other(_) => {
                let r = env.report(plain_diagnostic(DiagnosticKind::NonExpr, self.span));
                SymTy::err(db, r)
            },
            ExprResultKind::Method { self_expr, .. } => {
                let r = env.report(plain_diagnostic(DiagnosticKind::MissingCallToMethod, self_expr.span));
                SymTy::err(db, r)
            },
        }
    }

    /// Convert to a value expression. A place is used by reference: the value
    /// is the place shared. Pending temporaries move to `temporaries`.
    pub fn into_expr(self, db: &mut Db, env: &mut Env, temporaries: &mut Vec<Temporary>) -> (r: SymExpr)
        requires
            old(db).wf(),
            result_types_ok(*old(db), &self),
        ensures
            crate::env::grows(old(env)@, final(env)@),
            final(db).wf(),
            final(db).extends(*old(db)),
            final(db).is_ty(r.ty),
            final(temporaries)@ == old(temporaries)@ + self.temporaries@,
            self.kind is Expr ==> r == self.kind->Expr_0 && final(env)@ == old(env)@,
            self.kind is PlaceExpr ==> final(env)@ == old(env)@ && r.span == self.kind->PlaceExpr_0.span
                && *r.kind == SymExprKind::PermissionOp(PermissionOp::Reference, self.kind->PlaceExpr_0)
                && exists|place: SymPlace|
                is_shared_from(*final(db), r.ty, self.kind->PlaceExpr_0.ty, place) && place_of(
                    *final(db),
                    place,
                    self.kind->PlaceExpr_0,
                ),
            self.kind is Other ==> *r.kind is Error && r.span == self.span && reported_only(
                old(env)@,
                final(env)@,
                plain(DiagnosticKind::NonExpr, self.span),
            ),
            self.kind is Method ==> *r.kind is Error && reported_only(
                old(env)@,
                final(env)@,
                plain(DiagnosticKind::MissingCallToMethod, self.kind->Method_self_expr.span),
            ),
    {
        let ExprResult { temporaries: mut own, span, kind } = self;
        temporaries.append(&mut own);
        match kind {
            ExprResultKind::Expr(e) => {
                proof {
                    lemma_extends_refl(*db);
                }
                e
            },
            ExprResultKind::PlaceExpr(p) => {
                let ghost d0 = *db;
                let place = into_sym_place(db, &p);
                let ghost d1 = *db;
                let ty = p.ty.shared(db, place);
                proof {
                    lemma_extends_trans(d0, d1, *db);
                    assert(is_shared_from(*db, ty, p.ty, place));
                    assert(db.terms@[place.id as int] == d1.terms@[place.id as int]);
                    assert(place_of(*db, place, p));
                }
                SymExpr::new(p.span, ty, SymExprKind::PermissionOp(PermissionOp::Reference, p))
            },
            ExprResultKind::Other(_) => {
                let r = env.report(plain_diagnostic(DiagnosticKind::NonExpr, span));
                let ty = SymTy::err(db, r);
                SymExpr::new(span, ty, SymExprKind::Error(r))
            },
            ExprResultKind::Method { self_expr, .. } => {
                let r = env.report(plain_diagnostic(DiagnosticKind::MissingCallToMethod, self_expr.span));
                let ty = SymTy::err(db, r);
                SymExpr::new(self_expr.span, ty, SymExprKind::Error(r))
            },
        }
    }

    /// Convert to a place expression. A value is stored in a new temporary,
    /// whose variable is the place. Pending temporaries move to `temporaries`.
    pub fn into_place_expr(self, db: &mut Db, env: &mut Env, temporaries: &mut Vec<Temporary>) -> (r:
        SymPlaceExpr)
        requires
            old(db).wf(),
            result_types_ok(*old(db), &self),
        ensures
            crate::env::grows(old(env)@, final(env)@),
            final(db).wf(),
            final(db).extends(*old(db)),
            final(db).is_ty(r.ty),
            self.kind is PlaceExpr ==> r == self.kind->PlaceExpr_0 && final(env)@ == old(env)@
                && final(temporaries)@ == old(temporaries)@ + self.temporaries@,
            self.kind is Expr ==> final(env)@ == old(env)@ && r.ty == self.kind->Expr_0.ty
                && *r.kind is Var && final(temporaries)@.len() == old(temporaries)@.len()
                + self.temporaries@.len() + 1 && final(temporaries)@.last().lv == r.kind->Var_0
                && final(temporaries)@.last().initializer == Some(self.kind->Expr_0),
            self.kind is Other ==> *r.kind is Error && reported_only(
                old(env)@,
                final(env)@,
                plain(DiagnosticKind::NonExpr, self.span),
            ),
            self.kind is Method ==> *r.kind is Error && reported_only(
                old(env)@,
                final(env)@,
                plain(DiagnosticKind::MissingCallToMethod, self.kind->Method_self_expr.span),
            ),
    {
        let ExprResult { temporaries: mut own, span, kind } = self;
        temporaries.append(&mut own);
        match kind {
            ExprResultKind::PlaceExpr(p) => {
                proof {
                    lemma_extends_refl(*db);
                }
                p
            },
            ExprResultKind::Expr(e) => {
                let lv = db.add_variable(SymGenericKind::Place, None, e.span);
                let ty = e.ty;
                let place_span = e.span;
                temporaries.push(Temporary { lv, ty, initializer: Some(e) });
                SymPlaceExpr::new(place_span, ty, SymPlaceExprKind::Var(lv))
            },
            ExprResultKind::Other(_) => {
                let r = env.report(plain_diagnostic(DiagnosticKind::NonExpr, span));
                let ty = SymTy::err(db, r);
                SymPlaceExpr::new(span, ty, SymPlaceExprKind::Error(r))
            },
            ExprResultKind::Method { self_expr, .. } => {
                let r = env.report(plain_diagnostic(DiagnosticKind::MissingCallToMethod, self_expr.span));
                let ty = SymTy::err(db, r);
                SymPlaceExpr::new(self_expr.span, ty, SymPlaceExprKind::Error(r))
            },
        }
    }

    /// Convert to a value expression, with `let ... in` around it for each
    /// pending temporary, the first one outermost.
    pub fn into_expr_with_enclosed_temporaries(self, db: &mut Db, env: &mut Env) -> (r: SymExpr)
        requires
            old(db).wf(),
            result_types_ok(*old(db), &self),
        ensures
            crate::env::grows(old(env)@, final(env)@),
            final(db).wf(),
            final(db).extends(*old(db)),
            final(db).is_ty(r.ty),
            self.kind is Expr ==> r.ty == self.kind->Expr_0.ty,
            self.kind is Expr || self.kind is PlaceExpr ==> final(env)@ == old(env)@,
    {
        let mut temporaries: Vec<Temporary> = Vec::new();
        let mut expr = self.into_expr(db, env, &mut temporaries);
        let ghost ty0 = expr.ty;
        while temporaries.len() > 0
            invariant
                db.wf(),
                db.is_ty(expr.ty),
                expr.ty == ty0,
            decreases temporaries@.len(),
        {
            let temporary = temporaries.pop().unwrap();
            let span = expr.span;
            let ty = expr.ty;
            expr = SymExpr::new(
                span,
                ty,
                SymExprKind::LetIn {
                    lv: temporary.lv,
                    ty: temporary.ty,
                    initializer: temporary.initializer,
                    body: expr,
                },
            );
        }
        expr
    }
}

/// Store a value in a new temporary, whose variable is returned.
pub fn into_temporary_var(db: &mut Db, e: SymExpr, temporaries: &mut Vec<Temporary>) -> (r: crate::types::SymVariable)
    requires
        old(db).wf(),
    ensures
        final(db).wf(),
        final(db).extends(*old(db)),
        final(db).terms == old(db).terms,
        r.id == old(db).variables@.len(),
        final(temporaries)@ == old(temporaries)@.push(Temporary { lv: r, ty: e.ty, initializer: Some(e) }),
{
    let lv = db.add_variable(SymGenericKind::Place, None, e.span);
    let ty = e.ty;
    temporaries.push(Temporary { lv, ty, initializer: Some(e) });
    lv
}

} // verus!
