use vstd::prelude::*;
use crate::db::Db;
use crate::diagnostic::{DiagnosticKind, Errors, Predicate, Reported};
use crate::env::Env;
use crate::expr_result::{plain, plain_diagnostic, reported_only};
use crate::span::Span;
use crate::sym_expr::SymFunction;
use crate::types::{SymAggregate, SymGenericTerm, SymPrimitive, SymTy, SymVariable};
use crate::word::Word;

verus! {

broadcast use {crate::env::lemma_grows_trans, crate::env::lemma_grows_refl};

/// What a name resolves to.
#[derive(Clone, Copy, Debug, PartialEq, Eq, Structural)]
pub enum NameResolutionSym {
    Variable(SymVariable),
    Function(SymFunction),
    Module(Word),
    Aggregate(SymAggregate),
    Primitive(SymPrimitive),
}

/// A resolved name: what it is, where it was declared, and the generic
/// arguments applied to it so far.
#[derive(Debug)]
pub struct NameResolution {
    pub sym: NameResolutionSym,
    pub span: Span,
    pub generics: Vec<SymGenericTerm>,
}

/// A checked function signature, bound twice: first over the generics of
/// the enclosing scope and the function's own, then over one place variable
/// per input.
#[derive(Debug)]
pub struct FunctionSignature {
    pub name: Word,
    pub name_span: Span,
    /// Generics of the enclosing class or scope.
    pub outer_vars: Vec<SymVariable>,
    /// The function's own declared generics.
    pub own_vars: Vec<SymVariable>,
    /// One place variable per input, which the input types may mention.
    pub input_vars: Vec<SymVariable>,
    pub inputs: Vec<SymTy>,
    pub output: SymTy,
    pub where_clauses: Vec<(SymGenericTerm, Predicate)>,
    /// Set when the signature itself failed to check.
    pub error: Option<Reported>,
}

/// Items of the standard library that the checker desugars into, where they
/// could be found.
#[derive(Clone, Copy, Debug, PartialEq, Eq, Structural)]
pub struct WellKnown {
    /// The class `String`.
    pub string_class: Option<SymAggregate>,
    /// The struct `Pointer`, of which byte literals are.
    pub pointer_struct: Option<SymAggregate>,
    /// The constructor `String.literal(bytes, length)`.
    pub string_literal_fn: Option<SymFunction>,
}

/// The answers of name resolution and of the signature query for one body:
/// names in lexical scope, members of classes, types of local variables,
/// function signatures and well-known items.
#[derive(Debug)]
pub struct Scope {
    pub names: Vec<(Word, NameResolutionSym, Span)>,
    /// Members, by the index of their class.
    pub members: Vec<(usize, Word, NameResolutionSym, Span)>,
    pub locals: Vec<(SymVariable, SymTy)>,
    pub functions: Vec<FunctionSignature>,
    pub well_known: WellKnown,
}

/// The variable is declared in `db`.
pub open spec fn var_ok(db: Db, v: SymVariable) -> bool {
    v.id < db.variables@.len()
}

pub open spec fn vars_ok(db: Db, vs: Seq<SymVariable>) -> bool {
    forall|k: int| 0 <= k < vs.len() ==> #[trigger] var_ok(db, vs[k])
}

/// A signature whose types and variables are all in `db`.
pub open spec fn signature_ok(db: Db, f: FunctionSignature) -> bool {
    &&& vars_ok(db, f.outer_vars@)
    &&& vars_ok(db, f.own_vars@)
    &&& vars_ok(db, f.input_vars@)
    &&& f.input_vars@.len() == f.inputs@.len()
    &&& forall|k: int| 0 <= k < f.inputs@.len() ==> #[trigger] db.is_ty(f.inputs@[k])
    &&& db.is_ty(f.output)
    &&& forall|k: int|
        0 <= k < f.where_clauses@.len() ==> #[trigger] db.is_generic(f.where_clauses@[k].0)
}

impl Scope {
    /// What a name resolution may refer to here.
    pub open spec fn sym_ok(&self, db: Db, sym: NameResolutionSym) -> bool {
        match sym {
            NameResolutionSym::Variable(v) => var_ok(db, v),
            NameResolutionSym::Function(f) => f.id < self.functions@.len(),
            NameResolutionSym::Aggregate(a) => a.id < db.classes@.len(),
            _ => true,
        }
    }

    /// Everything the scope refers to is declared in `db`.
    pub open spec fn ok(&self, db: Db) -> bool {
        &&& forall|k: int| 0 <= k < self.names@.len() ==> #[trigger] self.sym_ok(db, self.names@[k].1)
        &&& forall|k: int|
            0 <= k < self.members@.len() ==> #[trigger] self.sym_ok(db, self.members@[k].2)
        &&& forall|k: int| 0 <= k < self.locals@.len() ==> #[trigger] db.is_ty(self.locals@[k].1)
        &&& forall|k: int|
            0 <= k < self.functions@.len() ==> #[trigger] signature_ok(db, self.functions@[k])
        &&& self.well_known.string_class is Some ==> self.well_known.string_class->Some_0.id
            < db.classes@.len()
        &&& self.well_known.pointer_struct is Some ==> self.well_known.pointer_struct->Some_0.id
            < db.classes@.len()
    }
}

/// What holds of a store holds of every store that extends it.
pub broadcast proof fn lemma_extends_is_ty(old_db: Db, new_db: Db, t: SymTy)
    requires
        new_db.extends(old_db),
        old_db.is_ty(t),
    ensures
        #![trigger new_db.extends(old_db), new_db.is_ty(t)]
        new_db.is_ty(t),
{
    assert(new_db.terms@[t.id as int] == old_db.terms@[t.id as int]);
}

pub proof fn lemma_extends_generic(old_db: Db, new_db: Db, g: SymGenericTerm)
    requires
        new_db.extends(old_db),
        old_db.is_generic(g),
    ensures
        new_db.is_generic(g),
{
    match g {
        SymGenericTerm::Type(t) => assert(new_db.terms@[t.id as int] == old_db.terms@[t.id as int]),
        SymGenericTerm::Perm(p) => assert(new_db.terms@[p.id as int] == old_db.terms@[p.id as int]),
        SymGenericTerm::Place(p) => assert(new_db.terms@[p.id as int] == old_db.terms@[p.id as int]),
        SymGenericTerm::Error(_) => {},
    }
}

pub proof fn lemma_scope_extends(scope: Scope, old_db: Db, new_db: Db)
    requires
        new_db.extends(old_db),
        scope.ok(old_db),
    ensures
        scope.ok(new_db),
{
    broadcast use lemma_extends_is_ty;

    assert forall|k: int| 0 <= k < scope.names@.len() implies #[trigger] scope.sym_ok(
        new_db,
        scope.names@[k].1,
    ) by {
        assert(scope.sym_ok(old_db, scope.names@[k].1));
    }
    assert forall|k: int| 0 <= k < scope.members@.len() implies #[trigger] scope.sym_ok(
        new_db,
        scope.members@[k].2,
    ) by {
        assert(scope.sym_ok(old_db, scope.members@[k].2));
    }
    assert forall|k: int| 0 <= k < scope.locals@.len() implies #[trigger] new_db.is_ty(
        scope.locals@[k].1,
    ) by {
        assert(old_db.is_ty(scope.locals@[k].1));
    }
    assert forall|k: int| 0 <= k < scope.functions@.len() implies #[trigger] signature_ok(
        new_db,
        scope.functions@[k],
    ) by {
        let f = scope.functions@[k];
        assert(signature_ok(old_db, f));
        assert forall|j: int| 0 <= j < f.outer_vars@.len() implies #[trigger] var_ok(new_db, f.outer_vars@[j]) by {
            assert(var_ok(old_db, f.outer_vars@[j]));
        }
        assert forall|j: int| 0 <= j < f.own_vars@.len() implies #[trigger] var_ok(new_db, f.own_vars@[j]) by {
            assert(var_ok(old_db, f.own_vars@[j]));
        }
        assert forall|j: int| 0 <= j < f.input_vars@.len() implies #[trigger] var_ok(new_db, f.input_vars@[j]) by {
            assert(var_ok(old_db, f.input_vars@[j]));
        }
        assert forall|j: int| 0 <= j < f.inputs@.len() implies #[trigger] new_db.is_ty(f.inputs@[j]) by {
            assert(old_db.is_ty(f.inputs@[j]));
        }
        assert forall|j: int| 0 <= j < f.where_clauses@.len() implies #[trigger] new_db.is_generic(
            f.where_clauses@[j].0,
        ) by {
            lemma_extends_generic(old_db, new_db, f.where_clauses@[j].0);
        }
    }
}

/// The first entry of `names` for the word `id`.
pub open spec fn first_name(names: Seq<(Word, NameResolutionSym, Span)>, id: Word) -> Option<
    (NameResolutionSym, Span),
>
    decreases names.len(),
{
    if names.len() == 0 {
        None
    } else if names[0].0 == id {
        Some((names[0].1, names[0].2))
    } else {
        first_name(names.drop_first(), id)
    }
}

/// The first member of class `class` named `id`.
pub open spec fn first_member(
    members: Seq<(usize, Word, NameResolutionSym, Span)>,
    class: usize,
    id: Word,
) -> Option<(NameResolutionSym, Span)>
    decreases members.len(),
{
    if members.len() == 0 {
        None
    } else if members[0].0 == class && members[0].1 == id {
        Some((members[0].2, members[0].3))
    } else {
        first_member(members.drop_first(), class, id)
    }
}

impl Scope {
    /// Resolve a name in lexical scope; a name that is not found is reported.
    pub fn resolve_name(&self, db: &Db, env: &mut Env, id: Word, span: Span) -> (r: Errors<
        NameResolution,
    >)
        requires
            self.ok(*db),
        ensures
            crate::env::grows(old(env)@, final(env)@),
            first_name(self.names@, id) is Some ==> r is Ok && r->Ok_0.sym == first_name(
                self.names@,
                id,
            )->Some_0.0 && r->Ok_0.span == first_name(self.names@, id)->Some_0.1
                && r->Ok_0.generics@.len() == 0 && final(env)@ == old(env)@,
            first_name(self.names@, id) is None ==> r is Err && reported_only(
                old(env)@,
                final(env)@,
                plain(DiagnosticKind::UnresolvedName, span),
            ),
            r is Ok ==> self.sym_ok(*db, r->Ok_0.sym),
    {
        let mut k: usize = 0;
        proof {
            assert(self.names@.skip(0) =~= self.names@);
        }
        while k < self.names.len()
            invariant
                0 <= k <= self.names@.len(),
                first_name(self.names@, id) == first_name(self.names@.skip(k as int), id),
                env@ == old(env)@,
                self.ok(*db),
            decreases self.names@.len() - k,
        {
            proof {
                assert(self.names@.skip(k as int).drop_first() =~= self.names@.skip(k + 1));
                assert(self.names@.skip(k as int)[0] == self.names@[k as int]);
            }
            let (w, sym, decl_span) = self.names[k];
            if w == id {
                proof {
                    assert(self.sym_ok(*db, self.names@[k as int].1));
                }
                return Ok(NameResolution { sym, span: decl_span, generics: Vec::new() });
            }
            k += 1;
        }
        Err(env.report(plain_diagnostic(DiagnosticKind::UnresolvedName, span)))
    }

    /// The first member of class `class` named `id`, if any.
    pub fn resolve_member(&self, db: &Db, class: usize, id: Word) -> (r: Option<(NameResolutionSym, Span)>)
        requires
            self.ok(*db),
        ensures
            r == first_member(self.members@, class, id),
            r is Some ==> self.sym_ok(*db, r->Some_0.0),
    {
        let mut k: usize = 0;
        proof {
            assert(self.members@.skip(0) =~= self.members@);
        }
        while k < self.members.len()
            invariant
                0 <= k <= self.members@.len(),
                first_member(self.members@, class, id) == first_member(
                    self.members@.skip(k as int),
                    class,
                    id,
                ),
                self.ok(*db),
            decreases self.members@.len() - k,
        {
            proof {
                assert(self.members@.skip(k as int).drop_first() =~= self.members@.skip(k + 1));
                assert(self.members@.skip(k as int)[0] == self.members@[k as int]);
            }
            let (c, w, sym, decl_span) = self.members[k];
            if c == class && w == id {
                proof {
                    assert(self.sym_ok(*db, self.members@[k as int].2));
                }
                return Some((sym, decl_span));
            }
            k += 1;
        }
        None
    }
}

} // verus!
