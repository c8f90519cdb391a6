use vstd::prelude::*;
use crate::diagnostic::{Because, Diagnostic, Errors, OrElse, Predicate, Reported};
use crate::span::Span;
use crate::types::{InferVarIndex, SymGenericKind, SymGenericTerm, SymTy, SymVariable};

verus! {

/// Which predicates are established for an inference variable.
#[derive(Clone, Copy, Debug, PartialEq, Eq, Structural)]
pub struct Facts {
    pub copy: bool,
    pub moves: bool,
}

impl Facts {
    pub open spec fn holds(self, p: Predicate) -> bool {
        match p {
            Predicate::Copy => self.copy,
            Predicate::Move => self.moves,
        }
    }

    pub open spec fn with(self, p: Predicate) -> Facts {
        match p {
            Predicate::Copy => Facts { copy: true, ..self },
            Predicate::Move => Facts { moves: true, ..self },
        }
    }

    pub fn none() -> (r: Facts)
        ensures
            !r.holds(Predicate::Copy),
            !r.holds(Predicate::Move),
    {
        Facts { copy: false, moves: false }
    }
}

/// An inference variable of a check session. Its facts and bound only ever
/// grow tighter.
#[derive(Clone, Copy, Debug, PartialEq, Eq, Structural)]
pub struct InferVarData {
    pub kind: SymGenericKind,
    pub span: Span,
    /// Predicates known or required to hold.
    pub is: Facts,
    /// Predicates known not to hold.
    pub isnt: Facts,
    /// The current lower bound, for a type variable.
    pub lower_bound: Option<SymTy>,
}

/// A deferred requirement, spawned while checking and resolved later; its
/// failure is reported through its `or_else`.
#[derive(Clone, Copy, Debug, PartialEq, Eq, Structural)]
pub enum Obligation {
    /// The type must end up numeric.
    Numeric { ty: SymTy, or_else: OrElse },
    /// The two types must be equal.
    EqualTypes { lhs: SymTy, rhs: SymTy, or_else: OrElse },
    /// A value of type `value` must be assignable to a place of type `target`.
    Assignable { value: SymTy, target: SymTy, or_else: OrElse },
    /// `ty` must be a future whose awaited type is `awaited`.
    FutureType { ty: SymTy, awaited: SymTy, or_else: OrElse },
    /// `sub` must be a subterm-compatible type of `sup`.
    SubTerms { sub: SymTy, sup: SymTy, or_else: OrElse },
    /// The term must satisfy the predicate (a `where` clause of a callee).
    WhereClause { term: SymGenericTerm, pred: Predicate, or_else: OrElse },
}

/// The state of one check session, as the checker sees it.
pub struct EnvModel {
    pub diagnostics: Seq<Diagnostic>,
    pub infer_vars: Seq<InferVarData>,
    pub var_facts: Seq<(SymVariable, Predicate)>,
    pub obligations: Seq<Obligation>,
    pub return_ty: Option<SymTy>,
}

/// The environment of one check session: the diagnostics reported so far,
/// the inference variables, the predicates declared of universal variables,
/// the obligations spawned so far, and the declared return type of the
/// function being checked, if any.
pub struct Env {
    pub diagnostics: Vec<Diagnostic>,
    pub infer_vars: Vec<InferVarData>,
    pub var_facts: Vec<(SymVariable, Predicate)>,
    pub obligations: Vec<Obligation>,
    pub return_ty: Option<SymTy>,
}

impl View for Env {
    type V = EnvModel;

    open spec fn view(&self) -> EnvModel {
        EnvModel {
            diagnostics: self.diagnostics@,
            infer_vars: self.infer_vars@,
            var_facts: self.var_facts@,
            obligations: self.obligations@,
            return_ty: self.return_ty,
        }
    }
}

/// The session `new_s` grew from `old_s`: diagnostics and obligations were only
/// added, inference variables were only added (or tightened), and the declared
/// facts and the return type stayed.
pub open spec fn grows(old_s: EnvModel, new_s: EnvModel) -> bool {
    &&& old_s.diagnostics.len() <= new_s.diagnostics.len()
    &&& forall|i: int|
        0 <= i < old_s.diagnostics.len() ==> #[trigger] new_s.diagnostics[i] == old_s.diagnostics[i]
    &&& old_s.obligations.len() <= new_s.obligations.len()
    &&& forall|i: int|
        0 <= i < old_s.obligations.len() ==> #[trigger] new_s.obligations[i] == old_s.obligations[i]
    &&& old_s.infer_vars.len() <= new_s.infer_vars.len()
    &&& new_s.var_facts == old_s.var_facts
    &&& new_s.return_ty == old_s.return_ty
}

pub broadcast proof fn lemma_grows_trans(a: EnvModel, b: EnvModel, c: EnvModel)
    requires
        grows(a, b),
        grows(b, c),
    ensures
        #![trigger grows(a, b), grows(b, c)]
        grows(a, c),
{
    assert forall|i: int| 0 <= i < a.diagnostics.len() implies #[trigger] c.diagnostics[i]
        == a.diagnostics[i] by {
        assert(b.diagnostics[i] == a.diagnostics[i]);
    }
    assert forall|i: int| 0 <= i < a.obligations.len() implies #[trigger] c.obligations[i]
        == a.obligations[i] by {
        assert(b.obligations[i] == a.obligations[i]);
    }
}

/// The obligation `o` was spawned in the session.
pub open spec fn has_obligation(s: EnvModel, o: Obligation) -> bool {
    exists|k: int| 0 <= k < s.obligations.len() && s.obligations[k] == o
}

pub broadcast proof fn lemma_grows_keeps_obligation(a: EnvModel, b: EnvModel, o: Obligation)
    requires
        grows(a, b),
        has_obligation(a, o),
    ensures
        #![trigger grows(a, b), has_obligation(b, o)]
        has_obligation(b, o),
{
    let k = choose|k: int| 0 <= k < a.obligations.len() && a.obligations[k] == o;
    assert(b.obligations[k] == a.obligations[k]);
}

pub broadcast proof fn lemma_grows_refl(a: EnvModel)
    ensures
        #[trigger] grows(a, a),
{
}

/// No inference variable is both known to satisfy a predicate and known not to.
pub open spec fn facts_consistent(s: EnvModel) -> bool {
    forall|i: int|
        0 <= i < s.infer_vars.len() ==> !((#[trigger] s.infer_vars[i]).is.copy && s.infer_vars[i].isnt.copy)
            && !(s.infer_vars[i].is.moves && s.infer_vars[i].isnt.moves)
}

/// With consistent facts, an inference variable is never both known to have
/// a predicate and known not to.
pub proof fn lemma_infer_facts_exclusive(s: EnvModel, v: InferVarIndex, p: Predicate)
    requires
        facts_consistent(s),
    ensures
        !(infer_is(s, v, p) && infer_isnt(s, v, p)),
{
    if v.index < s.infer_vars.len() {
        assert(!(s.infer_vars[v.index as int].is.copy && s.infer_vars[v.index as int].isnt.copy));
    }
}

/// Requiring a predicate of an inference variable keeps the facts consistent:
/// it is recorded only when it is not known not to hold.
pub proof fn lemma_require_infer_consistent(s: EnvModel, v: InferVarIndex, p: Predicate, or_else: OrElse)
    requires
        facts_consistent(s),
    ensures
        facts_consistent(require_infer(s, v, p, or_else).0),
{
    let s2 = require_infer(s, v, p, or_else).0;
    assert forall|i: int| 0 <= i < s2.infer_vars.len() implies !((#[trigger] s2.infer_vars[i]).is.copy
        && s2.infer_vars[i].isnt.copy) && !(s2.infer_vars[i].is.moves && s2.infer_vars[i].isnt.moves) by {
        assert(!(s.infer_vars[i].is.copy && s.infer_vars[i].isnt.copy));
    }
}

/// The universal variable `v` is declared to satisfy `p`.
pub open spec fn var_is(s: EnvModel, v: SymVariable, p: Predicate) -> bool {
    exists|k: int| 0 <= k < s.var_facts.len() && s.var_facts[k] == (v, p)
}

/// The inference variable `v` is known to satisfy `p`.
pub open spec fn infer_is(s: EnvModel, v: InferVarIndex, p: Predicate) -> bool {
    v.index < s.infer_vars.len() && s.infer_vars[v.index as int].is.holds(p)
}

/// The inference variable `v` is known not to satisfy `p`.
pub open spec fn infer_isnt(s: EnvModel, v: InferVarIndex, p: Predicate) -> bool {
    v.index < s.infer_vars.len() && s.infer_vars[v.index as int].isnt.holds(p)
}

/// Record a diagnostic; the error result carries its index.
pub open spec fn report(s: EnvModel, d: Diagnostic) -> (EnvModel, Errors<()>) {
    (
        EnvModel { diagnostics: s.diagnostics.push(d), ..s },
        Err(Reported { index: s.diagnostics.len() as usize }),
    )
}

/// Require that the inference variable `v` satisfies `p`: fails if it is known
/// not to, and otherwise records the requirement.
pub open spec fn require_infer(s: EnvModel, v: InferVarIndex, p: Predicate, or_else: OrElse) -> (
    EnvModel,
    Errors<()>,
) {
    if v.index >= s.infer_vars.len() {
        report(s, or_else.diagnostic(Because::JustSo))
    } else if infer_isnt(s, v, p) {
        report(s, or_else.diagnostic(Because::InferIsKnownNot(v, p)))
    } else {
        let data = s.infer_vars[v.index as int];
        (
            EnvModel {
                infer_vars: s.infer_vars.update(v.index as int, InferVarData { is: data.is.with(p), ..data }),
                ..s
            },
            Ok(()),
        )
    }
}

/// Require that the universal variable `v` satisfies `p`: it must be declared to.
pub open spec fn require_var(s: EnvModel, v: SymVariable, p: Predicate, or_else: OrElse) -> (
    EnvModel,
    Errors<()>,
) {
    if var_is(s, v, p) {
        (s, Ok(()))
    } else {
        report(s, or_else.diagnostic(Because::VarNotDeclared(v, p)))
    }
}

impl Env {
    /// A fresh session, checking a body whose declared return type is
    /// `return_ty` (`None` outside of a function).
    pub fn new(return_ty: Option<SymTy>) -> (r: Env)
        ensures
            r@.diagnostics.len() == 0,
            r@.infer_vars.len() == 0,
            r@.var_facts.len() == 0,
            r@.obligations.len() == 0,
            r@.return_ty == return_ty,
            facts_consistent(r@),
    {
        Env {
            diagnostics: Vec::new(),
            infer_vars: Vec::new(),
            var_facts: Vec::new(),
            obligations: Vec::new(),
            return_ty,
        }
    }

    /// Spawn a deferred obligation.
    pub fn spawn(&mut self, o: Obligation)
        ensures
            facts_consistent(old(self)@) ==> facts_consistent(final(self)@),
            grows(old(self)@, final(self)@),
            final(self)@ == (EnvModel { obligations: old(self)@.obligations.push(o), ..old(self)@ }),
    {
        self.obligations.push(o);
    }

    /// Declare that the universal variable `v` satisfies `p`.
    pub fn declare(&mut self, v: SymVariable, p: Predicate)
        ensures
            facts_consistent(old(self)@) ==> facts_consistent(final(self)@),
            final(self)@ == (EnvModel { var_facts: old(self)@.var_facts.push((v, p)), ..old(self)@ }),
    {
        self.var_facts.push((v, p));
    }

    /// Create a fresh inference variable of the given kind.
    pub fn fresh_infer(&mut self, kind: SymGenericKind, span: Span) -> (r: InferVarIndex)
        ensures
            facts_consistent(old(self)@) ==> facts_consistent(final(self)@),
            grows(old(self)@, final(self)@),
            r.index == old(self)@.infer_vars.len(),
            final(self)@ == (EnvModel {
                infer_vars: old(self)@.infer_vars.push(
                    InferVarData {
                        kind,
                        span,
                        is: Facts { copy: false, moves: false },
                        isnt: Facts { copy: false, moves: false },
                        lower_bound: None,
                    },
                ),
                ..old(self)@
            }),
    {
        let index = self.infer_vars.len();
        self.infer_vars.push(
            InferVarData { kind, span, is: Facts::none(), isnt: Facts::none(), lower_bound: None },
        );
        InferVarIndex { index }
    }

    /// Record a diagnostic and return the proof that it was reported.
    pub fn report(&mut self, d: Diagnostic) -> (r: Reported)
        ensures
            facts_consistent(old(self)@) ==> facts_consistent(final(self)@),
            grows(old(self)@, final(self)@),
            (final(self)@, Err::<(), Reported>(r)) == report(old(self)@, d),
    {
        let index = self.diagnostics.len();
        self.diagnostics.push(d);
        Reported { index }
    }

    /// Test whether the universal variable `v` is declared to satisfy `p`.
    pub fn test_var_is(&self, v: SymVariable, p: Predicate) -> (r: bool)
        ensures
            r == var_is(self@, v, p),
    {
        let mut k: usize = 0;
        while k < self.var_facts.len()
            invariant
                0 <= k <= self.var_facts@.len(),
                forall|j: int| 0 <= j < k ==> self.var_facts@[j] != (v, p),
            decreases self.var_facts@.len() - k,
        {
            let (v2, p2) = self.var_facts[k];
            if v2 == v && p2 == p {
                assert(self@.var_facts[k as int] == (v, p));
                assert(var_is(self@, v, p));
                return true;
            }
            k += 1;
        }
        false
    }

    /// Test whether the inference variable `v` is known to satisfy `p`.
    pub fn test_infer_is(&self, v: InferVarIndex, p: Predicate) -> (r: bool)
        ensures
            r == infer_is(self@, v, p),
    {
        if v.index < self.infer_vars.len() {
            let facts = self.infer_vars[v.index].is;
            match p {
                Predicate::Copy => facts.copy,
                Predicate::Move => facts.moves,
            }
        } else {
            false
        }
    }

    /// Test whether the inference variable `v` is known not to satisfy `p`.
    pub fn test_infer_isnt(&self, v: InferVarIndex, p: Predicate) -> (r: bool)
        ensures
            r == infer_isnt(self@, v, p),
    {
        if v.index < self.infer_vars.len() {
            let facts = self.infer_vars[v.index].isnt;
            match p {
                Predicate::Copy => facts.copy,
                Predicate::Move => facts.moves,
            }
        } else {
            false
        }
    }

    /// Require that the inference variable `v` satisfies `p`.
    pub fn require_infer_is(&mut self, v: InferVarIndex, p: Predicate, or_else: OrElse) -> (r: Errors<()>)
        ensures
            facts_consistent(old(self)@) ==> facts_consistent(final(self)@),
            grows(old(self)@, final(self)@),
            (final(self)@, r) == require_infer(old(self)@, v, p, or_else),
    {
        if v.index >= self.infer_vars.len() {
            return Err(self.report(or_else.diagnostic_for(Because::JustSo)));
        }
        if self.test_infer_isnt(v, p) {
            return Err(self.report(or_else.diagnostic_for(Because::InferIsKnownNot(v, p))));
        }
        let data = self.infer_vars[v.index];
        let is = match p {
            Predicate::Copy => Facts { copy: true, moves: data.is.moves },
            Predicate::Move => Facts { copy: data.is.copy, moves: true },
        };
        self.infer_vars.set(v.index, InferVarData { is, ..data });
        proof {
            assert(self@.infer_vars =~= old(self)@.infer_vars.update(
                v.index as int,
                InferVarData { is: data.is.with(p), ..data },
            ));
        }
        Ok(())
    }

    /// Require that the universal variable `v` satisfies `p`.
    pub fn require_var_is(&mut self, v: SymVariable, p: Predicate, or_else: OrElse) -> (r: Errors<()>)
        ensures
            facts_consistent(old(self)@) ==> facts_consistent(final(self)@),
            grows(old(self)@, final(self)@),
            (final(self)@, r) == require_var(old(self)@, v, p, or_else),
    {
        if self.test_var_is(v, p) {
            Ok(())
        } else {
            Err(self.report(or_else.diagnostic_for(Because::VarNotDeclared(v, p))))
        }
    }
}

} // verus!
