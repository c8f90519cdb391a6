/// The tree of alternatives of a proof search, and when a node is required.
pub mod alternatives;
/// The unchecked syntax tree that the checker consumes.
pub mod ast;
/// Checking calls: arity, generic substitution, arguments.
pub mod calls;
/// The expression checker.
pub mod check;
/// Declared classes and structs.
pub mod class;
/// The interning store of terms, words and declarations.
pub mod db;
/// Diagnostics, their kinds and reasons.
pub mod diagnostic;
/// The state of a check session: inference variables, facts, obligations.
pub mod env;
/// Results of checking an expression, and their conversions.
pub mod expr_result;
/// The checking rule of each kind of expression.
pub mod expr_rules;
/// Generic terms: kinds and downcasts.
pub mod generic;
/// Requiring that a type is a future.
pub mod is_future;
/// Deciding that a term is provably not copy.
pub mod isnt_copy;
/// Laws of the predicate engine.
pub mod predicate_laws;
/// Requiring that a type is numeric.
pub mod numeric;
/// Running deferred obligations.
pub mod obligations;
/// Deciding that a term is provably copy or move.
pub mod predicates;
/// Requiring that a term is copy or move.
pub mod require;
/// Name resolution, signatures and well-known items of a body.
pub mod scope;
/// Source spans.
pub mod span;
/// Substitution of generic variables.
pub mod subst;
/// The checked expression tree.
pub mod sym_expr;
/// Building and inspecting interned terms.
pub mod terms;
/// The term model: types, permissions, places and generic terms.
pub mod types;
/// Universes of quantified variables.
pub mod universe;
/// Interned words.
pub mod word;
