//! Derivation trees: partial proofs that justify a fact by applying named
//! rules to sub-obligations until every obligation rests on an axiom.
//!
//! A [`Tree`] is built once, from a rule or from a top-level goal, and is then
//! refined step by step: [`Tree::queries`] lists the obligations that can be
//! solved next, each with the path of the step that holds them, and
//! [`Tree::replace`] puts a solution in place. Every operation returns a new
//! tree and says, over the model of the trees involved, exactly which one.
//!
//! Two tags may be equal among the antecedents of one step; a path then
//! addresses all the nodes that it leads to, and [`Tree::replace`] and
//! [`Tree::add_side_condition`] rewrite every one of them.

pub mod extract;
pub mod fact;
pub mod laws;
pub mod paths;
pub mod predicate;
pub mod pretty;
pub mod query;
pub mod rewrite;
pub mod signature;
pub mod text;
pub mod traverse;
pub mod tree;
pub mod views;

pub use crate::fact::{Fact, FactName, Value};
pub use crate::predicate::{Atom, Constraint, Predicate, Relation};
pub use crate::query::Query;
pub use crate::signature::{ComputationSignature, Library, Mode};
pub use crate::tree::{Tree, TreeError};
