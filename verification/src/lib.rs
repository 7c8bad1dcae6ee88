//! An RDF triple store with a SPARQL query engine.
use vstd::prelude::*;

pub mod text;
pub mod datetime;
pub mod namespace;
pub mod object;
pub mod number;
pub mod float;
pub mod operators;
pub mod store;
pub mod solution;
pub mod functions;
pub mod expression;
pub mod query;
pub mod sparql;
pub mod order;

verus! {
} // verus!
