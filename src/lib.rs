//! A generic relational access layer: table-agnostic insert, point lookup,
//! optional lookup, partial update, predicate filter and delete, with backend
//! failures normalised into a small error taxonomy, and a customer binding
//! built on top of it.
pub mod errors;
pub mod schema;
pub mod generics;
pub mod customers;
