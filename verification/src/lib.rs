//! A flow-insensitive, context-insensitive, field-insensitive
//! Andersen-style points-to analysis front end: it walks one callable
//! instance's straight-line statements and emits a set of inclusion
//! constraints over abstract memory locations, for a downstream
//! fixpoint solver to consume.

pub mod constraints;
pub mod errors;
pub mod ir;
pub mod laws;
pub mod semantics;
pub mod simple_anderson;
