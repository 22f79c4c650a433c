//! Procedural branching shapes: a stochastic rewriting grammar, a turtle that
//! reads its output into drawing primitives, and frame-reusable instance
//! streams that batch those primitives.

pub mod batcher;
pub mod grammar;
pub mod table;
pub mod turtle;
