//! A tracer for a small CCS-like process calculus.
//!
//! Terms are built from `nil`, recursion variables, action prefixes, choice,
//! parallel composition, channel restriction, relabeling and guarded
//! recursion.  The semantics engine derives one transition at a time,
//! searching for synchronization partners across parallel composition, and a
//! driver repeats that until no transition exists or a term is revisited.

pub mod parse;
pub mod semantics;
pub mod tree;
