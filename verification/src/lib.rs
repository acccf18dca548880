//! The optimizing back end of a small source-to-source compiler: a model of
//! the handled source subset, two semantics-preserving loop optimizations
//! (a slotted-array read rewrite and a running-modulo strength reduction),
//! and a deterministic code generator for the target text.

pub mod ast;
pub mod codegen;
pub mod running_modulo_optimization;
pub mod slotted_array_read_optimization;
