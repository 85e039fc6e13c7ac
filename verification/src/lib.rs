//! Code generation for a small imperative language.
//!
//! Statements (assignment, exit, counting loops) and expressions (integer
//! literals, variable references, infix arithmetic, built-in calls) are
//! lowered onto a stack-machine evaluation discipline and emitted as
//! line-oriented textual assembly.  The generator tracks the run-time stack
//! depth at every emission point, resolves variable names to stack-relative
//! addresses, and mints globally unique labels for loop constructs.

pub mod emit;
pub mod ast;
pub mod generator;
pub mod model;
pub mod props;
pub mod sem;
