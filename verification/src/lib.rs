//! An arithmetic expression graph with two consumers: direct evaluation and
//! lowering to a flat three-address instruction list.
//!
//! Expressions form a directed acyclic graph: a sub-expression may be the
//! operand of several parent nodes. Lowering is memoized, so a shared node is
//! compiled exactly once however many parents reference it.

pub mod instruction;
pub mod laws;
pub mod operation;
pub mod semantics;
