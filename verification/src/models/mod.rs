//! The problem models, grouped by kind.
pub mod graph;
pub mod formula;
pub mod algebraic;
pub mod decision;
