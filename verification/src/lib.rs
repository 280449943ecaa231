//! Predicate simplification and constant-range extraction for a SQL engine.
//!
//! A scalar expression is folded where its leaves are constants, a column
//! under a comparison is isolated on one side, and the comparison is lowered
//! into a range over that column which is then narrowed or merged.
pub mod binder;
pub mod catalog;
pub mod expression;
pub mod optimizer;
pub mod planner;
pub mod serdes;
pub mod types;
