//! The operators of a logical plan.
use crate::expression::ScalarExpression;
use vstd::prelude::*;

pub mod limit;

verus! {

/// Groups rows and computes aggregates over each group.
#[derive(Debug, PartialEq)]
pub struct AggregateOperator {
    pub groupby_exprs: Vec<ScalarExpression>,
    pub agg_calls: Vec<ScalarExpression>,
}

/// An operator of a logical plan.
#[derive(Debug, PartialEq)]
pub enum Operator {
    Dummy,
    Aggregate(AggregateOperator),
    Project(Vec<ScalarExpression>),
    Limit(limit::LimitOperator),
    Show,
    CreateTable(String),
    DropTable(String),
    Truncate(String),
    Update(String),
}

/// How an operator is carried out.
#[derive(Debug, Clone, Copy, PartialEq, Eq, Structural)]
pub enum PhysicalOption {
    Dummy,
    Project,
    CreateTable,
    DropTable,
    Truncate,
    Update,
}

} // verus!
