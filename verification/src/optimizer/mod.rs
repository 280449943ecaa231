//! The alternatives that the optimizer weighs for one operator.
use crate::planner::operator::PhysicalOption;
use vstd::prelude::*;

pub mod rule;

verus! {

/// One way to carry out an operator, with its cost once it is known.
#[derive(Debug, Clone, Copy, PartialEq, Eq)]
pub struct Expression {
    pub op: PhysicalOption,
    pub cost: Option<usize>,
}

/// The ways found so far to carry out one operator.
#[derive(Debug, Clone, PartialEq, Eq)]
pub struct GroupExpression {
    pub exprs: Vec<Expression>,
}

impl GroupExpression {
    /// Adds one more way.
    pub fn append_expr(&mut self, expr: Expression)
        ensures
            final(self).exprs@ == old(self).exprs@.push(expr),
    {
        self.exprs.push(expr);
    }
}

} // verus!
