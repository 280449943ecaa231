//! Logical plans.
use vstd::prelude::*;

pub mod operator;

verus! {

/// A node of a logical plan: an operator over the plans that feed it.
#[derive(Debug, PartialEq)]
pub struct LogicalPlan {
    pub operator: operator::Operator,
    pub childrens: Vec<LogicalPlan>,
}

impl LogicalPlan {
    /// A plan node with the given operator over the given plans.
    pub fn new(operator: operator::Operator, childrens: Vec<LogicalPlan>) -> (r: LogicalPlan)
        ensures
            r.operator == operator,
            r.childrens == childrens,
    {
        LogicalPlan { operator, childrens }
    }
}

} // verus!
