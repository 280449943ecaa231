//! Binding of a query to a logical plan.
use crate::expression::ScalarExpression;
use crate::planner::operator::{AggregateOperator, Operator};
use crate::planner::LogicalPlan;
use vstd::prelude::*;

verus! {

/// The clause of a query that is being bound.
#[derive(Debug, Clone, Copy, PartialEq, Eq, Structural)]
pub enum QueryBindStep {
    From,
    Join,
    Where,
    Agg,
    Having,
    Distinct,
    Sort,
    Project,
    Limit,
}

/// What the binder knows while it binds one query.
#[derive(Debug, Clone, Copy, PartialEq, Eq)]
pub struct BinderContext {
    pub bind_step: QueryBindStep,
}

impl BinderContext {
    /// Records the clause that is bound next.
    pub fn step(&mut self, bind_step: QueryBindStep)
        ensures
            final(self).bind_step == bind_step,
    {
        self.bind_step = bind_step;
    }
}

/// Binds the clauses of a query to plan nodes.
pub struct Binder {
    pub context: BinderContext,
}

impl Binder {
    /// Binds `SELECT DISTINCT`: an aggregation without aggregates that groups
    /// the rows of `children` by the whole select list.
    pub fn bind_distinct(&mut self, children: LogicalPlan, select_list: Vec<ScalarExpression>) -> (r: LogicalPlan)
        ensures
            final(self).context.bind_step == QueryBindStep::Distinct,
            r.operator matches Operator::Aggregate(aggregate) && aggregate.groupby_exprs == select_list
                && aggregate.agg_calls@.len() == 0,
            r.childrens@ == seq![children],
    {
        self.context.step(QueryBindStep::Distinct);
        let mut childrens: Vec<LogicalPlan> = Vec::new();
        childrens.push(children);
        LogicalPlan::new(
            Operator::Aggregate(AggregateOperator { groupby_exprs: select_list, agg_calls: Vec::new() }),
            childrens,
        )
    }

    /// Binds `SHOW TABLES`.
    pub fn bind_show_tables(&mut self) -> (r: LogicalPlan)
        ensures
            r.operator is Show,
            r.childrens@.len() == 0,
            *final(self) == *old(self),
    {
        LogicalPlan::new(Operator::Show, Vec::new())
    }
}

} // verus!
