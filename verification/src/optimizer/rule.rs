//! Rules that map a logical operator to the one way of carrying it out.
use super::{Expression, GroupExpression};
use crate::planner::operator::{Operator, PhysicalOption};
use vstd::prelude::*;

verus! {

/// The rule for the operator that creates a table.
#[derive(Clone, Copy)]
pub struct CreateTableImplementation;

impl CreateTableImplementation {
    /// Whether the rule applies to `op`.
    pub fn is_match(&self, op: &Operator) -> (r: bool)
        ensures
            r == (*op is CreateTable),
    {
        matches!(op, Operator::CreateTable(_))
    }

    /// Adds the way in which the operator is carried out; its cost is not
    /// estimated.
    pub fn to_expression(&self, op: &Operator, group_expr: &mut GroupExpression)
        ensures
            final(group_expr).exprs@ == old(group_expr).exprs@.push(
                Expression { op: PhysicalOption::CreateTable, cost: None },
            ),
    {
        group_expr.append_expr(Expression { op: PhysicalOption::CreateTable, cost: None });
    }
}

/// The rule for the operator that drops a table.
#[derive(Clone, Copy)]
pub struct DropTableImplementation;

impl DropTableImplementation {
    /// Whether the rule applies to `op`.
    pub fn is_match(&self, op: &Operator) -> (r: bool)
        ensures
            r == (*op is DropTable),
    {
        matches!(op, Operator::DropTable(_))
    }

    /// Adds the way in which the operator is carried out; its cost is not
    /// estimated.
    pub fn to_expression(&self, op: &Operator, group_expr: &mut GroupExpression)
        ensures
            final(group_expr).exprs@ == old(group_expr).exprs@.push(
                Expression { op: PhysicalOption::DropTable, cost: None },
            ),
    {
        group_expr.append_expr(Expression { op: PhysicalOption::DropTable, cost: None });
    }
}

/// The rule for the operator that empties a table.
#[derive(Clone, Copy)]
pub struct TruncateImplementation;

impl TruncateImplementation {
    /// Whether the rule applies to `op`.
    pub fn is_match(&self, op: &Operator) -> (r: bool)
        ensures
            r == (*op is Truncate),
    {
        matches!(op, Operator::Truncate(_))
    }

    /// Adds the way in which the operator is carried out; its cost is not
    /// estimated.
    pub fn to_expression(&self, op: &Operator, group_expr: &mut GroupExpression)
        ensures
            final(group_expr).exprs@ == old(group_expr).exprs@.push(
                Expression { op: PhysicalOption::Truncate, cost: None },
            ),
    {
        group_expr.append_expr(Expression { op: PhysicalOption::Truncate, cost: None });
    }
}

/// The rule for the operator that updates rows.
#[derive(Clone, Copy)]
pub struct UpdateImplementation;

impl UpdateImplementation {
    /// Whether the rule applies to `op`.
    pub fn is_match(&self, op: &Operator) -> (r: bool)
        ensures
            r == (*op is Update),
    {
        matches!(op, Operator::Update(_))
    }

    /// Adds the way in which the operator is carried out; its cost is not
    /// estimated.
    pub fn to_expression(&self, op: &Operator, group_expr: &mut GroupExpression)
        ensures
            final(group_expr).exprs@ == old(group_expr).exprs@.push(
                Expression { op: PhysicalOption::Update, cost: None },
            ),
    {
        group_expr.append_expr(Expression { op: PhysicalOption::Update, cost: None });
    }
}

/// The rule for the operator that produces nothing.
#[derive(Clone, Copy)]
pub struct DummyImplementation;

impl DummyImplementation {
    /// Whether the rule applies to `op`.
    pub fn is_match(&self, op: &Operator) -> (r: bool)
        ensures
            r == (*op is Dummy),
    {
        matches!(op, Operator::Dummy)
    }

    /// Adds the way in which the operator is carried out; its cost is not
    /// estimated.
    pub fn to_expression(&self, op: &Operator, group_expr: &mut GroupExpression)
        ensures
            final(group_expr).exprs@ == old(group_expr).exprs@.push(
                Expression { op: PhysicalOption::Dummy, cost: None },
            ),
    {
        group_expr.append_expr(Expression { op: PhysicalOption::Dummy, cost: None });
    }
}

/// The rule for the operator that projects rows.
#[derive(Clone, Copy)]
pub struct ProjectionImplementation;

impl ProjectionImplementation {
    /// Whether the rule applies to `op`.
    pub fn is_match(&self, op: &Operator) -> (r: bool)
        ensures
            r == (*op is Project),
    {
        matches!(op, Operator::Project(_))
    }

    /// Adds the way in which the operator is carried out; its cost is not
    /// estimated.
    pub fn to_expression(&self, op: &Operator, group_expr: &mut GroupExpression)
        ensures
            final(group_expr).exprs@ == old(group_expr).exprs@.push(
                Expression { op: PhysicalOption::Project, cost: None },
            ),
    {
        group_expr.append_expr(Expression { op: PhysicalOption::Project, cost: None });
    }
}

} // verus!
