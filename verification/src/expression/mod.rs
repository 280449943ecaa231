//! Scalar expressions over the columns of a row.
use crate::catalog::ColumnRef;
use crate::types::value::{share, ValueRef};
use crate::types::LogicalType;
use vstd::prelude::*;

pub mod bounds;
pub mod cover;
pub mod disjoint;
pub mod evaluator;
pub mod faithful;
pub mod lowering;
pub mod meaning;
pub mod merge_cover;
pub mod normal_form;
pub mod range;
pub mod simplify;
pub mod sorting;
pub mod steady;
pub mod value_compute;

verus! {

/// A prefix operator.
#[derive(Debug, Clone, Copy, PartialEq, Eq, Hash, Structural)]
pub enum UnaryOperator {
    Plus,
    Minus,
    Not,
}

/// An infix operator.
#[derive(Debug, Clone, Copy, PartialEq, Eq, Hash, Structural)]
pub enum BinaryOperator {
    Plus,
    Minus,
    Multiply,
    Divide,
    Gt,
    Lt,
    GtEq,
    LtEq,
    Spaceship,
    Eq,
    NotEq,
    And,
    Or,
    Xor,
}

impl BinaryOperator {
    /// `+`, `-`, `*` or `/`.
    pub open spec fn spec_is_arithmetic(self) -> bool {
        self is Plus || self is Minus || self is Multiply || self is Divide
    }

    /// `=`, `<>`, `<`, `<=`, `>` or `>=`.
    pub open spec fn spec_is_comparison(self) -> bool {
        self is Eq || self is NotEq || self is Gt || self is Lt || self is GtEq || self is LtEq
    }

    /// The comparison read from right to left: `<` and `>` change places, so
    /// do `<=` and `>=`; every other operator stays.
    pub open spec fn spec_mirror(self) -> BinaryOperator {
        match self {
            BinaryOperator::Gt => BinaryOperator::Lt,
            BinaryOperator::Lt => BinaryOperator::Gt,
            BinaryOperator::GtEq => BinaryOperator::LtEq,
            BinaryOperator::LtEq => BinaryOperator::GtEq,
            other => other,
        }
    }

    /// The arithmetic operator that undoes this one: `+` and `-` change
    /// places, so do `*` and `/`; every other operator stays.
    pub open spec fn spec_inverse(self) -> BinaryOperator {
        match self {
            BinaryOperator::Plus => BinaryOperator::Minus,
            BinaryOperator::Minus => BinaryOperator::Plus,
            BinaryOperator::Multiply => BinaryOperator::Divide,
            BinaryOperator::Divide => BinaryOperator::Multiply,
            other => other,
        }
    }

    /// Whether the operator is `+`, `-`, `*` or `/`.
    #[verifier::when_used_as_spec(spec_is_arithmetic)]
    pub fn is_arithmetic(self) -> (r: bool)
        ensures
            r == self.spec_is_arithmetic(),
    {
        match self {
            BinaryOperator::Plus | BinaryOperator::Minus | BinaryOperator::Multiply | BinaryOperator::Divide => true,
            _ => false,
        }
    }

    /// Whether the operator is `=`, `<>`, `<`, `<=`, `>` or `>=`.
    #[verifier::when_used_as_spec(spec_is_comparison)]
    pub fn is_comparison(self) -> (r: bool)
        ensures
            r == self.spec_is_comparison(),
    {
        match self {
            BinaryOperator::Eq | BinaryOperator::NotEq | BinaryOperator::Gt | BinaryOperator::Lt
            | BinaryOperator::GtEq | BinaryOperator::LtEq => true,
            _ => false,
        }
    }

    /// The comparison read from right to left, see [`BinaryOperator::spec_mirror`].
    #[verifier::when_used_as_spec(spec_mirror)]
    pub fn mirror(self) -> (r: BinaryOperator)
        ensures
            r == self.spec_mirror(),
    {
        match self {
            BinaryOperator::Gt => BinaryOperator::Lt,
            BinaryOperator::Lt => BinaryOperator::Gt,
            BinaryOperator::GtEq => BinaryOperator::LtEq,
            BinaryOperator::LtEq => BinaryOperator::GtEq,
            other => other,
        }
    }

    /// The arithmetic operator that undoes this one, see [`BinaryOperator::spec_inverse`].
    #[verifier::when_used_as_spec(spec_inverse)]
    pub fn inverse(self) -> (r: BinaryOperator)
        ensures
            r == self.spec_inverse(),
    {
        match self {
            BinaryOperator::Plus => BinaryOperator::Minus,
            BinaryOperator::Minus => BinaryOperator::Plus,
            BinaryOperator::Multiply => BinaryOperator::Divide,
            BinaryOperator::Divide => BinaryOperator::Multiply,
            other => other,
        }
    }
}

/// A scalar expression. Children belong to their parent alone.
#[derive(Debug, PartialEq, Eq)]
#[allow(inconsistent_fields)]
pub enum ScalarExpression {
    /// A literal.
    Constant(ValueRef),
    /// A column of the row.
    ColumnRef(ColumnRef),
    /// `expr AS alias`.
    Alias { expr: Box<ScalarExpression>, alias: String },
    /// `CAST(expr AS ty)`.
    TypeCast { expr: Box<ScalarExpression>, ty: LogicalType },
    /// `expr IS NULL`, or `expr IS NOT NULL` where `negated`.
    IsNull { expr: Box<ScalarExpression>, negated: bool },
    /// `op expr`.
    Unary { op: UnaryOperator, expr: Box<ScalarExpression>, ty: LogicalType },
    /// `left_expr op right_expr`.
    Binary { op: BinaryOperator, left_expr: Box<ScalarExpression>, right_expr: Box<ScalarExpression>, ty: LogicalType },
    /// A call of an aggregate function. Its value is computed by the operator
    /// that aggregates, which hands it on under the name `name`.
    AggCall { name: String, ty: LogicalType },
}

impl ScalarExpression {
    /// Number of nodes of the expression.
    pub open spec fn size(self) -> nat
        decreases self,
    {
        match self {
            ScalarExpression::Alias { expr, .. } => 1 + expr.size(),
            ScalarExpression::TypeCast { expr, .. } => 1 + expr.size(),
            ScalarExpression::IsNull { expr, .. } => 1 + expr.size(),
            ScalarExpression::Unary { expr, .. } => 1 + expr.size(),
            ScalarExpression::Binary { left_expr, right_expr, .. } => 1 + left_expr.size() + right_expr.size(),
            _ => 1,
        }
    }

    /// A copy of the expression; values and columns stay shared.
    pub fn duplicate(&self) -> (r: ScalarExpression)
        ensures
            r == *self,
        decreases self,
    {
        match self {
            ScalarExpression::Constant(value) => ScalarExpression::Constant(share(value)),
            ScalarExpression::ColumnRef(column) => ScalarExpression::ColumnRef(share(column)),
            ScalarExpression::Alias { expr, alias } => ScalarExpression::Alias {
                expr: Box::new(expr.duplicate()),
                alias: alias.clone(),
            },
            ScalarExpression::TypeCast { expr, ty } => ScalarExpression::TypeCast {
                expr: Box::new(expr.duplicate()),
                ty: *ty,
            },
            ScalarExpression::IsNull { expr, negated } => ScalarExpression::IsNull {
                expr: Box::new(expr.duplicate()),
                negated: *negated,
            },
            ScalarExpression::Unary { op, expr, ty } => ScalarExpression::Unary {
                op: *op,
                expr: Box::new(expr.duplicate()),
                ty: *ty,
            },
            ScalarExpression::Binary { op, left_expr, right_expr, ty } => ScalarExpression::Binary {
                op: *op,
                left_expr: Box::new(left_expr.duplicate()),
                right_expr: Box::new(right_expr.duplicate()),
                ty: *ty,
            },
            ScalarExpression::AggCall { name, ty } => ScalarExpression::AggCall { name: name.clone(), ty: *ty },
        }
    }
}

impl Clone for ScalarExpression {
    fn clone(&self) -> (r: Self)
        ensures
            r == *self,
    {
        self.duplicate()
    }
}

} // verus!
