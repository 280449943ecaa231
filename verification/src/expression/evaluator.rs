//! Evaluation of an expression on a row.
use super::value_compute::{binary_op, binary_op_spec, unary_op, unary_op_spec};
use super::simplify::null_test;
use super::ScalarExpression;
use crate::catalog::ColumnRef;
use crate::types::errors::TypeError;
use crate::types::tuple::Tuple;
use crate::types::value::{share, DataValue, ValueRef};
use std::sync::Arc;
use vstd::prelude::*;

verus! {

/// Index of the first column from `from` on that is called `name`.
pub open spec fn first_named(columns: Seq<ColumnRef>, name: Seq<char>, from: int) -> Option<int>
    decreases columns.len() - from,
{
    if from < 0 || from >= columns.len() {
        None
    } else if columns[from].name@ == name {
        Some(from)
    } else {
        first_named(columns, name, from + 1)
    }
}

/// The value that a row holds under the first of its columns called `name`.
pub open spec fn named_value(tuple: Tuple, name: Seq<char>) -> Option<ValueRef> {
    match first_named(tuple.columns@, name, 0) {
        Some(i) => Some(tuple.values@[i]),
        None => None,
    }
}

/// The value that a row holds under `name`, the untyped null if it holds
/// none.
pub open spec fn named_or_null(tuple: Tuple, name: Seq<char>) -> ValueRef {
    match named_value(tuple, name) {
        Some(value) => value,
        None => Arc::new(DataValue::Null),
    }
}

/// The value of an expression on a row.
///
/// A constant is its value. A column and an aggregate call are looked up in
/// the row by name and are null where the row has no such column. An alias is
/// looked up by its name first and is the value of its operand where the row
/// has no such column. A cast, a null test and the operators are applied to
/// the values of their operands, all of which are evaluated; the first error
/// among them is the error of the whole.
pub open spec fn evaluated(e: ScalarExpression, tuple: Tuple) -> Result<ValueRef, TypeError>
    decreases e,
{
    match e {
        ScalarExpression::Constant(value) => Ok(value),
        ScalarExpression::ColumnRef(column) => Ok(named_or_null(tuple, column.name@)),
        ScalarExpression::Alias { expr, alias } => match named_value(tuple, alias@) {
            Some(value) => Ok(value),
            None => evaluated(*expr, tuple),
        },
        ScalarExpression::TypeCast { expr, ty } => match evaluated(*expr, tuple) {
            Ok(value) => match value.spec_cast(ty) {
                Ok(cast) => Ok(Arc::new(cast)),
                Err(error) => Err(error),
            },
            Err(error) => Err(error),
        },
        ScalarExpression::Binary { op, left_expr, right_expr, .. } => match evaluated(*left_expr, tuple) {
            Ok(left) => match evaluated(*right_expr, tuple) {
                Ok(right) => match binary_op_spec(*left, *right, op) {
                    Ok(result) => Ok(Arc::new(result)),
                    Err(error) => Err(error),
                },
                Err(error) => Err(error),
            },
            Err(error) => Err(error),
        },
        ScalarExpression::IsNull { expr, negated } => match evaluated(*expr, tuple) {
            Ok(value) => Ok(null_test(value, negated)),
            Err(error) => Err(error),
        },
        ScalarExpression::Unary { op, expr, .. } => match evaluated(*expr, tuple) {
            Ok(value) => match unary_op_spec(*value, op) {
                Ok(result) => Ok(Arc::new(result)),
                Err(error) => Err(error),
            },
            Err(error) => Err(error),
        },
        ScalarExpression::AggCall { name, .. } => Ok(named_or_null(tuple, name@)),
    }
}

impl ScalarExpression {
    /// Evaluates the expression on a row, see [`evaluated`].
    pub fn eval_column(&self, tuple: &Tuple) -> (r: Result<ValueRef, TypeError>)
        requires
            tuple.well_formed(),
        ensures
            r == evaluated(*self, *tuple),
        decreases self,
    {
        match self {
            ScalarExpression::Constant(value) => Ok(share(value)),
            ScalarExpression::ColumnRef(column) => Ok(
                match Self::eval_with_name(tuple, column.name()) {
                    Some(value) => share(value),
                    None => Arc::new(DataValue::Null),
                },
            ),
            ScalarExpression::Alias { expr, alias } => {
                if let Some(value) = Self::eval_with_name(tuple, alias) {
                    return Ok(share(value));
                }
                expr.eval_column(tuple)
            },
            ScalarExpression::TypeCast { expr, ty } => {
                let value = match expr.eval_column(tuple) {
                    Ok(value) => value,
                    Err(error) => {
                        return Err(error);
                    },
                };
                match value.cast(*ty) {
                    Ok(cast) => Ok(Arc::new(cast)),
                    Err(error) => Err(error),
                }
            },
            ScalarExpression::Binary { left_expr, right_expr, op, .. } => {
                let left = match left_expr.eval_column(tuple) {
                    Ok(value) => value,
                    Err(error) => {
                        return Err(error);
                    },
                };
                let right = match right_expr.eval_column(tuple) {
                    Ok(value) => value,
                    Err(error) => {
                        return Err(error);
                    },
                };
                match binary_op(&left, &right, op) {
                    Ok(result) => Ok(Arc::new(result)),
                    Err(error) => Err(error),
                }
            },
            ScalarExpression::IsNull { expr, negated } => {
                let value = match expr.eval_column(tuple) {
                    Ok(value) => value,
                    Err(error) => {
                        return Err(error);
                    },
                };
                let mut is_null = value.is_null();
                if *negated {
                    is_null = !is_null;
                }
                Ok(Arc::new(DataValue::Boolean(Some(is_null))))
            },
            ScalarExpression::Unary { expr, op, .. } => {
                let value = match expr.eval_column(tuple) {
                    Ok(value) => value,
                    Err(error) => {
                        return Err(error);
                    },
                };
                match unary_op(&value, op) {
                    Ok(result) => Ok(Arc::new(result)),
                    Err(error) => Err(error),
                }
            },
            ScalarExpression::AggCall { name, .. } => Ok(
                match Self::eval_with_name(tuple, name) {
                    Some(value) => share(value),
                    None => Arc::new(DataValue::Null),
                },
            ),
        }
    }

    /// The value that the row holds under the first of its columns called
    /// `name`.
    pub fn eval_with_name<'a>(tuple: &'a Tuple, name: &String) -> (r: Option<&'a ValueRef>)
        requires
            tuple.well_formed(),
        ensures
            match r {
                Some(value) => named_value(*tuple, name@) == Some(*value),
                None => named_value(*tuple, name@) is None,
            },
    {
        let mut i: usize = 0;
        while i < tuple.columns.len()
            invariant
                i <= tuple.columns.len(),
                tuple.columns.len() == tuple.values.len(),
                first_named(tuple.columns@, name@, 0) == first_named(tuple.columns@, name@, i as int),
            decreases tuple.columns.len() - i,
        {
            if *tuple.columns[i].name() == *name {
                return Some(&tuple.values[i]);
            }
            i += 1;
        }
        None
    }
}

} // verus!
