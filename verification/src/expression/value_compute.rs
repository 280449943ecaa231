//! The operators of the value algebra.
//!
//! Arithmetic is defined on integers and is checked: a result that its type
//! cannot hold is the error `Overflow`, never a wrapped or saturated number.
//! Comparisons and the logical operators follow SQL's three-valued logic.
use super::{BinaryOperator, UnaryOperator};
use crate::types::errors::TypeError;
use crate::types::value::{quotient_toward_zero, value_order, DataValue, Order};
use crate::types::LogicalType;
use vstd::prelude::*;

verus! {

/// The number an arithmetic operator gives on two numbers.
pub open spec fn arithmetic(op: BinaryOperator, a: int, b: int) -> Result<int, TypeError> {
    match op {
        BinaryOperator::Plus => Ok(a + b),
        BinaryOperator::Minus => Ok(a - b),
        BinaryOperator::Multiply => Ok(a * b),
        _ => if b == 0 {
            Err(TypeError::DivisionByZero)
        } else {
            Ok(quotient_toward_zero(a, b))
        },
    }
}

/// Whether a comparison operator holds of two operands that stand in `order`.
pub open spec fn holds(op: BinaryOperator, order: Order) -> bool {
    match op {
        BinaryOperator::Eq => order is Equal,
        BinaryOperator::NotEq => !(order is Equal),
        BinaryOperator::Gt => order is Greater,
        BinaryOperator::Lt => order is Less,
        BinaryOperator::GtEq => !(order is Less),
        BinaryOperator::LtEq => !(order is Greater),
        _ => false,
    }
}

/// `AND`, `OR` and `XOR` on truth values of which `None` is unknown.
pub open spec fn logic(op: BinaryOperator, a: Option<bool>, b: Option<bool>) -> Option<bool> {
    match op {
        BinaryOperator::And => if a == Some(false) || b == Some(false) {
            Some(false)
        } else if a is None || b is None {
            None
        } else {
            Some(true)
        },
        BinaryOperator::Or => if a == Some(true) || b == Some(true) {
            Some(true)
        } else if a is None || b is None {
            None
        } else {
            Some(false)
        },
        _ => match (a, b) {
            (Some(x), Some(y)) => Some(x != y),
            _ => None,
        },
    }
}

/// The value of `left op right`.
///
/// The operands must have a common type, else the result is `InvalidType`.
/// - Arithmetic needs integers: a null operand gives the null of the common
///   type, two numbers give the number in the common type, `Overflow` where it
///   does not fit, `DivisionByZero` for a zero divisor. Two untyped nulls give
///   the untyped null.
/// - A comparison gives the boolean null when an operand is null, else
///   whether it holds.
/// - `<=>` is never null: two nulls are equal, a null and a value are not.
/// - `AND`, `OR`, `XOR` need booleans or untyped nulls.
pub open spec fn binary_op_spec(left: DataValue, right: DataValue, op: BinaryOperator) -> Result<
    DataValue,
    TypeError,
> {
    match left.spec_logical_type().spec_unify(right.spec_logical_type()) {
        None => Err(TypeError::InvalidType),
        Some(ty) => if op.spec_is_arithmetic() {
            if ty is SqlNull {
                Ok(DataValue::Null)
            } else if !ty.spec_is_integer() {
                Err(TypeError::InvalidType)
            } else if left.spec_is_null() || right.spec_is_null() {
                Ok(DataValue::spec_null_of(ty))
            } else {
                match arithmetic(op, left.spec_int()->0, right.spec_int()->0) {
                    Ok(n) => DataValue::spec_int_of(ty, n),
                    Err(e) => Err(e),
                }
            }
        } else if op.spec_is_comparison() {
            Ok(
                DataValue::Boolean(
                    match value_order(left, right) {
                        Some(order) => Some(holds(op, order)),
                        None => None,
                    },
                ),
            )
        } else if op is Spaceship {
            Ok(
                DataValue::Boolean(
                    Some(
                        if left.spec_is_null() && right.spec_is_null() {
                            true
                        } else {
                            value_order(left, right) == Some(Order::Equal)
                        },
                    ),
                ),
            )
        } else if ty is Boolean || ty is SqlNull {
            Ok(DataValue::Boolean(logic(op, left.spec_bool(), right.spec_bool())))
        } else {
            Err(TypeError::InvalidType)
        },
    }
}

/// The value of `op value`.
///
/// `+` and `-` need an integer or the untyped null, `NOT` a boolean or the
/// untyped null; a null stays the null it is. `-` of the smallest number of a
/// type is `Overflow`. Every other operand is `InvalidType`.
pub open spec fn unary_op_spec(value: DataValue, op: UnaryOperator) -> Result<DataValue, TypeError> {
    let ty = value.spec_logical_type();
    match op {
        UnaryOperator::Not => match value {
            DataValue::Boolean(Some(b)) => Ok(DataValue::Boolean(Some(!b))),
            DataValue::Boolean(None) => Ok(value),
            DataValue::Null => Ok(value),
            _ => Err(TypeError::InvalidType),
        },
        _ => if ty is SqlNull {
            Ok(value)
        } else if !ty.spec_is_integer() {
            Err(TypeError::InvalidType)
        } else if value.spec_is_null() || op is Plus {
            Ok(value)
        } else {
            DataValue::spec_int_of(ty, -(value.spec_int()->0))
        },
    }
}

fn compute(op: BinaryOperator, a: i64, b: i64) -> (r: Option<i64>)
    requires
        op.spec_is_arithmetic(),
        !(op is Divide) || b != 0,
    ensures
        match r {
            Some(n) => arithmetic(op, a as int, b as int) == Ok::<int, TypeError>(n as int),
            None => arithmetic(op, a as int, b as int) matches Ok(n) && (n < i64::MIN || n > i64::MAX),
        },
{
    match op {
        BinaryOperator::Plus => a.checked_add(b),
        BinaryOperator::Minus => a.checked_sub(b),
        BinaryOperator::Multiply => a.checked_mul(b),
        _ => a.checked_div(b),
    }
}

fn truth(op: BinaryOperator, a: Option<bool>, b: Option<bool>) -> (r: Option<bool>)
    ensures
        r == logic(op, a, b),
{
    match op {
        BinaryOperator::And => match (a, b) {
            (Some(false), _) => Some(false),
            (_, Some(false)) => Some(false),
            (Some(true), Some(true)) => Some(true),
            _ => None,
        },
        BinaryOperator::Or => match (a, b) {
            (Some(true), _) => Some(true),
            (_, Some(true)) => Some(true),
            (Some(false), Some(false)) => Some(false),
            _ => None,
        },
        _ => match (a, b) {
            (Some(x), Some(y)) => Some(x != y),
            _ => None,
        },
    }
}

fn satisfied(op: BinaryOperator, order: Order) -> (r: bool)
    ensures
        r == holds(op, order),
{
    match op {
        BinaryOperator::Eq => matches!(order, Order::Equal),
        BinaryOperator::NotEq => !matches!(order, Order::Equal),
        BinaryOperator::Gt => matches!(order, Order::Greater),
        BinaryOperator::Lt => matches!(order, Order::Less),
        BinaryOperator::GtEq => !matches!(order, Order::Less),
        BinaryOperator::LtEq => !matches!(order, Order::Greater),
        _ => false,
    }
}

fn boolean(value: &DataValue) -> (r: Option<bool>)
    ensures
        r == value.spec_bool(),
{
    match value {
        DataValue::Boolean(v) => *v,
        _ => None,
    }
}

/// Applies an infix operator to two values, see [`binary_op_spec`].
pub fn binary_op(left: &DataValue, right: &DataValue, op: &BinaryOperator) -> (r: Result<DataValue, TypeError>)
    ensures
        r == binary_op_spec(*left, *right, *op),
{
    let ty = match left.logical_type().max_logical_type(right.logical_type()) {
        Ok(ty) => ty,
        Err(e) => {
            return Err(e);
        },
    };
    if op.is_arithmetic() {
        if ty == LogicalType::SqlNull {
            return Ok(DataValue::Null);
        }
        if !ty.is_integer() {
            return Err(TypeError::InvalidType);
        }
        match (left.integer(), right.integer()) {
            (Some(a), Some(b)) => {
                if matches!(op, BinaryOperator::Divide) && b == 0 {
                    return Err(TypeError::DivisionByZero);
                }
                match compute(*op, a, b) {
                    Some(n) => DataValue::int_of(ty, n),
                    None => Err(TypeError::Overflow),
                }
            },
            _ => Ok(DataValue::none(ty)),
        }
    } else if op.is_comparison() {
        Ok(
            DataValue::Boolean(
                match left.compare(right) {
                    Some(order) => Some(satisfied(*op, order)),
                    None => None,
                },
            ),
        )
    } else if matches!(op, BinaryOperator::Spaceship) {
        let equal = if left.is_null() && right.is_null() {
            true
        } else {
            matches!(left.compare(right), Some(Order::Equal))
        };
        Ok(DataValue::Boolean(Some(equal)))
    } else if ty == LogicalType::Boolean || ty == LogicalType::SqlNull {
        Ok(DataValue::Boolean(truth(*op, boolean(left), boolean(right))))
    } else {
        Err(TypeError::InvalidType)
    }
}

/// Applies a prefix operator to a value, see [`unary_op_spec`].
pub fn unary_op(value: &DataValue, op: &UnaryOperator) -> (r: Result<DataValue, TypeError>)
    ensures
        r == unary_op_spec(*value, *op),
{
    let ty = value.logical_type();
    match op {
        UnaryOperator::Not => match value {
            DataValue::Boolean(Some(b)) => Ok(DataValue::Boolean(Some(!*b))),
            DataValue::Boolean(None) => Ok(DataValue::Boolean(None)),
            DataValue::Null => Ok(DataValue::Null),
            _ => Err(TypeError::InvalidType),
        },
        _ => {
            if ty == LogicalType::SqlNull {
                return Ok(DataValue::Null);
            }
            if !ty.is_integer() {
                return Err(TypeError::InvalidType);
            }
            match value.integer() {
                None => Ok(DataValue::none(ty)),
                Some(n) => {
                    if matches!(op, UnaryOperator::Plus) {
                        DataValue::int_of(ty, n)
                    } else {
                        match 0i64.checked_sub(n) {
                            Some(m) => DataValue::int_of(ty, m),
                            None => Err(TypeError::Overflow),
                        }
                    }
                },
            }
        },
    }
}

} // verus!
