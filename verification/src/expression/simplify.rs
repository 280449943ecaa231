//! Folding of constants, isolation of a column under a comparison, and the
//! lowering of a predicate into a range over one column.
use super::value_compute::{binary_op, binary_op_spec, unary_op, unary_op_spec};
use super::{BinaryOperator, ScalarExpression, UnaryOperator};
use crate::catalog::ColumnRef;
use crate::types::errors::TypeError;
use crate::types::value::{share, DataValue, ValueRef};
use crate::types::LogicalType;
use std::sync::Arc;
use vstd::prelude::*;

pub use super::range::ConstantBinary;
use super::lowering::lemma_converted_flat;
use super::range::{lemma_view_parts, views, Range};
use crate::types::ColumnId;
use std::ops::Bound;

verus! {

/// The value of `expr IS [NOT] NULL` for a known value of `expr`.
pub open spec fn null_test(value: ValueRef, negated: bool) -> ValueRef {
    Arc::new(DataValue::Boolean(Some(value.spec_is_null() != negated)))
}

/// The value that an expression without columns folds to, and the expression
/// as folding leaves it.
///
/// A constant folds to itself and an alias to what it names. A cast, a null
/// test and a prefix operator fold where their operand does and the operation
/// succeeds. An infix operator folds where both operands do and the
/// operation succeeds, and the node then becomes the constant; its right
/// operand is not looked at when the left one does not fold. Nothing else
/// folds.
pub open spec fn folded(e: ScalarExpression) -> (Option<ValueRef>, ScalarExpression)
    decreases e,
{
    match e {
        ScalarExpression::Constant(value) => (Some(value), e),
        ScalarExpression::Alias { expr, alias } => {
            let (value, inner) = folded(*expr);
            (value, ScalarExpression::Alias { expr: Box::new(inner), alias })
        },
        ScalarExpression::TypeCast { expr, ty } => {
            let (value, inner) = folded(*expr);
            (
                match value {
                    Some(v) => match v.spec_cast(ty) {
                        Ok(cast) => Some(Arc::new(cast)),
                        Err(_) => None,
                    },
                    None => None,
                },
                ScalarExpression::TypeCast { expr: Box::new(inner), ty },
            )
        },
        ScalarExpression::IsNull { expr, negated } => {
            let (value, inner) = folded(*expr);
            (
                match value {
                    Some(v) => Some(null_test(v, negated)),
                    None => None,
                },
                ScalarExpression::IsNull { expr: Box::new(inner), negated },
            )
        },
        ScalarExpression::Unary { op, expr, ty } => {
            let (value, inner) = folded(*expr);
            (
                match value {
                    Some(v) => match unary_op_spec(*v, op) {
                        Ok(result) => Some(Arc::new(result)),
                        Err(_) => None,
                    },
                    None => None,
                },
                ScalarExpression::Unary { op, expr: Box::new(inner), ty },
            )
        },
        ScalarExpression::Binary { op, left_expr, right_expr, ty } => {
            let (left_value, left) = folded(*left_expr);
            match left_value {
                None => (None, ScalarExpression::Binary { op, left_expr: Box::new(left), right_expr, ty }),
                Some(l) => {
                    let (right_value, right) = folded(*right_expr);
                    let kept = ScalarExpression::Binary {
                        op,
                        left_expr: Box::new(left),
                        right_expr: Box::new(right),
                        ty,
                    };
                    match right_value {
                        None => (None, kept),
                        Some(r) => match binary_op_spec(*l, *r, op) {
                            Ok(result) => (Some(Arc::new(result)), ScalarExpression::Constant(Arc::new(result))),
                            Err(_) => (None, kept),
                        },
                    }
                },
            }
        },
        _ => (None, e),
    }
}

/// The one column that an expression refers to.
///
/// A column reference gives its column; an alias and a prefix operator give
/// that of their operand. An infix operator gives none where `strict`; else
/// it gives the column of the one operand that has one, and none where both
/// or neither have. Nothing else gives a column.
pub open spec fn column_of(e: ScalarExpression, strict: bool) -> Option<ColumnRef>
    decreases e,
{
    match e {
        ScalarExpression::ColumnRef(column) => Some(column),
        ScalarExpression::Alias { expr, .. } => column_of(*expr, strict),
        ScalarExpression::Unary { expr, .. } => column_of(*expr, strict),
        ScalarExpression::Binary { left_expr, right_expr, .. } => if strict {
            None
        } else {
            match (column_of(*left_expr, strict), column_of(*right_expr, strict)) {
                (Some(column), None) => Some(column),
                (None, Some(column)) => Some(column),
                _ => None,
            }
        },
        _ => None,
    }
}

impl ScalarExpression {
    /// Folds the expression where it holds no column, see [`folded`].
    pub fn unpack_val(&mut self) -> (r: Option<ValueRef>)
        ensures
            (r, *final(self)) == folded(*old(self)),
        decreases *old(self),
    {
        match self {
            ScalarExpression::Constant(value) => Some(share(value)),
            ScalarExpression::Alias { expr, .. } => expr.unpack_val(),
            ScalarExpression::TypeCast { expr, ty } => match expr.unpack_val() {
                Some(value) => match value.cast(*ty) {
                    Ok(cast) => Some(Arc::new(cast)),
                    Err(_) => None,
                },
                None => None,
            },
            ScalarExpression::IsNull { expr, negated } => match expr.unpack_val() {
                Some(value) => Some(Arc::new(DataValue::Boolean(Some(value.is_null() != *negated)))),
                None => None,
            },
            ScalarExpression::Unary { expr, op, .. } => match expr.unpack_val() {
                Some(value) => match unary_op(&value, op) {
                    Ok(result) => Some(Arc::new(result)),
                    Err(_) => None,
                },
                None => None,
            },
            ScalarExpression::Binary { left_expr, right_expr, op, .. } => {
                let left = match left_expr.unpack_val() {
                    Some(left) => left,
                    None => {
                        return None;
                    },
                };
                let right = match right_expr.unpack_val() {
                    Some(right) => right,
                    None => {
                        return None;
                    },
                };
                match binary_op(&left, &right, op) {
                    Ok(result) => {
                        let value = Arc::new(result);
                        *self = ScalarExpression::Constant(share(&value));
                        Some(value)
                    },
                    Err(_) => None,
                }
            },
            _ => None,
        }
    }

    /// The one column that the expression refers to, see [`column_of`].
    pub fn unpack_col(&self, is_binary_then_return: bool) -> (r: Option<ColumnRef>)
        ensures
            r == column_of(*self, is_binary_then_return),
        decreases self,
    {
        match self {
            ScalarExpression::ColumnRef(column) => Some(share(column)),
            ScalarExpression::Alias { expr, .. } => expr.unpack_col(is_binary_then_return),
            ScalarExpression::Binary { left_expr, right_expr, .. } => {
                if is_binary_then_return {
                    return None;
                }
                match (left_expr.unpack_col(is_binary_then_return), right_expr.unpack_col(is_binary_then_return)) {
                    (Some(column), None) => Some(column),
                    (None, Some(column)) => Some(column),
                    _ => None,
                }
            },
            ScalarExpression::Unary { expr, .. } => expr.unpack_col(is_binary_then_return),
            _ => None,
        }
    }
}

/// What a node hands to the infix operator above it, so that the operator
/// can move it to its other side.
pub enum Replace {
    Binary(ReplaceBinary),
    Unary(ReplaceUnary),
}

/// An arithmetic operator over one column and another operand.
pub struct ReplaceBinary {
    pub column_expr: ScalarExpression,
    pub val_expr: ScalarExpression,
    pub op: BinaryOperator,
    pub ty: LogicalType,
    pub is_column_left: bool,
}

/// A prefix operator over an operand that does not fold.
pub struct ReplaceUnary {
    pub child_expr: ScalarExpression,
    pub op: UnaryOperator,
    pub ty: LogicalType,
}

/// The operator above a prefix operator that moved to its other side: `+`
/// changes nothing, `-` turns an arithmetic operator into the one that undoes
/// it and a comparison round, `NOT` turns a comparison round.
pub open spec fn moved_unary(fix_op: UnaryOperator, op: BinaryOperator) -> BinaryOperator {
    match fix_op {
        UnaryOperator::Plus => op,
        UnaryOperator::Minus => op.spec_inverse().spec_mirror(),
        UnaryOperator::Not => op.spec_mirror(),
    }
}

/// The two sides of an infix operator and the operator itself after the
/// prefix operator `unary` of its first side moved to the other side.
pub open spec fn fix_unary_spec(unary: ReplaceUnary, val_expr: ScalarExpression, op: BinaryOperator) -> (
    ScalarExpression,
    ScalarExpression,
    BinaryOperator,
) {
    (
        unary.child_expr,
        ScalarExpression::Unary { op: unary.op, expr: Box::new(val_expr), ty: unary.ty },
        moved_unary(unary.op, op),
    )
}

/// The two sides of an infix operator and the operator itself after the
/// arithmetic `binary` of its first side moved to the other side.
///
/// The first side becomes the column. For `column (+) k` the other side
/// `rhs` becomes `rhs (-) k`, with the operator that undoes `(+)`. For
/// `k (+) column` it becomes `k (+) rhs`, and the operator above is turned
/// round where `(+)` is `-` or `*`.
pub open spec fn fix_binary_spec(binary: ReplaceBinary, right_expr: ScalarExpression, op: BinaryOperator) -> (
    ScalarExpression,
    ScalarExpression,
    BinaryOperator,
) {
    if binary.is_column_left {
        (
            binary.column_expr,
            ScalarExpression::Binary {
                op: binary.op.spec_inverse(),
                left_expr: Box::new(right_expr),
                right_expr: Box::new(binary.val_expr),
                ty: binary.ty,
            },
            op,
        )
    } else {
        (
            binary.column_expr,
            ScalarExpression::Binary {
                op: binary.op,
                left_expr: Box::new(binary.val_expr),
                right_expr: Box::new(right_expr),
                ty: binary.ty,
            },
            if binary.op is Minus || binary.op is Multiply {
                op.spec_mirror()
            } else {
                op
            },
        )
    }
}

/// What an infix operator hands upward: where it is arithmetic and exactly
/// one of its sides is a column, alone or under aliases and prefix operators,
/// that column, the other side and the operator.
pub open spec fn published(left: ScalarExpression, right: ScalarExpression, op: BinaryOperator, ty: LogicalType) -> Option<
    Replace,
> {
    if op.spec_is_arithmetic() {
        match (column_of(left, true), column_of(right, true)) {
            (Some(column), None) => Some(
                Replace::Binary(
                    ReplaceBinary {
                        column_expr: ScalarExpression::ColumnRef(column),
                        val_expr: right,
                        op,
                        ty,
                        is_column_left: true,
                    },
                ),
            ),
            (None, Some(column)) => Some(
                Replace::Binary(
                    ReplaceBinary {
                        column_expr: ScalarExpression::ColumnRef(column),
                        val_expr: left,
                        op,
                        ty,
                        is_column_left: false,
                    },
                ),
            ),
            _ => None,
        }
    } else {
        None
    }
}

/// The expression after one pass of simplification, and what it hands to the
/// operator above it.
///
/// - An infix operator settles its left side against its right, then its
///   right side against its left (see [`settled`]), and hands upward what
///   [`published`] says.
/// - An alias is its operand simplified.
/// - A cast, a null test and a prefix operator become a constant where their
///   operand folds; a cast or an operator that fails on the folded value is
///   the error of the pass. A prefix operator whose operand does not fold
///   hands itself upward.
/// - Everything else stays.
///
/// The test on sizes always holds (see [`lemma_simplified_size`]); it is
/// there because the definition must be seen to end.
pub open spec fn simplified(e: ScalarExpression) -> Result<(ScalarExpression, Option<Replace>), TypeError>
    decreases e.size(), 0nat,
{
    match e {
        ScalarExpression::Binary { op, left_expr, right_expr, ty } => match settled(*left_expr, *right_expr, op) {
            Err(error) => Err(error),
            Ok((left, right, first_op)) => if left.size() + right.size() <= left_expr.size() + right_expr.size() {
                match settled(right, left, first_op) {
                    Err(error) => Err(error),
                    Ok((right, left, op)) => Ok(
                        (
                            ScalarExpression::Binary {
                                op,
                                left_expr: Box::new(left),
                                right_expr: Box::new(right),
                                ty,
                            },
                            published(left, right, op, ty),
                        ),
                    ),
                }
            } else {
                Ok((e, None))
            },
        },
        ScalarExpression::Alias { expr, alias } => match simplified(*expr) {
            Ok((inner, fix)) => Ok((ScalarExpression::Alias { expr: Box::new(inner), alias }, fix)),
            Err(error) => Err(error),
        },
        ScalarExpression::TypeCast { expr, ty } => {
            let (value, inner) = folded(*expr);
            match value {
                Some(v) => match v.spec_cast(ty) {
                    Ok(cast) => Ok((ScalarExpression::Constant(Arc::new(cast)), None)),
                    Err(error) => Err(error),
                },
                None => Ok((ScalarExpression::TypeCast { expr: Box::new(inner), ty }, None)),
            }
        },
        ScalarExpression::IsNull { expr, negated } => {
            let (value, inner) = folded(*expr);
            match value {
                Some(v) => Ok((ScalarExpression::Constant(null_test(v, negated)), None)),
                None => Ok((ScalarExpression::IsNull { expr: Box::new(inner), negated }, None)),
            }
        },
        ScalarExpression::Unary { op, expr, ty } => {
            let (value, inner) = folded(*expr);
            match value {
                Some(v) => match unary_op_spec(*v, op) {
                    Ok(result) => Ok((ScalarExpression::Constant(Arc::new(result)), None)),
                    Err(error) => Err(error),
                },
                None => Ok(
                    (
                        ScalarExpression::Unary { op, expr: Box::new(inner), ty },
                        Some(Replace::Unary(ReplaceUnary { child_expr: inner, op, ty })),
                    ),
                ),
            }
        },
        _ => Ok((e, None)),
    }
}

/// The two sides of an infix operator and the operator itself after the
/// first side was simplified and what it handed upward was moved to the other
/// side. After a prefix operator has moved, the first side is settled again.
pub open spec fn settled(left: ScalarExpression, right: ScalarExpression, op: BinaryOperator) -> Result<
    (ScalarExpression, ScalarExpression, BinaryOperator),
    TypeError,
>
    decreases left.size() + right.size(), left.size(),
{
    match simplified(left) {
        Err(error) => Err(error),
        Ok((simple, None)) => Ok((simple, right, op)),
        Ok((_, Some(Replace::Binary(binary)))) => Ok(fix_binary_spec(binary, right, op)),
        Ok((_, Some(Replace::Unary(unary)))) => {
            let (child, value, moved) = fix_unary_spec(unary, right, op);
            if child.size() < left.size() {
                settled(child, value, moved)
            } else {
                Ok((child, value, moved))
            }
        },
    }
}

/// Every expression has a node.
pub proof fn lemma_size_positive(e: ScalarExpression)
    ensures
        e.size() >= 1,
{
}

/// Folding does not make an expression larger.
pub proof fn lemma_folded_size(e: ScalarExpression)
    ensures
        folded(e).1.size() <= e.size(),
    decreases e,
{
    match e {
        ScalarExpression::Alias { expr, .. } => lemma_folded_size(*expr),
        ScalarExpression::TypeCast { expr, .. } => lemma_folded_size(*expr),
        ScalarExpression::IsNull { expr, .. } => lemma_folded_size(*expr),
        ScalarExpression::Unary { expr, .. } => lemma_folded_size(*expr),
        ScalarExpression::Binary { left_expr, right_expr, .. } => {
            lemma_folded_size(*left_expr);
            lemma_folded_size(*right_expr);
            lemma_size_positive(*left_expr);
            lemma_size_positive(*right_expr);
        },
        _ => {},
    }
}

/// A pass of simplification does not make an expression larger, and what the
/// expression hands upward is smaller than the expression was.
pub proof fn lemma_simplified_size(e: ScalarExpression)
    ensures
        simplified(e) matches Ok((simple, fix)) ==> {
            &&& simple.size() <= e.size()
            &&& fix matches Some(Replace::Unary(unary)) ==> unary.child_expr.size() < e.size()
            &&& fix matches Some(Replace::Binary(binary)) ==> binary.column_expr.size() + binary.val_expr.size()
                < e.size() && binary.column_expr.size() == 1
        },
    decreases e.size(), 0nat,
{
    match e {
        ScalarExpression::Binary { op, left_expr, right_expr, ty } => {
            lemma_settled_size(*left_expr, *right_expr, op);
            if let Ok((left, right, first_op)) = settled(*left_expr, *right_expr, op) {
                lemma_settled_size(right, left, first_op);
                if let Ok((right, left, _)) = settled(right, left, first_op) {
                    lemma_size_positive(left);
                    lemma_size_positive(right);
                }
            }
        },
        ScalarExpression::Alias { expr, .. } => lemma_simplified_size(*expr),
        ScalarExpression::TypeCast { expr, .. } => lemma_folded_size(*expr),
        ScalarExpression::IsNull { expr, .. } => lemma_folded_size(*expr),
        ScalarExpression::Unary { expr, .. } => lemma_folded_size(*expr),
        _ => {},
    }
}

/// Settling one side of an infix operator against the other does not make
/// the two sides larger taken together.
pub proof fn lemma_settled_size(left: ScalarExpression, right: ScalarExpression, op: BinaryOperator)
    ensures
        settled(left, right, op) matches Ok((first, second, _)) ==> first.size() + second.size() <= left.size()
            + right.size(),
    decreases left.size() + right.size(), left.size(),
{
    lemma_size_positive(right);
    lemma_simplified_size(left);
    match simplified(left) {
        Ok((_, Some(Replace::Unary(unary)))) => {
            let (child, value, moved) = fix_unary_spec(unary, right, op);
            lemma_settled_size(child, value, moved);
        },
        _ => {},
    }
}

impl ScalarExpression {
    /// Simplifies the expression in place: constants are folded under casts,
    /// null tests and prefix operators, and an arithmetic or prefix operator
    /// over a column is moved to the other side of the operator above it,
    /// see [`simplified`]. After an error the expression is of no further
    /// use.
    pub fn simplify(&mut self) -> (r: Result<(), TypeError>)
        ensures
            match simplified(*old(self)) {
                Ok((simple, _)) => r is Ok && *final(self) == simple,
                Err(error) => r == Err::<(), TypeError>(error),
            },
    {
        let mut fix_option: Option<Replace> = None;
        self._simplify(&mut fix_option)
    }

    /// One pass over the expression; what it hands upward is left in
    /// `fix_option`.
    fn _simplify(&mut self, fix_option: &mut Option<Replace>) -> (r: Result<(), TypeError>)
        requires
            *old(fix_option) is None,
        ensures
            match simplified(*old(self)) {
                Ok((simple, fix)) => r is Ok && *final(self) == simple && *final(fix_option) == fix,
                Err(error) => r == Err::<(), TypeError>(error),
            },
        decreases old(self).size(), 0nat,
    {
        match self {
            ScalarExpression::Binary { left_expr, right_expr, op, ty } => {
                proof {
                    lemma_settled_size(**left_expr, **right_expr, *op);
                }
                if let Err(error) = Self::fix_expr(fix_option, left_expr, right_expr, op) {
                    return Err(error);
                }
                // `(c1 - 1) and (c1 + 2)` cannot be settled.
                if let Err(error) = Self::fix_expr(fix_option, right_expr, left_expr, op) {
                    return Err(error);
                }
                if op.is_arithmetic() {
                    match (left_expr.unpack_col(true), right_expr.unpack_col(true)) {
                        (Some(column), None) => {
                            *fix_option = Some(
                                Replace::Binary(
                                    ReplaceBinary {
                                        column_expr: ScalarExpression::ColumnRef(column),
                                        val_expr: right_expr.duplicate(),
                                        op: *op,
                                        ty: *ty,
                                        is_column_left: true,
                                    },
                                ),
                            );
                        },
                        (None, Some(column)) => {
                            *fix_option = Some(
                                Replace::Binary(
                                    ReplaceBinary {
                                        column_expr: ScalarExpression::ColumnRef(column),
                                        val_expr: left_expr.duplicate(),
                                        op: *op,
                                        ty: *ty,
                                        is_column_left: false,
                                    },
                                ),
                            );
                        },
                        _ => {},
                    }
                }
                Ok(())
            },
            ScalarExpression::Alias { expr, .. } => expr._simplify(fix_option),
            ScalarExpression::TypeCast { expr, ty } => {
                let ty = *ty;
                if let Some(value) = expr.unpack_val() {
                    match value.cast(ty) {
                        Ok(cast) => {
                            *self = ScalarExpression::Constant(Arc::new(cast));
                        },
                        Err(error) => {
                            return Err(error);
                        },
                    }
                }
                Ok(())
            },
            ScalarExpression::IsNull { expr, negated } => {
                let negated = *negated;
                if let Some(value) = expr.unpack_val() {
                    *self = ScalarExpression::Constant(Arc::new(DataValue::Boolean(Some(value.is_null() != negated))));
                }
                Ok(())
            },
            ScalarExpression::Unary { expr, op, ty } => {
                if let Some(value) = expr.unpack_val() {
                    match unary_op(&value, op) {
                        Ok(result) => {
                            *self = ScalarExpression::Constant(Arc::new(result));
                        },
                        Err(error) => {
                            return Err(error);
                        },
                    }
                } else {
                    *fix_option = Some(
                        Replace::Unary(ReplaceUnary { child_expr: expr.duplicate(), op: *op, ty: *ty }),
                    );
                }
                Ok(())
            },
            _ => Ok(()),
        }
    }

    /// Simplifies `left_expr` and moves what it hands upward to `right_expr`,
    /// see [`settled`].
    fn fix_expr(
        fix_option: &mut Option<Replace>,
        left_expr: &mut Box<ScalarExpression>,
        right_expr: &mut Box<ScalarExpression>,
        op: &mut BinaryOperator,
    ) -> (r: Result<(), TypeError>)
        requires
            *old(fix_option) is None,
        ensures
            match settled(**old(left_expr), **old(right_expr), *old(op)) {
                Ok((left, right, moved)) => r is Ok && **final(left_expr) == left && **final(right_expr) == right
                    && *final(op) == moved && *final(fix_option) is None,
                Err(error) => r == Err::<(), TypeError>(error),
            },
        decreases old(left_expr).size() + old(right_expr).size(), old(left_expr).size(),
    {
        proof {
            lemma_size_positive(**right_expr);
            lemma_simplified_size(**left_expr);
        }
        if let Err(error) = left_expr._simplify(fix_option) {
            return Err(error);
        }
        if let Some(replace) = fix_option.take() {
            match replace {
                Replace::Binary(binary) => Self::fix_binary(binary, left_expr, right_expr, op),
                Replace::Unary(unary) => {
                    Self::fix_unary(unary, left_expr, right_expr, op);
                    return Self::fix_expr(fix_option, left_expr, right_expr, op);
                },
            }
        }
        Ok(())
    }

    /// Moves a prefix operator from the first side of an infix operator to
    /// its other side, see [`fix_unary_spec`].
    pub fn fix_unary(
        replace_unary: ReplaceUnary,
        col_expr: &mut Box<ScalarExpression>,
        val_expr: &mut Box<ScalarExpression>,
        op: &mut BinaryOperator,
    )
        ensures
            (**final(col_expr), **final(val_expr), *final(op)) == fix_unary_spec(
                replace_unary,
                **old(val_expr),
                *old(op),
            ),
    {
        let ReplaceUnary { child_expr, op: fix_op, ty: fix_ty } = replace_unary;
        *col_expr = Box::new(child_expr);
        let value = val_expr.duplicate();
        *val_expr = Box::new(ScalarExpression::Unary { op: fix_op, expr: Box::new(value), ty: fix_ty });
        *op = match fix_op {
            UnaryOperator::Plus => *op,
            UnaryOperator::Minus => op.inverse().mirror(),
            UnaryOperator::Not => op.mirror(),
        };
    }

    /// Moves an arithmetic operator from the first side of an infix operator
    /// to its other side, see [`fix_binary_spec`].
    pub fn fix_binary(
        replace_binary: ReplaceBinary,
        left_expr: &mut Box<ScalarExpression>,
        right_expr: &mut Box<ScalarExpression>,
        op: &mut BinaryOperator,
    )
        ensures
            (**final(left_expr), **final(right_expr), *final(op)) == fix_binary_spec(
                replace_binary,
                **old(right_expr),
                *old(op),
            ),
    {
        let ReplaceBinary { column_expr, val_expr, op: fix_op, ty: fix_ty, is_column_left } = replace_binary;
        let right = right_expr.duplicate();
        let (fixed_op, fixed_left_expr, fixed_right_expr) = if is_column_left {
            (fix_op.inverse(), Box::new(right), Box::new(val_expr))
        } else {
            if matches!(fix_op, BinaryOperator::Minus | BinaryOperator::Multiply) {
                *op = op.mirror();
            }
            (fix_op, Box::new(val_expr), Box::new(right))
        };
        *left_expr = Box::new(column_expr);
        *right_expr = Box::new(
            ScalarExpression::Binary {
                op: fixed_op,
                left_expr: fixed_left_expr,
                right_expr: fixed_right_expr,
                ty: fix_ty,
            },
        );
    }
}

/// The range that a comparison of the column `col` with the value `val`
/// stands for when ranges over the column `col_id` are asked for.
///
/// Another column, or one without an identifier, gives none. `is_flip` says
/// that the column stood on the right, so that `<` and `>`, `<=` and `>=`
/// change places first. Then `>` and `>=` give a scope from `val` on, `<` and
/// `<=` a scope up to `val`, `=` and `<=>` the value, `<>` all but the value;
/// any other operator gives none.
pub open spec fn new_binary_spec(
    col_id: ColumnId,
    op: BinaryOperator,
    col: ColumnRef,
    val: ValueRef,
    is_flip: bool,
) -> Option<Range> {
    if col.id != Some(col_id) {
        None
    } else {
        match (if is_flip {
            op.spec_mirror()
        } else {
            op
        }) {
            BinaryOperator::Gt => Some(Range::Scope { min: Bound::Excluded(val), max: Bound::Unbounded }),
            BinaryOperator::Lt => Some(Range::Scope { min: Bound::Unbounded, max: Bound::Excluded(val) }),
            BinaryOperator::GtEq => Some(Range::Scope { min: Bound::Included(val), max: Bound::Unbounded }),
            BinaryOperator::LtEq => Some(Range::Scope { min: Bound::Unbounded, max: Bound::Included(val) }),
            BinaryOperator::Eq => Some(Range::Eq(val)),
            BinaryOperator::Spaceship => Some(Range::Eq(val)),
            BinaryOperator::NotEq => Some(Range::NotEq(val)),
            _ => None,
        }
    }
}

/// The range of an infix operator whose two sides both gave a range.
///
/// Two `And`s and two `Or`s alike give the `And` of all their parts. An `And`
/// and an `Or` give the `Or` of all their parts, those of the `Or` first. An
/// `And` or an `Or` beside a leaf takes the leaf in. Two leaves give an `And`
/// of the two under `AND`, an `Or` of the two under `OR`, no range under any
/// other operator; `XOR` is not supported.
pub open spec fn combined(left: Range, right: Range, op: BinaryOperator) -> Result<Option<Range>, TypeError> {
    match (left, right) {
        (Range::And(l), Range::And(r)) => Ok(Some(Range::And(l + r))),
        (Range::Or(l), Range::Or(r)) => Ok(Some(Range::And(l + r))),
        (Range::And(l), Range::Or(r)) => Ok(Some(Range::Or(r + l))),
        (Range::Or(l), Range::And(r)) => Ok(Some(Range::Or(l + r))),
        (Range::And(parts), other) => Ok(Some(Range::And(parts.push(other)))),
        (other, Range::And(parts)) => Ok(Some(Range::And(parts.push(other)))),
        (Range::Or(parts), other) => Ok(Some(Range::Or(parts.push(other)))),
        (other, Range::Or(parts)) => Ok(Some(Range::Or(parts.push(other)))),
        _ => match op {
            BinaryOperator::And => Ok(Some(Range::And(seq![left, right]))),
            BinaryOperator::Or => Ok(Some(Range::Or(seq![left, right]))),
            BinaryOperator::Xor => Err(TypeError::NotImplemented),
            _ => Ok(None),
        },
    }
}

/// The range over the column `col_id` that a predicate stands for, if it
/// stands for one, and the predicate as the lowering leaves it.
///
/// An infix operator lowers both sides. Two ranges are [`combined`]; one
/// range is the result. Where neither side gave a range, the operator is a
/// leaf if one side has a column (see [`column_of`], not strict) and the
/// other side folds: the right side is folded first, and the left side only
/// if the column is not on the left; the leaf's range is
/// [`new_binary_spec`]. An alias, a cast, a null test and a prefix operator
/// give what their operand gives. Nothing else gives a range.
pub open spec fn converted(e: ScalarExpression, col_id: ColumnId) -> Result<
    (Option<Range>, ScalarExpression),
    TypeError,
>
    decreases e,
{
    match e {
        ScalarExpression::Binary { op, left_expr, right_expr, ty } => match converted(*left_expr, col_id) {
            Err(error) => Err(error),
            Ok((left_range, left)) => match converted(*right_expr, col_id) {
                Err(error) => Err(error),
                Ok((right_range, right)) => match (left_range, right_range) {
                    (Some(l), Some(r)) => match combined(l, r, op) {
                        Ok(range) => Ok(
                            (
                                range,
                                ScalarExpression::Binary {
                                    op,
                                    left_expr: Box::new(left),
                                    right_expr: Box::new(right),
                                    ty,
                                },
                            ),
                        ),
                        Err(error) => Err(error),
                    },
                    (None, None) => {
                        let (right_value, right) = folded(right);
                        let left_column = column_of(left, false);
                        if left_column is Some && right_value is Some {
                            Ok(
                                (
                                    new_binary_spec(col_id, op, left_column->0, right_value->0, false),
                                    ScalarExpression::Binary {
                                        op,
                                        left_expr: Box::new(left),
                                        right_expr: Box::new(right),
                                        ty,
                                    },
                                ),
                            )
                        } else {
                            let (left_value, left) = folded(left);
                            let right_column = column_of(right, false);
                            Ok(
                                (
                                    if left_value is Some && right_column is Some {
                                        new_binary_spec(col_id, op, right_column->0, left_value->0, true)
                                    } else {
                                        None
                                    },
                                    ScalarExpression::Binary {
                                        op,
                                        left_expr: Box::new(left),
                                        right_expr: Box::new(right),
                                        ty,
                                    },
                                ),
                            )
                        }
                    },
                    (Some(range), None) => Ok(
                        (
                            Some(range),
                            ScalarExpression::Binary { op, left_expr: Box::new(left), right_expr: Box::new(right), ty },
                        ),
                    ),
                    (None, Some(range)) => Ok(
                        (
                            Some(range),
                            ScalarExpression::Binary { op, left_expr: Box::new(left), right_expr: Box::new(right), ty },
                        ),
                    ),
                },
            },
        },
        ScalarExpression::Alias { expr, alias } => match converted(*expr, col_id) {
            Ok((range, inner)) => Ok((range, ScalarExpression::Alias { expr: Box::new(inner), alias })),
            Err(error) => Err(error),
        },
        ScalarExpression::TypeCast { expr, ty } => match converted(*expr, col_id) {
            Ok((range, inner)) => Ok((range, ScalarExpression::TypeCast { expr: Box::new(inner), ty })),
            Err(error) => Err(error),
        },
        ScalarExpression::IsNull { expr, negated } => match converted(*expr, col_id) {
            Ok((range, inner)) => Ok((range, ScalarExpression::IsNull { expr: Box::new(inner), negated })),
            Err(error) => Err(error),
        },
        ScalarExpression::Unary { op, expr, ty } => match converted(*expr, col_id) {
            Ok((range, inner)) => Ok((range, ScalarExpression::Unary { op, expr: Box::new(inner), ty })),
            Err(error) => Err(error),
        },
        _ => Ok((None, e)),
    }
}

/// The form of a range that may be missing.
pub open spec fn range_view(range: Option<ConstantBinary>) -> Option<Range> {
    match range {
        Some(c) => Some(c@),
        None => None,
    }
}

fn combine(left: ConstantBinary, right: ConstantBinary, op: BinaryOperator) -> (r: Result<
    Option<ConstantBinary>,
    TypeError,
>)
    ensures
        match combined(left@, right@, op) {
            Ok(range) => r is Ok && range_view(r->Ok_0) == range,
            Err(error) => r is Err && r->Err_0 == error,
        },
{
    proof {
        lemma_view_parts(left);
        lemma_view_parts(right);
    }
    let ghost l = left@;
    let ghost r = right@;
    match (left, right) {
        (ConstantBinary::And(mut left), ConstantBinary::And(mut right)) => {
            let ghost parts = views(left@) + views(right@);
            left.append(&mut right);
            let range = ConstantBinary::And(left);
            proof {
                lemma_view_parts(range);
                assert(views(left@) =~= parts);
            }
            Ok(Some(range))
        },
        (ConstantBinary::Or(mut left), ConstantBinary::Or(mut right)) => {
            let ghost parts = views(left@) + views(right@);
            left.append(&mut right);
            let range = ConstantBinary::And(left);
            proof {
                lemma_view_parts(range);
                assert(views(left@) =~= parts);
            }
            Ok(Some(range))
        },
        (ConstantBinary::And(mut left), ConstantBinary::Or(mut right)) => {
            let ghost parts = views(right@) + views(left@);
            right.append(&mut left);
            let range = ConstantBinary::Or(right);
            proof {
                lemma_view_parts(range);
                assert(views(right@) =~= parts);
            }
            Ok(Some(range))
        },
        (ConstantBinary::Or(mut left), ConstantBinary::And(mut right)) => {
            let ghost parts = views(left@) + views(right@);
            left.append(&mut right);
            let range = ConstantBinary::Or(left);
            proof {
                lemma_view_parts(range);
                assert(views(left@) =~= parts);
            }
            Ok(Some(range))
        },
        (ConstantBinary::And(mut binaries), binary) => {
            let ghost parts = views(binaries@).push(binary@);
            binaries.push(binary);
            let range = ConstantBinary::And(binaries);
            proof {
                lemma_view_parts(range);
                assert(views(binaries@) =~= parts);
            }
            Ok(Some(range))
        },
        (binary, ConstantBinary::And(mut binaries)) => {
            let ghost parts = views(binaries@).push(binary@);
            binaries.push(binary);
            let range = ConstantBinary::And(binaries);
            proof {
                lemma_view_parts(range);
                assert(views(binaries@) =~= parts);
            }
            Ok(Some(range))
        },
        (ConstantBinary::Or(mut binaries), binary) => {
            let ghost parts = views(binaries@).push(binary@);
            binaries.push(binary);
            let range = ConstantBinary::Or(binaries);
            proof {
                lemma_view_parts(range);
                assert(views(binaries@) =~= parts);
            }
            Ok(Some(range))
        },
        (binary, ConstantBinary::Or(mut binaries)) => {
            let ghost parts = views(binaries@).push(binary@);
            binaries.push(binary);
            let range = ConstantBinary::Or(binaries);
            proof {
                lemma_view_parts(range);
                assert(views(binaries@) =~= parts);
            }
            Ok(Some(range))
        },
        (left, right) => {
            let ghost parts = seq![left@, right@];
            match op {
                BinaryOperator::And => {
                    let mut binaries: Vec<ConstantBinary> = Vec::new();
                    binaries.push(left);
                    binaries.push(right);
                    let range = ConstantBinary::And(binaries);
                    proof {
                        lemma_view_parts(range);
                        assert(views(binaries@) =~= parts);
                    }
                    Ok(Some(range))
                },
                BinaryOperator::Or => {
                    let mut binaries: Vec<ConstantBinary> = Vec::new();
                    binaries.push(left);
                    binaries.push(right);
                    let range = ConstantBinary::Or(binaries);
                    proof {
                        lemma_view_parts(range);
                        assert(views(binaries@) =~= parts);
                    }
                    Ok(Some(range))
                },
                BinaryOperator::Xor => Err(TypeError::NotImplemented),
                _ => Ok(None),
            }
        },
    }
}

impl ScalarExpression {
    /// Lowers the predicate into a range over the column `col_id`, see
    /// [`converted`]. `Ok(None)` says that the predicate does not constrain
    /// the column. Constants are folded in place on the way.
    pub fn convert_binary(&mut self, col_id: &ColumnId) -> (r: Result<Option<ConstantBinary>, TypeError>)
        ensures
            match converted(*old(self), *col_id) {
                Ok((range, e)) => r is Ok && range_view(r->Ok_0) == range && *final(self) == e,
                Err(error) => r is Err && r->Err_0 == error,
            },
            r matches Ok(Some(range)) ==> range@.is_flat(),
        decreases *old(self),
    {
        proof {
            lemma_converted_flat(*old(self), *col_id);
        }
        match self {
            ScalarExpression::Binary { left_expr, right_expr, op, .. } => {
                let left = match left_expr.convert_binary(col_id) {
                    Ok(left) => left,
                    Err(error) => {
                        return Err(error);
                    },
                };
                let right = match right_expr.convert_binary(col_id) {
                    Ok(right) => right,
                    Err(error) => {
                        return Err(error);
                    },
                };
                match (left, right) {
                    (Some(left_binary), Some(right_binary)) => combine(left_binary, right_binary, *op),
                    (None, None) => {
                        let column = left_expr.unpack_col(false);
                        let value = right_expr.unpack_val();
                        if let (Some(col), Some(val)) = (column, value) {
                            return Ok(Self::new_binary(col_id, *op, col, val, false));
                        }
                        let value = left_expr.unpack_val();
                        let column = right_expr.unpack_col(false);
                        if let (Some(val), Some(col)) = (value, column) {
                            return Ok(Self::new_binary(col_id, *op, col, val, true));
                        }
                        Ok(None)
                    },
                    (Some(binary), None) => Ok(Some(binary)),
                    (None, Some(binary)) => Ok(Some(binary)),
                }
            },
            ScalarExpression::Alias { expr, .. } => expr.convert_binary(col_id),
            ScalarExpression::TypeCast { expr, .. } => expr.convert_binary(col_id),
            ScalarExpression::IsNull { expr, .. } => expr.convert_binary(col_id),
            ScalarExpression::Unary { expr, .. } => expr.convert_binary(col_id),
            _ => Ok(None),
        }
    }

    /// The range of one comparison of a column with a value, see
    /// [`new_binary_spec`].
    pub fn new_binary(col_id: &ColumnId, op: BinaryOperator, col: ColumnRef, val: ValueRef, is_flip: bool) -> (r:
        Option<ConstantBinary>)
        ensures
            range_view(r) == new_binary_spec(*col_id, op, col, val, is_flip),
    {
        match col.id {
            Some(id) => {
                if id != *col_id {
                    return None;
                }
            },
            None => {
                return None;
            },
        }
        let op = if is_flip {
            op.mirror()
        } else {
            op
        };
        match op {
            BinaryOperator::Gt => Some(ConstantBinary::Scope { min: Bound::Excluded(val), max: Bound::Unbounded }),
            BinaryOperator::Lt => Some(ConstantBinary::Scope { min: Bound::Unbounded, max: Bound::Excluded(val) }),
            BinaryOperator::GtEq => Some(ConstantBinary::Scope { min: Bound::Included(val), max: Bound::Unbounded }),
            BinaryOperator::LtEq => Some(ConstantBinary::Scope { min: Bound::Unbounded, max: Bound::Included(val) }),
            BinaryOperator::Eq | BinaryOperator::Spaceship => Some(ConstantBinary::Eq(val)),
            BinaryOperator::NotEq => Some(ConstantBinary::NotEq(val)),
            _ => None,
        }
    }
}

} // verus!
