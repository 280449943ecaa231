//! That simplification keeps the value of an expression on a row, where every
//! move it makes is one that keeps the value.
use super::evaluator::evaluated;
use super::meaning::{
    lemma_fix_binary_value, lemma_folded_value, lemma_moved_difference_value, lemma_moved_minus_value,
    lemma_moved_plus_value, quiet, silent, unmoved, unshadowed,
};
use super::simplify::{column_of, fix_binary_spec, fix_unary_spec, folded, lemma_settled_size, lemma_simplified_size, moved_unary, settled, simplified, Replace, ReplaceBinary, ReplaceUnary};
use super::value_compute::{binary_op_spec, unary_op_spec};
use super::{BinaryOperator, ScalarExpression, UnaryOperator};
use crate::catalog::ColumnRef;
use crate::types::errors::TypeError;
use crate::types::order::lemma_order_reversed;
use crate::types::tuple::Tuple;
use crate::types::value::{DataValue, ValueRef};
use crate::types::LogicalType;
use vstd::prelude::*;

verus! {

/// A comparison read from right to left has the same value.
pub proof fn lemma_mirrored_value(x: DataValue, y: DataValue, cmp: BinaryOperator)
    requires
        cmp.spec_is_comparison(),
    ensures
        binary_op_spec(y, x, cmp.spec_mirror()) == binary_op_spec(x, y, cmp),
{
    lemma_order_reversed(x, y);
}

/// Moving a prefix operator across a comparison keeps the value where the
/// operator succeeds on both sides: `-x` compared with `r` is `x` compared
/// the other way round with `-r`, likewise for `NOT`, and `+x` compared with
/// `r` is `x` compared with `+r`.
pub proof fn lemma_moved_prefix_value(x: DataValue, r: DataValue, sign: UnaryOperator, cmp: BinaryOperator)
    requires
        cmp.spec_is_comparison(),
        unary_op_spec(x, sign) is Ok,
        unary_op_spec(r, sign) is Ok,
    ensures
        binary_op_spec(unary_op_spec(x, sign)->Ok_0, r, cmp) == binary_op_spec(
            x,
            unary_op_spec(r, sign)->Ok_0,
            moved_unary(sign, cmp),
        ),
{
}

/// An infix operator over two sides, with the sides in the given order or,
/// where `swapped`, in the other.
pub open spec fn placed(
    op: BinaryOperator,
    first: ScalarExpression,
    second: ScalarExpression,
    swapped: bool,
    ty: LogicalType,
) -> ScalarExpression {
    if swapped {
        ScalarExpression::Binary { op, left_expr: Box::new(second), right_expr: Box::new(first), ty }
    } else {
        ScalarExpression::Binary { op, left_expr: Box::new(first), right_expr: Box::new(second), ty }
    }
}

/// A prefix operator over an operand as it stood before it was handed
/// upward.
pub open spec fn unmoved_unary(unary: ReplaceUnary) -> ScalarExpression {
    ScalarExpression::Unary { op: unary.op, expr: Box::new(unary.child_expr), ty: unary.ty }
}

/// Whether moving `binary` to the other side `right` of the operator `op`
/// keeps the value on the row: `op` is a comparison, what moves is an added
/// or subtracted constant or a constant from which the column is subtracted,
/// and both the side it is taken from and the side it is moved to evaluate
/// on the row, which they do where neither overflows.
pub open spec fn keeps_binary(binary: ReplaceBinary, right: ScalarExpression, op: BinaryOperator, tuple: Tuple) -> bool {
    &&& op.spec_is_comparison()
    &&& (binary.is_column_left && binary.op is Plus) || binary.op is Minus
    &&& evaluated(unmoved(binary), tuple) is Ok
    &&& evaluated(fix_binary_spec(binary, right, op).1, tuple) is Ok
}

/// Whether moving the prefix operator `unary` to the other side `right` of
/// the operator `op` keeps the value on the row: `op` is a comparison, and
/// both the side it is taken from and the side it is moved to evaluate on
/// the row.
pub open spec fn keeps_unary(unary: ReplaceUnary, right: ScalarExpression, op: BinaryOperator, tuple: Tuple) -> bool {
    &&& op.spec_is_comparison()
    &&& evaluated(unmoved_unary(unary), tuple) is Ok
    &&& evaluated(fix_unary_spec(unary, right, op).1, tuple) is Ok
}

/// Whether every move that a pass of simplification makes inside an
/// expression keeps the value on the row, see [`keeps_binary`] and
/// [`keeps_unary`]. An expression in which nothing moves is faithful on every
/// row.
///
/// The tests on sizes always hold (see [`lemma_simplified_size`]); they are
/// there because the definition must be seen to end.
pub open spec fn faithful(e: ScalarExpression, tuple: Tuple) -> bool
    decreases e.size(), 0nat,
{
    match e {
        ScalarExpression::Binary { op, left_expr, right_expr, .. } => {
            &&& faithful_settle(*left_expr, *right_expr, op, tuple)
            &&& match settled(*left_expr, *right_expr, op) {
                Ok((first, second, moved)) => first.size() + second.size() <= left_expr.size() + right_expr.size()
                    ==> faithful_settle(second, first, moved, tuple),
                Err(_) => true,
            }
        },
        ScalarExpression::Alias { expr, .. } => faithful(*expr, tuple),
        _ => true,
    }
}

/// Whether every move made while one side of an infix operator is settled
/// against the other keeps the value on the row.
pub open spec fn faithful_settle(
    left: ScalarExpression,
    right: ScalarExpression,
    op: BinaryOperator,
    tuple: Tuple,
) -> bool
    decreases left.size() + right.size(), left.size(),
{
    &&& faithful(left, tuple)
    &&& match simplified(left) {
        Ok((_, Some(Replace::Binary(binary)))) => keeps_binary(binary, right, op, tuple),
        Ok((_, Some(Replace::Unary(unary)))) => {
            let (child, value, moved) = fix_unary_spec(unary, right, op);
            &&& keeps_unary(unary, right, op, tuple)
            &&& child.size() < left.size() ==> faithful_settle(child, value, moved, tuple)
        },
        _ => true,
    }
}

/// Moving a sum or a difference to the other side of a comparison keeps the
/// value of the comparison on the row, whichever side of the comparison the
/// sum stood on.
pub proof fn lemma_fix_binary_keeps(
    binary: ReplaceBinary,
    right: ScalarExpression,
    op: BinaryOperator,
    swapped: bool,
    ty: LogicalType,
    tuple: Tuple,
)
    requires
        keeps_binary(binary, right, op, tuple),
    ensures
        evaluated(placed(op, unmoved(binary), right, swapped, ty), tuple) == evaluated(
            placed(
                fix_binary_spec(binary, right, op).2,
                fix_binary_spec(binary, right, op).0,
                fix_binary_spec(binary, right, op).1,
                swapped,
                ty,
            ),
            tuple,
        ),
{
    if !swapped {
        lemma_fix_binary_value(binary, right, op, ty, tuple);
    } else {
        let c = evaluated(binary.column_expr, tuple)->Ok_0;
        let k = evaluated(binary.val_expr, tuple)->Ok_0;
        let r = evaluated(right, tuple)->Ok_0;
        let back = op.spec_mirror();
        if binary.is_column_left {
            let undo = binary.op.spec_inverse();
            assert(binary_op_spec(*r, applied(c, k, binary.op), op) == binary_op_spec(
                applied(c, k, binary.op),
                *r,
                back,
            )) by {
                lemma_mirrored_value(applied(c, k, binary.op), *r, back);
            }
            assert(binary_op_spec(applied(c, k, binary.op), *r, back) == binary_op_spec(*c, applied(r, k, undo), back))
                by {
                if binary.op is Plus {
                    lemma_moved_plus_value(*c, *k, *r, back);
                } else {
                    lemma_moved_minus_value(*c, *k, *r, back);
                }
            }
            assert(binary_op_spec(*c, applied(r, k, undo), back) == binary_op_spec(applied(r, k, undo), *c, op)) by {
                lemma_mirrored_value(applied(r, k, undo), *c, op);
            }
        } else {
            let minus = BinaryOperator::Minus;
            assert(binary_op_spec(*r, applied(k, c, minus), op) == binary_op_spec(applied(k, c, minus), *r, back)) by {
                lemma_mirrored_value(applied(k, c, minus), *r, back);
            }
            assert(binary_op_spec(applied(k, c, minus), *r, back) == binary_op_spec(*c, applied(k, r, minus), op)) by {
                lemma_moved_difference_value(*c, *k, *r, back);
            }
            assert(binary_op_spec(*c, applied(k, r, minus), op) == binary_op_spec(applied(k, r, minus), *c, back)) by {
                lemma_mirrored_value(*c, applied(k, r, minus), op);
            }
        }
    }
}

/// The value of an infix operator on two values on which it succeeds.
pub open spec fn applied(x: ValueRef, y: ValueRef, op: BinaryOperator) -> DataValue {
    binary_op_spec(*x, *y, op)->Ok_0
}

/// The value of a prefix operator on a value on which it succeeds.
pub open spec fn signed(x: ValueRef, op: UnaryOperator) -> DataValue {
    unary_op_spec(*x, op)->Ok_0
}

/// Moving a prefix operator to the other side of a comparison keeps the
/// value of the comparison on the row, whichever side of the comparison the
/// operator stood on.
pub proof fn lemma_fix_unary_keeps(
    unary: ReplaceUnary,
    right: ScalarExpression,
    op: BinaryOperator,
    swapped: bool,
    ty: LogicalType,
    tuple: Tuple,
)
    requires
        keeps_unary(unary, right, op, tuple),
    ensures
        evaluated(placed(op, unmoved_unary(unary), right, swapped, ty), tuple) == evaluated(
            placed(
                fix_unary_spec(unary, right, op).2,
                fix_unary_spec(unary, right, op).0,
                fix_unary_spec(unary, right, op).1,
                swapped,
                ty,
            ),
            tuple,
        ),
{
    let x = evaluated(unary.child_expr, tuple)->Ok_0;
    let r = evaluated(right, tuple)->Ok_0;
    let moved = moved_unary(unary.op, op);
    if !swapped {
        assert(binary_op_spec(signed(x, unary.op), *r, op) == binary_op_spec(*x, signed(r, unary.op), moved)) by {
            lemma_moved_prefix_value(*x, *r, unary.op, op);
        }
    } else {
        let back = op.spec_mirror();
        assert(binary_op_spec(*r, signed(x, unary.op), op) == binary_op_spec(signed(x, unary.op), *r, back)) by {
            lemma_mirrored_value(signed(x, unary.op), *r, back);
        }
        assert(binary_op_spec(signed(x, unary.op), *r, back) == binary_op_spec(
            *x,
            signed(r, unary.op),
            moved.spec_mirror(),
        )) by {
            lemma_moved_prefix_value(*x, *r, unary.op, back);
        }
        assert(binary_op_spec(*x, signed(r, unary.op), moved.spec_mirror()) == binary_op_spec(
            signed(r, unary.op),
            *x,
            moved,
        )) by {
            lemma_mirrored_value(signed(r, unary.op), *x, moved);
        }
    }
}

/// Folding adds no alias that the row could stand in for.
pub proof fn lemma_folded_unshadowed(e: ScalarExpression, tuple: Tuple)
    requires
        unshadowed(e, tuple),
    ensures
        unshadowed(folded(e).1, tuple),
    decreases e,
{
    match e {
        ScalarExpression::Alias { expr, .. } => lemma_folded_unshadowed(*expr, tuple),
        ScalarExpression::TypeCast { expr, .. } => lemma_folded_unshadowed(*expr, tuple),
        ScalarExpression::IsNull { expr, .. } => lemma_folded_unshadowed(*expr, tuple),
        ScalarExpression::Unary { expr, .. } => lemma_folded_unshadowed(*expr, tuple),
        ScalarExpression::Binary { left_expr, right_expr, .. } => {
            lemma_folded_unshadowed(*left_expr, tuple);
            lemma_folded_unshadowed(*right_expr, tuple);
        },
        _ => {},
    }
}

/// A simplified expression that hands nothing upward and is a column, alone
/// or under aliases and prefix operators, has the value of that column.
pub proof fn lemma_strict_column(e: ScalarExpression, tuple: Tuple)
    requires
        unshadowed(e, tuple),
        simplified(e) matches Ok((simple, None)) && column_of(simple, true) is Some,
    ensures
        evaluated(simplified(e)->Ok_0.0, tuple) == evaluated(
            ScalarExpression::ColumnRef(column_of(simplified(e)->Ok_0.0, true)->0),
            tuple,
        ),
    decreases e,
{
    match e {
        ScalarExpression::Alias { expr, .. } => lemma_strict_column(*expr, tuple),
        _ => {},
    }
}

/// What a pass of simplification keeps, see [`lemma_simplified_keeps`].
#[verifier::opaque]
pub open spec fn kept(e: ScalarExpression, tuple: Tuple) -> bool {
    match simplified(e) {
        Ok((simple, fix)) => {
            &&& evaluated(simple, tuple) == evaluated(e, tuple)
            &&& unshadowed(simple, tuple)
            &&& match fix {
                Some(Replace::Binary(binary)) => {
                    &&& evaluated(unmoved(binary), tuple) == evaluated(e, tuple)
                    &&& unshadowed(binary.val_expr, tuple)
                    &&& unshadowed(binary.column_expr, tuple)
                },
                Some(Replace::Unary(unary)) => {
                    &&& evaluated(unmoved_unary(unary), tuple) == evaluated(e, tuple)
                    &&& unshadowed(unary.child_expr, tuple)
                },
                None => true,
            }
        },
        Err(_) => evaluated(e, tuple) is Err,
    }
}

/// What settling one side of an infix operator against the other keeps, see
/// [`lemma_settled_keeps`].
#[verifier::opaque]
pub open spec fn kept_settle(
    left: ScalarExpression,
    right: ScalarExpression,
    op: BinaryOperator,
    swapped: bool,
    ty: LogicalType,
    tuple: Tuple,
) -> bool {
    match settled(left, right, op) {
        Ok((first, second, moved)) => {
            &&& unshadowed(first, tuple)
            &&& unshadowed(second, tuple)
            &&& evaluated(placed(moved, first, second, swapped, ty), tuple) == evaluated(
                placed(op, left, right, swapped, ty),
                tuple,
            )
            &&& moved.spec_is_arithmetic() ==> simplified(left) == Ok::<_, TypeError>((first, None::<Replace>))
                && second == right && moved == op
        },
        Err(_) => evaluated(left, tuple) is Err,
    }
}

/// An infix operator over sides of the same values has the same value.
proof fn lemma_placed_same(
    op: BinaryOperator,
    first: ScalarExpression,
    second: ScalarExpression,
    other_first: ScalarExpression,
    other_second: ScalarExpression,
    swapped: bool,
    ty: LogicalType,
    tuple: Tuple,
)
    requires
        evaluated(first, tuple) == evaluated(other_first, tuple),
        evaluated(second, tuple) == evaluated(other_second, tuple),
    ensures
        evaluated(placed(op, first, second, swapped, ty), tuple) == evaluated(
            placed(op, other_first, other_second, swapped, ty),
            tuple,
        ),
{
}

/// An infix operator whose first side fails fails.
proof fn lemma_placed_fails(
    op: BinaryOperator,
    first: ScalarExpression,
    second: ScalarExpression,
    swapped: bool,
    ty: LogicalType,
    tuple: Tuple,
)
    requires
        evaluated(first, tuple) is Err,
    ensures
        evaluated(placed(op, first, second, swapped, ty), tuple) is Err,
{
}

/// Settling keeps the value where the first side hands nothing upward.
proof fn lemma_settle_none(
    left: ScalarExpression,
    right: ScalarExpression,
    op: BinaryOperator,
    swapped: bool,
    ty: LogicalType,
    tuple: Tuple,
)
    requires
        kept(left, tuple),
        unshadowed(right, tuple),
        !(simplified(left) matches Ok((_, Some(_)))),
    ensures
        kept_settle(left, right, op, swapped, ty, tuple),
{
    reveal(kept);
    reveal(kept_settle);
    if let Ok((simple, _)) = simplified(left) {
        lemma_placed_same(op, simple, right, left, right, swapped, ty, tuple);
    }
}

/// Settling keeps the value where the first side hands a sum upward that
/// keeps the value when it moves.
proof fn lemma_settle_binary(
    left: ScalarExpression,
    right: ScalarExpression,
    op: BinaryOperator,
    swapped: bool,
    ty: LogicalType,
    tuple: Tuple,
)
    requires
        kept(left, tuple),
        unshadowed(right, tuple),
        simplified(left) matches Ok((_, Some(Replace::Binary(binary)))) && keeps_binary(binary, right, op, tuple),
    ensures
        kept_settle(left, right, op, swapped, ty, tuple),
{
    reveal(kept);
    reveal(kept_settle);
    let binary = simplified(left)->Ok_0.1->0->Binary_0;
    lemma_fix_binary_keeps(binary, right, op, swapped, ty, tuple);
    lemma_placed_same(op, left, right, unmoved(binary), right, swapped, ty, tuple);
}

/// Settling keeps the value where the first side hands a prefix operator
/// upward that keeps the value when it moves, and settling what is left
/// keeps the value.
proof fn lemma_settle_unary(
    left: ScalarExpression,
    right: ScalarExpression,
    op: BinaryOperator,
    swapped: bool,
    ty: LogicalType,
    tuple: Tuple,
)
    requires
        kept(left, tuple),
        unshadowed(right, tuple),
        simplified(left) matches Ok((_, Some(Replace::Unary(unary)))) && keeps_unary(unary, right, op, tuple)
            && unary.child_expr.size() < left.size() && kept_settle(
            fix_unary_spec(unary, right, op).0,
            fix_unary_spec(unary, right, op).1,
            fix_unary_spec(unary, right, op).2,
            swapped,
            ty,
            tuple,
        ),
    ensures
        kept_settle(left, right, op, swapped, ty, tuple),
{
    reveal(kept);
    reveal(kept_settle);
    let unary = simplified(left)->Ok_0.1->0->Unary_0;
    lemma_fix_unary_keeps(unary, right, op, swapped, ty, tuple);
    lemma_placed_same(op, left, right, unmoved_unary(unary), right, swapped, ty, tuple);
}

/// What is handed to the other side with a prefix operator stays free of
/// shadowed aliases.
proof fn lemma_unary_unshadowed(left: ScalarExpression, right: ScalarExpression, op: BinaryOperator, tuple: Tuple)
    requires
        kept(left, tuple),
        unshadowed(right, tuple),
        simplified(left) matches Ok((_, Some(Replace::Unary(_)))),
    ensures
        unshadowed(fix_unary_spec(simplified(left)->Ok_0.1->0->Unary_0, right, op).0, tuple),
        unshadowed(fix_unary_spec(simplified(left)->Ok_0.1->0->Unary_0, right, op).1, tuple),
{
    reveal(kept);
}

/// An infix operator keeps its value where settling its left side against
/// its right and then its right side against its left both keep it.
proof fn lemma_binary_kept(e: ScalarExpression, tuple: Tuple)
    requires
        e is Binary,
        unshadowed(e, tuple),
        kept_settle(*e->Binary_left_expr, *e->Binary_right_expr, e->Binary_op, false, e->Binary_ty, tuple),
        settled(*e->Binary_left_expr, *e->Binary_right_expr, e->Binary_op) matches Ok((first, second, moved))
            ==> kept_settle(second, first, moved, true, e->Binary_ty, tuple),
    ensures
        kept(e, tuple),
{
    reveal(kept);
    reveal(kept_settle);
    let left_expr = *e->Binary_left_expr;
    let right_expr = *e->Binary_right_expr;
    let op = e->Binary_op;
    let ty = e->Binary_ty;
    lemma_settled_size(left_expr, right_expr, op);
    match settled(left_expr, right_expr, op) {
        Ok((first, second, moved)) => {
            match settled(second, first, moved) {
                Ok((right, left, last)) => {
                    if last.spec_is_arithmetic() {
                        if column_of(left, true) is Some && column_of(right, true) is None {
                            lemma_strict_column(left_expr, tuple);
                        }
                        if column_of(right, true) is Some && column_of(left, true) is None {
                            lemma_strict_column(right_expr, tuple);
                        }
                    }
                },
                Err(_) => {
                    lemma_placed_fails(moved, second, first, true, ty, tuple);
                },
            }
        },
        Err(_) => {
            lemma_placed_fails(op, left_expr, right_expr, false, ty, tuple);
        },
    }
}

/// A cast, a null test or a prefix operator keeps its value.
proof fn lemma_folding_kept(e: ScalarExpression, tuple: Tuple)
    requires
        e is TypeCast || e is IsNull || e is Unary,
        unshadowed(e, tuple),
    ensures
        kept(e, tuple),
{
    reveal(kept);
    match e {
        ScalarExpression::TypeCast { expr, .. } => {
            lemma_folded_value(*expr, tuple);
            lemma_folded_unshadowed(*expr, tuple);
        },
        ScalarExpression::IsNull { expr, .. } => {
            lemma_folded_value(*expr, tuple);
            lemma_folded_unshadowed(*expr, tuple);
        },
        ScalarExpression::Unary { expr, .. } => {
            lemma_folded_value(*expr, tuple);
            lemma_folded_unshadowed(*expr, tuple);
        },
        _ => {},
    }
}

/// A pass over a faithful expression keeps its value on the row, and what
/// the expression hands upward has its value.
pub proof fn lemma_simplified_keeps(e: ScalarExpression, tuple: Tuple)
    requires
        faithful(e, tuple),
        unshadowed(e, tuple),
    ensures
        kept(e, tuple),
    decreases e.size(), 0nat,
{
    match e {
        ScalarExpression::Binary { op, left_expr, right_expr, ty } => {
            lemma_settled_size(*left_expr, *right_expr, op);
            lemma_settled_keeps(*left_expr, *right_expr, op, false, ty, tuple);
            if let Ok((first, second, moved)) = settled(*left_expr, *right_expr, op) {
                assert(unshadowed(first, tuple) && unshadowed(second, tuple)) by {
                    reveal(kept_settle);
                }
                lemma_settled_keeps(second, first, moved, true, ty, tuple);
            }
            lemma_binary_kept(e, tuple);
        },
        ScalarExpression::Alias { expr, .. } => {
            lemma_simplified_keeps(*expr, tuple);
            reveal(kept);
        },
        ScalarExpression::TypeCast { .. } => lemma_folding_kept(e, tuple),
        ScalarExpression::IsNull { .. } => lemma_folding_kept(e, tuple),
        ScalarExpression::Unary { .. } => lemma_folding_kept(e, tuple),
        _ => {
            reveal(kept);
        },
    }
}

/// Settling one side of an infix operator against the other keeps the value
/// of the operator on the row, where every move made keeps it.
pub proof fn lemma_settled_keeps(
    left: ScalarExpression,
    right: ScalarExpression,
    op: BinaryOperator,
    swapped: bool,
    ty: LogicalType,
    tuple: Tuple,
)
    requires
        faithful_settle(left, right, op, tuple),
        unshadowed(left, tuple),
        unshadowed(right, tuple),
    ensures
        kept_settle(left, right, op, swapped, ty, tuple),
    decreases left.size() + right.size(), left.size(),
{
    lemma_simplified_size(left);
    lemma_simplified_keeps(left, tuple);
    match simplified(left) {
        Ok((_, Some(Replace::Binary(binary)))) => {
            lemma_settle_binary(left, right, op, swapped, ty, tuple);
        },
        Ok((_, Some(Replace::Unary(unary)))) => {
            let (child, value, moved) = fix_unary_spec(unary, right, op);
            lemma_unary_unshadowed(left, right, op, tuple);
            lemma_settled_keeps(child, value, moved, swapped, ty, tuple);
            lemma_settle_unary(left, right, op, swapped, ty, tuple);
        },
        _ => {
            lemma_settle_none(left, right, op, swapped, ty, tuple);
        },
    }
}

/// Simplification keeps the value: on every row on which an expression is
/// faithful and which no alias of the expression names, the simplified
/// expression evaluates to what the expression evaluates to, be it a value
/// or an error; and where simplification fails, so does the evaluation of
/// the expression.
pub proof fn lemma_simplified_value(e: ScalarExpression, tuple: Tuple)
    requires
        faithful(e, tuple),
        unshadowed(e, tuple),
    ensures
        match simplified(e) {
            Ok((simple, _)) => evaluated(simple, tuple) == evaluated(e, tuple),
            Err(_) => evaluated(e, tuple) is Err,
        },
{
    lemma_simplified_keeps(e, tuple);
    reveal(kept);
}

/// An expression in which simplification moves nothing is faithful on every
/// row.
pub proof fn lemma_quiet_faithful(e: ScalarExpression, tuple: Tuple)
    requires
        quiet(e),
    ensures
        faithful(e, tuple),
    decreases e,
{
    match e {
        ScalarExpression::Binary { op, left_expr, right_expr, .. } => {
            lemma_quiet_faithful(*left_expr, tuple);
            lemma_quiet_faithful(*right_expr, tuple);
            assert(silent(*left_expr) && silent(*right_expr));
            assert(faithful_settle(*left_expr, *right_expr, op, tuple));
            if let Ok((first, second, moved)) = settled(*left_expr, *right_expr, op) {
                assert(second == *right_expr);
                assert(faithful_settle(second, first, moved, tuple));
            }
        },
        ScalarExpression::Alias { expr, .. } => lemma_quiet_faithful(*expr, tuple),
        _ => {},
    }
}

} // verus!
