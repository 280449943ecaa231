//! What folding keeps, and that moving a sum across a comparison keeps the
//! value of the comparison.
use super::evaluator::{evaluated, named_value};
use super::simplify::{column_of, fix_binary_spec, folded, published, settled, simplified, Replace, ReplaceBinary};
use super::value_compute::binary_op_spec;
use super::{BinaryOperator, ScalarExpression};
use crate::types::errors::TypeError;
use crate::catalog::ColumnRef;
use crate::types::tuple::Tuple;
use crate::types::value::{DataValue, ValueRef};
use crate::types::LogicalType;
use vstd::prelude::*;

verus! {

/// Whether an expression hands nothing to the operator above it.
pub open spec fn silent(e: ScalarExpression) -> bool {
    simplified(e) matches Ok((_, fix)) ==> fix is None
}

/// Whether simplification moves nothing inside an expression: no infix
/// operator of it, alone or under aliases, has a side that hands it
/// something. Such an expression is only folded.
pub open spec fn quiet(e: ScalarExpression) -> bool
    decreases e,
{
    match e {
        ScalarExpression::Binary { left_expr, right_expr, .. } => quiet(*left_expr) && quiet(*right_expr) && silent(
            *left_expr,
        ) && silent(*right_expr),
        ScalarExpression::Alias { expr, .. } => quiet(*expr),
        _ => true,
    }
}

/// Whether no alias of an expression is the name of a column of the row, so
/// that the row does not stand in for what an alias names.
pub open spec fn unshadowed(e: ScalarExpression, tuple: Tuple) -> bool
    decreases e,
{
    match e {
        ScalarExpression::Alias { expr, alias } => named_value(tuple, alias@) is None && unshadowed(*expr, tuple),
        ScalarExpression::TypeCast { expr, .. } => unshadowed(*expr, tuple),
        ScalarExpression::IsNull { expr, .. } => unshadowed(*expr, tuple),
        ScalarExpression::Unary { expr, .. } => unshadowed(*expr, tuple),
        ScalarExpression::Binary { left_expr, right_expr, .. } => unshadowed(*left_expr, tuple) && unshadowed(
            *right_expr,
            tuple,
        ),
        _ => true,
    }
}

/// Folding a folded expression changes nothing and gives the same value.
pub proof fn lemma_folded_twice(e: ScalarExpression)
    ensures
        folded(folded(e).1) == folded(e),
    decreases e,
{
    match e {
        ScalarExpression::Alias { expr, .. } => lemma_folded_twice(*expr),
        ScalarExpression::TypeCast { expr, .. } => lemma_folded_twice(*expr),
        ScalarExpression::IsNull { expr, .. } => lemma_folded_twice(*expr),
        ScalarExpression::Unary { expr, .. } => lemma_folded_twice(*expr),
        ScalarExpression::Binary { left_expr, right_expr, .. } => {
            lemma_folded_twice(*left_expr);
            lemma_folded_twice(*right_expr);
        },
        _ => {},
    }
}

/// The value that an expression folds to is its value on every row, and the
/// folded expression has the value of the expression on every row.
pub proof fn lemma_folded_value(e: ScalarExpression, tuple: Tuple)
    requires
        unshadowed(e, tuple),
    ensures
        folded(e).0 matches Some(value) ==> evaluated(e, tuple) == Ok::<ValueRef, TypeError>(value),
        evaluated(folded(e).1, tuple) == evaluated(e, tuple),
    decreases e,
{
    match e {
        ScalarExpression::Alias { expr, .. } => lemma_folded_value(*expr, tuple),
        ScalarExpression::TypeCast { expr, .. } => lemma_folded_value(*expr, tuple),
        ScalarExpression::IsNull { expr, .. } => lemma_folded_value(*expr, tuple),
        ScalarExpression::Unary { expr, .. } => lemma_folded_value(*expr, tuple),
        ScalarExpression::Binary { left_expr, right_expr, .. } => {
            lemma_folded_value(*left_expr, tuple);
            lemma_folded_value(*right_expr, tuple);
        },
        _ => {},
    }
}

/// Moving an added constant across a comparison keeps the value where no
/// number overflows: for a column value `c`, a constant `k` and the other
/// side `r`, `c + k` compared with `r` is `c` compared with `r - k`.
pub proof fn lemma_moved_plus_value(c: DataValue, k: DataValue, r: DataValue, cmp: BinaryOperator)
    requires
        cmp.spec_is_comparison(),
        binary_op_spec(c, k, BinaryOperator::Plus) is Ok,
        binary_op_spec(r, k, BinaryOperator::Minus) is Ok,
    ensures
        binary_op_spec(binary_op_spec(c, k, BinaryOperator::Plus)->Ok_0, r, cmp) == binary_op_spec(
            c,
            binary_op_spec(r, k, BinaryOperator::Minus)->Ok_0,
            cmp,
        ),
{
}

/// Moving a subtracted constant across a comparison keeps the value where no
/// number overflows: `c - k` compared with `r` is `c` compared with `r + k`.
pub proof fn lemma_moved_minus_value(c: DataValue, k: DataValue, r: DataValue, cmp: BinaryOperator)
    requires
        cmp.spec_is_comparison(),
        binary_op_spec(c, k, BinaryOperator::Minus) is Ok,
        binary_op_spec(r, k, BinaryOperator::Plus) is Ok,
    ensures
        binary_op_spec(binary_op_spec(c, k, BinaryOperator::Minus)->Ok_0, r, cmp) == binary_op_spec(
            c,
            binary_op_spec(r, k, BinaryOperator::Plus)->Ok_0,
            cmp,
        ),
{
}

/// Moving a difference whose column is subtracted across a comparison keeps
/// its value where no number overflows: `k - c` compared with `r` is `c`
/// compared the other way round with `k - r`.
pub proof fn lemma_moved_difference_value(c: DataValue, k: DataValue, r: DataValue, cmp: BinaryOperator)
    requires
        cmp.spec_is_comparison(),
        binary_op_spec(k, c, BinaryOperator::Minus) is Ok,
        binary_op_spec(k, r, BinaryOperator::Minus) is Ok,
    ensures
        binary_op_spec(binary_op_spec(k, c, BinaryOperator::Minus)->Ok_0, r, cmp) == binary_op_spec(
            c,
            binary_op_spec(k, r, BinaryOperator::Minus)->Ok_0,
            cmp.spec_mirror(),
        ),
{
}

/// The side of a comparison that an arithmetic operator over a column was
/// before it was handed upward.
pub open spec fn unmoved(binary: ReplaceBinary) -> ScalarExpression {
    if binary.is_column_left {
        ScalarExpression::Binary {
            op: binary.op,
            left_expr: Box::new(binary.column_expr),
            right_expr: Box::new(binary.val_expr),
            ty: binary.ty,
        }
    } else {
        ScalarExpression::Binary {
            op: binary.op,
            left_expr: Box::new(binary.val_expr),
            right_expr: Box::new(binary.column_expr),
            ty: binary.ty,
        }
    }
}

/// Moving a sum or a difference to the other side of a comparison keeps the
/// value of the comparison on a row, where both the side it is taken from
/// and the side it is moved to evaluate without error. This holds for a
/// column with a constant added or subtracted and for a column subtracted
/// from a constant.
pub proof fn lemma_fix_binary_value(
    binary: ReplaceBinary,
    right: ScalarExpression,
    cmp: BinaryOperator,
    ty: LogicalType,
    tuple: Tuple,
)
    requires
        cmp.spec_is_comparison(),
        (binary.is_column_left && binary.op is Plus) || binary.op is Minus,
        evaluated(unmoved(binary), tuple) is Ok,
        evaluated(fix_binary_spec(binary, right, cmp).1, tuple) is Ok,
    ensures
        evaluated(
            ScalarExpression::Binary { op: cmp, left_expr: Box::new(unmoved(binary)), right_expr: Box::new(right), ty },
            tuple,
        ) == evaluated(
            ScalarExpression::Binary {
                op: fix_binary_spec(binary, right, cmp).2,
                left_expr: Box::new(fix_binary_spec(binary, right, cmp).0),
                right_expr: Box::new(fix_binary_spec(binary, right, cmp).1),
                ty,
            },
            tuple,
        ),
{
    let c = evaluated(binary.column_expr, tuple)->Ok_0;
    let k = evaluated(binary.val_expr, tuple)->Ok_0;
    let r = evaluated(right, tuple)->Ok_0;
    if binary.is_column_left {
        if binary.op is Plus {
            assert(binary_op_spec(binary_op_spec(*c, *k, BinaryOperator::Plus)->Ok_0, *r, cmp) == binary_op_spec(
                *c,
                binary_op_spec(*r, *k, BinaryOperator::Minus)->Ok_0,
                cmp,
            )) by {
                lemma_moved_plus_value(*c, *k, *r, cmp);
            }
        } else {
            assert(binary_op_spec(binary_op_spec(*c, *k, BinaryOperator::Minus)->Ok_0, *r, cmp) == binary_op_spec(
                *c,
                binary_op_spec(*r, *k, BinaryOperator::Plus)->Ok_0,
                cmp,
            )) by {
                lemma_moved_minus_value(*c, *k, *r, cmp);
            }
        }
    } else {
        assert(binary_op_spec(binary_op_spec(*k, *c, BinaryOperator::Minus)->Ok_0, *r, cmp) == binary_op_spec(
            *c,
            binary_op_spec(*k, *r, BinaryOperator::Minus)->Ok_0,
            cmp.spec_mirror(),
        )) by {
            lemma_moved_difference_value(*c, *k, *r, cmp);
        }
    }
}

/// `left op right` for two constants.
pub open spec fn constant_sum(left: ValueRef, right: ValueRef, op: BinaryOperator, ty: LogicalType) -> ScalarExpression {
    ScalarExpression::Binary {
        op,
        left_expr: Box::new(ScalarExpression::Constant(left)),
        right_expr: Box::new(ScalarExpression::Constant(right)),
        ty,
    }
}

/// `column op k` for a column and a constant.
pub open spec fn column_sum(column: ColumnRef, k: ValueRef, op: BinaryOperator, ty: LogicalType) -> ScalarExpression {
    ScalarExpression::Binary {
        op,
        left_expr: Box::new(ScalarExpression::ColumnRef(column)),
        right_expr: Box::new(ScalarExpression::Constant(k)),
        ty,
    }
}

/// `left cmp right` as a predicate.
pub open spec fn comparison(left: ScalarExpression, right: ScalarExpression, cmp: BinaryOperator) -> ScalarExpression {
    ScalarExpression::Binary {
        op: cmp,
        left_expr: Box::new(left),
        right_expr: Box::new(right),
        ty: LogicalType::Boolean,
    }
}

/// What a comparison of a column under an arithmetic operator with a
/// constant is simplified to: `column op k cmp r` becomes `column cmp r op' k`
/// with the operator `op'` that undoes `op`.
pub proof fn lemma_sum_comparison_simplified(
    column: ColumnRef,
    k: ValueRef,
    r: ValueRef,
    op: BinaryOperator,
    cmp: BinaryOperator,
    ty: LogicalType,
)
    requires
        op.spec_is_arithmetic(),
    ensures
        simplified(comparison(column_sum(column, k, op, ty), ScalarExpression::Constant(r), cmp)) matches Ok(
            (simple, _),
        ) && simple == comparison(
            ScalarExpression::ColumnRef(column),
            constant_sum(r, k, op.spec_inverse(), ty),
            cmp,
        ),
{
    let col = ScalarExpression::ColumnRef(column);
    let kc = ScalarExpression::Constant(k);
    let rc = ScalarExpression::Constant(r);
    let sum = column_sum(column, k, op, ty);
    assert(simplified(col) == Ok::<_, TypeError>((col, None::<Replace>)));
    assert(simplified(kc) == Ok::<_, TypeError>((kc, None::<Replace>)));
    assert(simplified(rc) == Ok::<_, TypeError>((rc, None::<Replace>)));
    assert(settled(col, kc, op) == Ok::<_, TypeError>((col, kc, op)));
    assert(settled(kc, col, op) == Ok::<_, TypeError>((kc, col, op)));
    assert(column_of(col, true) == Some(column));
    assert(column_of(kc, true) is None);
    let fix = ReplaceBinary { column_expr: col, val_expr: kc, op, ty, is_column_left: true };
    assert(published(col, kc, op, ty) == Some(Replace::Binary(fix)));
    assert(simplified(sum) == Ok::<_, TypeError>((sum, Some(Replace::Binary(fix)))));
    let moved = constant_sum(r, k, op.spec_inverse(), ty);
    assert(settled(sum, rc, cmp) == Ok::<_, TypeError>((col, moved, cmp)));
    assert(settled(rc, kc, op.spec_inverse()) == Ok::<_, TypeError>((rc, kc, op.spec_inverse())));
    assert(settled(kc, rc, op.spec_inverse()) == Ok::<_, TypeError>((kc, rc, op.spec_inverse())));
    assert(column_of(rc, true) is None);
    assert(simplified(moved) == Ok::<_, TypeError>((moved, None::<Replace>)));
    assert(settled(moved, col, cmp) == Ok::<_, TypeError>((moved, col, cmp)));
}

/// Simplification keeps the value of a comparison of a column plus or minus
/// a constant with a constant, on every row on which both the sum on the one
/// side and the sum that takes its place on the other side evaluate without
/// error, which they do where neither overflows.
pub proof fn lemma_sum_comparison_value(
    column: ColumnRef,
    k: ValueRef,
    r: ValueRef,
    op: BinaryOperator,
    cmp: BinaryOperator,
    ty: LogicalType,
    tuple: Tuple,
)
    requires
        op is Plus || op is Minus,
        cmp.spec_is_comparison(),
        evaluated(column_sum(column, k, op, ty), tuple) is Ok,
        evaluated(constant_sum(r, k, op.spec_inverse(), ty), tuple) is Ok,
    ensures
        simplified(comparison(column_sum(column, k, op, ty), ScalarExpression::Constant(r), cmp)) matches Ok(
            (simple, _),
        ) && evaluated(simple, tuple) == evaluated(
            comparison(column_sum(column, k, op, ty), ScalarExpression::Constant(r), cmp),
            tuple,
        ),
{
    lemma_sum_comparison_simplified(column, k, r, op, cmp, ty);
    let fix = ReplaceBinary {
        column_expr: ScalarExpression::ColumnRef(column),
        val_expr: ScalarExpression::Constant(k),
        op,
        ty,
        is_column_left: true,
    };
    lemma_fix_binary_value(fix, ScalarExpression::Constant(r), cmp, LogicalType::Boolean, tuple);
}

} // verus!
