//! That a second pass of simplification changes nothing, where what the
//! right side of an operator hands to its left side comes to rest there.
use super::meaning::{lemma_folded_twice, quiet, silent};
use super::simplify::{
    column_of, fix_binary_spec, fix_unary_spec, folded, lemma_settled_size, lemma_simplified_size, published, settled,
    simplified, Replace, ReplaceBinary, ReplaceUnary,
};
use crate::types::value::ValueRef;
use crate::types::LogicalType;
use super::{BinaryOperator, ScalarExpression};
use crate::types::errors::TypeError;
use vstd::prelude::*;

verus! {

/// Whether the right side of an infix operator, once the left side has
/// settled to `first` and the operator to `op`, hands nothing to the left
/// that a second pass would change. That is so where it hands nothing at
/// all; where it hands a sum to a left side that is no column, or, under an
/// operator that is not arithmetic, to a left side that is a bare column
/// reference; and where it hands a prefix operator over an operand at rest
/// to a left side that does not fold and that folding leaves as it is,
/// if that side is a column or the operator is not arithmetic.
pub open spec fn late_rest(first: ScalarExpression, second: ScalarExpression, op: BinaryOperator) -> bool {
    match simplified(second) {
        Ok((_, Some(Replace::Binary(_)))) => column_of(first, true) is None || (first is ColumnRef
            && !op.spec_is_arithmetic()),
        Ok((_, Some(Replace::Unary(unary)))) => at_rest(unary.child_expr) && unmoved_by_folding(first) && (
        column_of(first, true) is Some || !op.spec_is_arithmetic()),
        _ => true,
    }
}

/// Whether an expression does not fold and folding leaves it as it is.
pub open spec fn unmoved_by_folding(e: ScalarExpression) -> bool {
    folded(e) == (None::<ValueRef>, e)
}

/// Whether a pass of simplification leaves an expression steady: in every
/// infix operator that the pass visits, the right side is at rest once the
/// left side has settled (see [`late_rest`]).
///
/// The tests on sizes always hold (see [`lemma_simplified_size`]); they are
/// there because the definition must be seen to end.
pub open spec fn steady(e: ScalarExpression) -> bool
    decreases e.size(), 0nat,
{
    match e {
        ScalarExpression::Binary { op, left_expr, right_expr, .. } => {
            &&& steady_settle(*left_expr, *right_expr, op)
            &&& match settled(*left_expr, *right_expr, op) {
                Ok((first, second, moved)) => first.size() + second.size() <= left_expr.size() + right_expr.size()
                    ==> steady(second) && late_rest(first, second, moved),
                Err(_) => true,
            }
        },
        ScalarExpression::Alias { expr, .. } => steady(*expr),
        _ => true,
    }
}

/// Whether settling one side of an infix operator against the other visits
/// steady expressions only.
pub open spec fn steady_settle(left: ScalarExpression, right: ScalarExpression, op: BinaryOperator) -> bool
    decreases left.size() + right.size(), left.size(),
{
    &&& steady(left)
    &&& match simplified(left) {
        Ok((_, Some(Replace::Unary(unary)))) => {
            let (child, value, moved) = fix_unary_spec(unary, right, op);
            child.size() < left.size() ==> steady_settle(child, value, moved)
        },
        _ => true,
    }
}

/// Whether a pass leaves `e` as it is and hands nothing upward.
pub open spec fn at_rest(e: ScalarExpression) -> bool {
    simplified(e) == Ok::<_, TypeError>((e, None::<Replace>))
}

/// What holds of the result of a pass over a steady expression, see
/// [`lemma_steady_rests`].
#[verifier::opaque]
pub open spec fn rests(e: ScalarExpression) -> bool {
    match simplified(e) {
        Ok((simple, fix)) => {
            &&& simplified(simple) == Ok::<_, TypeError>((simple, fix))
            &&& fix matches Some(Replace::Binary(binary)) ==> binary.column_expr is ColumnRef && at_rest(
                binary.val_expr,
            ) && column_of(binary.val_expr, true) is None && binary.op.spec_is_arithmetic()
            &&& fix matches Some(Replace::Unary(unary)) ==> folded(unary.child_expr) == (
                None::<ValueRef>,
                unary.child_expr,
            )
        },
        Err(_) => true,
    }
}

/// An infix operator over two sides at rest is left as it is by a pass.
proof fn lemma_sides_at_rest(op: BinaryOperator, left: ScalarExpression, right: ScalarExpression, ty: LogicalType)
    requires
        at_rest(left),
        at_rest(right),
    ensures
        simplified(ScalarExpression::Binary { op, left_expr: Box::new(left), right_expr: Box::new(right), ty })
            == Ok::<_, TypeError>(
            (
                ScalarExpression::Binary { op, left_expr: Box::new(left), right_expr: Box::new(right), ty },
                published(left, right, op, ty),
            ),
        ),
{
    assert(settled(left, right, op) == Ok::<_, TypeError>((left, right, op)));
    assert(settled(right, left, op) == Ok::<_, TypeError>((right, left, op)));
}

/// What a sum handed upward holds, where it is published by an operator
/// whose sides are at rest.
proof fn lemma_published_rests(op: BinaryOperator, left: ScalarExpression, right: ScalarExpression, ty: LogicalType)
    requires
        at_rest(left),
        at_rest(right),
    ensures
        published(left, right, op, ty) matches Some(Replace::Binary(binary)) ==> binary.column_expr is ColumnRef
            && at_rest(binary.val_expr) && column_of(binary.val_expr, true) is None && binary.op.spec_is_arithmetic(),
        !(published(left, right, op, ty) matches Some(Replace::Unary(_))),
{
}

/// The result of a pass over an infix operator rests, where its left side
/// settles to a side at rest and its right side then rests as well.
proof fn lemma_binary_rests(e: ScalarExpression)
    requires
        e is Binary,
        settled(*e->Binary_left_expr, *e->Binary_right_expr, e->Binary_op) matches Ok((first, second, moved))
            ==> at_rest(first) && rests(second) && late_rest(first, second, moved),
    ensures
        rests(e),
{
    reveal(rests);
    let left_expr = *e->Binary_left_expr;
    let right_expr = *e->Binary_right_expr;
    let op = e->Binary_op;
    let ty = e->Binary_ty;
    lemma_settled_size(left_expr, right_expr, op);
    if let Ok((first, second, moved)) = settled(left_expr, right_expr, op) {
        match simplified(second) {
            Ok((right, None)) => {
                assert(at_rest(right));
                assert(settled(second, first, moved) == Ok::<_, TypeError>((right, first, moved)));
                lemma_sides_at_rest(moved, first, right, ty);
                lemma_published_rests(moved, first, right, ty);
            },
            Ok((_, Some(Replace::Binary(binary)))) => {
                let (column, sum, last) = fix_binary_spec(binary, first, moved);
                assert(settled(second, first, moved) == Ok::<_, TypeError>((column, sum, last)));
                assert(at_rest(column));
                if binary.is_column_left {
                    lemma_sides_at_rest(binary.op.spec_inverse(), first, binary.val_expr, binary.ty);
                } else {
                    lemma_sides_at_rest(binary.op, binary.val_expr, first, binary.ty);
                }
                if column_of(first, true) is None {
                    assert(at_rest(sum));
                    lemma_sides_at_rest(last, sum, column, ty);
                    lemma_published_rests(last, sum, column, ty);
                } else {
                    lemma_sum_returns(binary, first, moved, ty);
                }
            },
            Ok((_, Some(Replace::Unary(unary)))) => {
                let (child, signed, last) = fix_unary_spec(unary, first, moved);
                lemma_simplified_size(second);
                assert(settled(child, signed, last) == Ok::<_, TypeError>((child, signed, last)));
                assert(settled(second, first, moved) == Ok::<_, TypeError>((child, signed, last)));
                lemma_sign_returns(unary, first, moved, ty);
            },
            _ => {},
        }
    }
}

/// A sum that moved from a column on the right to a bare column on the left
/// under an operator that is not arithmetic moves to the right and back in
/// a second pass, which so leaves the operator as it is.
proof fn lemma_sum_returns(binary: ReplaceBinary, first: ScalarExpression, op: BinaryOperator, ty: LogicalType)
    requires
        first is ColumnRef,
        !op.spec_is_arithmetic(),
        binary.column_expr is ColumnRef,
        at_rest(binary.val_expr),
        column_of(binary.val_expr, true) is None,
        binary.op.spec_is_arithmetic(),
    ensures
        ({
            let (column, sum, last) = fix_binary_spec(binary, first, op);
            let whole = ScalarExpression::Binary { op: last, left_expr: Box::new(sum), right_expr: Box::new(column), ty };
            simplified(whole) == Ok::<_, TypeError>((whole, None::<Replace>))
        }),
{
    let (column, sum, last) = fix_binary_spec(binary, first, op);
    let k = binary.val_expr;
    assert(at_rest(first));
    assert(at_rest(column));
    if binary.is_column_left {
        let undo = binary.op.spec_inverse();
        lemma_sides_at_rest(undo, first, k, binary.ty);
        let handed = ReplaceBinary { column_expr: first, val_expr: k, op: undo, ty: binary.ty, is_column_left: true };
        assert(simplified(sum) == Ok::<_, TypeError>((sum, Some(Replace::Binary(handed)))));
        let (first_again, other, same_op) = fix_binary_spec(handed, column, last);
        assert(settled(sum, column, last) == Ok::<_, TypeError>((first_again, other, same_op)));
        lemma_sides_at_rest(binary.op, column, k, binary.ty);
        let back = ReplaceBinary { column_expr: column, val_expr: k, op: binary.op, ty: binary.ty, is_column_left: true };
        assert(simplified(other) == Ok::<_, TypeError>((other, Some(Replace::Binary(back)))));
        assert(settled(other, first_again, same_op) == Ok::<_, TypeError>(fix_binary_spec(back, first_again, same_op)));
    } else {
        lemma_sides_at_rest(binary.op, k, first, binary.ty);
        let handed = ReplaceBinary { column_expr: first, val_expr: k, op: binary.op, ty: binary.ty, is_column_left: false };
        assert(simplified(sum) == Ok::<_, TypeError>((sum, Some(Replace::Binary(handed)))));
        let (first_again, other, same_op) = fix_binary_spec(handed, column, last);
        assert(settled(sum, column, last) == Ok::<_, TypeError>((first_again, other, same_op)));
        lemma_sides_at_rest(binary.op, k, column, binary.ty);
        let back = ReplaceBinary { column_expr: column, val_expr: k, op: binary.op, ty: binary.ty, is_column_left: false };
        assert(simplified(other) == Ok::<_, TypeError>((other, Some(Replace::Binary(back)))));
        assert(settled(other, first_again, same_op) == Ok::<_, TypeError>(fix_binary_spec(back, first_again, same_op)));
    }
}

/// A prefix operator that moved from the right to a left side that does not
/// fold moves to the right and back in a second pass, which so leaves the
/// operator as it is.
proof fn lemma_sign_returns(unary: ReplaceUnary, first: ScalarExpression, op: BinaryOperator, ty: LogicalType)
    requires
        at_rest(first),
        unmoved_by_folding(first),
        column_of(first, true) is Some || !op.spec_is_arithmetic(),
        at_rest(unary.child_expr),
        folded(unary.child_expr) == (None::<ValueRef>, unary.child_expr),
    ensures
        ({
            let (child, signed, last) = fix_unary_spec(unary, first, op);
            let whole = ScalarExpression::Binary { op: last, left_expr: Box::new(signed), right_expr: Box::new(child), ty };
            &&& simplified(whole) == Ok::<_, TypeError>((whole, published(signed, child, last, ty)))
            &&& published(signed, child, last, ty) matches Some(Replace::Binary(binary)) ==> binary.column_expr
                is ColumnRef && at_rest(binary.val_expr) && column_of(binary.val_expr, true) is None
                && binary.op.spec_is_arithmetic()
            &&& !(published(signed, child, last, ty) matches Some(Replace::Unary(_)))
        }),
{
    let (child, signed, last) = fix_unary_spec(unary, first, op);
    let handed = ReplaceUnary { child_expr: first, op: unary.op, ty: unary.ty };
    assert(simplified(signed) == Ok::<_, TypeError>((signed, Some(Replace::Unary(handed)))));
    let (first_again, other, turned) = fix_unary_spec(handed, child, last);
    assert(settled(first_again, other, turned) == Ok::<_, TypeError>((first_again, other, turned)));
    assert(settled(signed, child, last) == Ok::<_, TypeError>((first_again, other, turned)));
    let back = ReplaceUnary { child_expr: child, op: unary.op, ty: unary.ty };
    assert(simplified(other) == Ok::<_, TypeError>((other, Some(Replace::Unary(back)))));
    let (child_again, signed_again, same_op) = fix_unary_spec(back, first_again, turned);
    assert(settled(child_again, signed_again, same_op) == Ok::<_, TypeError>((child_again, signed_again, same_op)));
    assert(settled(other, first_again, turned) == Ok::<_, TypeError>((child_again, signed_again, same_op)));
    assert(same_op == last);
    assert(signed_again == signed && child_again == child);
    assert(first_again.size() + other.size() <= signed.size() + child.size());
    let whole = ScalarExpression::Binary { op: last, left_expr: Box::new(signed), right_expr: Box::new(child), ty };
    assert(simplified(whole) == Ok::<_, TypeError>((whole, published(signed, child, last, ty))));
    assert(column_of(signed, true) == column_of(first, true));
    assert(last.spec_is_arithmetic() == op.spec_is_arithmetic());
}

/// The result of a pass over a cast, a null test or a prefix operator rests.
proof fn lemma_folding_rests(e: ScalarExpression)
    requires
        e is TypeCast || e is IsNull || e is Unary,
    ensures
        rests(e),
{
    reveal(rests);
    match e {
        ScalarExpression::TypeCast { expr, .. } => lemma_folded_twice(*expr),
        ScalarExpression::IsNull { expr, .. } => lemma_folded_twice(*expr),
        ScalarExpression::Unary { expr, .. } => lemma_folded_twice(*expr),
        _ => {},
    }
}

/// The result of a pass over a steady expression is left as it is by a
/// second pass, which hands upward what the first handed upward.
pub proof fn lemma_steady_rests(e: ScalarExpression)
    requires
        steady(e),
    ensures
        rests(e),
    decreases e.size(), 0nat,
{
    match e {
        ScalarExpression::Binary { op, left_expr, right_expr, ty } => {
            lemma_settled_size(*left_expr, *right_expr, op);
            lemma_settled_rests(*left_expr, *right_expr, op);
            if let Ok((first, second, moved)) = settled(*left_expr, *right_expr, op) {
                lemma_steady_rests(second);
            }
            lemma_binary_rests(e);
        },
        ScalarExpression::Alias { expr, .. } => {
            lemma_steady_rests(*expr);
            reveal(rests);
        },
        ScalarExpression::TypeCast { .. } => lemma_folding_rests(e),
        ScalarExpression::IsNull { .. } => lemma_folding_rests(e),
        ScalarExpression::Unary { .. } => lemma_folding_rests(e),
        _ => {
            reveal(rests);
        },
    }
}

/// What the left side of an infix operator settles to is at rest, where the
/// settling visits steady expressions only.
pub proof fn lemma_settled_rests(left: ScalarExpression, right: ScalarExpression, op: BinaryOperator)
    requires
        steady_settle(left, right, op),
    ensures
        settled(left, right, op) matches Ok((first, _, _)) ==> at_rest(first),
    decreases left.size() + right.size(), left.size(),
{
    lemma_simplified_size(left);
    lemma_steady_rests(left);
    reveal(rests);
    match simplified(left) {
        Ok((_, Some(Replace::Unary(unary)))) => {
            let (child, value, moved) = fix_unary_spec(unary, right, op);
            lemma_settled_rests(child, value, moved);
        },
        _ => {},
    }
}

/// A second pass changes nothing: the result of a pass over a steady
/// expression is left as it is by a second pass.
pub proof fn lemma_simplified_twice(e: ScalarExpression)
    requires
        steady(e),
    ensures
        simplified(e) matches Ok((simple, _)) ==> simplified(simple) == simplified(e),
{
    lemma_steady_rests(e);
    reveal(rests);
}

/// An expression in which simplification moves nothing is steady.
pub proof fn lemma_quiet_steady(e: ScalarExpression)
    requires
        quiet(e),
    ensures
        steady(e),
    decreases e,
{
    match e {
        ScalarExpression::Binary { op, left_expr, right_expr, .. } => {
            lemma_quiet_steady(*left_expr);
            lemma_quiet_steady(*right_expr);
            assert(silent(*left_expr) && silent(*right_expr));
            assert(steady_settle(*left_expr, *right_expr, op));
            if let Ok((first, second, moved)) = settled(*left_expr, *right_expr, op) {
                assert(second == *right_expr);
                assert(late_rest(first, second, moved));
            }
        },
        ScalarExpression::Alias { expr, .. } => lemma_quiet_steady(*expr),
        _ => {},
    }
}

} // verus!
