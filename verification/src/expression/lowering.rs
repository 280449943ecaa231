//! That the range of a conjunction of comparisons admits the value of the
//! column on every row of which the conjunction is true.
use super::cover::{admits, admits_all, lemma_admits_all, lemma_admits_any, lemma_comparison_range, lemma_narrowed_sound};
use super::evaluator::{evaluated, named_or_null};
use super::normal_form::{ascending, distinct, lemma_aggregated_normal_form};
use super::range::{as_eqs, flattened, narrowed, narrowed_each, rearranged, Range};
use super::simplify::{column_of, combined, converted, folded, new_binary_spec};
use super::value_compute::binary_op_spec;
use super::{BinaryOperator, ScalarExpression};
use crate::types::errors::TypeError;
use crate::types::tuple::Tuple;
use crate::types::value::{DataValue, ValueRef};
use crate::types::ColumnId;
use std::sync::Arc;
use vstd::prelude::*;

verus! {

/// Two flat ranges combine to a flat range.
pub proof fn lemma_combined_flat(left: Range, right: Range, op: BinaryOperator)
    requires
        left.is_flat(),
        right.is_flat(),
    ensures
        combined(left, right, op) matches Ok(Some(range)) ==> range.is_flat(),
{
}

/// The range that a predicate is lowered to is flat: a leaf, or an `And` or
/// an `Or` of leaves.
pub proof fn lemma_converted_flat(e: ScalarExpression, col_id: ColumnId)
    ensures
        converted(e, col_id) matches Ok((Some(range), _)) ==> range.is_flat(),
    decreases e,
{
    match e {
        ScalarExpression::Binary { op, left_expr, right_expr, .. } => {
            lemma_converted_flat(*left_expr, col_id);
            lemma_converted_flat(*right_expr, col_id);
            if let Ok((Some(l), _)) = converted(*left_expr, col_id) {
                if let Ok((Some(r), _)) = converted(*right_expr, col_id) {
                    lemma_combined_flat(l, r, op);
                }
            }
        },
        ScalarExpression::Alias { expr, .. } => lemma_converted_flat(*expr, col_id),
        ScalarExpression::TypeCast { expr, .. } => lemma_converted_flat(*expr, col_id),
        ScalarExpression::IsNull { expr, .. } => lemma_converted_flat(*expr, col_id),
        ScalarExpression::Unary { expr, .. } => lemma_converted_flat(*expr, col_id),
        _ => {},
    }
}

/// A flat range is narrowed without refusal, and stays flat.
pub proof fn lemma_flat_narrowed(range: Range)
    requires
        range.is_flat(),
    ensures
        narrowed(range) matches Ok(narrow) && narrow.is_flat(),
{
    match range {
        Range::And(parts) => {
            lemma_aggregated_normal_form(parts);
            let narrow = narrowed(range)->Ok_0->And_0;
            if narrow.len() > 1 || (narrow.len() == 1 && !(narrow[0] is Scope)) {
                let vs = choose|vs: Seq<ValueRef>|
                    #[trigger] as_eqs(vs) == narrow && distinct(vs) && ascending(vs);
                assert forall|i: int| 0 <= i < narrow.len() implies (#[trigger] narrow[i]).is_leaf() by {
                    assert(narrow[i] == Range::Eq(vs[i]));
                }
            }
        },
        Range::Or(parts) => {
            lemma_leaves_narrowed(parts);
        },
        _ => {},
    }
}

/// A flat range is rearranged without refusal.
pub proof fn lemma_flat_rearranged(range: Range)
    requires
        range.is_flat(),
    ensures
        rearranged(range) is Ok,
{
    if let Range::Or(parts) = range {
        lemma_leaves_flattened(parts);
    }
}

/// Leaves are laid out flat without refusal.
pub proof fn lemma_leaves_flattened(parts: Seq<Range>)
    requires
        forall|i: int| 0 <= i < parts.len() ==> (#[trigger] parts[i]).is_leaf(),
    ensures
        flattened(parts) is Ok,
    decreases parts.len(),
{
    if parts.len() > 0 {
        let rest = parts.drop_last();
        assert forall|i: int| 0 <= i < rest.len() implies (#[trigger] rest[i]).is_leaf() by {
            assert(rest[i] == parts[i]);
        }
        lemma_leaves_flattened(rest);
        assert(parts[parts.len() - 1].is_leaf());
    }
}

/// Leaves are narrowed to themselves.
pub proof fn lemma_leaves_narrowed(parts: Seq<Range>)
    requires
        forall|i: int| 0 <= i < parts.len() ==> (#[trigger] parts[i]).is_leaf(),
    ensures
        narrowed_each(parts) == Ok::<Seq<Range>, TypeError>(parts),
    decreases parts.len(),
{
    if parts.len() > 0 {
        let rest = parts.drop_last();
        assert forall|i: int| 0 <= i < rest.len() implies (#[trigger] rest[i]).is_leaf() by {
            assert(rest[i] == parts[i]);
        }
        lemma_leaves_narrowed(rest);
        assert(parts[parts.len() - 1].is_leaf());
        assert(narrowed(parts.last()) == Ok::<Range, TypeError>(parts.last()));
        assert(rest.push(parts.last()) =~= parts);
    } else {
        assert(parts =~= Seq::<Range>::empty());
    }
}

/// A comparison of a column with a constant, whichever side the column is
/// on, or an `AND` of two such predicates.
pub open spec fn conjunctive(e: ScalarExpression) -> bool
    decreases e,
{
    match e {
        ScalarExpression::Binary { op, left_expr, right_expr, .. } => if op is And {
            conjunctive(*left_expr) && conjunctive(*right_expr)
        } else {
            &&& op.spec_is_comparison() || op is Spaceship
            &&& (*left_expr is ColumnRef && *right_expr is Constant) || (*left_expr is Constant && *right_expr
                is ColumnRef)
        },
        _ => false,
    }
}

/// Whether the row holds `v` under every reference that a conjunction makes
/// to the column `col_id`.
pub open spec fn reads(e: ScalarExpression, col_id: ColumnId, tuple: Tuple, v: ValueRef) -> bool
    decreases e,
{
    match e {
        ScalarExpression::ColumnRef(column) => column.id == Some(col_id) ==> named_or_null(tuple, column.name@) == v,
        ScalarExpression::Binary { left_expr, right_expr, .. } => reads(*left_expr, col_id, tuple, v) && reads(
            *right_expr,
            col_id,
            tuple,
            v,
        ),
        _ => true,
    }
}

/// The value that a predicate has where it holds.
pub open spec fn truth() -> ValueRef {
    Arc::new(DataValue::Boolean(Some(true)))
}

/// What all ranges of one sequence and all of another admit, all ranges of
/// the two put together admit.
pub proof fn lemma_admits_all_joined(xs: Seq<Range>, ys: Seq<Range>, v: ValueRef)
    requires
        admits_all(xs, v),
        admits_all(ys, v),
    ensures
        admits_all(xs + ys, v),
{
    lemma_admits_all(xs, v);
    lemma_admits_all(ys, v);
    lemma_admits_all(xs + ys, v);
}

/// A conjunction of comparisons with a column does not fold, and lowering
/// leaves it as it is.
pub proof fn lemma_conjunctive_stays(e: ScalarExpression, col_id: ColumnId)
    requires
        conjunctive(e),
    ensures
        folded(e) == (None::<ValueRef>, e),
        converted(e, col_id) matches Ok((_, after)) ==> after == e,
    decreases e,
{
    match e {
        ScalarExpression::Binary { op, left_expr, right_expr, ty } => {
            if op is And {
                lemma_conjunctive_stays(*left_expr, col_id);
                lemma_conjunctive_stays(*right_expr, col_id);
            } else {
                reveal_with_fuel(folded, 2);
                reveal_with_fuel(converted, 2);
            }
        },
        _ => {},
    }
}

/// The range of a comparison of a column with a constant is a leaf, and it
/// admits the value of the column on every row of which the comparison is
/// true.
proof fn lemma_comparison_sound(e: ScalarExpression, col_id: ColumnId, tuple: Tuple, v: ValueRef)
    requires
        conjunctive(e),
        !(e->Binary_op is And),
        reads(e, col_id, tuple, v),
        evaluated(e, tuple) == Ok::<ValueRef, TypeError>(truth()),
    ensures
        converted(e, col_id) matches Ok((range, _)) && (range matches Some(r) ==> r.is_leaf() && admits(r, v)),
{
    reveal_with_fuel(folded, 2);
    reveal_with_fuel(converted, 2);
    reveal_with_fuel(evaluated, 2);
    reveal_with_fuel(column_of, 2);
    reveal_with_fuel(reads, 2);
    let op = e->Binary_op;
    match (*e->Binary_left_expr, *e->Binary_right_expr) {
        (ScalarExpression::ColumnRef(column), ScalarExpression::Constant(k)) => {
            assert(converted(e, col_id)->Ok_0.0 == new_binary_spec(col_id, op, column, k, false));
            if new_binary_spec(col_id, op, column, k, false) is Some {
                lemma_comparison_range(col_id, op, column, k, false, v);
            }
        },
        (ScalarExpression::Constant(k), ScalarExpression::ColumnRef(column)) => {
            assert(converted(e, col_id)->Ok_0.0 == new_binary_spec(col_id, op, column, k, true));
            if new_binary_spec(col_id, op, column, k, true) is Some {
                lemma_comparison_range(col_id, op, column, k, true, v);
            }
        },
        _ => {},
    }
}

/// The range of two conjunctions joined by `AND` admits what the ranges of
/// both admit.
proof fn lemma_combined_sound(l: Range, r: Range, v: ValueRef)
    requires
        !(l is Or),
        !(r is Or),
        admits(l, v),
        admits(r, v),
    ensures
        combined(l, r, BinaryOperator::And) matches Ok(Some(both)) && both is And && admits(both, v),
{
    match (l, r) {
        (Range::And(a), Range::And(b)) => {
            lemma_admits_all_joined(a, b, v);
        },
        (Range::And(a), other) => {
            lemma_admits_all(a, v);
            lemma_admits_all(a.push(other), v);
        },
        (other, Range::And(a)) => {
            lemma_admits_all(a, v);
            lemma_admits_all(a.push(other), v);
        },
        _ => {
            lemma_admits_all(seq![l, r], v);
        },
    }
}

/// The range of a conjunction of comparisons is never an `Or`, and it admits
/// the value of the column on every row of which the conjunction is true.
pub proof fn lemma_converted_sound(e: ScalarExpression, col_id: ColumnId, tuple: Tuple, v: ValueRef)
    requires
        conjunctive(e),
        reads(e, col_id, tuple, v),
        evaluated(e, tuple) == Ok::<ValueRef, TypeError>(truth()),
    ensures
        converted(e, col_id) matches Ok((range, _)) && (range matches Some(r) ==> !(r is Or) && admits(r, v)),
    decreases e,
{
    match e {
        ScalarExpression::Binary { op, left_expr, right_expr, ty } => {
            if op is And {
                let left_value = evaluated(*left_expr, tuple)->Ok_0;
                let right_value = evaluated(*right_expr, tuple)->Ok_0;
                assert(binary_op_spec(*left_value, *right_value, op) == Ok::<DataValue, TypeError>(
                    DataValue::Boolean(Some(true)),
                ));
                assert(*left_value == DataValue::Boolean(Some(true)));
                assert(*right_value == DataValue::Boolean(Some(true)));
                lemma_converted_sound(*left_expr, col_id, tuple, v);
                lemma_converted_sound(*right_expr, col_id, tuple, v);
                lemma_conjunctive_stays(*left_expr, col_id);
                lemma_conjunctive_stays(*right_expr, col_id);
                let left_range = converted(*left_expr, col_id)->Ok_0.0;
                let right_range = converted(*right_expr, col_id)->Ok_0.0;
                match (left_range, right_range) {
                    (Some(l), Some(r)) => {
                        lemma_combined_sound(l, r, v);
                    },
                    _ => {},
                }
            } else {
                lemma_comparison_sound(e, col_id, tuple, v);
            }
        },
        _ => {},
    }
}

/// Lowering and narrowing lose no row: on every row of which a conjunction
/// of comparisons is true, the narrowed range of the conjunction admits the
/// value of the column.
pub proof fn lemma_lowered_sound(e: ScalarExpression, col_id: ColumnId, tuple: Tuple, v: ValueRef)
    requires
        conjunctive(e),
        reads(e, col_id, tuple, v),
        evaluated(e, tuple) == Ok::<ValueRef, TypeError>(truth()),
    ensures
        converted(e, col_id) matches Ok((Some(range), _)) ==> (narrowed(range) matches Ok(narrow) ==> admits(
            narrow,
            v,
        )),
{
    lemma_converted_sound(e, col_id, tuple, v);
    if let Ok((Some(range), _)) = converted(e, col_id) {
        lemma_narrowed_sound(range, v);
    }
}

/// A comparison of the column `col_id` with a constant, whichever side the
/// column is on.
pub open spec fn comparison_on(e: ScalarExpression, col_id: ColumnId) -> bool {
    &&& conjunctive(e)
    &&& !(e->Binary_op is And)
    &&& match (*e->Binary_left_expr, *e->Binary_right_expr) {
        (ScalarExpression::ColumnRef(column), _) => column.id == Some(col_id),
        (_, ScalarExpression::ColumnRef(column)) => column.id == Some(col_id),
        _ => false,
    }
}

/// A comparison of the column `col_id` with a constant, or a chain of such
/// comparisons joined by `OR`, each `OR` with a single comparison on one of
/// its sides.
pub open spec fn disjunctive(e: ScalarExpression, col_id: ColumnId) -> bool
    decreases e,
{
    ||| comparison_on(e, col_id)
    ||| e matches ScalarExpression::Binary { op, left_expr, right_expr, .. } && op is Or && ((disjunctive(
        *left_expr,
        col_id,
    ) && comparison_on(*right_expr, col_id)) || (comparison_on(*left_expr, col_id) && disjunctive(
        *right_expr,
        col_id,
    )))
}

/// A comparison of the column `col_id` evaluates to a boolean, and its range
/// is a leaf that admits the value of the column where the comparison is
/// true.
proof fn lemma_comparison_on(e: ScalarExpression, col_id: ColumnId, tuple: Tuple, v: ValueRef)
    requires
        comparison_on(e, col_id),
        reads(e, col_id, tuple, v),
    ensures
        converted(e, col_id) matches Ok((Some(range), _)) && range.is_leaf() && (evaluated(e, tuple) == Ok::<
            ValueRef,
            TypeError,
        >(truth()) ==> admits(range, v)),
        evaluated(e, tuple) matches Ok(value) ==> *value is Boolean,
{
    if evaluated(e, tuple) == Ok::<ValueRef, TypeError>(truth()) {
        lemma_comparison_sound(e, col_id, tuple, v);
    }
    reveal_with_fuel(folded, 2);
    reveal_with_fuel(converted, 2);
    reveal_with_fuel(column_of, 2);
}

/// The range of a chain of comparisons of one column joined by `OR` admits
/// the value of the column on every row of which the chain is true.
pub proof fn lemma_converted_or_sound(e: ScalarExpression, col_id: ColumnId, tuple: Tuple, v: ValueRef)
    requires
        disjunctive(e, col_id),
        reads(e, col_id, tuple, v),
    ensures
        converted(e, col_id) matches Ok((Some(range), _)) && (range.is_leaf() || (range matches Range::Or(parts)
            && parts.len() > 0)) && (evaluated(e, tuple) == Ok::<ValueRef, TypeError>(truth()) ==> admits(range, v)),
        evaluated(e, tuple) matches Ok(value) ==> *value is Boolean,
    decreases e,
{
    if comparison_on(e, col_id) {
        lemma_comparison_on(e, col_id, tuple, v);
    } else {
        let left = *e->Binary_left_expr;
        let right = *e->Binary_right_expr;
        if disjunctive(left, col_id) && comparison_on(right, col_id) {
            lemma_converted_or_sound(left, col_id, tuple, v);
            lemma_comparison_on(right, col_id, tuple, v);
        } else {
            lemma_comparison_on(left, col_id, tuple, v);
            lemma_converted_or_sound(right, col_id, tuple, v);
        }
        let l = converted(left, col_id)->Ok_0.0->0;
        let r = converted(right, col_id)->Ok_0.0->0;
        let both = combined(l, r, BinaryOperator::Or)->Ok_0->0;
        match (l, r) {
            (Range::Or(parts), other) => {
                lemma_admits_any(parts, v);
                lemma_admits_any(parts.push(other), v);
                if admits(l, v) {
                    let i = choose|i: int| 0 <= i < parts.len() && admits(#[trigger] parts[i], v);
                    assert(parts.push(other)[i] == parts[i]);
                }
                if admits(r, v) {
                    assert(parts.push(other)[parts.len() as int] == other);
                }
            },
            (other, Range::Or(parts)) => {
                lemma_admits_any(parts, v);
                lemma_admits_any(parts.push(other), v);
                if admits(r, v) {
                    let i = choose|i: int| 0 <= i < parts.len() && admits(#[trigger] parts[i], v);
                    assert(parts.push(other)[i] == parts[i]);
                }
                if admits(l, v) {
                    assert(parts.push(other)[parts.len() as int] == other);
                }
            },
            _ => {
                lemma_admits_any(seq![l, r], v);
                if admits(l, v) {
                    assert(seq![l, r][0] == l);
                }
                if admits(r, v) {
                    assert(seq![l, r][1] == r);
                }
            },
        }
    }
}

} // verus!
